# desk_agent

A browser remote desktop for Linux (Wayland), in two parts.

`src/` is a library of the agent's decisions: the three gates in front of the desktop (Cloudflare
Access, password, one-time password), sessions and the lockout, the HTTP rules, the session of a
viewer, remote input, the monitor layout, the STUN client's messages, and how encoders and pipelines
are chosen and described. It works on plain values. The contract of a function says what it returns,
and Verus proves it. Where a result also rests on chance, on the clock, on the memory at hand or on
another crate, the contract says what holds whatever comes back, and a second function, which takes
that as an argument, says the rest. What is trusted of other crates stands in the functions marked
`external_body`. Public proof functions state what holds of the library as a whole.

`app/` is the program around it: sockets, files, devices, encoders and the desktop. It performs what
the library decides and reports back.

`tests/` runs the library on concrete values, together with the crates that it calls.

Moments are nanoseconds on a monotonic clock, durations nanoseconds, bitrates kbit/s.
