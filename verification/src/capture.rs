//! Screen capture and sound: which encoder is used, and how the pipelines are described.
//!
//! The encoder is chosen by probing, in order: NVIDIA NVENC, VA-API (AMD/Intel), then x264 in
//! software. All produce constrained-baseline H.264, which every browser decodes.

use crate::text::{decimal, decimal_text, join3};
use vstd::prelude::*;

verus! {

broadcast use vstd::string::group_string_axioms;

/// Lower bound of the bitrate that the adaptive controller may choose (kbit/s).
pub const MIN_BITRATE_KBPS: u32 = 2_000;

/// Upper bound of that bitrate.
pub const MAX_BITRATE_KBPS: u32 = 20_000;

/// The bitrate to start with.
pub const START_BITRATE_KBPS: u32 = 8_000;

/// Frames are produced on damage only; the last frame is sent again this often, so that an idle
/// desktop still answers keyframe requests.
pub const KEEPALIVE_MS: u32 = 100;

/// `encoder` setting.
#[derive(Clone, Copy, Debug, PartialEq, Eq, Structural)]
pub enum EncoderChoice {
    Auto,
    Nvenc,
    Vaapi,
    X264,
}

impl Default for EncoderChoice {
    /// Probing.
    fn default() -> (c: EncoderChoice)
        ensures
            c == EncoderChoice::Auto,
    {
        EncoderChoice::Auto
    }
}

/// A concrete encoder.
#[derive(Clone, Copy, Debug, PartialEq, Eq, Structural)]
pub enum Encoder {
    Nvenc,
    Vaapi,
    X264,
}

/// How the search for a working encoder stands.
pub enum Selection {
    /// This one is to be probed next.
    Probe(Encoder),
    /// This one works.
    Found(Encoder),
    /// None works; the text says why.
    Failed(String),
}

/// What the encoders have to put out.
pub open spec fn output_caps() -> Seq<char> {
    "video/x-h264,profile=constrained-baseline,stream-format=byte-stream,alignment=au"@
}

/// The bitrate nearest to `kbps` that is within the bounds.
pub open spec fn bounded(kbps: int) -> int {
    if kbps < MIN_BITRATE_KBPS {
        MIN_BITRATE_KBPS as int
    } else if kbps > MAX_BITRATE_KBPS {
        MAX_BITRATE_KBPS as int
    } else {
        kbps
    }
}

/// The bitrate nearest to `kbps` that is within the bounds.
pub fn bounded_bitrate(kbps: u32) -> (r: u32)
    ensures
        r == bounded(kbps as int),
{
    if kbps < MIN_BITRATE_KBPS {
        MIN_BITRATE_KBPS
    } else if kbps > MAX_BITRATE_KBPS {
        MAX_BITRATE_KBPS
    } else {
        kbps
    }
}

/// The encoders that a setting admits, in the order in which they are probed.
pub open spec fn admitted(choice: EncoderChoice) -> Seq<Encoder> {
    match choice {
        EncoderChoice::Auto => seq![Encoder::Nvenc, Encoder::Vaapi, Encoder::X264],
        EncoderChoice::Nvenc => seq![Encoder::Nvenc],
        EncoderChoice::Vaapi => seq![Encoder::Vaapi],
        EncoderChoice::X264 => seq![Encoder::X264],
    }
}

/// Why an encoder does not work.
pub open spec fn complaint(enc: Encoder, reason: Seq<char>) -> Seq<char> {
    enc.title() + ": "@ + reason
}

/// The complaints of the encoders that were probed, each on a line of its own.
pub open spec fn complaints(encs: Seq<Encoder>, reasons: Seq<Seq<char>>) -> Seq<char>
    decreases reasons.len(),
{
    if reasons.len() == 0 {
        Seq::empty()
    } else {
        let line = complaint(encs[reasons.len() - 1], reasons.last());
        if reasons.len() == 1 {
            line
        } else {
            complaints(encs, reasons.drop_last()) + "\n  "@ + line
        }
    }
}

/// The reasons of probes that all failed.
pub open spec fn reasons_of(probes: Seq<Result<(), String>>) -> Seq<Seq<char>> {
    probes.map_values(
        |p: Result<(), String>|
            match p {
                Ok(()) => Seq::empty(),
                Err(reason) => reason@,
            },
    )
}

/// Whether the first probe that succeeded is the `i`-th.
pub open spec fn first_success(probes: Seq<Result<(), String>>, i: int) -> bool {
    &&& 0 <= i < probes.len()
    &&& probes[i] is Ok
    &&& forall|j: int| 0 <= j < i ==> #[trigger] probes[j] is Err
}

/// Whether every probe failed.
pub open spec fn all_failed(probes: Seq<Result<(), String>>) -> bool {
    forall|j: int| 0 <= j < probes.len() ==> #[trigger] probes[j] is Err
}

impl Encoder {
    /// What the encoder is called.
    pub open spec fn title(self) -> Seq<char> {
        match self {
            Encoder::Nvenc => "NVIDIA NVENC (nvh264enc)"@,
            Encoder::Vaapi => "VA-API (vah264enc)"@,
            Encoder::X264 => "software x264 (x264enc)"@,
        }
    }

    /// What the encoder is called.
    pub fn name(self) -> (s: &'static str)
        ensures
            s@ == self.title(),
    {
        match self {
            Encoder::Nvenc => "NVIDIA NVENC (nvh264enc)",
            Encoder::Vaapi => "VA-API (vah264enc)",
            Encoder::X264 => "software x264 (x264enc)",
        }
    }

    /// The GStreamer element of the encoder.
    pub open spec fn factory(self) -> Seq<char> {
        match self {
            Encoder::Nvenc => "nvh264enc"@,
            Encoder::Vaapi => "vah264enc"@,
            Encoder::X264 => "x264enc"@,
        }
    }

    /// The GStreamer element of the encoder.
    pub fn element(self) -> (s: &'static str)
        ensures
            s@ == self.factory(),
    {
        match self {
            Encoder::Nvenc => "nvh264enc",
            Encoder::Vaapi => "vah264enc",
            Encoder::X264 => "x264enc",
        }
    }

    /// The part of a pipeline from raw BGRx video to the encoder (named `enc`).
    pub open spec fn stage(self, kbps: u32) -> Seq<char> {
        match self {
            Encoder::Nvenc =>
            "nvh264enc name=enc preset=p1 tune=ultra-low-latency rc-mode=cbr zerolatency=true bframes=0 gop-size=-1 bitrate="@
                + decimal(kbps as nat) + " aud=false"@,
            Encoder::Vaapi =>
            "videoconvert ! video/x-raw,format=NV12 ! vah264enc name=enc rate-control=cbr bitrate="@
                + decimal(kbps as nat) + " b-frames=0 target-usage=7"@,
            Encoder::X264 =>
            "videoconvert ! video/x-raw,format=I420 ! x264enc name=enc tune=zerolatency speed-preset=ultrafast bitrate="@
                + decimal(kbps as nat) + " bframes=0 key-int-max=600 sliced-threads=true"@,
        }
    }

    /// The part of a pipeline from raw BGRx video to the encoder (named `enc`). Low-latency
    /// settings: no B-frames, CBR, no lookahead; keyframes are forced on demand by the viewer.
    /// NVENC takes BGRx directly: no colour conversion at all.
    pub fn fragment(self, kbps: u32) -> (s: String)
        ensures
            s@ == self.stage(kbps),
    {
        let rate = decimal_text(kbps as u64);
        match self {
            Encoder::Nvenc => join3(
                "nvh264enc name=enc preset=p1 tune=ultra-low-latency rc-mode=cbr zerolatency=true bframes=0 gop-size=-1 bitrate=",
                &rate,
                " aud=false",
            ),
            Encoder::Vaapi => join3(
                "videoconvert ! video/x-raw,format=NV12 ! vah264enc name=enc rate-control=cbr bitrate=",
                &rate,
                " b-frames=0 target-usage=7",
            ),
            Encoder::X264 => join3(
                "videoconvert ! video/x-raw,format=I420 ! x264enc name=enc tune=zerolatency speed-preset=ultrafast bitrate=",
                &rate,
                " bframes=0 key-int-max=600 sliced-threads=true",
            ),
        }
    }

    /// The pipeline that encodes a few test frames, to see whether the encoder runs.
    pub fn probe_description(self) -> (s: String)
        ensures
            s@
                == "videotestsrc num-buffers=5 ! video/x-raw,format=BGRx,width=1280,height=720,framerate=30/1 ! "@
                + self.stage(START_BITRATE_KBPS) + " ! "@ + output_caps()
                + " ! h264parse ! fakesink"@,
    {
        let mut s = join3(
            "videotestsrc num-buffers=5 ! video/x-raw,format=BGRx,width=1280,height=720,framerate=30/1 ! ",
            &self.fragment(START_BITRATE_KBPS),
            " ! ",
        );
        s.append(
            "video/x-h264,profile=constrained-baseline,stream-format=byte-stream,alignment=au",
        );
        s.append(" ! h264parse ! fakesink");
        s
    }

    /// The pipeline from a PipeWire node to encoded frames. `fd` is the descriptor of the PipeWire
    /// connection.
    pub fn capture_description(self, fd: u32, node: u32) -> (s: String)
        ensures
            s@ == "pipewiresrc fd="@ + decimal(fd as nat) + " path="@ + decimal(node as nat)
                + " do-timestamp=true keepalive-time="@ + decimal(KEEPALIVE_MS as nat)
                + " ! video/x-raw,format=BGRx,max-framerate=60/1 ! queue max-size-buffers=1 leaky=downstream ! "@
                + self.stage(START_BITRATE_KBPS) + " ! "@ + output_caps()
                + " ! h264parse config-interval=-1 ! appsink name=sink sync=false max-buffers=1 drop=true emit-signals=false"@,
    {
        let mut s = join3("pipewiresrc fd=", &decimal_text(fd as u64), " path=");
        s.append(&decimal_text(node as u64));
        s.append(" do-timestamp=true keepalive-time=");
        s.append(&decimal_text(KEEPALIVE_MS as u64));
        s.append(
            " ! video/x-raw,format=BGRx,max-framerate=60/1 ! queue max-size-buffers=1 leaky=downstream ! ",
        );
        s.append(&self.fragment(START_BITRATE_KBPS));
        s.append(" ! ");
        s.append(
            "video/x-h264,profile=constrained-baseline,stream-format=byte-stream,alignment=au",
        );
        s.append(
            " ! h264parse config-interval=-1 ! appsink name=sink sync=false max-buffers=1 drop=true emit-signals=false",
        );
        s
    }

    /// Resolves a setting to a working encoder, given what came of the probes so far: the first of
    /// the admitted encoders that works.
    pub fn select(choice: EncoderChoice, probes: &Vec<Result<(), String>>) -> (s: Selection)
        requires
            probes@.len() <= admitted(choice).len(),
        ensures
            match s {
                Selection::Found(enc) => exists|i: int| #[trigger]
                    first_success(probes@, i) && enc == admitted(choice)[i],
                Selection::Probe(enc) => all_failed(probes@) && probes@.len() < admitted(
                    choice,
                ).len() && enc == admitted(choice)[probes@.len() as int],
                Selection::Failed(text) => all_failed(probes@) && probes@.len() == admitted(
                    choice,
                ).len() && text@ == "no usable H.264 encoder found:\n  "@ + complaints(
                    admitted(choice),
                    reasons_of(probes@),
                ),
            },
    {
        let encs = candidates(choice);
        let mut text = String::new();
        let mut i: usize = 0;
        while i < probes.len()
            invariant
                encs@ == admitted(choice),
                i <= probes@.len() <= encs@.len(),
                all_failed(probes@.take(i as int)),
                text@ == complaints(encs@, reasons_of(probes@.take(i as int))),
            decreases probes@.len() - i,
        {
            match &probes[i] {
                Ok(()) => {
                    assert forall|j: int| 0 <= j < i implies #[trigger] probes@[j] is Err by {
                        assert(probes@.take(i as int)[j] == probes@[j]);
                    }
                    assert(first_success(probes@, i as int));
                    return Selection::Found(encs[i]);
                },
                Err(reason) => {
                    let ghost before = reasons_of(probes@.take(i as int));
                    let ghost after = reasons_of(probes@.take(i + 1));
                    assert(after.drop_last() =~= before);
                    assert(after.last() == reason@);
                    let line = join3(encs[i].name(), ": ", reason);
                    if i == 0 {
                        text = line;
                    } else {
                        text = join3(&text, "\n  ", &line);
                    }
                },
            }
            i += 1;
        }
        assert(probes@.take(i as int) =~= probes@);
        if i < encs.len() {
            Selection::Probe(encs[i])
        } else {
            Selection::Failed(crate::text::join2("no usable H.264 encoder found:\n  ", &text))
        }
    }
}

/// The encoders that a setting admits, in the order in which they are probed.
pub fn candidates(choice: EncoderChoice) -> (v: Vec<Encoder>)
    ensures
        v@ == admitted(choice),
{
    let v = match choice {
        EncoderChoice::Auto => vec![Encoder::Nvenc, Encoder::Vaapi, Encoder::X264],
        EncoderChoice::Nvenc => vec![Encoder::Nvenc],
        EncoderChoice::Vaapi => vec![Encoder::Vaapi],
        EncoderChoice::X264 => vec![Encoder::X264],
    };
    assert(v@ =~= admitted(choice));
    v
}

/// The pipeline from what is heard on the desktop to Opus packets of ten milliseconds.
pub fn audio_description() -> (s: &'static str)
    ensures
        s@
            == "pulsesrc device=@DEFAULT_MONITOR@ do-timestamp=true buffer-time=20000 latency-time=10000 ! audio/x-raw,rate=48000,channels=2 ! audioconvert ! audioresample ! opusenc frame-size=10 bitrate=128000 audio-type=generic ! appsink name=sink sync=false max-buffers=4 drop=true"@,
{
    "pulsesrc device=@DEFAULT_MONITOR@ do-timestamp=true buffer-time=20000 latency-time=10000 ! audio/x-raw,rate=48000,channels=2 ! audioconvert ! audioresample ! opusenc frame-size=10 bitrate=128000 audio-type=generic ! appsink name=sink sync=false max-buffers=4 drop=true"
}

/// How the probe of an encoder ended.
pub enum ProbeEnd {
    /// Its element is not installed.
    NotInstalled,
    /// All test frames were encoded.
    Finished,
    /// The pipeline reported an error.
    Broken(String),
    /// Nothing happened for too long.
    Silent,
}

/// What came of the probe of an encoder.
pub fn probe_result(encoder: Encoder, end: ProbeEnd) -> (r: Result<(), String>)
    ensures
        match end {
            ProbeEnd::Finished => r is Ok,
            ProbeEnd::NotInstalled => r matches Err(why) && why@ == "GStreamer element "@
                + encoder.factory() + " is not installed"@,
            ProbeEnd::Broken(error) => r matches Err(why) && why@ == error@,
            ProbeEnd::Silent => r matches Err(why) && why@ == "timed out"@,
        },
{
    match end {
        ProbeEnd::Finished => Ok(()),
        ProbeEnd::NotInstalled => Err(
            join3("GStreamer element ", encoder.element(), " is not installed"),
        ),
        ProbeEnd::Broken(error) => Err(error),
        ProbeEnd::Silent => Err("timed out".to_owned()),
    }
}

/// With the default setting, hardware goes before software: x264 is only found once NVENC and
/// VA-API have failed, and VA-API only once NVENC has.
pub proof fn hardware_goes_first(probes: Seq<Result<(), String>>, i: int)
    requires
        probes.len() <= admitted(EncoderChoice::Auto).len(),
        first_success(probes, i),
    ensures
        admitted(EncoderChoice::Auto)[i] == Encoder::X264 ==> probes[0] is Err && probes[1] is Err,
        admitted(EncoderChoice::Auto)[i] == Encoder::Vaapi ==> probes[0] is Err,
{
}

/// A bitrate is brought within 2000 and 20000 kbit/s and no further than that takes: no other bitrate
/// within the bounds is nearer.
pub proof fn bitrates_are_bounded(kbps: int, other: int)
    ensures
        2_000 <= bounded(kbps) <= 20_000,
        2_000 <= kbps <= 20_000 ==> bounded(kbps) == kbps,
        2_000 <= other <= 20_000 && kbps <= other ==> bounded(kbps) - kbps <= other - kbps,
        2_000 <= other <= 20_000 && other <= kbps ==> kbps - bounded(kbps) <= kbps - other,
        MIN_BITRATE_KBPS == 2_000,
        MAX_BITRATE_KBPS == 20_000,
        START_BITRATE_KBPS == 8_000,
        KEEPALIVE_MS == 100,
{
}

/// A setting that names an encoder admits that one alone; the default one admits all three, first the
/// two in hardware and software last.
pub proof fn settings_admit_what_they_name(choice: EncoderChoice, enc: Encoder)
    ensures
        admitted(choice).contains(enc) <==> (choice is Auto || (choice is Nvenc && enc is Nvenc) || (
        choice is Vaapi && enc is Vaapi) || (choice is X264 && enc is X264)),
        admitted(choice).no_duplicates(),
        !(choice is Auto) ==> admitted(choice).len() == 1,
        admitted(EncoderChoice::Auto).len() == 3,
        admitted(EncoderChoice::Auto)[0] is Nvenc,
        admitted(EncoderChoice::Auto)[1] is Vaapi,
        admitted(EncoderChoice::Auto)[2] is X264,
{
    let list = admitted(choice);
    match choice {
        EncoderChoice::Auto => {
            assert(list[0] == Encoder::Nvenc && list[1] == Encoder::Vaapi && list[2]
                == Encoder::X264);
        },
        EncoderChoice::Nvenc => {
            assert(list[0] == Encoder::Nvenc);
        },
        EncoderChoice::Vaapi => {
            assert(list[0] == Encoder::Vaapi);
        },
        EncoderChoice::X264 => {
            assert(list[0] == Encoder::X264);
        },
    }
}

/// At most one probe is the first that succeeded, so at most one encoder is found.
pub proof fn one_encoder_is_found(probes: Seq<Result<(), String>>, i: int, j: int)
    requires
        first_success(probes, i),
        first_success(probes, j),
    ensures
        i == j,
        !all_failed(probes),
{
    assert(probes[i] is Ok);
    assert(probes[j] is Ok);
}

/// A part of a pipeline that runs an element under the name `enc`, at a bitrate.
pub open spec fn part_for(
    before: Seq<char>,
    element: Seq<char>,
    between: Seq<char>,
    kbps: u32,
    after: Seq<char>,
) -> Seq<char> {
    before + element + " name=enc "@ + between + " bitrate="@ + decimal(kbps as nat) + " "@ + after
}

/// An encoder's part of the pipeline runs its own element under the name that it is found by, at the
/// bitrate asked for.
#[verifier::spinoff_prover]
pub proof fn stages_run_their_encoder(enc: Encoder, kbps: u32)
    ensures
        enc.factory() == match enc {
            Encoder::Nvenc => "nvh264enc"@,
            Encoder::Vaapi => "vah264enc"@,
            Encoder::X264 => "x264enc"@,
        },
        exists|before: Seq<char>, between: Seq<char>, after: Seq<char>|
            enc.stage(kbps) == #[trigger] part_for(before, enc.factory(), between, kbps, after),
{
    reveal_strlit(" name=enc ");
    reveal_strlit(" bitrate=");
    reveal_strlit(" ");
    match enc {
        Encoder::Nvenc => {
            reveal_strlit("nvh264enc");
            reveal_strlit(
                "nvh264enc name=enc preset=p1 tune=ultra-low-latency rc-mode=cbr zerolatency=true bframes=0 gop-size=-1 bitrate=",
            );
            reveal_strlit(" aud=false");
            let head =
                "nvh264enc name=enc preset=p1 tune=ultra-low-latency rc-mode=cbr zerolatency=true bframes=0 gop-size=-1 bitrate="@;
            let tail = " aud=false"@;
            stage_in_parts(head, 0, "nvh264enc"@, kbps, tail);
            let between = head.subrange(19, head.len() - 9);
            assert(enc.stage(kbps) == head + decimal(kbps as nat) + tail);
            assert(enc.stage(kbps) == part_for(
                head.take(0),
                enc.factory(),
                between,
                kbps,
                tail.skip(1),
            ));
        },
        Encoder::Vaapi => {
            reveal_strlit("vah264enc");
            reveal_strlit(
                "videoconvert ! video/x-raw,format=NV12 ! vah264enc name=enc rate-control=cbr bitrate=",
            );
            reveal_strlit(" b-frames=0 target-usage=7");
            let head =
                "videoconvert ! video/x-raw,format=NV12 ! vah264enc name=enc rate-control=cbr bitrate="@;
            let tail = " b-frames=0 target-usage=7"@;
            stage_in_parts(head, 41, "vah264enc"@, kbps, tail);
            let between = head.subrange(60, head.len() - 9);
            assert(enc.stage(kbps) == head + decimal(kbps as nat) + tail);
            assert(enc.stage(kbps) == part_for(
                head.take(41),
                enc.factory(),
                between,
                kbps,
                tail.skip(1),
            ));
        },
        Encoder::X264 => {
            reveal_strlit("x264enc");
            reveal_strlit(
                "videoconvert ! video/x-raw,format=I420 ! x264enc name=enc tune=zerolatency speed-preset=ultrafast bitrate=",
            );
            reveal_strlit(" bframes=0 key-int-max=600 sliced-threads=true");
            let head =
                "videoconvert ! video/x-raw,format=I420 ! x264enc name=enc tune=zerolatency speed-preset=ultrafast bitrate="@;
            let tail = " bframes=0 key-int-max=600 sliced-threads=true"@;
            stage_in_parts(head, 41, "x264enc"@, kbps, tail);
            let between = head.subrange(58, head.len() - 9);
            assert(enc.stage(kbps) == head + decimal(kbps as nat) + tail);
            assert(enc.stage(kbps) == part_for(
                head.take(41),
                enc.factory(),
                between,
                kbps,
                tail.skip(1),
            ));
        },
    }
}

proof fn stage_in_parts(
    head: Seq<char>,
    at: int,
    element: Seq<char>,
    kbps: u32,
    tail: Seq<char>,
)
    requires
        0 <= at,
        at + element.len() + 10 <= head.len() - 9,
        head.subrange(at, at + element.len()) =~= element,
        head.subrange(at + element.len(), at + element.len() + 10) =~= " name=enc "@,
        head.skip(head.len() - 9) =~= " bitrate="@,
        tail.len() > 0,
        tail.take(1) =~= " "@,
    ensures
        head + decimal(kbps as nat) + tail == part_for(
            head.take(at),
            element,
            head.subrange(at + element.len() + 10, head.len() - 9),
            kbps,
            tail.skip(1),
        ),
{
    let n = element.len() as int;
    let front = head.take(at) + element + " name=enc "@ + head.subrange(
        at + n + 10,
        head.len() - 9,
    ) + " bitrate="@;
    assert(front =~= head) by {
        assert(head =~= head.take(at) + head.subrange(at, at + n) + head.subrange(
            at + n,
            at + n + 10,
        ) + head.subrange(at + n + 10, head.len() - 9) + head.skip(head.len() - 9));
    }
    assert(tail =~= tail.take(1) + tail.skip(1));
    assert(front + decimal(kbps as nat) + " "@ + tail.skip(1) =~= head + decimal(kbps as nat)
        + tail);
}

/// Where no encoder works, the reason of each that was probed is told, under its name.
pub proof fn every_complaint_is_told(encs: Seq<Encoder>, reasons: Seq<Seq<char>>, i: int)
    requires
        0 <= i < reasons.len() <= encs.len(),
    ensures
        exists|before: Seq<char>, after: Seq<char>|
            complaints(encs, reasons) == #[trigger] (before + encs[i].title() + ": "@ + reasons[i]
                + after),
    decreases reasons.len(),
{
    let n = reasons.len() - 1;
    let line = complaint(encs[n], reasons.last());
    let none = Seq::<char>::empty();
    if i == n {
        if n == 0 {
            assert(complaints(encs, reasons) =~= none + encs[i].title() + ": "@ + reasons[i] + none);
        } else {
            let before = complaints(encs, reasons.drop_last()) + "\n  "@;
            assert(complaints(encs, reasons) =~= before + encs[i].title() + ": "@ + reasons[i]
                + none);
        }
    } else {
        let less = reasons.drop_last();
        every_complaint_is_told(encs, less, i);
        let (before, after) = choose|before: Seq<char>, after: Seq<char>|
            complaints(encs, less) == #[trigger] (before + encs[i].title() + ": "@ + less[i]
                + after);
        let longer = after + "\n  "@ + line;
        assert(complaints(encs, reasons) =~= before + encs[i].title() + ": "@ + reasons[i]
            + longer);
    }
}

/// What is said of one more encoder that does not work stands on a line of its own behind the others,
/// under the encoder's name.
pub proof fn complaints_stand_on_lines(
    encs: Seq<Encoder>,
    reasons: Seq<Seq<char>>,
    reason: Seq<char>,
)
    requires
        reasons.len() < encs.len(),
    ensures
        ({
            let enc = encs[reasons.len() as int];
            let name = match enc {
                Encoder::Nvenc => "NVIDIA NVENC (nvh264enc)"@,
                Encoder::Vaapi => "VA-API (vah264enc)"@,
                Encoder::X264 => "software x264 (x264enc)"@,
            };
            complaints(encs, reasons.push(reason)) == if reasons.len() == 0 {
                name + ": "@ + reason
            } else {
                complaints(encs, reasons) + "\n  "@ + (name + ": "@ + reason)
            }
        }),
{
    let more = reasons.push(reason);
    assert(more.drop_last() =~= reasons);
    assert(more.last() == reason);
}

/// The reason of a probe that failed is the text that it gave.
pub proof fn reasons_are_handed_on(probes: Seq<Result<(), String>>, i: int)
    requires
        0 <= i < probes.len(),
        probes[i] is Err,
    ensures
        reasons_of(probes).len() == probes.len(),
        reasons_of(probes)[i] == probes[i]->Err_0@,
{
}

/// The first success is the one before which every probe failed.
pub proof fn the_first_success_comes_first(probes: Seq<Result<(), String>>, i: int)
    ensures
        first_success(probes, i) <==> 0 <= i < probes.len() && probes[i] is Ok && forall|j: int|
            0 <= j < i ==> #[trigger] probes[j] is Err,
        all_failed(probes) <==> !exists|k: int| #[trigger] first_success(probes, k),
{
    if !all_failed(probes) {
        let k = earliest(probes, 0);
        assert(first_success(probes, k));
    }
    if all_failed(probes) {
        assert forall|k: int| !#[trigger] first_success(probes, k) by {
            if 0 <= k < probes.len() {
                assert(probes[k] is Err);
            }
        }
    }
}

proof fn earliest(probes: Seq<Result<(), String>>, from: int) -> (k: int)
    requires
        0 <= from <= probes.len(),
        forall|j: int| 0 <= j < from ==> #[trigger] probes[j] is Err,
        !all_failed(probes),
    ensures
        first_success(probes, k),
    decreases probes.len() - from,
{
    if from < probes.len() && probes[from] is Ok {
        from
    } else {
        earliest(probes, from + 1)
    }
}

/// Encoders put out what every browser decodes: constrained-baseline H.264.
pub proof fn browsers_decode_the_output()
    ensures
        output_caps()
            == "video/x-h264,profile=constrained-baseline,stream-format=byte-stream,alignment=au"@,
{
}

} // verus!
