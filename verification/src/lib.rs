//! The decisions of a browser remote-desktop agent: who is let in, what a viewer's messages do to
//! the desktop, how a media session adapts, and how the wire formats involved are read and written.
//!
//! Everything here works on plain values. Sockets, devices, encoders and files belong to the
//! program around the library, which performs what these functions decide and reports back.

pub mod text;
pub mod net;
pub mod random;
pub mod stun;
pub mod sessions;
pub mod password;
pub mod clock;
pub mod capture;
pub mod config;
pub mod totp;
pub mod claims;
pub mod access;
pub mod keys;
pub mod input;
pub mod desktop;
pub mod sdp;
pub mod rtc;
pub mod http;
pub mod messages;
pub mod cli;
pub mod setup;
pub mod doctor;
