//! One viewer's session: what its events call for. Times are nanoseconds on a monotonic clock.

use crate::capture::{
    bounded, bounded_bitrate, MAX_BITRATE_KBPS, MIN_BITRATE_KBPS, START_BITRATE_KBPS,
};
use crate::desktop::{bounding_box, countable, layout, named_all, started_notice, Monitor};
use crate::messages::{hello_message, json_string, monitors_json};
use crate::input::{
    calls_for, in_range, order_after, released, Action, Device, Event, Injector, InputMsg, Rect,
};
use crate::text::{join2, same};
use vstd::prelude::*;

verus! {

broadcast use vstd::string::group_string_axioms;

/// How long a session outlives its connection.
pub const DISCONNECT_GRACE: u64 = 10_000_000_000;

/// How long a silent viewer may hold keys down.
pub const HEARTBEAT_TIMEOUT: u64 = 1_000_000_000;

/// Least time between two forced keyframes.
pub const KEYFRAME_DEBOUNCE: u64 = 250_000_000;

/// Least time between two changes of the bitrate.
pub const BITRATE_UPDATE_EVERY: u64 = 500_000_000;

/// How often statistics are sent.
pub const STATS_EVERY: u64 = 1_000_000_000;

/// The longest message that is read from the data channel.
pub const MAX_CHANNEL_MESSAGE: usize = 2_097_152;

/// The longest UDP datagram that is read.
pub const MAX_UDP: usize = 2000;

/// A codec, as far as it matters here.
#[derive(Clone, Copy, Debug, PartialEq, Eq, Structural)]
pub enum Codec {
    H264,
    Opus,
    Other,
}

/// A payload type that the browser offers for a track.
#[derive(Clone, Copy, Debug, PartialEq, Eq, Structural)]
pub struct Payload {
    pub pt: u8,
    pub codec: Codec,
    pub packetization_mode: Option<u8>,
    pub profile_level_id: Option<u32>,
}

/// What a track carries.
#[derive(Clone, Copy, Debug, PartialEq, Eq, Structural)]
pub enum MediaKind {
    Video,
    Audio,
}

/// A track that is written to: its identifier and its payload type.
pub struct Track {
    pub mid: String,
    pub pt: u8,
}

/// What happens to a session.
pub enum PeerEvent {
    /// The connection was lost; it may come back.
    IceDisconnected,
    /// The connection is in any other state.
    IceOther,
    /// The session is up.
    Connected,
    /// A track was negotiated.
    MediaAdded { mid: String, kind: MediaKind, payloads: Vec<Payload> },
    /// The browser needs a keyframe.
    KeyframeRequest,
    /// The estimated bandwidth, in bits per second.
    BitrateEstimate(u64),
    /// A data channel was opened.
    ChannelOpen { id: u64, label: String },
    /// A data channel was closed.
    ChannelClose { id: u64 },
}

/// What an event calls for.
pub enum Effect {
    /// Send these events to the input devices.
    Release(Vec<(Device, Event)>),
    /// Show this on the desktop.
    Notify { summary: String, body: String },
    /// Have the encoder produce a keyframe.
    ForceKeyframe,
    /// Have the encoder aim at this bitrate (kbit/s).
    SetBitrate(u32),
    /// Tell the viewer which monitors there are.
    Hello,
}

/// What an effect is, with texts and lists as sequences.
pub enum EffectView {
    Release(Seq<(Device, Event)>),
    Notify(Seq<char>, Seq<char>),
    ForceKeyframe,
    SetBitrate(u32),
    Hello,
}

impl View for Effect {
    type V = EffectView;

    open spec fn view(&self) -> EffectView {
        match *self {
            Effect::Release(events) => EffectView::Release(events@),
            Effect::Notify { summary, body } => EffectView::Notify(summary@, body@),
            Effect::ForceKeyframe => EffectView::ForceKeyframe,
            Effect::SetBitrate(kbps) => EffectView::SetBitrate(kbps),
            Effect::Hello => EffectView::Hello,
        }
    }
}

/// The views of a list of effects.
pub open spec fn views(effects: Seq<Effect>) -> Seq<EffectView> {
    effects.map_values(|e: Effect| e@)
}

/// What a session is, with texts and lists as sequences.
#[verifier::ext_equal]
pub struct PeerState {
    /// The monitors: the name and the place of each.
    pub monitors: Seq<(Seq<char>, Rect)>,
    /// Which of them is captured.
    pub current: int,
    /// The host name that notices speak of.
    pub host: Seq<char>,
    /// The bounding box of the monitors.
    pub layout: Rect,
    /// The monitor that pointer positions refer to.
    pub monitor: Rect,
    /// The keys and buttons that are held, in the order in which they went down.
    pub held: Seq<u16>,
    /// Whether the screen is being captured.
    pub video_on: bool,
    pub video_track: Option<(Seq<char>, u8)>,
    pub audio_track: Option<(Seq<char>, u8)>,
    /// The data channel of the viewer's input.
    pub channel: Option<u64>,
    pub connected: bool,
    pub disconnected_since: Option<u64>,
    pub last_heartbeat: u64,
    pub last_keyframe_req: u64,
    pub last_bitrate_update: u64,
    pub bitrate_kbps: u32,
    /// When the session began.
    pub t0: u64,
    /// Frames and octets sent since statistics were last sent, and when that was.
    pub frames: u32,
    pub bytes: u64,
    pub stats_since: u64,
}

/// The time since a moment; none if it is yet to come.
pub open spec fn elapsed(now: u64, since: u64) -> int {
    if now >= since {
        now - since
    } else {
        0
    }
}

/// Whether a payload type can carry the video. Where `baseline` is set, it must be of the baseline
/// profile.
pub open spec fn carries_video(p: Payload, baseline: bool) -> bool {
    &&& p.codec == Codec::H264
    &&& p.packetization_mode == Some(1u8)
    &&& baseline ==> (p.profile_level_id matches Some(id) && id >> 16 == 0x42)
}

/// The first payload type that can carry the video.
pub open spec fn first_video(payloads: Seq<Payload>, baseline: bool) -> Option<u8>
    decreases payloads.len(),
{
    if payloads.len() == 0 {
        None
    } else if carries_video(payloads[0], baseline) {
        Some(payloads[0].pt)
    } else {
        first_video(payloads.drop_first(), baseline)
    }
}

/// The payload type for the video: one of the baseline profile if there is one.
pub open spec fn video_payload(payloads: Seq<Payload>) -> Option<u8> {
    match first_video(payloads, true) {
        Some(pt) => Some(pt),
        None => first_video(payloads, false),
    }
}

/// The payload type for the sound: the first that is Opus.
pub open spec fn audio_payload(payloads: Seq<Payload>) -> Option<u8>
    decreases payloads.len(),
{
    if payloads.len() == 0 {
        None
    } else if payloads[0].codec == Codec::Opus {
        Some(payloads[0].pt)
    } else {
        audio_payload(payloads.drop_first())
    }
}

/// The bitrate to aim at under an estimate: four fifths of it, within the bounds. The rest is left
/// for sound, RTP overhead and retransmissions.
pub open spec fn target_for(bps: u64) -> u32 {
    bounded(bps as int / 1250) as u32
}

/// The distance between two numbers.
pub open spec fn distance(a: int, b: int) -> int {
    if a >= b {
        a - b
    } else {
        b - a
    }
}

/// Whether an estimate changes the bitrate: by more than a tenth, and not too soon.
pub open spec fn retunes(s: PeerState, bps: u64, now: u64) -> bool {
    &&& distance(target_for(bps) as int, s.bitrate_kbps as int) > s.bitrate_kbps as int / 10
    &&& elapsed(now, s.last_bitrate_update) >= BITRATE_UPDATE_EVERY
}

/// A keyframe is wanted: it is forced unless one was a moment ago.
pub open spec fn keyframe_wanted(s: PeerState, now: u64) -> (PeerState, Seq<EffectView>) {
    if elapsed(now, s.last_keyframe_req) >= KEYFRAME_DEBOUNCE {
        (
            PeerState { last_keyframe_req: now, ..s },
            if s.video_on {
                seq![EffectView::ForceKeyframe]
            } else {
                Seq::empty()
            },
        )
    } else {
        (s, Seq::empty())
    }
}

/// Everything held is released.
pub open spec fn let_go(s: PeerState) -> (PeerState, Seq<EffectView>) {
    (PeerState { held: Seq::empty(), ..s }, seq![EffectView::Release(released(s.held))])
}

/// Whether the viewer has not been heard of for too long.
pub open spec fn fell_silent(s: PeerState, now: u64) -> bool {
    elapsed(now, s.last_heartbeat) > HEARTBEAT_TIMEOUT
}

/// The session after it has been looked after: keys of a silent viewer are released.
pub open spec fn looked_after(s: PeerState, now: u64) -> PeerState {
    if fell_silent(s, now) {
        let_go(s).0
    } else {
        s
    }
}

/// The session after an event, and what the event calls for.
pub open spec fn step(s: PeerState, event: PeerEvent, now: u64) -> (PeerState, Seq<EffectView>) {
    match event {
        PeerEvent::IceDisconnected => {
            let since = match s.disconnected_since {
                Some(t) => t,
                None => now,
            };
            let (after, effects) = let_go(s);
            (PeerState { disconnected_since: Some(since), ..after }, effects)
        },
        PeerEvent::IceOther => (PeerState { disconnected_since: None, ..s }, Seq::empty()),
        PeerEvent::Connected => {
            let (after, effects) = keyframe_wanted(PeerState { connected: true, ..s }, now);
            let notice = EffectView::Notify(
                "Remote session started"@,
                "Someone is viewing and controlling this PC via "@ + s.host,
            );
            (after, seq![notice] + effects)
        },
        PeerEvent::MediaAdded { mid, kind: MediaKind::Video, payloads } => match video_payload(
            payloads@,
        ) {
            Some(pt) => (PeerState { video_track: Some((mid@, pt)), ..s }, Seq::empty()),
            None => (s, Seq::empty()),
        },
        PeerEvent::MediaAdded { mid, kind: MediaKind::Audio, payloads } => match audio_payload(
            payloads@,
        ) {
            Some(pt) => (PeerState { audio_track: Some((mid@, pt)), ..s }, Seq::empty()),
            None => (s, Seq::empty()),
        },
        PeerEvent::KeyframeRequest => keyframe_wanted(s, now),
        PeerEvent::BitrateEstimate(bps) => if retunes(s, bps, now) {
            (
                PeerState { bitrate_kbps: target_for(bps), last_bitrate_update: now, ..s },
                if s.video_on {
                    seq![EffectView::SetBitrate(target_for(bps))]
                } else {
                    Seq::empty()
                },
            )
        } else {
            (s, Seq::empty())
        },
        PeerEvent::ChannelOpen { id, label } => if label@ == "input"@ {
            (PeerState { channel: Some(id), last_heartbeat: now, ..s }, seq![EffectView::Hello])
        } else {
            (s, Seq::empty())
        },
        PeerEvent::ChannelClose { id } => if s.channel == Some(id) {
            let (after, effects) = let_go(s);
            (PeerState { channel: None, ..after }, effects)
        } else {
            (s, Seq::empty())
        },
    }
}

/// Whether the `i`-th monitor is the first of the name.
pub open spec fn first_named(mons: Seq<(Seq<char>, Rect)>, name: Seq<char>, i: int) -> bool {
    &&& 0 <= i < mons.len()
    &&& mons[i].0 == name
    &&& forall|j: int| 0 <= j < i ==> (#[trigger] mons[j]).0 != name
}

/// Whether no monitor has the name.
pub open spec fn none_named(mons: Seq<(Seq<char>, Rect)>, name: Seq<char>) -> bool {
    forall|j: int| 0 <= j < mons.len() ==> (#[trigger] mons[j]).0 != name
}

/// A track as a pair.
pub open spec fn track_view(t: Option<Track>) -> Option<(Seq<char>, u8)> {
    match t {
        Some(t) => Some((t.mid@, t.pt)),
        None => None,
    }
}

/// The time stamp of media at a rate of `khz` thousand ticks a second.
pub open spec fn ticks(now: u64, t0: u64, khz: int) -> int {
    elapsed(now, t0) / 1000 * khz / 1000
}

fn since(now: u64, t: u64) -> (d: u64)
    ensures
        d == elapsed(now, t),
{
    if now >= t {
        now - t
    } else {
        0
    }
}

/// The payload type for the video.
pub fn choose_video(payloads: &[Payload]) -> (pt: Option<u8>)
    ensures
        pt == video_payload(payloads@),
{
    match find_video(payloads, true) {
        Some(pt) => Some(pt),
        None => find_video(payloads, false),
    }
}

fn find_video(payloads: &[Payload], baseline: bool) -> (pt: Option<u8>)
    ensures
        pt == first_video(payloads@, baseline),
{
    let mut i: usize = 0;
    assert(payloads@.skip(0) =~= payloads@);
    while i < payloads.len()
        invariant
            i <= payloads@.len(),
            first_video(payloads@.skip(i as int), baseline) == first_video(payloads@, baseline),
        decreases payloads@.len() - i,
    {
        let p = payloads[i];
        assert(payloads@.skip(i as int)[0] == p);
        assert(payloads@.skip(i as int).drop_first() =~= payloads@.skip(i + 1));
        let packets = match p.packetization_mode {
            Some(mode) => mode == 1,
            None => false,
        };
        let profile = match p.profile_level_id {
            Some(id) => id >> 16 == 0x42,
            None => false,
        };
        if p.codec == Codec::H264 && packets && (!baseline || profile) {
            return Some(p.pt);
        }
        i += 1;
    }
    None
}

/// The payload type for the sound.
pub fn choose_audio(payloads: &[Payload]) -> (pt: Option<u8>)
    ensures
        pt == audio_payload(payloads@),
{
    let mut i: usize = 0;
    assert(payloads@.skip(0) =~= payloads@);
    while i < payloads.len()
        invariant
            i <= payloads@.len(),
            audio_payload(payloads@.skip(i as int)) == audio_payload(payloads@),
        decreases payloads@.len() - i,
    {
        assert(payloads@.skip(i as int)[0] == payloads@[i as int]);
        assert(payloads@.skip(i as int).drop_first() =~= payloads@.skip(i + 1));
        if payloads[i].codec == Codec::Opus {
            return Some(payloads[i].pt);
        }
        i += 1;
    }
    None
}

/// The bitrate to aim at under an estimate of the bandwidth, in bits per second.
pub fn target_bitrate(bps: u64) -> (kbps: u32)
    ensures
        kbps == target_for(bps),
{
    let kbps: u64 = bps / 1250;
    if kbps > MAX_BITRATE_KBPS as u64 {
        MAX_BITRATE_KBPS
    } else {
        bounded_bitrate(kbps as u32)
    }
}

/// What the viewer asks for over the data channel besides input.
pub enum Control {
    /// To see the monitor of a name.
    Monitor { name: String },
    /// To set the clipboard of the desktop.
    ClipSet { text: String },
    /// To be sent the clipboard of the desktop.
    ClipGet,
}

/// What a message of the data channel calls for.
pub enum Request {
    /// To act on the input devices.
    Input(Action),
    /// To turn to the monitor of a name.
    Switch(String),
    /// To set the clipboard.
    SetClipboard(String),
    /// To send the clipboard.
    SendClipboard,
    /// Nothing: it is not understood.
    Ignore,
}

/// There is nothing to capture.
#[derive(Clone, Copy, Debug, PartialEq, Eq, Structural)]
pub struct NoMonitors;

/// What a session is found to need when it is looked after.
pub struct Pulse {
    /// Events for the input devices, if what is held has to be released.
    pub release: Option<Vec<(Device, Event)>>,
    /// Whether the viewer is gone for good, and the session is to end.
    pub ended: bool,
}

/// What is reported of the last second or so.
#[derive(Clone, Copy, Debug, PartialEq, Eq, Structural)]
pub struct Stats {
    pub frames: u32,
    pub bytes: u64,
    /// How long that was.
    pub nanos: u64,
    /// The bitrate aimed at (kbit/s).
    pub target: u32,
}

/// One viewer's session.
pub struct Peer {
    monitors: Vec<Monitor>,
    current: usize,
    host: String,
    injector: Injector,
    video_on: bool,
    video_track: Option<Track>,
    audio_track: Option<Track>,
    channel: Option<u64>,
    connected: bool,
    disconnected_since: Option<u64>,
    last_heartbeat: u64,
    last_keyframe_req: u64,
    last_bitrate_update: u64,
    bitrate_kbps: u32,
    t0: u64,
    frames: u32,
    bytes: u64,
    stats_since: u64,
}

impl View for Peer {
    type V = PeerState;

    closed spec fn view(&self) -> PeerState {
        PeerState {
            monitors: named_all(self.monitors@),
            current: self.current as int,
            host: self.host@,
            layout: self.injector.layout(),
            monitor: self.injector.monitor(),
            held: self.injector.order(),
            video_on: self.video_on,
            video_track: track_view(self.video_track),
            audio_track: track_view(self.audio_track),
            channel: self.channel,
            connected: self.connected,
            disconnected_since: self.disconnected_since,
            last_heartbeat: self.last_heartbeat,
            last_keyframe_req: self.last_keyframe_req,
            last_bitrate_update: self.last_bitrate_update,
            bitrate_kbps: self.bitrate_kbps,
            t0: self.t0,
            frames: self.frames,
            bytes: self.bytes,
            stats_since: self.stats_since,
        }
    }
}

/// What holds of every session.
pub open spec fn sound(s: PeerState) -> bool {
    &&& 0 <= s.current < s.monitors.len()
    &&& s.held.no_duplicates()
    &&& MIN_BITRATE_KBPS <= s.bitrate_kbps <= MAX_BITRATE_KBPS
}

impl Peer {
    /// That the session is in order.
    pub open spec fn wf(&self) -> bool {
        sound(self@)
    }

    /// A session on the first of the monitors, not connected yet.
    pub fn new(monitors: Vec<Monitor>, host: String, now: u64) -> (r: Result<Peer, NoMonitors>)
        requires
            countable(monitors@),
            now >= KEYFRAME_DEBOUNCE,
        ensures
            match r {
                Ok(peer) => peer.wf() && monitors@.len() > 0 && bounding_box(
                    monitors@,
                    peer@.layout,
                ) && peer@ == (PeerState {
                    monitors: named_all(monitors@),
                    current: 0,
                    host: host@,
                    layout: peer@.layout,
                    monitor: monitors@[0].area(),
                    held: Seq::empty(),
                    video_on: false,
                    video_track: None,
                    audio_track: None,
                    channel: None,
                    connected: false,
                    disconnected_since: None,
                    last_heartbeat: now,
                    last_keyframe_req: (now - KEYFRAME_DEBOUNCE) as u64,
                    last_bitrate_update: now,
                    bitrate_kbps: START_BITRATE_KBPS,
                    t0: now,
                    frames: 0,
                    bytes: 0,
                    stats_since: now,
                }),
                Err(_) => monitors@.len() == 0,
            },
    {
        if monitors.len() == 0 {
            return Err(NoMonitors);
        }
        let injector = Injector::new(layout(&monitors), monitors[0].rect());
        Ok(
            Peer {
                monitors,
                current: 0,
                host,
                injector,
                video_on: false,
                video_track: None,
                audio_track: None,
                channel: None,
                connected: false,
                disconnected_since: None,
                last_heartbeat: now,
                last_keyframe_req: now - KEYFRAME_DEBOUNCE,
                last_bitrate_update: now,
                bitrate_kbps: START_BITRATE_KBPS,
                t0: now,
                frames: 0,
                bytes: 0,
                stats_since: now,
            },
        )
    }

    fn want_keyframe(&mut self, now: u64) -> (force: bool)
        requires
            old(self).wf(),
        ensures
            final(self).wf(),
            final(self)@ == keyframe_wanted(old(self)@, now).0,
            keyframe_wanted(old(self)@, now).1 == if force {
                seq![EffectView::ForceKeyframe]
            } else {
                Seq::empty()
            },
    {
        if since(now, self.last_keyframe_req) >= KEYFRAME_DEBOUNCE {
            self.last_keyframe_req = now;
            self.video_on
        } else {
            false
        }
    }

    /// Releases everything that is held: the events to send.
    pub fn release(&mut self) -> (events: Vec<(Device, Event)>)
        requires
            old(self).wf(),
        ensures
            final(self).wf(),
            final(self)@ == let_go(old(self)@).0,
            events@ == released(old(self)@.held),
    {
        self.injector.release_all()
    }

    /// Takes in an event: what it calls for, in order.
    pub fn handle_event(&mut self, event: PeerEvent, now: u64) -> (effects: Vec<Effect>)
        requires
            old(self).wf(),
        ensures
            final(self).wf(),
            final(self)@ == step(old(self)@, event, now).0,
            views(effects@) == step(old(self)@, event, now).1,
    {
        let mut effects: Vec<Effect> = Vec::new();
        match event {
            PeerEvent::IceDisconnected => {
                if self.disconnected_since.is_none() {
                    self.disconnected_since = Some(now);
                }
                effects.push(Effect::Release(self.release()));
            },
            PeerEvent::IceOther => {
                self.disconnected_since = None;
            },
            PeerEvent::Connected => {
                self.connected = true;
                let (summary, body) = started_notice(&self.host);
                effects.push(Effect::Notify { summary: summary.to_owned(), body });
                if self.want_keyframe(now) {
                    effects.push(Effect::ForceKeyframe);
                }
            },
            PeerEvent::MediaAdded { mid, kind, payloads } => match kind {
                MediaKind::Video => {
                    if let Some(pt) = choose_video(&payloads) {
                        self.video_track = Some(Track { mid, pt });
                    }
                },
                MediaKind::Audio => {
                    if let Some(pt) = choose_audio(&payloads) {
                        self.audio_track = Some(Track { mid, pt });
                    }
                },
            },
            PeerEvent::KeyframeRequest => {
                if self.want_keyframe(now) {
                    effects.push(Effect::ForceKeyframe);
                }
            },
            PeerEvent::BitrateEstimate(bps) => {
                let target: u32 = target_bitrate(bps);
                let gap: u32 = if target >= self.bitrate_kbps {
                    target - self.bitrate_kbps
                } else {
                    self.bitrate_kbps - target
                };
                if gap > self.bitrate_kbps / 10 && since(now, self.last_bitrate_update)
                    >= BITRATE_UPDATE_EVERY {
                    self.bitrate_kbps = target;
                    self.last_bitrate_update = now;
                    if self.video_on {
                        effects.push(Effect::SetBitrate(target));
                    }
                }
            },
            PeerEvent::ChannelOpen { id, label } => {
                if same(&label, "input") {
                    self.channel = Some(id);
                    self.last_heartbeat = now;
                    effects.push(Effect::Hello);
                }
            },
            PeerEvent::ChannelClose { id } => {
                if self.is_input(id) {
                    effects.push(Effect::Release(self.release()));
                    self.channel = None;
                }
            },
        }
        assert(views(effects@) =~= step(old(self)@, event, now).1);
        effects
    }

    fn is_input(&self, id: u64) -> (b: bool)
        ensures
            b == (self@.channel == Some(id)),
    {
        match self.channel {
            Some(c) => c == id,
            None => false,
        }
    }

    /// Whether a message of a data channel is read: it comes over the channel of the viewer's
    /// input, and is not too long.
    pub fn reads(&self, id: u64, len: usize) -> (b: bool)
        ensures
            b == (self@.channel == Some(id) && len <= MAX_CHANNEL_MESSAGE),
    {
        self.is_input(id) && len <= MAX_CHANNEL_MESSAGE
    }

    /// Takes in a message of the viewer, which is a sign of life: what it calls for.
    pub fn input(&mut self, msg: InputMsg, now: u64) -> (action: Action)
        requires
            old(self).wf(),
            msg matches InputMsg::Move { dx, dy } ==> in_range(
                old(self)@.layout,
                old(self)@.monitor,
                dx,
                dy,
            ),
        ensures
            final(self).wf(),
            final(self)@ == (PeerState { last_heartbeat: now, ..old(self)@ }),
            calls_for(
                old(self)@.layout,
                old(self)@.monitor,
                old(self)@.held.to_set(),
                msg,
                action,
            ),
    {
        self.last_heartbeat = now;
        self.injector.handle(msg)
    }

    /// Takes in a message of the data channel, read as input and as anything else: what it calls for.
    /// What can be read as input is input. Only that is a sign of life.
    pub fn handle_channel(&mut self, input: Option<InputMsg>, control: Option<Control>, now: u64)
        -> (request: Request)
        requires
            old(self).wf(),
            input matches Some(InputMsg::Move { dx, dy }) ==> in_range(
                old(self)@.layout,
                old(self)@.monitor,
                dx,
                dy,
            ),
        ensures
            final(self).wf(),
            match (input, control) {
                (Some(msg), _) => final(self)@ == (PeerState { last_heartbeat: now, ..old(self)@ })
                    && (request matches Request::Input(action) && calls_for(
                    old(self)@.layout,
                    old(self)@.monitor,
                    old(self)@.held.to_set(),
                    msg,
                    action,
                )),
                (None, Some(Control::Monitor { name })) => final(self)@ == old(self)@ && request
                    == Request::Switch(name),
                (None, Some(Control::ClipSet { text })) => final(self)@ == old(self)@ && request
                    == Request::SetClipboard(text),
                (None, Some(Control::ClipGet)) => final(self)@ == old(self)@ && request
                    == Request::SendClipboard,
                (None, None) => final(self)@ == old(self)@ && request == Request::Ignore,
            },
    {
        match (input, control) {
            (Some(msg), _) => Request::Input(self.input(msg, now)),
            (None, Some(Control::Monitor { name })) => Request::Switch(name),
            (None, Some(Control::ClipSet { text })) => Request::SetClipboard(text),
            (None, Some(Control::ClipGet)) => Request::SendClipboard,
            (None, None) => Request::Ignore,
        }
    }

    /// Takes note of a key or button whose event has been sent.
    pub fn note(&mut self, code: u16, down: bool)
        requires
            old(self).wf(),
        ensures
            final(self).wf(),
            final(self)@ == (PeerState {
                held: order_after(old(self)@.held, code, down),
                ..old(self)@
            }),
    {
        self.injector.track(code, down);
    }

    /// Turns to the monitor of a name: which one it is. Until the switch is finished, nothing is
    /// captured: the old encoder is stopped first.
    pub fn begin_switch(&mut self, name: &str) -> (r: Option<usize>)
        requires
            old(self).wf(),
        ensures
            final(self).wf(),
            match r {
                Some(i) => first_named(old(self)@.monitors, name@, i as int) && final(self)@ == (
                PeerState { video_on: false, ..old(self)@ }),
                None => none_named(old(self)@.monitors, name@) && final(self)@ == old(self)@,
            },
    {
        let mut i: usize = 0;
        while i < self.monitors.len()
            invariant
                *self == *old(self),
                self.wf(),
                i <= self.monitors@.len(),
                forall|j: int| 0 <= j < i ==> (#[trigger] self@.monitors[j]).0 != name@,
            decreases self.monitors@.len() - i,
        {
            assert(self@.monitors[i as int].0 == self.monitors@[i as int].name@);
            if same(&self.monitors[i].name, name) {
                self.video_on = false;
                return Some(i);
            }
            i += 1;
        }
        None
    }

    /// The new monitor is being captured: what was held on the old one is released.
    pub fn finish_switch(&mut self, i: usize) -> (events: Vec<(Device, Event)>)
        requires
            old(self).wf(),
            i < old(self)@.monitors.len(),
        ensures
            final(self).wf(),
            final(self)@ == (PeerState {
                video_on: true,
                current: i as int,
                monitor: old(self)@.monitors[i as int].1,
                held: Seq::empty(),
                ..old(self)@
            }),
            events@ == released(old(self)@.held),
    {
        self.video_on = true;
        self.current = i;
        let area = self.monitors[i].rect();
        assert(area == self@.monitors[i as int].1);
        self.injector.set_monitor(area)
    }

    /// An encoded frame of `len` octets is there: the track to write it to, and its time stamp.
    pub fn video_frame(&mut self, len: u64, now: u64) -> (r: Option<(String, u8, u64)>)
        requires
            old(self).wf(),
            old(self)@.connected && old(self)@.video_track is Some ==> old(self)@.frames < u32::MAX
                && old(self)@.bytes + len <= u64::MAX,
        ensures
            final(self).wf(),
            match r {
                Some((mid, pt, time)) => old(self)@.connected && old(self)@.video_track == Some(
                    (mid@, pt),
                ) && time == ticks(now, old(self)@.t0, 90) && final(self)@ == (PeerState {
                    frames: (old(self)@.frames + 1) as u32,
                    bytes: (old(self)@.bytes + len) as u64,
                    ..old(self)@
                }),
                None => (!old(self)@.connected || old(self)@.video_track is None) && final(self)@
                    == old(self)@,
            },
    {
        if !self.connected {
            return None;
        }
        let (mid, pt): (String, u8) = match &self.video_track {
            Some(t) => (t.mid.clone(), t.pt),
            None => {
                return None;
            },
        };
        self.frames = self.frames + 1;
        self.bytes = self.bytes + len;
        let time: u64 = since(now, self.t0) / 1000 * 90 / 1000;
        Some((mid, pt, time))
    }

    /// A packet of sound is there: the track to write it to, and its time stamp.
    pub fn audio_packet(&self, now: u64) -> (r: Option<(String, u8, u64)>)
        ensures
            match r {
                Some((mid, pt, time)) => self@.connected && self@.audio_track == Some((mid@, pt))
                    && time == ticks(now, self@.t0, 48),
                None => !self@.connected || self@.audio_track is None,
            },
    {
        if !self.connected {
            return None;
        }
        match &self.audio_track {
            Some(t) => {
                let time: u64 = since(now, self.t0) / 1000 * 48 / 1000;
                Some((t.mid.clone(), t.pt, time))
            },
            None => None,
        }
    }

    /// Looks after the session: keys of a silent viewer are released, and a session whose
    /// connection has been lost for too long ends.
    pub fn pulse(&mut self, now: u64) -> (p: Pulse)
        requires
            old(self).wf(),
        ensures
            final(self).wf(),
            p.ended == (old(self)@.disconnected_since matches Some(t) && elapsed(now, t)
                > DISCONNECT_GRACE),
            final(self)@ == looked_after(old(self)@, now),
            if fell_silent(old(self)@, now) {
                p.release matches Some(events) && events@ == released(old(self)@.held)
            } else {
                p.release is None
            },
    {
        let ended = match self.disconnected_since {
            Some(t) => since(now, t) > DISCONNECT_GRACE,
            None => false,
        };
        let release = if since(now, self.last_heartbeat) > HEARTBEAT_TIMEOUT {
            Some(self.release())
        } else {
            None
        };
        Pulse { release, ended }
    }

    /// The statistics, if it is time for them; counting starts anew.
    pub fn take_stats(&mut self, now: u64) -> (r: Option<Stats>)
        requires
            old(self).wf(),
        ensures
            final(self).wf(),
            if elapsed(now, old(self)@.stats_since) >= STATS_EVERY {
                r == Some(
                    Stats {
                        frames: old(self)@.frames,
                        bytes: old(self)@.bytes,
                        nanos: elapsed(now, old(self)@.stats_since) as u64,
                        target: old(self)@.bitrate_kbps,
                    },
                ) && final(self)@ == (PeerState {
                    frames: 0,
                    bytes: 0,
                    stats_since: now,
                    ..old(self)@
                })
            } else {
                r is None && final(self)@ == old(self)@
            },
    {
        let nanos: u64 = since(now, self.stats_since);
        if nanos < STATS_EVERY {
            return None;
        }
        let stats = Stats {
            frames: self.frames,
            bytes: self.bytes,
            nanos,
            target: self.bitrate_kbps,
        };
        self.frames = 0;
        self.bytes = 0;
        self.stats_since = now;
        Some(stats)
    }

    /// The bitrate aimed at (kbit/s).
    pub fn bitrate(&self) -> (kbps: u32)
        ensures
            kbps == self@.bitrate_kbps,
    {
        self.bitrate_kbps
    }

    /// The data channel of the viewer's input, if it is open.
    pub fn input_channel(&self) -> (id: Option<u64>)
        ensures
            id == self@.channel,
    {
        self.channel
    }

    /// The bounding box of the monitors, and the monitor that pointer positions refer to.
    pub fn areas(&self) -> (r: (Rect, Rect))
        ensures
            r.0 == self@.layout,
            r.1 == self@.monitor,
    {
        self.injector.areas()
    }

    /// The name of the captured monitor.
    pub fn current_name(&self) -> (name: String)
        requires
            self.wf(),
        ensures
            name@ == self@.monitors[self@.current].0,
    {
        assert(self@.monitors[self.current as int].0 == self.monitors@[self.current as int].name@);
        self.monitors[self.current].name.clone()
    }

    /// What the viewer is told of the monitors.
    pub fn hello(&self) -> (m: String)
        requires
            self.wf(),
        ensures
            m@ == "{\"current\":"@ + json_string(self@.monitors[self@.current].0)
                + ",\"monitors\":["@ + monitors_json(self@.monitors) + "],\"t\":\"hello\"}"@,
    {
        hello_message(&self.monitors, &self.current_name())
    }

    /// How many frames and octets were sent since statistics were last sent.
    pub fn sent(&self) -> (r: (u32, u64))
        ensures
            r.0 == self@.frames,
            r.1 == self@.bytes,
    {
        (self.frames, self.bytes)
    }
}

/// The message for a monitor that does not exist.
pub fn no_monitor(name: &str) -> (s: String)
    ensures
        s@ == "no monitor "@ + name@,
{
    join2("no monitor ", name)
}

/// Every event keeps a session in order; the bitrate, above all, stays within its bounds.
pub proof fn events_keep_sessions_sound(s: PeerState, event: PeerEvent, now: u64)
    requires
        sound(s),
    ensures
        sound(step(s, event, now).0),
{
}

/// Losing the connection, or the input channel, leaves nothing held down, and says so to the input
/// devices.
pub proof fn lost_viewers_hold_nothing(s: PeerState, id: u64, now: u64)
    ensures
        step(s, PeerEvent::IceDisconnected, now).0.held.len() == 0,
        step(s, PeerEvent::IceDisconnected, now).1 == seq![EffectView::Release(released(s.held))],
        s.channel == Some(id) ==> step(s, (PeerEvent::ChannelClose { id }), now).0.held.len() == 0,
        s.channel == Some(id) ==> step(s, (PeerEvent::ChannelClose { id }), now).1 == seq![
            EffectView::Release(released(s.held)),
        ],
{
}

/// A viewer that silently disappears does not leave keys held down: once its last sign of life is
/// older than the timeout, looking after the session releases them.
pub proof fn silent_viewers_hold_nothing(s: PeerState, now: u64)
    ensures
        looked_after(s, now).held.len() > 0 ==> now <= s.last_heartbeat + HEARTBEAT_TIMEOUT,
{
}

/// Keyframes are forced only while the screen is captured, and never twice within the debounce
/// time: what forces one resets the clock, and the clock must have run for that long.
pub proof fn keyframes_are_debounced(s: PeerState, event: PeerEvent, now: u64)
    requires
        step(s, event, now).1.contains(EffectView::ForceKeyframe),
    ensures
        s.video_on,
        elapsed(now, s.last_keyframe_req) >= KEYFRAME_DEBOUNCE,
        step(s, event, now).0.last_keyframe_req == now,
{
}

/// The bitrate changes only by more than a tenth, and never twice within the update interval.
pub proof fn bitrate_changes_are_rare(s: PeerState, event: PeerEvent, now: u64)
    requires
        step(s, event, now).0.bitrate_kbps != s.bitrate_kbps,
    ensures
        event is BitrateEstimate,
        distance(step(s, event, now).0.bitrate_kbps as int, s.bitrate_kbps as int)
            > s.bitrate_kbps as int / 10,
        elapsed(now, s.last_bitrate_update) >= BITRATE_UPDATE_EVERY,
        step(s, event, now).0.last_bitrate_update == now,
{
}

/// The bitrate leaves headroom: it is at most four fifths of the estimate, unless it is already the
/// least that is allowed.
pub proof fn bitrates_leave_headroom(bps: u64)
    ensures
        target_for(bps) > MIN_BITRATE_KBPS ==> 1000 * target_for(bps) * 5 <= 4 * bps,
{
}

/// The time at which a connection was lost is that of the first sign of it, until it comes back.
pub proof fn grace_counts_from_the_first_loss(s: PeerState, now: u64, later: u64)
    requires
        s.disconnected_since is None,
    ensures
        step(
            step(s, PeerEvent::IceDisconnected, now).0,
            PeerEvent::IceDisconnected,
            later,
        ).0.disconnected_since == Some(now),
        step(step(s, PeerEvent::IceDisconnected, now).0, PeerEvent::IceOther, later).0
            == (PeerState { held: Seq::empty(), ..s }),
{
}

/// The encoder aims at the session's bitrate: whenever that changes while the screen is captured,
/// up or down, the encoder is told the new one and nothing else, and it is told of a bitrate at no
/// other time.
pub proof fn the_encoder_follows_the_session(s: PeerState, event: PeerEvent, now: u64, kbps: u32)
    ensures
        ({
            let (after, effects) = step(s, event, now);
            &&& after.bitrate_kbps != s.bitrate_kbps && s.video_on ==> effects == seq![
                EffectView::SetBitrate(after.bitrate_kbps),
            ]
            &&& effects.contains(EffectView::SetBitrate(kbps)) ==> s.video_on && kbps
                == after.bitrate_kbps && kbps != s.bitrate_kbps
        }),
{
    let (after, effects) = step(s, event, now);
    if effects.contains(EffectView::SetBitrate(kbps)) {
        let i = choose|i: int|
            0 <= i < effects.len() && effects[i] == EffectView::SetBitrate(kbps);
        assert(effects[i] is SetBitrate);
    }
}

/// A new estimate is taken up, whether it is higher or lower: the bitrate becomes four fifths of it,
/// in kbit/s and held between 2000 and 20000, if that is more than a tenth away and half a second has
/// gone by since the last change. Otherwise nothing changes.
pub proof fn estimates_are_taken_up(s: PeerState, bps: u64, now: u64)
    ensures
        ({
            let (after, effects) = step(s, PeerEvent::BitrateEstimate(bps), now);
            let share = 4 * (bps as int) / 5000;
            let wanted = if share < 2_000 {
                2_000
            } else if share > 20_000 {
                20_000
            } else {
                share
            };
            let far = 10 * (wanted - s.bitrate_kbps) > s.bitrate_kbps || 10 * (s.bitrate_kbps
                - wanted) > s.bitrate_kbps;
            if far && now >= s.last_bitrate_update + 500_000_000 {
                &&& after.bitrate_kbps == wanted
                &&& after.last_bitrate_update == now
            } else {
                &&& after == s
                &&& effects.len() == 0
            }
        }),
{
}

/// A keyframe that is asked for, or owed to a viewer that has just connected, is forced if the screen
/// is captured and a quarter of a second has gone by since the last was asked for.
pub proof fn keyframes_are_forced_when_due(s: PeerState, now: u64)
    ensures
        ({
            let (asked, forced) = step(s, PeerEvent::KeyframeRequest, now);
            let (up, greeted) = step(s, PeerEvent::Connected, now);
            let due = now >= s.last_keyframe_req + 250_000_000;
            &&& forced == if due && s.video_on {
                seq![EffectView::ForceKeyframe]
            } else {
                Seq::<EffectView>::empty()
            }
            &&& greeted.len() == 1 + forced.len()
            &&& greeted[0] is Notify
            &&& greeted.skip(1) == forced
            &&& asked == if due {
                PeerState { last_keyframe_req: now, ..s }
            } else {
                s
            }
            &&& up == (PeerState { connected: true, ..asked })
        }),
{
}

/// The owner of the desktop is told of every viewer that connects, and under which name the desktop
/// is reached.
pub proof fn the_desktop_is_told(s: PeerState, now: u64)
    ensures
        step(s, PeerEvent::Connected, now).1[0] == EffectView::Notify(
            "Remote session started"@,
            "Someone is viewing and controlling this PC via "@ + s.host,
        ),
{
}

/// What a session is changes only where an event is about it.
pub proof fn events_change_only_their_own(s: PeerState, event: PeerEvent, now: u64)
    ensures
        ({
            let after = step(s, event, now).0;
            &&& after.monitors == s.monitors
            &&& after.current == s.current
            &&& after.host == s.host
            &&& after.layout == s.layout
            &&& after.monitor == s.monitor
            &&& after.video_on == s.video_on
            &&& after.t0 == s.t0
            &&& after.frames == s.frames
            &&& after.bytes == s.bytes
            &&& after.stats_since == s.stats_since
            &&& after.video_track != s.video_track ==> event is MediaAdded
            &&& after.audio_track != s.audio_track ==> event is MediaAdded
            &&& after.channel != s.channel ==> event is ChannelOpen || event is ChannelClose
            &&& after.connected != s.connected ==> event is Connected
            &&& after.disconnected_since != s.disconnected_since ==> event is IceDisconnected
                || event is IceOther
            &&& after.last_heartbeat != s.last_heartbeat ==> event is ChannelOpen
            &&& after.last_keyframe_req != s.last_keyframe_req ==> event is KeyframeRequest
                || event is Connected
            &&& after.bitrate_kbps != s.bitrate_kbps ==> event is BitrateEstimate
            &&& after.last_bitrate_update != s.last_bitrate_update ==> event is BitrateEstimate
            &&& after.held != s.held ==> event is IceDisconnected || event is ChannelClose
        }),
{
}

/// Each effect has its own cause: keys are let go when a viewer is lost, the desktop is told when one
/// connects, and monitors are listed when the input channel opens.
pub proof fn effects_have_their_causes(s: PeerState, event: PeerEvent, now: u64, i: int)
    requires
        0 <= i < step(s, event, now).1.len(),
    ensures
        step(s, event, now).1[i] is Release ==> event is IceDisconnected || event is ChannelClose,
        step(s, event, now).1[i] is Notify ==> event is Connected,
        step(s, event, now).1[i] is Hello ==> event is ChannelOpen,
        step(s, event, now).1[i] is ForceKeyframe ==> event is KeyframeRequest || event is Connected,
        step(s, event, now).1[i] is SetBitrate ==> event is BitrateEstimate,
{
}

/// The time of a loss is set by the first sign of it and forgotten once the connection is back, and
/// the session has ended for good ten seconds after it.
pub proof fn losses_are_dated(s: PeerState, now: u64)
    ensures
        step(s, PeerEvent::IceDisconnected, now).0 == (PeerState {
            held: Seq::empty(),
            disconnected_since: Some(
                if s.disconnected_since is Some {
                    s.disconnected_since->0
                } else {
                    now
                },
            ),
            ..s
        }),
        step(s, PeerEvent::IceOther, now).0 == (PeerState { disconnected_since: None, ..s }),
        step(s, PeerEvent::IceOther, now).1.len() == 0,
{
}

/// The channel with the label `input`, and no other, carries the viewer's input. Its opening is a
/// sign of life and has the monitors listed. Its closing, and that of no other, lets everything go.
pub proof fn one_channel_carries_input(s: PeerState, id: u64, label: String, now: u64)
    ensures
        ({
            let (opened, told) = step(s, (PeerEvent::ChannelOpen { id, label }), now);
            let (closed, done) = step(s, (PeerEvent::ChannelClose { id }), now);
            &&& label@ == "input"@ ==> opened == (PeerState {
                channel: Some(id),
                last_heartbeat: now,
                ..s
            }) && told == seq![EffectView::Hello]
            &&& label@ != "input"@ ==> opened == s && told.len() == 0
            &&& s.channel == Some(id) ==> closed == (PeerState {
                channel: None,
                held: Seq::empty(),
                ..s
            }) && done.len() == 1
            &&& s.channel != Some(id) ==> closed == s && done.len() == 0
        }),
{
}

/// The payload type for the video is that of the first that is H.264 in packetization mode 1 and of
/// the baseline profile. Only if there is none, it is that of the first that is H.264 in
/// packetization mode 1, and without one there is no video.
pub proof fn baseline_video_is_preferred(payloads: Seq<Payload>)
    ensures
        match video_payload(payloads) {
            Some(pt) => exists|i: int| {
                let fits = |p: Payload| p.codec is H264 && p.packetization_mode == Some(1u8);
                let baseline = |p: Payload|
                    p.profile_level_id is Some && p.profile_level_id->0 as int / 65536 == 0x42;
                &&& 0 <= i < payloads.len()
                &&& (#[trigger] payloads[i]).pt == pt
                &&& fits(payloads[i])
                &&& if baseline(payloads[i]) {
                    forall|j: int|
                        0 <= j < i ==> !(fits(#[trigger] payloads[j]) && baseline(payloads[j]))
                } else {
                    &&& forall|j: int| 0 <= j < i ==> !fits(#[trigger] payloads[j])
                    &&& forall|j: int|
                        0 <= j < payloads.len() ==> !(fits(#[trigger] payloads[j]) && baseline(
                            payloads[j],
                        ))
                }
            },
            None => forall|j: int|
                0 <= j < payloads.len() ==> !((#[trigger] payloads[j]).codec is H264
                    && payloads[j].packetization_mode == Some(1u8)),
        },
{
    assert forall|id: u32| #[trigger] (id >> 16) == id as int / 65536 by {
        assert(id >> 16 == id / 65536) by (bit_vector);
    }
    let i = video_at(payloads, true);
    let k = video_at(payloads, false);
    if i < payloads.len() {
        assert(payloads[i].pt == video_payload(payloads)->0);
    } else if k < payloads.len() {
        assert(payloads[k].pt == video_payload(payloads)->0);
        assert(!carries_video(payloads[k], true));
    }
}

/// Where the first payload type is that can carry the video.
proof fn video_at(payloads: Seq<Payload>, baseline: bool) -> (i: int)
    ensures
        0 <= i <= payloads.len(),
        forall|j: int| 0 <= j < i ==> !carries_video(#[trigger] payloads[j], baseline),
        i < payloads.len() ==> carries_video(payloads[i], baseline) && first_video(
            payloads,
            baseline,
        ) == Some(payloads[i].pt),
        i == payloads.len() ==> first_video(payloads, baseline) is None,
    decreases payloads.len(),
{
    if payloads.len() == 0 || carries_video(payloads[0], baseline) {
        0
    } else {
        let rest = payloads.drop_first();
        let k = video_at(rest, baseline);
        assert forall|j: int| 0 <= j < k + 1 implies !carries_video(
            #[trigger] payloads[j],
            baseline,
        ) by {
            if j > 0 {
                assert(payloads[j] == rest[j - 1]);
            }
        }
        if k < rest.len() {
            assert(rest[k] == payloads[k + 1]);
        }
        k + 1
    }
}

/// The payload type for the sound is that of the first that is Opus; without one there is no sound.
pub proof fn sound_is_opus(payloads: Seq<Payload>)
    ensures
        match audio_payload(payloads) {
            Some(pt) => exists|i: int|
                0 <= i < payloads.len() && (#[trigger] payloads[i]).pt == pt && payloads[i].codec
                    is Opus && forall|j: int|
                    0 <= j < i ==> !((#[trigger] payloads[j]).codec is Opus),
            None => forall|j: int|
                0 <= j < payloads.len() ==> !((#[trigger] payloads[j]).codec is Opus),
        },
    decreases payloads.len(),
{
    if payloads.len() > 0 && payloads[0].codec != Codec::Opus {
        let rest = payloads.drop_first();
        sound_is_opus(rest);
        assert forall|j: int| 0 < j < payloads.len() implies #[trigger] payloads[j] == rest[j
            - 1] by {}
        if let Some(pt) = audio_payload(rest) {
            let i = choose|i: int|
                0 <= i < rest.len() && (#[trigger] rest[i]).pt == pt && rest[i].codec is Opus
                    && forall|j: int| 0 <= j < i ==> !((#[trigger] rest[j]).codec is Opus);
            assert(payloads[i + 1].pt == pt);
        }
    }
}

/// A negotiated track is written to with the payload type that suits it; without one the session
/// stays as it is. A track of one kind leaves that of the other alone.
pub proof fn tracks_get_their_payload(
    s: PeerState,
    mid: String,
    payloads: Vec<Payload>,
    now: u64,
)
    ensures
        ({
            let video = step(s, (PeerEvent::MediaAdded { mid, kind: MediaKind::Video, payloads }), now);
            let audio = step(s, (PeerEvent::MediaAdded { mid, kind: MediaKind::Audio, payloads }), now);
            &&& video.1.len() == 0 && audio.1.len() == 0
            &&& video_payload(payloads@) is None ==> video.0 == s
            &&& audio_payload(payloads@) is None ==> audio.0 == s
            &&& video_payload(payloads@) is Some ==> video.0 == (PeerState {
                video_track: Some((mid@, video_payload(payloads@)->0)),
                ..s
            })
            &&& audio_payload(payloads@) is Some ==> audio.0 == (PeerState {
                audio_track: Some((mid@, audio_payload(payloads@)->0)),
                ..s
            })
        }),
{
}

/// Keys are let go after more than a second of silence, and not before; nothing else changes.
pub proof fn silence_lets_go(s: PeerState, now: u64)
    ensures
        now > s.last_heartbeat + 1_000_000_000 ==> looked_after(s, now) == (PeerState {
            held: Seq::empty(),
            ..s
        }),
        now <= s.last_heartbeat + 1_000_000_000 ==> looked_after(s, now) == s,
        fell_silent(s, now) <==> now > s.last_heartbeat + 1_000_000_000,
{
}

/// Time stamps count from the start of the session: every millisecond adds as many ticks as the rate
/// has thousands, and they never run backwards.
pub proof fn time_stamps_keep_time(t0: u64, now: u64, later: u64, ms: int, khz: int)
    requires
        khz >= 0,
        now <= later,
    ensures
        ticks(t0, t0, khz) == 0,
        now <= t0 ==> ticks(now, t0, khz) == 0,
        0 <= ms && now == t0 + 1_000_000 * ms ==> ticks(now, t0, khz) == ms * khz,
        ticks(now, t0, khz) <= ticks(later, t0, khz),
{
    let a = elapsed(now, t0) / 1000;
    let b = elapsed(later, t0) / 1000;
    assert(0int * khz == 0) by (nonlinear_arith);
    assert(a * khz <= b * khz) by (nonlinear_arith)
        requires
            a <= b,
            khz >= 0,
    ;
    if 0 <= ms && now == t0 + 1_000_000 * ms {
        assert(a == 1000 * ms);
        assert((1000 * ms) * khz == 1000 * (ms * khz)) by (nonlinear_arith);
    }
}

/// How long a session may be out of touch, and how often it does what it does.
pub proof fn sessions_keep_to_their_times()
    ensures
        DISCONNECT_GRACE == 10 * 1_000_000_000,
        HEARTBEAT_TIMEOUT == 1_000_000_000,
        4 * KEYFRAME_DEBOUNCE == 1_000_000_000,
        2 * BITRATE_UPDATE_EVERY == 1_000_000_000,
        STATS_EVERY == 1_000_000_000,
        MAX_CHANNEL_MESSAGE == 2 * 1024 * 1024,
        MAX_UDP == 2000,
{
}

/// A name stands for the first monitor that has it: for one at most, and for none only if no monitor
/// has it.
pub proof fn names_stand_for_one_monitor(
    mons: Seq<(Seq<char>, Rect)>,
    name: Seq<char>,
    i: int,
    j: int,
)
    ensures
        first_named(mons, name, i) && first_named(mons, name, j) ==> i == j,
        first_named(mons, name, i) ==> mons[i].0 == name,
        first_named(mons, name, i) && 0 <= j < mons.len() && mons[j].0 == name ==> i <= j,
        none_named(mons, name) && 0 <= j < mons.len() ==> mons[j].0 != name,
        0 <= j < mons.len() && mons[j].0 == name && (forall|k: int|
            0 <= k < j ==> (#[trigger] mons[k]).0 != name) ==> first_named(mons, name, j),
        (forall|k: int| 0 <= k < mons.len() ==> (#[trigger] mons[k]).0 != name) ==> none_named(
            mons,
            name,
        ),
{
    if first_named(mons, name, i) && first_named(mons, name, j) {
        if i < j {
            assert(mons[i].0 != name);
        } else if j < i {
            assert(mons[j].0 != name);
        }
    }
    if first_named(mons, name, i) && 0 <= j < i {
        assert(mons[j].0 != name);
    }
}

/// Time passes from a moment on, and none has passed before it.
pub proof fn time_passes(now: u64, since: u64)
    ensures
        now >= since ==> since + elapsed(now, since) == now,
        now < since ==> elapsed(now, since) == 0,
{
}

/// A session always captures one of its monitors, holds nothing twice, and aims at a bitrate between
/// 2000 and 20000 kbit/s.
pub proof fn what_holds_of_every_session(s: PeerState)
    ensures
        sound(s) <==> 0 <= s.current < s.monitors.len() && s.held.no_duplicates() && 2_000
            <= s.bitrate_kbps <= 20_000,
{
}

} // verus!
