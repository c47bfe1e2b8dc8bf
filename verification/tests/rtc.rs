//! A viewer's session, its messages and its offer.

use desk_agent::desktop::Monitor;
use desk_agent::input::{Action, Device, InputMsg};
use desk_agent::messages::{
    answer_message, clipboard_message, error_message, failure_message, greeting, hello_message,
    ice_servers, parse_offer, pick_offer, turn_request, turn_url,
};
use desk_agent::rtc::{
    choose_audio, choose_video, no_monitor, target_bitrate, Codec, Control, Effect, MediaKind,
    NoMonitors, Payload, Peer, PeerEvent, Request, DISCONNECT_GRACE, HEARTBEAT_TIMEOUT, KEYFRAME_DEBOUNCE,
    MAX_CHANNEL_MESSAGE,
};
use desk_agent::text::precedes;
use desk_agent::sdp::{candidate_kinds, offer_of, offer_outcome, offers_relay, tally};

const S: u64 = 1_000_000_000;

fn mon(name: &str, x: i32) -> Monitor {
    Monitor { name: name.into(), x, y: 0, width: 1920, height: 1080 }
}

fn peer() -> Peer {
    match Peer::new(vec![mon("A", 0), mon("B", 1920)], "host".into(), 10 * S) {
        Ok(p) => p,
        Err(_) => panic!("no peer"),
    }
}

fn capturing() -> Peer {
    let mut p = peer();
    let i = p.begin_switch("A").unwrap();
    assert!(p.finish_switch(i).is_empty());
    p
}

#[test]
fn a_session_needs_a_monitor() {
    assert!(matches!(Peer::new(vec![], "host".into(), 10 * S), Err(NoMonitors)));
    let p = peer();
    assert_eq!(p.current_name(), "A");
    assert_eq!(p.bitrate(), 8000);
    assert_eq!(p.areas().0.w, 3840);
    assert_eq!(p.input_channel(), None);
}

#[test]
fn a_connection_is_announced_with_a_keyframe() {
    let mut p = capturing();
    let e = p.handle_event(PeerEvent::Connected, 10 * S);
    assert_eq!(e.len(), 2);
    match &e[0] {
        Effect::Notify { summary, body } => {
            assert_eq!(summary, "Remote session started");
            assert_eq!(body, "Someone is viewing and controlling this PC via host");
        }
        _ => panic!("no notice"),
    }
    assert!(matches!(e[1], Effect::ForceKeyframe));
    // The next request comes too soon.
    assert!(p.handle_event(PeerEvent::KeyframeRequest, 10 * S + 1).is_empty());
    let later = 10 * S + KEYFRAME_DEBOUNCE;
    assert_eq!(p.handle_event(PeerEvent::KeyframeRequest, later).len(), 1);
}

#[test]
fn nothing_is_forced_while_nothing_is_captured() {
    let mut p = peer();
    assert!(p.handle_event(PeerEvent::KeyframeRequest, 11 * S).is_empty());
    assert!(p.handle_event(PeerEvent::BitrateEstimate(1_000_000), 11 * S).is_empty());
    assert_eq!(p.bitrate(), 2000);
}

#[test]
fn the_bitrate_follows_the_estimate() {
    let mut p = capturing();
    // Too soon, then too little, then enough.
    assert!(p.handle_event(PeerEvent::BitrateEstimate(20_000_000), 10 * S + S / 4).is_empty());
    assert!(p.handle_event(PeerEvent::BitrateEstimate(11_000_000), 11 * S).is_empty());
    let e = p.handle_event(PeerEvent::BitrateEstimate(11_001_250), 11 * S);
    assert!(matches!(e[..], [Effect::SetBitrate(8801)]));
    assert_eq!(p.bitrate(), 8801);
    assert!(p.handle_event(PeerEvent::BitrateEstimate(u64::MAX), 11 * S + 1).is_empty());
    let e = p.handle_event(PeerEvent::BitrateEstimate(u64::MAX), 12 * S);
    assert!(matches!(e[..], [Effect::SetBitrate(20_000)]));
}

#[test]
fn four_fifths_of_the_estimate_in_kilobits() {
    let reference =
        |bps: u64| (((bps as f64 * 0.8) / 1000.0) as u32).clamp(2_000, 20_000);
    for bps in (0..30_000_000u64).step_by(777).chain((0..30_000_000).step_by(1250)) {
        for near in [bps, bps + 1, bps.saturating_sub(1)] {
            assert_eq!(target_bitrate(near), reference(near), "{near}");
        }
    }
    for bps in [u64::MAX, u64::MAX / 2, 1 << 53, (1 << 53) + 1] {
        assert_eq!(target_bitrate(bps), reference(bps));
    }
}

fn payload(pt: u8, codec: Codec, mode: Option<u8>, profile: Option<u32>) -> Payload {
    Payload { pt, codec, packetization_mode: mode, profile_level_id: profile }
}

#[test]
fn payload_types_are_chosen() {
    let list = vec![
        payload(96, Codec::Other, Some(1), Some(0x42e01f)),
        payload(97, Codec::H264, Some(0), Some(0x42e01f)),
        payload(98, Codec::H264, Some(1), Some(0x64001f)),
        payload(99, Codec::H264, Some(1), Some(0x42e01f)),
        payload(111, Codec::Opus, None, None),
    ];
    assert_eq!(choose_video(&list), Some(99));
    assert_eq!(choose_video(&list[..3]), Some(98));
    assert_eq!(choose_video(&list[..2]), None);
    assert_eq!(choose_audio(&list), Some(111));
    assert_eq!(choose_audio(&list[..4]), None);
}

#[test]
fn media_is_written_once_connected() {
    let mut p = capturing();
    let video = PeerEvent::MediaAdded {
        mid: "0".into(),
        kind: MediaKind::Video,
        payloads: vec![payload(99, Codec::H264, Some(1), None)],
    };
    let audio = PeerEvent::MediaAdded {
        mid: "1".into(),
        kind: MediaKind::Audio,
        payloads: vec![payload(111, Codec::Opus, None, None)],
    };
    assert!(p.handle_event(video, 10 * S).is_empty());
    assert!(p.handle_event(audio, 10 * S).is_empty());
    assert_eq!(p.video_frame(500, 11 * S), None);
    assert_eq!(p.audio_packet(11 * S), None);
    p.handle_event(PeerEvent::Connected, 11 * S);
    assert_eq!(p.video_frame(500, 11 * S + 12_345_678), Some(("0".into(), 99, 91_111)));
    assert_eq!(p.audio_packet(11 * S + 12_345_678), Some(("1".into(), 111, 48_592)));
    assert_eq!(p.sent(), (1, 500));

    assert_eq!(p.take_stats(10 * S + S - 1), None);
    let s = p.take_stats(12 * S).unwrap();
    assert_eq!((s.frames, s.bytes, s.nanos, s.target), (1, 500, 2 * S, 8000));
    assert_eq!(p.sent(), (0, 0));
    assert_eq!(p.take_stats(12 * S + 1), None);
}

#[test]
fn tracks_stay_without_a_usable_payload() {
    let mut p = capturing();
    p.handle_event(PeerEvent::Connected, 10 * S);
    let none = PeerEvent::MediaAdded { mid: "0".into(), kind: MediaKind::Video, payloads: vec![] };
    p.handle_event(none, 10 * S);
    assert_eq!(p.video_frame(1, 10 * S), None);
}

fn press(p: &mut Peer, name: &str, now: u64) {
    match p.input(InputMsg::Key { c: name.into(), d: true }, now) {
        Action::Emit { change: Some((code, down)), .. } => p.note(code, down),
        _ => panic!("not pressed"),
    }
}

#[test]
fn only_the_input_channel_counts() {
    let mut p = capturing();
    let open = |id, label: &str| PeerEvent::ChannelOpen { id, label: label.into() };
    assert!(p.handle_event(open(1, "chat"), 10 * S).is_empty());
    assert!(!p.reads(1, 10));
    assert!(matches!(p.handle_event(open(2, "input"), 10 * S)[..], [Effect::Hello]));
    assert_eq!(p.input_channel(), Some(2));
    assert!(p.reads(2, MAX_CHANNEL_MESSAGE));
    assert!(!p.reads(2, MAX_CHANNEL_MESSAGE + 1));
    press(&mut p, "KeyA", 10 * S);
    assert!(p.handle_event(PeerEvent::ChannelClose { id: 1 }, 10 * S).is_empty());
    match &p.handle_event(PeerEvent::ChannelClose { id: 2 }, 10 * S)[..] {
        [Effect::Release(events)] => {
            assert_eq!(events.len(), 1);
            assert_eq!((events[0].0, events[0].1.value), (Device::Keyboard, 0));
        }
        _ => panic!("not released"),
    }
    assert!(!p.reads(2, 1));
    assert!(p.release().is_empty());
}

#[test]
fn silent_and_lost_viewers_hold_nothing() {
    let mut p = capturing();
    press(&mut p, "ShiftLeft", 20 * S);
    let quiet = p.pulse(20 * S + HEARTBEAT_TIMEOUT);
    assert!(quiet.release.is_none() && !quiet.ended);
    let silent = p.pulse(20 * S + HEARTBEAT_TIMEOUT + 1);
    assert_eq!(silent.release.unwrap().len(), 1);
    assert!(p.release().is_empty());

    press(&mut p, "ShiftLeft", 30 * S);
    match &p.handle_event(PeerEvent::IceDisconnected, 30 * S)[..] {
        [Effect::Release(events)] => assert_eq!(events.len(), 1),
        _ => panic!("not released"),
    }
    p.handle_event(PeerEvent::IceDisconnected, 35 * S);
    assert!(!p.pulse(30 * S + DISCONNECT_GRACE).ended);
    assert!(p.pulse(30 * S + DISCONNECT_GRACE + 1).ended);
    p.handle_event(PeerEvent::IceOther, 41 * S);
    assert!(!p.pulse(99 * S).ended);
}

#[test]
fn monitors_are_switched() {
    let mut p = capturing();
    assert_eq!(p.begin_switch("C"), None);
    assert_eq!(no_monitor("C"), "no monitor C");
    press(&mut p, "KeyB", 10 * S);
    let i = p.begin_switch("B").unwrap();
    assert!(p.handle_event(PeerEvent::KeyframeRequest, 20 * S).is_empty());
    assert_eq!(p.finish_switch(i).len(), 1);
    assert_eq!(p.current_name(), "B");
    assert_eq!(p.areas().1.x, 1920);
    match p.input(InputMsg::Move { dx: 5, dy: 6 }, 20 * S) {
        Action::Emit { events, .. } => assert_eq!((events[0].value, events[1].value), (1925, 6)),
        _ => panic!("not moved"),
    }
    assert_eq!(
        p.hello(),
        "{\"current\":\"B\",\"monitors\":[\
         {\"height\":1080,\"name\":\"A\",\"width\":1920,\"x\":0,\"y\":0},\
         {\"height\":1080,\"name\":\"B\",\"width\":1920,\"x\":1920,\"y\":0}],\"t\":\"hello\"}"
    );
}

#[test]
fn messages_are_json() {
    let quoted = answer_message("v=0\r\n\"x\"");
    assert_eq!(quoted, "{\"sdp\":\"v=0\\r\\n\\\"x\\\"\",\"type\":\"answer\"}");
    let hello = hello_message(&vec![mon("A\"", -5)], "A\"");
    for text in [
        quoted.as_str(),
        failure_message(),
        &hello,
        &error_message("no monitor \\"),
        &clipboard_message("a\u{1}b"),
        &turn_request(),
        &greeting(&ice_servers(None)),
    ] {
        let v: serde_json::Value = serde_json::from_str(text).unwrap();
        // The members stand in the order in which they are written anew.
        assert_eq!(v.to_string(), text);
    }
    let v: serde_json::Value = serde_json::from_str(&hello).unwrap();
    assert_eq!(v["monitors"][0]["x"], -5);
    assert_eq!(v["current"], "A\"");
    assert_eq!(turn_request(), "{\"ttl\":86400}");
    assert_eq!(
        turn_url("k1"),
        "https://rtc.live.cloudflare.com/v1/turn/keys/k1/credentials/generate-ice-servers"
    );
}

#[test]
fn offers_are_recognised() {
    assert_eq!(parse_offer("{\"type\":\"offer\",\"sdp\":\"v=0\\r\\n\"}"), Some("v=0\r\n".into()));
    assert_eq!(parse_offer("{\"type\":\"answer\",\"sdp\":\"v=0\"}"), None);
    assert_eq!(parse_offer("{\"type\":\"offer\",\"sdp\":7}"), None);
    assert_eq!(parse_offer("{\"type\":\"offer\"}"), None);
    assert_eq!(parse_offer("[\"offer\"]"), None);
    assert_eq!(parse_offer("offer"), None);
    assert_eq!(pick_offer(Some("offer".into()), Some("s".into())), Some("s".into()));
    assert_eq!(pick_offer(None, Some("s".into())), None);
}

#[test]
fn relay_servers_are_passed_on() {
    let stun = "[{\"urls\":[\"stun:stun.cloudflare.com:3478\"]}]";
    assert_eq!(ice_servers(None), stun);
    assert_eq!(ice_servers(Some(b"not json")), stun);
    assert_eq!(ice_servers(Some(b"{\"other\":1}")), stun);
    assert_eq!(ice_servers(Some(b"{ \"iceServers\": [ {\"urls\": []} ] }")), "[{\"urls\":[]}]");
    assert_eq!(
        greeting(stun),
        "{\"iceServers\":[{\"urls\":[\"stun:stun.cloudflare.com:3478\"]}],\"type\":\"hello\"}"
    );
}

#[test]
fn candidates_are_counted_by_kind() {
    let offer = "v=0\r\na=candidate:1 1 udp 2113937151 a.local 5 typ host generation 0\r\n\
                 a=candidate:2 1 UDP 99 1.2.3.4 6 typ srflx raddr 0.0.0.0 rport 0\r\n\
                 a=candidate:3 1 Tcp 99 1.2.3.4 9 typ host tcptype active\r\n\
                 xa=candidate:4 1 udp 99 1.2.3.4 9 typ relay\r\n\
                 a=candidate:5 1 udp 99 1.2.3.4 9 typ host\r\n\
                 a=candidate:6 1 udp 99 typ\r\n\
                 a=candidate:7";
    let kinds = candidate_kinds(offer);
    assert_eq!(kinds, ["host", "srflx", "tcp", "host", "?", "?"]);
    assert!(!offers_relay(&kinds));
    assert_eq!(
        tally(&kinds),
        [("?".into(), 2), ("host".into(), 2), ("srflx".into(), 1), ("tcp".into(), 1)]
    );
    assert!(offers_relay(&candidate_kinds("a=candidate:4 1 udp 99 1.2.3.4 9 typ relay\n")));
    assert!(candidate_kinds("").is_empty());
}

#[test]
fn offers_are_read() {
    let text = "v=0\r\no=- 6564425948916445306 2 IN IP4 127.0.0.1\r\ns=-\r\nt=0 0\r\n";
    assert!(offer_of(text).is_ok());
    for bad in ["", "v=1\r\n", "hello"] {
        assert!(offer_of(bad).err().unwrap().starts_with("invalid SDP offer: SDP parse: "));
    }
    assert_eq!(
        offer_outcome(Err("why".into())).err(),
        Some("invalid SDP offer: why".to_string())
    );
    assert!(offer_outcome(Ok(offer_of(text).unwrap())).is_ok());
}

#[test]
fn texts_are_escaped_in_messages() {
    assert_eq!(
        answer_message("a\"\\\u{8}\t\n\u{c}\r\u{1}\u{1f}\u{7f}é/"),
        "{\"sdp\":\"a\\\"\\\\\\b\\t\\n\\f\\r\\u0001\\u001f\u{7f}é/\",\"type\":\"answer\"}"
    );
}

#[test]
fn offers_are_those_of_their_text() {
    let session = |id: u32| format!("v=0\r\no=- {id} 2 IN IP4 127.0.0.1\r\ns=-\r\nt=0 0\r\n");
    for id in [7, 8] {
        let offer = offer_of(&session(id)).unwrap();
        assert!(offer.to_sdp_string().contains(&format!(" {id} ")));
    }
}

#[test]
fn channel_messages_lead_where_they_should() {
    let mut p = capturing();
    let r = p.handle_channel(Some(InputMsg::ReleaseAll), Some(Control::ClipGet), 11 * S);
    assert!(matches!(r, Request::Input(Action::Release)));
    let r = p.handle_channel(Some(InputMsg::Heartbeat), None, 11 * S);
    assert!(matches!(r, Request::Input(Action::Nothing)));
    let r = p.handle_channel(None, Some(Control::Monitor { name: "B".into() }), 11 * S);
    assert!(matches!(r, Request::Switch(n) if n == "B"));
    let r = p.handle_channel(None, Some(Control::ClipSet { text: "x".into() }), 11 * S);
    assert!(matches!(r, Request::SetClipboard(t) if t == "x"));
    assert!(matches!(p.handle_channel(None, Some(Control::ClipGet), 11 * S), Request::SendClipboard));
    assert!(matches!(p.handle_channel(None, None, 11 * S), Request::Ignore));
}

#[test]
fn texts_are_ordered_by_their_characters() {
    assert!(precedes("", "a") && precedes("a", "ab") && precedes("Z", "a") && precedes("az", "b"));
    assert!(!precedes("a", "a") && !precedes("a", "") && !precedes("b", "az"));
    assert!(precedes("é", "\u{10000}") && precedes("\u{ffff}", "\u{10000}"));
}
