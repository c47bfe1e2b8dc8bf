//! Settings and remembered portal sessions; the command line; setup and the report.

use desk_agent::capture::{Encoder, EncoderChoice};
use desk_agent::cli::{parse_args, Command};
use desk_agent::config::{
    default_listen, default_state_dir, default_web_dir, temp_name, AccessConfig, Config, ConfigError,
    PortalState,
};
use desk_agent::desktop::Monitor;
use desk_agent::doctor::{
    finding, monitors_detail, picker_configured, plan, Check, Finding, Outcome, Report,
};
use desk_agent::net::{IpAddr, SocketAddr};
use desk_agent::password::{verify_password, HashError};
use desk_agent::setup::{
    credentials, credentials_of, password_of_line, password_typed, setup, terminal_qr, SetupError,
};
use desk_agent::totp::{check_totp, totp, TotpError};

fn config(listen: SocketAddr, origin: &str) -> Config {
    Config {
        listen,
        public_origin: origin.into(),
        state_dir: default_state_dir(),
        web_dir: default_web_dir(),
        encoder: EncoderChoice::Auto,
        udp_port: 0,
        access: AccessConfig {
            team_domain: "t".into(),
            aud: "a".into(),
            allowed_email: "e".into(),
        },
        turn: None,
    }
}

#[test]
fn settings_are_checked() {
    let ok = |o: &str| config(default_listen(), o).validate();
    assert_eq!(ok("https://desk.example.com"), Ok(()));
    assert_eq!(ok("https://desk.example.com//"), Ok(()));
    assert_eq!(ok("http://desk.example.com"), Err(ConfigError::BadOrigin));
    assert_eq!(ok("https://desk.example.com/x"), Err(ConfigError::BadOrigin));
    assert_eq!(ok("https://"), Err(ConfigError::BadOrigin));
    let open = SocketAddr::new(IpAddr::V4([0, 0, 0, 0]), 8750);
    let refused = config(open, "https://desk.example.com").validate();
    assert_eq!(refused, Err(ConfigError::NotLoopback));
    assert!(ConfigError::NotLoopback.message().starts_with("listen must be a loopback address"));
    let mut one = [0u8; 16];
    one[15] = 1;
    let six = SocketAddr::new(IpAddr::V6(one), 1);
    assert_eq!(config(six, "https://a").validate(), Ok(()));
}

#[test]
fn the_host_is_taken_from_the_origin() {
    let host = |o: &str| config(default_listen(), o).public_host();
    assert_eq!(host("https://desk.example.com"), "desk.example.com");
    assert_eq!(host("https://desk.example.com/"), "desk.example.com");
    assert_eq!(host("https://https://x"), "x");
}

#[test]
fn defaults_and_names() {
    assert_eq!(default_listen(), SocketAddr::new(IpAddr::V4([127, 0, 0, 1]), 8750));
    assert_eq!(default_state_dir(), "state");
    assert_eq!(default_web_dir(), "../web/dist");
    assert_eq!(temp_name("auth.json"), ".auth.json.tmp");
}

#[test]
fn portal_tokens_are_remembered() {
    let mut p = PortalState::default();
    assert_eq!(p.token("DP-1"), None);
    p.store("DP-1", "a");
    p.store("DP-2", "b");
    p.store("DP-1", "c");
    assert_eq!(p.token("DP-1"), Some("c".into()));
    assert_eq!(p.token("DP-2"), Some("b".into()));
    assert_eq!(p.len(), 2);
    let mut all: Vec<(String, String)> = (0..p.len()).map(|i| p.entry(i)).collect();
    all.sort();
    assert_eq!(all, [("DP-1".into(), "c".into()), ("DP-2".into(), "b".into())]);
}

fn args(list: &[&str]) -> Vec<String> {
    list.iter().map(|s| s.to_string()).collect()
}

#[test]
fn arguments_are_read() {
    let a = parse_args(&args(&["setup", "--config", "c.toml", "--qr-png", "q.png"]));
    assert_eq!(a.command, Command::Setup);
    assert_eq!(a.config.as_deref(), Some("c.toml"));
    assert_eq!(a.qr_png.as_deref(), Some("q.png"));
    assert!(!a.password_stdin && !a.insecure_local);
    let a = parse_args(&args(&["serve", "--insecure-local", "--config"]));
    assert_eq!(a.command, Command::Serve);
    assert!(a.insecure_local);
    assert_eq!(a.config, None);
    assert!(parse_args(&args(&["setup", "--password-stdin"])).password_stdin);
    assert_eq!(parse_args(&args(&["doctor"])).command, Command::Doctor);
    assert_eq!(parse_args(&args(&["--config", "serve"])).command, Command::Usage);
    assert_eq!(parse_args(&args(&[])).command, Command::Usage);
}

#[test]
fn passwords_are_taken_in() {
    assert_eq!(password_of_line("secret \r\n\n"), "secret ");
    assert_eq!(password_of_line("\r\n"), "");
    assert_eq!(password_typed("a".into(), "a".into()), Ok("a".into()));
    assert_eq!(password_typed("a".into(), "b".into()), Err(SetupError::Mismatch));
    assert_eq!(SetupError::Mismatch.message(), "passwords do not match");
    assert_eq!(SetupError::TooShort.message(), "use at least 12 characters");
}

#[test]
fn new_credentials_let_the_owner_in() {
    match setup("correct horse", "desk.example.com", "owner@example.com") {
        Ok((auth, t)) => {
            assert!(verify_password(&auth.password_hash, "correct horse"));
            assert_eq!(auth.last_totp_step, 0);
            let now = 1_800_000_000;
            assert_eq!(check_totp(&auth, &t.generate(now), now), Some(now / 30));
            let url = t.to_url().unwrap();
            assert!(url.contains(&auth.totp_secret));
            let picture = terminal_qr(&url).unwrap();
            assert!(picture.lines().count() > 20);
            assert!(picture.chars().all(|c| " \n\u{2580}\u{2584}\u{2588}".contains(c)));
        }
        Err(_) => panic!("refused"),
    }
}

#[test]
fn bad_credentials_are_refused() {
    let secret = || "GEZDGNBVGY3TQOJQGEZDGNBVGY3TQOJQ".to_string();
    let why = |p: &str, s: String, h: &str, a: &str| credentials(p, s, h, a).err();
    // Twelve characters are enough, however many octets they take.
    assert_eq!(why("éééééééééééé", secret(), "h", "a"), None);
    assert_eq!(why("eleven char", secret(), "h", "a"), Some(SetupError::TooShort));
    assert_eq!(
        why("twelve chars", "!".into(), "h", "a"),
        Some(SetupError::Totp(TotpError::BadSecret))
    );
    assert_eq!(
        why("twelve chars", secret(), "h:1", "a"),
        Some(SetupError::Totp(TotpError::InvalidIssuer { issuer: "h:1".into() }))
    );
    assert_eq!(
        why("twelve chars", secret(), "h", "a:b"),
        Some(SetupError::Totp(TotpError::InvalidAccountName { account_name: "a:b".into() }))
    );
    assert_eq!(
        why("twelve chars", "GEZDGNBV".into(), "h", "a"),
        Some(SetupError::Totp(TotpError::SecretTooShort { bits: 40 }))
    );
    assert!(terminal_qr(&"x".repeat(5000)).is_none());
}

fn noted(ok: bool, what: &str, detail: &str) -> Finding {
    Finding { ok, what: what.into(), detail: detail.into() }
}

#[test]
fn the_report_counts_failures() {
    let mut r = Report::default();
    assert_eq!(r.check(&noted(true, "config", "a (b)")), "  ✓ config — a (b)");
    assert_eq!(r.conclusion(), Ok("All checks passed.".into()));
    assert_eq!(r.check(&noted(false, "wl-copy", "")), "  ✗ wl-copy");
    assert_eq!(r.check(&noted(false, "x", "y")), "  ✗ x — y");
    assert_eq!(r.conclusion(), Err("2 check(s) failed".into()));
}

#[test]
fn findings_say_what_was_found() {
    let line = |o: Outcome| Report::default().check(&finding(o));
    let config = |settings| Outcome::Config { path: "c.toml".into(), settings };
    assert_eq!(line(config(Ok("https://a".into()))), "  ✓ config — c.toml (https://a)");
    assert_eq!(line(config(Err("no".into()))), "  ✗ config — no");
    let element = |found| Outcome::Element { name: "opusenc", found };
    assert_eq!(line(element(true)), "  ✓ GStreamer element opusenc");
    assert_eq!(line(element(false)), "  ✗ GStreamer element opusenc — missing plugin");
    assert_eq!(
        line(Outcome::Encoder(Ok(Encoder::Vaapi))),
        "  ✓ H.264 encoder — VA-API (vah264enc)"
    );
    assert_eq!(line(Outcome::Encoder(Err("none".into()))), "  ✗ H.264 encoder — none");
    assert_eq!(line(Outcome::Uinput(None)), "  ✓ write access to /dev/uinput");
    assert_eq!(
        line(Outcome::Uinput(Some("denied".into()))),
        "  ✗ write access to /dev/uinput — denied"
    );
    assert_eq!(line(Outcome::Portal(Some("gone".into()))), "  ✗ ScreenCast portal — gone");
    assert_eq!(line(Outcome::Portal(None)), "  ✓ ScreenCast portal");
    let tool = |found| Outcome::Tool { name: "wl-copy", found };
    assert_eq!(line(tool(false)), "  ✗ wl-copy");
    assert_eq!(line(tool(true)), "  ✓ wl-copy");
}

#[test]
fn the_checks_come_in_order() {
    let with = |choice| {
        vec![
            Check::Element("pipewiresrc"),
            Check::Element("pulsesrc"),
            Check::Element("opusenc"),
            Check::Element("h264parse"),
            Check::Element("appsink"),
            Check::Element("videoconvert"),
            Check::Encoder(choice),
            Check::Uinput,
            Check::Monitors,
            Check::Tool("wl-copy"),
            Check::Tool("wl-paste"),
            Check::Tool("notify-send"),
            Check::Picker,
            Check::Portal,
        ]
    };
    assert_eq!(plan(Some(EncoderChoice::X264)), with(EncoderChoice::X264));
    // Settings that cannot be used leave the choice open.
    assert_eq!(plan(None), with(EncoderChoice::Auto));
}

#[test]
fn the_report_names_monitors_and_picker() {
    let m = |name: &str, width, height| Monitor { name: name.into(), x: 0, y: 0, width, height };
    assert_eq!(
        monitors_detail(&vec![m("DP-1", 1920, 1080), m("DP-2", -1, 0)]),
        "DP-1 1920x1080, DP-2 -1x0"
    );
    assert_eq!(monitors_detail(&vec![]), "");
    let f = finding(Outcome::Monitors(Ok(vec![m("DP-1", 1920, 1080)])));
    assert_eq!((f.ok, f.what.as_str()), (true, "Hyprland monitors"));
    assert_eq!(f.detail, "DP-1 1920x1080");
    let f = finding(Outcome::Monitors(Err("timed out".into())));
    assert_eq!((f.ok, f.what.as_str()), (false, "Hyprland monitors (hyprctl)"));
    assert!(picker_configured("custom_picker_binary = /opt/desk-picker\n"));
    assert!(!picker_configured("desk-picke"));
    assert_eq!(finding(Outcome::Picker("".into())).detail, "run scripts/setup.sh");
    assert!(finding(Outcome::Picker("desk-picker".into())).ok);
}

#[test]
fn credentials_hold_the_hash_and_the_secret() {
    let secret = "GEZDGNBVGY3TQOJQGEZDGNBVGY3TQOJQ";
    let made = || totp(secret, "host", "me").ok().unwrap();
    let (auth, t) = credentials_of(Ok("h".into()), secret.into(), made()).ok().unwrap();
    assert_eq!((auth.password_hash.as_str(), auth.totp_secret.as_str()), ("h", secret));
    assert_eq!(auth.last_totp_step, 0);
    assert_eq!((t.issuer.as_str(), t.account.as_str()), ("host", "me"));
    let failed = HashError { reason: "out of memory".into() };
    match credentials_of(Err(failed), secret.into(), made()) {
        Err(e) => {
            assert_eq!(e.message(), "hashing failed: out of memory");
            assert!(matches!(e, SetupError::Hashing(h) if h.reason == "out of memory"));
        }
        Ok(_) => panic!("no hash"),
    }
}

#[test]
fn setup_errors_give_their_reason() {
    let said = |e: TotpError| SetupError::Totp(e).message();
    assert_eq!(said(TotpError::BadSecret), "bad TOTP secret: ParseBase32");
    assert_eq!(
        said(TotpError::InvalidIssuer { issuer: "a:\"b\n".into() }),
        "TOTP setup failed: InvalidIssuer { issuer: \"a:\\\"b\\n\" }"
    );
    assert_eq!(
        said(TotpError::InvalidAccountName { account_name: "é:".into() }),
        "TOTP setup failed: InvalidAccountName { account_name: \"é:\" }"
    );
    assert_eq!(
        said(TotpError::SecretTooShort { bits: 120 }),
        "TOTP setup failed: SecretTooShort { bits: 120 }"
    );
}

#[test]
fn a_whole_report_passes_or_counts() {
    let run = |well: bool| {
        let why = || "why".to_string();
        let mut r = Report::default();
        let mut lines = 1;
        let settings = if well { Ok("https://a".to_string()) } else { Err(why()) };
        r.check(&finding(Outcome::Config { path: "c.toml".into(), settings }));
        for check in plan(None) {
            let outcome = match check {
                Check::Element(name) => Outcome::Element { name, found: well },
                Check::Encoder(_) => {
                    Outcome::Encoder(if well { Ok(Encoder::X264) } else { Err(why()) })
                }
                Check::Uinput => Outcome::Uinput((!well).then(why)),
                Check::Monitors => Outcome::Monitors(if well { Ok(vec![]) } else { Err(why()) }),
                Check::Tool(name) => Outcome::Tool { name, found: well },
                Check::Picker => Outcome::Picker(if well { "desk-picker".into() } else { why() }),
                Check::Portal => Outcome::Portal((!well).then(why)),
            };
            r.check(&finding(outcome));
            lines += 1;
        }
        (lines, r.conclusion())
    };
    assert_eq!(run(true), (15, Ok("All checks passed.".into())));
    assert_eq!(run(false), (15, Err("15 check(s) failed".into())));
}
