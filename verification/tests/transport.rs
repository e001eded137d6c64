use dialf::audio::tool_detect::Os;
use dialf::config::Config;
use dialf::daemon::{DaemonState, InboundHandler};
use dialf::hex::{hex, nibble_from, unhex};
use dialf::hub::Hub;
use dialf::jobs::runner::{StepEnd, StepOutcome, CALL_ENDED_SUMMARY};
use dialf::protocol::{Action, CallState, Direction, PhoneToServer};
use dialf::reachability::Distro;
use dialf::service::{
    command_failed, launchd_domain, launchd_plist, run, service_name, systemd_unit, unit_contents,
    unit_path, write_failed, Scope,
};
use dialf::table::{put_in_order, stands_before, Table};
use dialf::transport::control_server::{
    bad_request, event_response, parse_octal_mode, serve_autoanswer, stop_serving,
};
use dialf::transport::discovery::{
    advertise, bad_address, bare_service_type, confirm, spawn_finding, stale_advertiser, start,
    Advert, Confirm, Confirmed, ListenAt, StartPlan,
};
use dialf::transport::phone_server::{
    answer_failed, check_hello, connect, disconnect, handle_phone_msg, is_relaunch, job_events,
    job_failed, load_failed, reap_stale, trigger_autoanswer, AnswerPlan, Effect, Greeting,
    HelloRefusal, STALE_AFTER_MS,
};

fn s(t: &str) -> String {
    t.to_string()
}

// --- control socket ------------------------------------------------------------

#[test]
fn parse_octal_mode_variants() {
    assert_eq!(parse_octal_mode("0660").unwrap(), 0o660);
    assert_eq!(parse_octal_mode("660").unwrap(), 0o660);
    assert_eq!(parse_octal_mode("0o640").unwrap(), 0o640);
    assert_eq!(parse_octal_mode(" 0600 ").unwrap(), 0o600);
    assert!(parse_octal_mode("nope").is_err());
    assert!(parse_octal_mode("0899").is_err()); // 8 and 9 aren't octal digits
    assert!(parse_octal_mode("").is_err());
    assert_eq!(parse_octal_mode("37777777777").unwrap(), u32::MAX);
    assert!(parse_octal_mode("40000000000").is_err());
}

fn state() -> DaemonState {
    let mut config = Config::default();
    config.autoanswer.insert(s("+1"), Some(s("jobs/a.yaml")));
    config.autoanswer.insert(s("+2"), None);
    DaemonState::new(config, Some(s("/etc/dialf")), Table::new())
}

#[test]
fn a_serve_session_leaves_no_trace() {
    let mut st = state();
    let numbers = vec![s("+1"), s("+9")];
    let session = serve_autoanswer(&mut st, &numbers, "/tmp/s.yaml", &Some(s("p"))).unwrap();
    assert_eq!(session.confirm, "serving inbound: +1, +9 (overrides config)");
    assert_eq!(
        st.resolve_inbound("+9"),
        Some(InboundHandler::Job { path: s("/tmp/s.yaml"), device: Some(s("p")) })
    );
    let err = serve_autoanswer(&mut st, &numbers, "/tmp/t.yaml", &None).unwrap_err();
    assert!(err.contains("already running"), "{err}");
    stop_serving(&mut st, session);
    assert_eq!(st.resolve_inbound("+9"), None);
    assert_eq!(
        st.resolve_inbound("+1"),
        Some(InboundHandler::Job { path: s("/etc/dialf/jobs/a.yaml"), device: None })
    );
    assert!(serve_autoanswer(&mut st, &numbers, "/tmp/t.yaml", &None).is_ok());
}

#[test]
fn frames_of_the_control_socket() {
    let e = event_response("4", s("hi"));
    assert_eq!((e.id.as_str(), e.done, e.ok), ("4", false, Some(true)));
    let b = bad_request("no op");
    assert_eq!((b.done, b.ok), (true, Some(false)));
    assert!(b.error.unwrap().contains("no op"));
}

// --- phones --------------------------------------------------------------------

#[test]
fn relaunch_only_on_changed_instance_id() {
    assert!(is_relaunch("b", Some("a"))); // changed -> app relaunched
    assert!(!is_relaunch("a", Some("a"))); // unchanged -> reconnect
    assert!(!is_relaunch("a", None)); // first sighting -> reconnect
}

fn hello(key: &str) -> PhoneToServer {
    PhoneToServer::Hello {
        device_id: s("p"),
        name: s("Pixel"),
        key: s(key),
        caps: Vec::new(),
        app_version: None,
        instance_id: s("i1"),
    }
}

fn greeting(instance: &str) -> Greeting {
    Greeting { device_id: s("p"), name: s("Pixel"), instance_id: s(instance) }
}

fn call(id: &str, state: CallState, number: &str, direction: Direction) -> PhoneToServer {
    PhoneToServer::CallState { call_id: s(id), state, number: Some(s(number)), direction }
}

#[test]
fn a_phone_needs_the_key_and_a_hello() {
    assert_eq!(check_hello(hello("k"), "k").unwrap().device_id, "p");
    match check_hello(hello("x"), "k") {
        Err(HelloRefusal::BadKey(e)) => assert_eq!(e, "rejected device `p`: bad shared key"),
        other => panic!("{other:?}"),
    }
    let beat = PhoneToServer::Heartbeat { ts: 1, battery: None };
    assert!(matches!(check_hello(beat, "k"), Err(HelloRefusal::NotHello(_))));
}

#[test]
fn a_relaunch_stops_the_job_and_a_reconnect_keeps_the_call() {
    let mut st = state();
    let mut hub = Hub::new();
    let first = connect(&mut st, &mut hub, greeting("i1"), "10.0.0.2", 5);
    assert!(first.aborted.is_none());
    handle_phone_msg(&mut st, &mut hub, "p", call("c1", CallState::Active, "+7", Direction::Out), 6);
    let card = st.acquire_card().unwrap();
    // A plain reconnect.
    let second = connect(&mut st, &mut hub, greeting("i1"), "10.0.0.2", 7);
    assert!(second.aborted.is_none());
    assert!(st.registry.get("p").unwrap().current_call.is_some());
    assert!(!disconnect(&mut st, &mut hub, "p", first.gen));
    // The app was launched anew.
    let third = connect(&mut st, &mut hub, greeting("i2"), "10.0.0.2", 8);
    assert_eq!(third.aborted.as_deref(), Some("p app relaunched → job aborted"));
    assert!(st.job_abort);
    assert!(st.registry.get("p").unwrap().current_call.is_none());
    st.release_card(card);
    assert!(disconnect(&mut st, &mut hub, "p", third.gen));
    assert!(st.registry.get("p").is_none());
}

#[test]
fn heartbeats_keep_a_phone_alive() {
    let mut st = state();
    let mut hub = Hub::new();
    connect(&mut st, &mut hub, greeting("i1"), "10.0.0.2", 0);
    let beat = PhoneToServer::Heartbeat { ts: 1, battery: Some(50) };
    let effects = handle_phone_msg(&mut st, &mut hub, "p", beat, 1_000);
    assert!(matches!(effects[..], [Effect::AckHeartbeat]));
    assert!(reap_stale(&mut st, &mut hub, 1_000 + STALE_AFTER_MS).is_empty());
    assert_eq!(
        reap_stale(&mut st, &mut hub, 1_001 + STALE_AFTER_MS),
        vec![s("device p dropped (stale connection — no heartbeat)")]
    );
    assert!(st.registry.get("p").is_none());
    assert!(hub.send_frame("p").is_none());
}

#[test]
fn only_configured_numbers_are_answered() {
    let mut st = state();
    let mut hub = Hub::new();
    connect(&mut st, &mut hub, greeting("i1"), "10.0.0.2", 0);
    for (number, direction) in [("+8", Direction::In), ("+1", Direction::Out)] {
        let ring = call("c", CallState::Ringing, number, direction);
        assert!(handle_phone_msg(&mut st, &mut hub, "p", ring, 1).is_empty());
    }
    let ring = call("c", CallState::Ringing, "+2", Direction::In);
    let mut effects = handle_phone_msg(&mut st, &mut hub, "p", ring, 1);
    match effects.pop() {
        Some(Effect::AutoAnswer { call_id, number, handler }) => {
            let plan = trigger_autoanswer(&mut st, "p", call_id, number, handler);
            match plan {
                AnswerPlan::Answer(Action::Answer { call_id }) => assert_eq!(call_id, Some(s("c"))),
                other => panic!("{other:?}"),
            }
        }
        other => panic!("{other:?}"),
    }
}

#[test]
fn a_job_answers_where_the_card_is_free_and_the_phone_is_the_right_one() {
    let job = |device: Option<&str>| InboundHandler::Job { path: s("/j.yaml"), device: device.map(s) };
    let mut st = state();
    let plan = trigger_autoanswer(&mut st, "p", s("c"), Some(s("+1")), job(Some("other")));
    assert!(matches!(plan, AnswerPlan::Ignore));
    let card = match trigger_autoanswer(&mut st, "p", s("c"), Some(s("+1")), job(None)) {
        AnswerPlan::Run { card, path, number, .. } => {
            assert_eq!((path.as_str(), number.as_str()), ("/j.yaml", "+1"));
            card
        }
        other => panic!("{other:?}"),
    };
    let plan = trigger_autoanswer(&mut st, "p", s("c"), Some(s("+1")), job(None));
    assert!(matches!(plan, AnswerPlan::Busy(_)));
    st.release_card(card);
}

#[test]
fn a_call_that_outlived_a_crash_is_hung_up() {
    let mut orphans = Table::new();
    orphans.insert(s("p"), s("c1"));
    let mut st = DaemonState::new(Config::default(), None, orphans);
    let mut hub = Hub::new();
    connect(&mut st, &mut hub, greeting("i1"), "10.0.0.2", 0);
    let active = call("c1", CallState::Active, "+7", Direction::Out);
    let effects = handle_phone_msg(&mut st, &mut hub, "p", active, 1);
    assert_eq!(effects.len(), 3);
    assert!(matches!(&effects[1], Effect::Fire(Action::Hangup { call_id: Some(c) }) if c == "c1"));
    // A call of somebody's own is left alone.
    let active = call("c2", CallState::Active, "+7", Direction::Out);
    assert!(handle_phone_msg(&mut st, &mut hub, "p", active, 2).is_empty());
    // One that a job drives gets a marker, which goes with the call.
    let card = st.acquire_card().unwrap();
    let active = call("c3", CallState::Active, "+7", Direction::Out);
    let effects = handle_phone_msg(&mut st, &mut hub, "p", active, 3);
    assert!(matches!(&effects[..], [Effect::WriteMarker(c)] if c == "c3"));
    let ended = call("c3", CallState::Ended, "+7", Direction::Out);
    let effects = handle_phone_msg(&mut st, &mut hub, "p", ended, 4);
    assert!(matches!(effects[..], [Effect::RemoveMarker]));
    st.release_card(card);
}

#[test]
fn serving_clients_are_told_how_a_job_went() {
    let o = |summary: &str| StepOutcome {
        index: 0,
        id: None,
        step_type: "log",
        description: None,
        t_start_ms: 0,
        t_end_ms: 0,
        end_reason: StepEnd::Completed,
        summary: s(summary),
    };
    let done = job_events("+1", &vec![o("wait 5ms")]);
    assert_eq!(done, vec![s("+1 → done")]);
    let cut = job_events("+1", &vec![o("a"), o(CALL_ENDED_SUMMARY), o("audio.play skipped")]);
    assert_eq!(
        cut,
        vec![s("+1 → caller hung up"), s("  audio.play skipped"), s("waiting for the next call")]
    );
    for line in [answer_failed("+1", "why"), load_failed("+1", "why"), job_failed("+1", "why")] {
        assert!(line.starts_with("+1 → ") && line.contains("why"), "{line}");
    }
}

// --- discovery -----------------------------------------------------------------

#[test]
fn the_responder_is_asked_to_advertise() {
    assert_eq!(bare_service_type("_dialfd._tcp.local."), "_dialfd._tcp");
    assert_eq!(bare_service_type("_dialfd._tcp"), "_dialfd._tcp");
    let a = advertise(Os::Linux, "host", 8765, "1.0");
    assert_eq!(a.program, "avahi-publish");
    assert_eq!(a.args.join(" "), "-s host _dialfd._tcp 8765 ver=1.0");
    let a = advertise(Os::MacOs, "host", 8765, "1.0");
    assert_eq!(a.program, "dns-sd");
    assert_eq!(a.args.join(" "), "-R host _dialfd._tcp local. 8765 ver=1.0");
}

#[test]
fn a_responder_is_believed_unless_it_stops() {
    let d = Distro::Debian;
    let line = |l: &str| confirm(Confirm::Line(s(l)), d);
    assert!(matches!(line("Established under name 'host'"), Confirmed::Yes));
    assert!(matches!(line("Connecting"), Confirmed::NotYet));
    assert!(matches!(confirm(Confirm::Timeout, d), Confirmed::Yes));
    assert!(matches!(confirm(Confirm::Stopped(s("no daemon")), d), Confirmed::Failed(_)));
    let f = spawn_finding(Os::Linux, true, "", d);
    assert!(f.problem.contains("not installed"), "{}", f.problem);
    assert!(spawn_finding(Os::MacOs, true, "gone", d).problem.ends_with("gone"));
    assert!(bad_address("x", "e").problem.contains("`x`"));
}

#[test]
fn an_advertisement_that_ends_is_reported() {
    let mut ad = Advert::Active { via: "dns-sd" };
    assert_eq!((ad.report().state, ad.report().via), ("advertising", Some("dns-sd")));
    ad.note_exit("exit status: 1", " said ", Distro::Other);
    let r = ad.report();
    assert_eq!(r.state, "failed");
    assert_eq!(r.failure.unwrap().problem, "dns-sd exited (exit status: 1): said");
    let mut off = Advert::Loopback;
    off.note_exit("x", "y", Distro::Other);
    assert_eq!((off.report().state, off.report().reason), ("off", Some("ws_bind is loopback")));
}

#[test]
fn advertisers_without_a_daemon_are_stale() {
    assert_eq!(stale_advertiser("123 1 avahi-publish -s h _dialfd._tcp 8765"), Some(123));
    assert_eq!(stale_advertiser("123 77 avahi-publish -s h _dialfd._tcp 8765"), None);
    assert_eq!(stale_advertiser("123 1 avahi-publish -s h _other._tcp 8765"), None);
    assert_eq!(stale_advertiser(""), None);
}

// --- the system's service ------------------------------------------------------

#[test]
fn the_unit_stands_where_the_system_looks() {
    assert_eq!(service_name(), "build.agora.dialfd.service");
    for (os, scope) in [(Os::Linux, Scope::User), (Os::MacOs, Scope::User)] {
        assert!(unit_path(os, scope, "/home/u").starts_with("/home/u/"), "{:?}", os);
    }
    for os in [Os::Linux, Os::MacOs] {
        let p = unit_path(os, Scope::System, "/home/u");
        assert!(!p.contains("/home/u"), "{p}");
    }
    let unit = systemd_unit("/bin/dialfd", Some("/c.yaml"), Scope::User);
    assert!(unit.contains("/bin/dialfd") && unit.contains("/c.yaml"), "{unit}");
    assert!(unit.contains("\nExecStart=/bin/dialfd daemon --config /c.yaml\n"), "{unit}");
    let plain = systemd_unit("/bin/dialfd", None, Scope::System);
    assert!(plain.contains("\nExecStart=/bin/dialfd daemon\n"), "{plain}");
    assert!(plain.ends_with("WantedBy=multi-user.target\n"), "{plain}");
    assert_eq!(unit_contents(Os::Linux, "/bin/dialfd", Some("/c.yaml"), Scope::User, "/h"), unit);
    let plist = launchd_plist("/bin/dialfd", None, Scope::User, "/h");
    assert!(plist.contains("<string>/bin/dialfd</string>"), "{plist}");
    let plist = launchd_plist("/bin/dialfd", Some("/c.yaml"), Scope::User, "/h");
    let args = "    <string>/bin/dialfd</string>\n    <string>daemon</string>\n    <string>--config</string>\n    <string>/c.yaml</string>\n";
    assert!(plist.contains(args), "{plist}");
    assert_eq!(launchd_domain(Scope::User, 501), "gui/501");
    assert_eq!(launchd_domain(Scope::System, 501), "system");
}

#[test]
fn service_commands_fail_with_a_reason() {
    let cmds = run(dialf::service::Action::Start, Os::Linux, Scope::User, 501, "/u");
    assert!(!cmds.is_empty());
    assert_eq!(cmds[0].program, "systemctl");
    let e = command_failed(&cmds[0], "exit status: 1");
    assert!(e.contains("systemctl") && e.contains("exit status: 1"), "{e}");
    assert!(write_failed("/u", true, "denied").contains("/u"));
    assert!(write_failed("/u", false, "full").contains("full"));
}

// --- hex and tables ------------------------------------------------------------

#[test]
fn bytes_go_to_hex_and_back() {
    assert_eq!(hex(&[0, 10, 255]), "000aff");
    assert_eq!(unhex("000AfF"), Some(vec![0, 10, 255]));
    assert_eq!(unhex("0"), None);
    assert_eq!(unhex("0g"), None);
    assert_eq!(nibble_from('c'), Some(12));
    assert_eq!(nibble_from('g'), None);
    for b in 0..=255u8 {
        assert_eq!(unhex(&hex(&[b])), Some(vec![b]));
    }
}

#[test]
fn tables_hold_one_value_per_key() {
    let mut t: Table<u8> = Table::new();
    t.insert(s("b"), 1);
    t.insert(s("a"), 2);
    t.insert(s("b"), 3);
    assert_eq!(t.get("b"), Some(&3));
    *t.get_mut("a").unwrap() = 9;
    assert_eq!(t.sorted_keys(), vec![s("a"), s("b")]);
    assert_eq!(t.remove("a"), Some(9));
    assert!(!t.contains("a"));
    t.remove_all(&vec![s("b"), s("x")]);
    assert!(t.sorted_keys().is_empty());
    let mut keys = vec![s("a"), s("c")];
    put_in_order(&mut keys, s("b"));
    assert_eq!(keys, vec![s("a"), s("b"), s("c")]);
    assert!(stands_before("a", "ab") && !stands_before("a", "a"));
}

#[test]
fn a_loopback_bind_is_not_advertised() {
    let at = |loopback| Ok(ListenAt { loopback, port: 8765 });
    let plan = start(Os::Linux, "127.0.0.1:8765", at(true), "me", "1");
    assert!(matches!(plan, StartPlan::Reap(Advert::Loopback)), "{plan:?}");
    match start(Os::Linux, "0.0.0.0:8765", at(false), "me", "1") {
        StartPlan::Run(tool) => {
            assert_eq!(tool.program, "avahi-publish");
            assert_eq!(tool.args[3..], ["8765".to_string(), "ver=1".to_string()]);
        }
        other => panic!("{other:?}"),
    }
    match start(Os::MacOs, "nowhere", Err("bad".to_string()), "me", "1") {
        StartPlan::Refuse(Advert::Failed(f)) => {
            assert_eq!(f.problem, "ws_bind `nowhere` is not an address: bad");
        }
        other => panic!("{other:?}"),
    }
}
