use dialf::adb_link::{
    after_connect, before_connect, classify_connect, confirm_connect, drive, endpoint, expand_home,
    find_adb, finish_check, host_state, on_report, resolve_adb, serials, AdbReport, AdbState, AdbStatus,
    Backoff, Drive, Link, Listed, ReportPlan, MAX_RETRY_MS,
};
use dialf::search::Search;
use dialf::share::adb::Device;

#[test]
fn connected_output_in_both_forms() {
    let (s, _) = classify_connect("connected to 192.168.1.5:41195\n", true);
    assert_eq!(s, AdbState::Connected);
    let (s, _) = classify_connect("already connected to 192.168.1.5:41195", false);
    assert_eq!(s, AdbState::Connected);
}

#[test]
fn an_unpaired_host_is_told_how_to_pair() {
    // adb 37's exact output after the phone forgot this host (Pixel, Android 17): no reason.
    let (s, d) = classify_connect("failed to connect to 192.168.100.179:42317\n", true);
    assert_eq!(s, AdbState::NeedsPairing);
    assert!(d.unwrap().contains("adb pair"));
    // Older adb wording.
    let (s, _) = classify_connect("failed to authenticate to 192.168.1.5:41195", true);
    assert_eq!(s, AdbState::NeedsPairing);
}

#[test]
fn a_failure_with_a_reason_is_not_a_pairing_problem() {
    let refused = "failed to connect to '192.168.1.5:41195': Connection refused";
    assert_eq!(classify_connect(refused, true).0, AdbState::Error);
    let unquoted = "failed to connect to 192.168.1.5:41195: Operation timed out";
    assert_eq!(classify_connect(unquoted, false).0, AdbState::Error);
}

#[test]
fn no_route_means_local_network_only_on_macos() {
    let out = "failed to connect to '192.168.1.5:41195': No route to host";
    let (s, d) = classify_connect(out, true);
    assert_eq!(s, AdbState::BlockedLocalNetwork);
    assert!(d.unwrap().contains("Local Network"));
    // Linux has no such gate, so it is reported as the plain error it is.
    let (s, d) = classify_connect(out, false);
    assert_eq!(s, AdbState::Error);
    assert!(d.unwrap().contains("No route to host"));
}

#[test]
fn unknown_output_is_passed_through() {
    let (s, d) = classify_connect("failed to connect: Connection refused", true);
    assert_eq!(s, AdbState::Error);
    assert_eq!(d.as_deref(), Some("failed to connect: Connection refused"));
    let (_, d) = classify_connect("", true);
    assert_eq!(d.as_deref(), Some("adb connect printed nothing"));
}

#[test]
fn both_serials_adb_may_use() {
    assert_eq!(serials("10.0.0.5:41195", None), vec!["10.0.0.5:41195"]);
    assert_eq!(serials("10.0.0.5:41195", Some("")), vec!["10.0.0.5:41195"]);
    // The form adb 37 listed after pairing a Pixel, verbatim.
    assert_eq!(
        serials("10.0.0.5:41195", Some("adb-48071FDAP0045Q-YX799R")),
        vec!["10.0.0.5:41195", "adb-48071FDAP0045Q-YX799R._adb-tls-connect._tcp"]
    );
}

#[test]
fn endpoints_bracket_ipv6() {
    assert_eq!(endpoint("192.168.1.5", 41195), "192.168.1.5:41195");
    assert_eq!(endpoint("fe80::1", 41195), "[fe80::1]:41195");
}

#[test]
fn adb_lookup_order() {
    let home = "/home/u";
    let cfg = "/opt/adb";
    let none = |_: &str| false;
    let all = |_: &str| true;
    let on_path = || Some("/usr/bin/adb".to_string());

    assert_eq!(resolve_adb(Some(cfg), on_path(), Some(home), true, all), Some(cfg.to_string()));
    assert_eq!(resolve_adb(Some(cfg), on_path(), Some(home), true, none), None);
    assert_eq!(resolve_adb(None, on_path(), Some(home), true, none), on_path());
    assert_eq!(
        resolve_adb(None, None, Some(home), true, all),
        Some("/home/u/Library/Android/sdk/platform-tools/adb".to_string())
    );
    assert_eq!(
        resolve_adb(None, None, Some(home), false, all),
        Some("/home/u/Android/Sdk/platform-tools/adb".to_string())
    );
    assert_eq!(resolve_adb(None, None, Some(home), true, none), None);
    assert_eq!(resolve_adb(None, None, None, true, all), None);
    // The same with a search of this machine.
    let mut search = Search::new();
    assert_eq!(find_adb(Some(cfg), Some(home), true, all, &mut search), Some(cfg.to_string()));
    assert_eq!(find_adb(Some(cfg), Some(home), true, none, &mut search), None);
    assert_eq!(find_adb(None, None, true, none, &mut search), search.find("adb"));
}

#[test]
fn a_configured_path_may_start_with_home() {
    let home = Some("/Users/u");
    assert_eq!(
        expand_home("~/Library/Android/sdk/platform-tools/adb", home),
        "/Users/u/Library/Android/sdk/platform-tools/adb"
    );
    assert_eq!(expand_home("/opt/adb", home), "/opt/adb");
    assert_eq!(expand_home("tools/adb", home), "tools/adb");
    // `~other/` is another user's home; not ours to guess.
    assert_eq!(expand_home("~other/adb", home), "~other/adb");
    assert_eq!(expand_home("~/adb", None), "~/adb");
    assert_eq!(expand_home("~/adb", home), "/Users/u/adb");
    assert_eq!(expand_home("~//./adb", home), "/Users/u/adb");
    // Only a leading `~/` is expanded.
    assert_eq!(expand_home("~", home), "~");
    assert_eq!(expand_home("a/~/b", home), "a/~/b");
}

#[test]
fn backoff_doubles_caps_and_resets() {
    let t0: u64 = 1_000_000;
    let mut b = Backoff::default();
    assert!(b.ready(t0));

    b.failed(t0);
    assert!(!b.ready(t0 + 29_000));
    assert!(b.ready(t0 + 30_000));

    b.failed(t0);
    assert!(!b.ready(t0 + 59_000));
    assert!(b.ready(t0 + 60_000));

    for _ in 0..10 {
        b.failed(t0);
    }
    assert!(!b.ready(t0 + MAX_RETRY_MS - 1_000));
    assert!(b.ready(t0 + MAX_RETRY_MS), "capped at five minutes");

    b.reset();
    assert!(b.ready(t0));
}

#[test]
fn status_omits_what_is_unknown() {
    let v = AdbStatus::new(None, AdbState::Off, None);
    assert_eq!(v.state.name(), "off");
    assert!(v.endpoint.is_none() && v.serial.is_none() && v.detail.is_none());
    let v = AdbStatus::new(Some("1.2.3.4:5"), AdbState::NeedsPairing, Some("x".to_string()));
    assert_eq!(v.state.name(), "needs_pairing");
    assert_eq!(v.endpoint.as_deref(), Some("1.2.3.4:5"));
}

#[test]
fn a_failed_link_is_left_alone_until_its_delay_is_over() {
    let mut link = Link::default();
    let report =
        AdbReport { wifi_enabled: true, port: Some(41195), service: Some("adb-X".to_string()) };
    let plan = on_report(&mut link, Some("10.0.0.5"), &report, None, 1_000);
    match plan {
        ReportPlan::Check { endpoint, serials, may_connect, .. } => {
            assert_eq!(endpoint, "10.0.0.5:41195");
            assert_eq!(serials.len(), 2);
            assert!(may_connect);
        }
        other => panic!("{other:?}"),
    }
    finish_check(&mut link, Some(AdbState::Error), 1_000);
    assert!(!link.busy);
    match on_report(&mut link, Some("10.0.0.5"), &report, None, 30_999) {
        ReportPlan::Check { may_connect, .. } => assert!(!may_connect),
        other => panic!("{other:?}"),
    }
    finish_check(&mut link, None, 30_999);
    match on_report(&mut link, Some("10.0.0.5"), &report, None, 31_000) {
        ReportPlan::Check { may_connect, .. } => assert!(may_connect),
        other => panic!("{other:?}"),
    }
}

#[test]
fn a_phone_with_wireless_debugging_off_is_shown_as_such() {
    let mut link = Link::default();
    let report = AdbReport { wifi_enabled: false, port: None, service: None };
    match on_report(&mut link, Some("10.0.0.5"), &report, None, 0) {
        ReportPlan::Show(s) => assert_eq!(s.state, AdbState::Off),
        other => panic!("{other:?}"),
    }
    assert!(matches!(on_report(&mut link, None, &report, None, 0), ReportPlan::Ignore));
}

fn device(serial: &str, state: &str) -> Device {
    Device {
        serial: serial.to_string(),
        state: state.to_string(),
        model: None,
    }
}

#[test]
fn a_ready_listing_is_preferred_to_an_offline_one() {
    let devices = vec![device("10.0.0.5:41195", "offline"), device("adb-X._adb-tls-connect._tcp", "device")];
    let names = serials("10.0.0.5:41195", Some("adb-X"));
    let l = host_state(&devices, &names).unwrap();
    assert_eq!((l.serial.as_str(), l.state.as_str()), ("adb-X._adb-tls-connect._tcp", "device"));
    match drive(Some(l), "10.0.0.5:41195", true) {
        Drive::Show(s) => {
            assert_eq!(s.state, AdbState::Connected);
            assert_eq!(s.serial.as_deref(), Some("adb-X._adb-tls-connect._tcp"));
        }
        other => panic!("{other:?}"),
    }
    assert!(matches!(drive(None, "10.0.0.5:41195", true), Drive::Connect));
    assert!(matches!(drive(None, "10.0.0.5:41195", false), Drive::Wait));
}

#[test]
fn connecting_needs_leave_and_a_program() {
    assert_eq!(before_connect(false, true, "e").unwrap().state, AdbState::Available);
    assert_eq!(before_connect(true, false, "e").unwrap().state, AdbState::AdbNotFound);
    assert!(before_connect(true, true, "e").is_none());
    assert!(after_connect("connected to e", false, "e").is_none());
    assert_eq!(after_connect("nope", false, "e").unwrap().state, AdbState::Error);
    let ready = Listed { serial: "e".to_string(), state: "device".to_string() };
    assert_eq!(confirm_connect(Some(ready), "connected to e", "e").state, AdbState::Connected);
    assert_ne!(confirm_connect(None, "connected to e", "e").state, AdbState::Connected);
}
