use dialf::cli::{
    fmt_duration, fmt_number, fmt_ts, human_calls, human_device, human_sms, interrupted,
    job_ended_on_hangup, ok_or_err, pad, parse_ver, serve_line, show_number, ver_rel,
    version_lines, wants_version, CallRow, DaemonSays, Interrupt, PhoneCall, PhoneRow, ServeLine,
    SmsRow, VerRel,
};
use dialf::jobs::runner::CALL_ENDED_SUMMARY;

#[test]
fn version_relation() {
    // The `dialf --version` upgrade prompt hinges on these comparisons.
    assert_eq!(ver_rel("0.1.19", "0.1.20"), VerRel::Older); // daemon behind → reinstall service
    assert_eq!(ver_rel("0.1.20", "0.1.20"), VerRel::Same);
    assert_eq!(ver_rel("0.2.0", "0.1.20"), VerRel::Newer); // daemon ahead → upgrade CLI
    assert_eq!(ver_rel("1.0.0", "0.9.9"), VerRel::Newer);
    // Pre-release/build suffixes are ignored; the core compares.
    assert_eq!(ver_rel("0.1.20-dev", "0.1.20"), VerRel::Same);
    // Unparseable either side → Unknown (no claim about which is ahead).
    assert_eq!(ver_rel("unknown", "0.1.20"), VerRel::Unknown);
}

#[test]
fn duration_units() {
    assert_eq!(fmt_duration(7), "7s");
    assert_eq!(fmt_duration(59), "59s");
    assert_eq!(fmt_duration(60), "1m");
    assert_eq!(fmt_duration(3599), "59m");
    assert_eq!(fmt_duration(3600), "1h");
    assert_eq!(fmt_duration(86399), "23h");
    assert_eq!(fmt_duration(86400), "1d");
    assert_eq!(fmt_duration(200000), "2d");
}

#[test]
fn number_format() {
    // Fake but library-valid numbers -> international format (high-confidence).
    assert!(fmt_number("+12015550123").starts_with("+1 ")); // US
    assert!(fmt_number("+8613912345678").starts_with("+86 ")); // CN
    assert!(fmt_number("+525512345678").starts_with("+52 ")); // MX
    // A bare US number gets the +1 country code added.
    assert!(fmt_number("2015550123").starts_with("+1 "));
    // Short codes / non-numbers aren't valid phone numbers -> passed through unchanged.
    assert_eq!(fmt_number("123"), "123");
    assert_eq!(fmt_number("3002"), "3002");
}

#[test]
fn versions_may_leave_numbers_out() {
    let v = parse_ver("2").unwrap();
    assert_eq!((v.major, v.minor, v.patch), (2, 0, 0));
    let v = parse_ver("1.2+build.7").unwrap();
    assert_eq!((v.major, v.minor, v.patch), (1, 2, 0));
    assert!(parse_ver("1.x").is_none());
    assert!(parse_ver("").is_none());
}

#[test]
fn an_older_daemon_comes_with_advice() {
    let l = version_lines("0.1.20", &DaemonSays::Version("0.1.19".to_string()));
    assert_eq!(l[0], "dialf  (CLI):    0.1.20");
    assert_eq!(l[1], "dialfd (daemon): 0.1.19  (older than the CLI 0.1.20)");
    assert!(l[2].contains("dialf service install"));
    assert_eq!(version_lines("1", &DaemonSays::NotRunning)[1], "dialfd (daemon): not running");
    assert_eq!(version_lines("1", &DaemonSays::NotResponding)[1], "dialfd (daemon): not responding");
    assert!(version_lines("1", &DaemonSays::NoVersion)[1].contains("older than the CLI"));
}

fn argv(list: &[&str]) -> Vec<String> {
    list.iter().map(|s| s.to_string()).collect()
}

#[test]
fn help_goes_before_the_version() {
    assert!(wants_version(&argv(&["--version"])));
    assert!(wants_version(&argv(&["devices", "-V"])));
    assert!(!wants_version(&argv(&["--version", "--help"])));
    assert!(!wants_version(&argv(&["devices"])));
}

#[test]
fn a_call_is_shown_on_one_line() {
    let c = CallRow {
        kind: Some("missed".to_string()),
        number: Some("123".to_string()),
        duration: Some(61),
    };
    assert_eq!(
        human_calls(&c, "2024-01-02 03:04:05"),
        format!("2024-01-02 03:04:05  missed    123{} 1m", " ".repeat(14))
    );
    let c = CallRow { kind: None, number: None, duration: None };
    assert_eq!(human_calls(&c, "t"), "t  ?         (unknown)         0s");
}

#[test]
fn a_message_is_shown_on_one_line() {
    let m = SmsRow {
        direction: Some("out".to_string()),
        to: Some("3002".to_string()),
        from: Some("x".to_string()),
        body: Some("two\nlines".to_string()),
    };
    assert_eq!(human_sms(&m, "t"), format!("t  -> 3002{} two lines", " ".repeat(13)));
    let m = SmsRow { direction: None, to: None, from: None, body: None };
    assert_eq!(human_sms(&m, "t"), "t  <- (unknown)         ");
}

#[test]
fn a_phone_is_shown_on_one_line() {
    let d = PhoneRow {
        id: Some("pixel".to_string()),
        name: Some("Pixel".to_string()),
        addr: None,
        last_seen_ms: Some(1_000),
        call: Some(PhoneCall { number: Some("123".to_string()), state: Some("active".to_string()) }),
    };
    let line = human_device(&d, 6_500);
    assert!(line.ends_with("seen 5s ago   in call 123 (active)"), "{line}");
    assert!(line.starts_with("pixel                Pixel            -                seen"), "{line}");
    let d = PhoneRow { id: None, name: None, addr: None, last_seen_ms: Some(9_000), call: None };
    assert!(human_device(&d, 1_000).ends_with("seen 0s ago   idle"));
}

#[test]
fn a_time_without_a_local_form_is_shown_as_a_number() {
    assert_eq!(fmt_ts(5, Some("1970-01-01 00:00:00")), "1970-01-01 00:00:00");
    assert_eq!(fmt_ts(-5, None), "-5");
    assert_eq!(show_number("123", None), "123");
    assert_eq!(show_number("123", Some("+1 123".to_string())), "+1 123");
    assert_eq!(pad("ab", 4), "ab  ");
    assert_eq!(pad("abcde", 4), "abcde");
}

#[test]
fn refusals_become_errors() {
    assert_eq!(ok_or_err(Some(true), None), Ok(()));
    assert_eq!(ok_or_err(None, Some("x".to_string())), Ok(()));
    assert_eq!(ok_or_err(Some(false), None), Err("request failed".to_string()));
    assert_eq!(ok_or_err(Some(false), Some("no".to_string())), Err("no".to_string()));
    assert!(job_ended_on_hangup(&argv(&["played a.wav", CALL_ENDED_SUMMARY])));
    assert!(!job_ended_on_hangup(&argv(&["played a.wav"])));
}

#[test]
fn a_serving_session_prints_events_and_ends_when_refused() {
    assert_eq!(
        serve_line(Some(false), None, None),
        ServeLine::Refused("serve rejected".to_string())
    );
    assert_eq!(
        serve_line(None, None, Some("ringing".to_string())),
        ServeLine::Event("ringing".to_string())
    );
    assert_eq!(serve_line(Some(true), None, None), ServeLine::Nothing);
}

#[test]
fn interrupts_grow_stronger() {
    assert_eq!(interrupted(1).0, Interrupt::Cancel);
    assert_eq!(interrupted(2).0, Interrupt::Force);
    assert_eq!(interrupted(3).0, Interrupt::Quit);
    assert!(interrupted(2).1.contains("force-stopping"));
}
