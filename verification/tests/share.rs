use dialf::share::adb::{
    decide, encode_fail, encode_message, filter_device_list, gate, message_length,
    parse_device_list, relay_list, Decision, GatePlan, Targets,
};
use dialf::share::client::{
    answer_line, describe_refusal, hello_line, read_challenge, read_verdict, target_addr,
};
use dialf::share::dice::Dice;
use dialf::share::handshake::{
    check_token, expected_auth, new_nonce as draw_nonce, new_token as draw_token, token_of, verify,
    MAX_LINE, NONCE_BYTES, TOKEN_ALPHABET, TOKEN_BODY_LEN, TOKEN_PREFIX,
};
use dialf::share::server::{
    challenge_line, check_answer, check_hello, check_line, greet_open, is_live, may_forward,
    seconds_remaining, Heard, Preamble, Stage, Turn,
};
use dialf::share::{
    local_addresses, Bind, Ipv4, Profile, ResolvedShare, ShareConfig, Upstream,
    DEFAULT_EXPIRE_AFTER,
};

// --- policy --------------------------------------------------------------------

fn only(serials: &[&str]) -> Targets {
    Targets::Only(serials.iter().map(|s| s.to_string()).collect())
}

#[test]
fn kill_is_always_blocked() {
    // Not just a policy choice: a version-mismatched adb client sends this on its own.
    for t in [Targets::All, only(&["A"])] {
        assert!(matches!(decide("host:kill", &t), Decision::Reject(_)));
    }
}

#[test]
fn host_mutating_requests_are_blocked() {
    assert!(matches!(
        decide("host:connect:192.168.1.9:5555", &Targets::All),
        Decision::Reject(_)
    ));
    assert!(matches!(
        decide("host:disconnect:192.168.1.9:5555", &Targets::All),
        Decision::Reject(_)
    ));
}

#[test]
fn a_shared_device_can_be_addressed_directly() {
    let t = only(&["4B2B1C"]);
    assert_eq!(decide("host:transport:4B2B1C", &t), Decision::Forward);
    assert_eq!(decide("host:tport:serial:4B2B1C", &t), Decision::Forward);
}

#[test]
fn an_unshared_device_is_refused_by_name() {
    let t = only(&["4B2B1C"]);
    let Decision::Reject(msg) = decide("host:transport:9F1E2D", &t) else {
        panic!("expected a rejection");
    };
    // The message must name both the device asked for and what is on offer.
    assert!(msg.contains("9F1E2D"), "got: {msg}");
    assert!(msg.contains("4B2B1C"), "got: {msg}");
}

#[test]
fn transport_any_resolves_to_the_single_shared_device() {
    // This is what makes `adb -H … shell` work without -s.
    let t = only(&["4B2B1C"]);
    assert_eq!(
        decide("host:transport-any", &t),
        Decision::Rewrite("host:transport:4B2B1C".to_string())
    );
    assert_eq!(
        decide("host:tport:any", &t),
        Decision::Rewrite("host:tport:serial:4B2B1C".to_string())
    );
    // transport-usb/local could otherwise select an unshared device.
    assert_eq!(
        decide("host:transport-usb", &t),
        Decision::Rewrite("host:transport:4B2B1C".to_string())
    );
}

#[test]
fn transport_any_is_refused_when_several_are_shared() {
    // Silently picking one would make --target a coin flip.
    let t = only(&["A1", "B2"]);
    let Decision::Reject(msg) = decide("host:transport-any", &t) else {
        panic!("expected a rejection");
    };
    assert!(msg.contains("-s"), "message should say how to disambiguate: {msg}");
}

#[test]
fn transport_any_passes_through_when_everything_is_shared() {
    assert_eq!(decide("host:transport-any", &Targets::All), Decision::Forward);
}

#[test]
fn host_serial_handles_serials_containing_colons() {
    // adb-over-WiFi serials are `ip:port`, so splitting on the first colon would break
    // exactly the device this project drives.
    let t = only(&["192.168.100.179:33415"]);
    assert_eq!(
        decide("host-serial:192.168.100.179:33415:get-state", &t),
        Decision::Forward
    );
    assert!(matches!(
        decide("host-serial:10.0.0.5:5555:get-state", &t),
        Decision::Reject(_)
    ));
}

#[test]
fn a_serial_that_is_a_prefix_of_another_is_not_confused() {
    // `4B2B1C` must not authorize `4B2B1CDEAD`.
    let t = only(&["4B2B1C"]);
    assert!(matches!(
        decide("host:transport:4B2B1CDEAD", &t),
        Decision::Reject(_)
    ));
    assert!(matches!(
        decide("host-serial:4B2B1CDEAD:get-state", &t),
        Decision::Reject(_)
    ));
}

#[test]
fn device_listings_are_filtered_to_shared_devices() {
    let payload = "4B2B1C\tdevice\n9F1E2D\tdevice\n7C3A55\toffline\n";
    let filtered = filter_device_list(payload, &only(&["4B2B1C", "7C3A55"]));
    assert!(filtered.contains("4B2B1C"));
    assert!(filtered.contains("7C3A55"));
    assert!(!filtered.contains("9F1E2D"), "leaked an unshared device");
    // Sharing everything is a pass-through, byte for byte.
    assert_eq!(filter_device_list(payload, &Targets::All), payload);
    // Filtering again changes nothing.
    assert_eq!(filter_device_list(&filtered, &only(&["4B2B1C", "7C3A55"])), filtered);
}

#[test]
fn filtering_handles_the_long_format_and_empty_lists() {
    let long = "4B2B1C  device product:caiman model:Pixel_9_Pro device:caiman\n\
                9F1E2D  device product:bluejay model:Pixel_6a device:bluejay\n";
    let filtered = filter_device_list(long, &only(&["9F1E2D"]));
    assert!(filtered.contains("Pixel_6a"));
    assert!(!filtered.contains("Pixel_9_Pro"));
    // "nothing attached" must stay "nothing attached", not become malformed.
    assert_eq!(filter_device_list("", &only(&["A"])), "");
}

#[test]
fn device_list_parses_serial_state_and_model() {
    let devices = parse_device_list(
        "4B2B1C  device product:caiman model:Pixel_9_Pro device:caiman\n\
         9F1E2D  offline\n",
    );
    assert_eq!(devices.len(), 2);
    assert_eq!(devices[0].serial, "4B2B1C");
    assert_eq!(devices[0].model.as_deref(), Some("Pixel 9 Pro"));
    assert!(devices[0].is_ready());
    assert_eq!(devices[1].state, "offline");
    assert!(!devices[1].is_ready(), "offline devices are not usable");
    assert!(devices[1].model.is_none());
    assert!(parse_device_list("").is_empty());
}

#[test]
fn track_devices_is_filtered_as_a_stream() {
    assert_eq!(
        decide("host:track-devices", &only(&["A"])),
        Decision::FilterList { streaming: true }
    );
    assert_eq!(
        decide("host:devices-l", &only(&["A"])),
        Decision::FilterList { streaming: false }
    );
}

#[test]
fn server_metadata_requests_pass_through() {
    assert_eq!(decide("host:version", &only(&["A"])), Decision::Forward);
    assert_eq!(decide("host:features", &only(&["A"])), Decision::Forward);
}

#[test]
fn messages_round_trip_on_the_wire() {
    let buf = encode_message("host:devices");
    assert_eq!(&buf[..4], b"000c");
    let n = message_length(&buf[..4]).unwrap();
    assert_eq!(&buf[4..4 + n], b"host:devices");
    assert_eq!(buf.len(), 4 + n);
}

#[test]
fn an_absurd_length_prefix_is_refused() {
    assert!(message_length(b"zzzz").is_none());
    assert!(message_length(b"+00c").is_none());
    assert_eq!(message_length(b"00Fc"), Some(252));
}

#[test]
fn a_refused_request_is_answered_and_goes_no_further() {
    match gate("host:kill", &Targets::All) {
        GatePlan::Refuse { reply } => {
            assert!(reply.starts_with(b"FAIL"));
            assert_eq!(message_length(&reply[4..8]), Some(reply.len() - 8));
        }
        other => panic!("{other:?}"),
    }
    match gate("host:transport-any", &only(&["A"])) {
        GatePlan::Pass { send, list } => {
            assert_eq!(send, encode_message("host:transport:A"));
            assert_eq!(list, None);
        }
        other => panic!("{other:?}"),
    }
    match gate("host:track-devices", &only(&["A"])) {
        GatePlan::Pass { send, list } => {
            assert_eq!(send, encode_message("host:track-devices"));
            assert_eq!(list, Some(true));
        }
        other => panic!("{other:?}"),
    }
    assert_eq!(encode_fail("no"), b"FAIL0002no".to_vec());
    assert_eq!(relay_list("A\tdevice\nB\tdevice\n", &only(&["A"])), encode_message("A\tdevice\n"));
}

#[test]
fn targets_describe_themselves() {
    assert_eq!(Targets::All.describe(), "all attached devices");
    assert_eq!(only(&["A", "B"]).describe(), "A, B");
    assert!(only(&["A"]).allows("A"));
    assert!(!only(&["A"]).allows("B"));
}

// --- client --------------------------------------------------------------------

#[test]
fn target_gets_the_default_port_when_bare() {
    assert_eq!(target_addr("lab-mac", Profile::Adb).unwrap(), "lab-mac:5038");
    assert_eq!(
        target_addr("192.168.1.50", Profile::Adb).unwrap(),
        "192.168.1.50:5038"
    );
}

#[test]
fn an_explicit_port_wins() {
    assert_eq!(target_addr("lab-mac:9000", Profile::Adb).unwrap(), "lab-mac:9000");
}

#[test]
fn ipv6_must_be_bracketed() {
    assert_eq!(target_addr("[::1]:9000", Profile::Adb).unwrap(), "[::1]:9000");
    assert_eq!(target_addr("[::1]", Profile::Adb).unwrap(), "[::1]:5038");
    // Bare IPv6 is ambiguous; guessing here is what crashed the phone app on an
    // unbracketed URL, so it's an error with the fix in the message.
    let err = target_addr("fe80::1:2:3", Profile::Adb).unwrap_err();
    assert!(err.contains("bracket"), "got: {err}");
    assert!(target_addr("[::1", Profile::Adb).is_err());
}

#[test]
fn empty_targets_are_rejected() {
    assert!(target_addr("", Profile::Adb).is_err());
    assert!(target_addr("   ", Profile::Adb).is_err());
}

#[test]
fn refusals_explain_themselves() {
    // The common failure is a token mismatch; the message must name where to look.
    let msg = describe_refusal("ERR auth failed");
    assert!(msg.contains("token"), "got: {msg}");
    assert!(describe_refusal("ERR bad magic").contains("not a dialf share"));
    assert!(describe_refusal("").contains("closed"));
}
#[test]
fn a_client_reads_what_a_share_says() {
    assert_eq!(hello_line(Profile::Adb), "DIALF-SHARE/1 adb\n");
    assert_eq!(read_challenge("NONCE abcd"), Ok("abcd".to_string()));
    assert!(read_challenge("NONCE ").is_err());
    assert!(read_challenge("ERR bad magic").unwrap_err().contains("not a dialf share"));
    assert_eq!(read_verdict("OK"), Ok(()));
    assert!(read_verdict("ERR auth failed").unwrap_err().contains("token"));
}

// --- handshake -----------------------------------------------------------------

#[test]
fn auth_is_deterministic_per_token_and_nonce() {
    let a = expected_auth("s3cret-token-value", "abcd");
    assert_eq!(a, expected_auth("s3cret-token-value", "abcd"));
    assert_ne!(a, expected_auth("s3cret-token-value", "abce")); // nonce matters
    assert_ne!(a, expected_auth("other-token-value!", "abcd")); // token matters
    assert_eq!(a.len(), 64); // SHA-256, hex
}

fn new_nonce() -> String {
    draw_nonce(&mut Dice::new())
}

fn new_token() -> String {
    draw_token(&mut Dice::new())
}

#[test]
fn a_token_is_spelled_out_of_its_draws() {
    let last = TOKEN_ALPHABET.len() - 1;
    assert_eq!(token_of(&vec![0, 1, 2, last, last - 7]), "dvs_abc92");
    assert_eq!(token_of(&Vec::new()), "dvs_");
    // One generator does not repeat itself.
    let mut dice = Dice::new();
    assert_ne!(draw_token(&mut dice), draw_token(&mut dice));
    assert_ne!(draw_nonce(&mut dice), draw_nonce(&mut dice));
    assert!((0..500).all(|_| dice.below(3) < 3));
    assert_eq!(dice.bytes(5).len(), 5);
}

#[test]
fn verify_accepts_only_the_right_answer() {
    let nonce = new_nonce();
    let token = "the-real-share-token";
    assert!(verify(token, &nonce, &expected_auth(token, &nonce)));
    assert!(!verify("wrong-token-entirely", &nonce, &expected_auth(token, &nonce)));
    assert!(!verify(token, "a-different-nonce", &expected_auth(token, &nonce)));
}

#[test]
fn verify_rejects_malformed_answers() {
    // A truncated or non-hex answer must fail closed, not panic or slice out of bounds.
    let nonce = new_nonce();
    let token = "the-real-share-token";
    let good = expected_auth(token, &nonce);
    assert!(!verify(token, &nonce, ""));
    assert!(!verify(token, &nonce, &good[..32])); // truncated
    assert!(!verify(token, &nonce, &good[..63])); // odd length
    assert!(!verify(token, &nonce, "zz".repeat(32).as_str())); // not hex
    assert!(!verify(token, &nonce, &format!("{good}00"))); // too long
}

#[test]
fn only_hexadecimal_answers_are_accepted() {
    // A nonce whose code holds a byte below 16, which a sign and one digit would write too.
    let token = "the-real-share-token";
    let (nonce, good, at) = (0..200)
        .find_map(|i| {
            let nonce = format!("nonce-{i}");
            let good = expected_auth(token, &nonce);
            let at = (0..64).step_by(2).find(|k| &good[*k..*k + 1] == "0")?;
            Some((nonce, good, at))
        })
        .unwrap();
    assert!(verify(token, &nonce, &good));
    let signed = format!("{}+{}", &good[..at], &good[at + 1..]);
    assert!(!verify(token, &nonce, &signed), "{signed}");
    // Capitals are fine, and what is not ASCII is refused without a panic.
    assert!(verify(token, &nonce, &good.to_uppercase()));
    assert!(!verify(token, &nonce, &format!("{}é", &good[..62])));
}

#[test]
fn answers_are_trimmed_of_transport_whitespace() {
    // The wire is line-based, so a stray \r from a peer must not fail a valid answer.
    let nonce = new_nonce();
    let token = "the-real-share-token";
    let good = expected_auth(token, &nonce);
    assert!(verify(token, &nonce, &format!("{good}\r")));
    assert!(verify(token, &nonce, &format!("  {good}  ")));
}

#[test]
fn nonces_do_not_repeat() {
    let a = new_nonce();
    assert_eq!(a.len(), NONCE_BYTES * 2);
    assert_ne!(a, new_nonce());
    assert!(a.chars().all(|c| c.is_ascii_hexdigit()));
}

#[test]
fn issued_tokens_have_the_documented_shape() {
    let t = new_token();
    assert!(t.starts_with(TOKEN_PREFIX), "got: {t}");
    assert_eq!(t.len(), TOKEN_PREFIX.len() + TOKEN_BODY_LEN);
    assert_eq!(t.len(), 16);
    let body = &t[TOKEN_PREFIX.len()..];
    assert!(body.chars().all(|c| TOKEN_ALPHABET.contains(c)), "stray char in {body}");
    // Tokens are read off one screen and typed into another, so the alphabet leaves out
    // the pairs that get misread.
    for confusable in ['0', 'O', '1', 'l', 'I', 'B'] {
        assert!(
            !TOKEN_ALPHABET.contains(confusable),
            "{confusable} is ambiguous and should not be in the alphabet"
        );
    }
}

#[test]
fn every_share_gets_a_different_token() {
    // The token is never persisted, so a repeat must not be predictable either.
    let mut seen = std::collections::HashSet::new();
    for _ in 0..200 {
        assert!(seen.insert(new_token()), "new_token repeated itself");
    }
}

#[test]
fn an_issued_token_works_end_to_end_through_the_handshake() {
    let token = new_token();
    let nonce = new_nonce();
    assert!(verify(&token, &nonce, &expected_auth(&token, &nonce)));
    assert!(!verify(&new_token(), &nonce, &expected_auth(&token, &nonce)));
}

#[test]
fn the_code_is_that_of_hmac_sha256() {
    // RFC 4231, test case 2: key "Jefe", data "what do ya want for nothing?".
    assert_eq!(
        expected_auth("Jefe", "what do ya want for nothing?"),
        "5bdcc146bf60754e6a042426089575c75a003f089d2739839dec58b964ec3843"
    );
}

const TOKEN: &str = "a-perfectly-fine-token";

/// Both halves of the handshake, line by line.
fn shake(client_token: &str) -> Result<(), String> {
    let hello = hello_line(Profile::Adb);
    check_hello(hello.trim(), Profile::Adb).map_err(|e| e.reply)?;
    let nonce = new_nonce();
    let challenge = challenge_line(&nonce);
    let got = read_challenge(challenge.trim())?;
    let answer = answer_line(client_token, &got);
    match check_answer(answer.trim(), TOKEN, &nonce) {
        Ok(line) => read_verdict(line.trim()),
        Err(e) => {
            assert_eq!(e.reason, "auth failed");
            Err(read_verdict(e.reply.trim()).unwrap_err())
        }
    }
}

#[test]
fn the_two_halves_of_the_handshake_fit() {
    assert_eq!(shake(TOKEN), Ok(()));
    assert!(shake("the-wrong-token-here").unwrap_err().contains("token"));
}

#[test]
fn rejects_a_bad_magic_and_a_wrong_profile() {
    for hello in ["GARBAGE/9 adb", "DIALF-SHARE/1 ios", ""] {
        let e = check_hello(hello, Profile::Adb).unwrap_err();
        assert!(e.reply.starts_with("ERR"), "expected ERR, got {}", e.reply);
    }
}

#[test]
fn an_oversized_handshake_line_is_refused() {
    assert!(check_line(MAX_LINE, false).unwrap_err().contains("exceeded"));
    assert!(check_line(0, false).unwrap_err().contains("closed"));
    assert_eq!(check_line(5, true), Ok(()));
}

#[test]
fn start_refuses_a_weak_token() {
    assert!(check_token("short").is_err());
    assert!(check_token("  short-with-spaces  ").is_ok());
    assert!(check_token(&new_token()).is_ok());
}

#[test]
fn an_open_share_tells_a_shim_what_to_do() {
    assert!(greet_open(b"DIAL").unwrap().starts_with("ERR this share needs no token"));
    assert!(greet_open(b"000c").is_none());
}

#[test]
fn a_share_lives_until_it_expires() {
    assert!(is_live(Some(10), 9));
    assert!(!is_live(Some(10), 10));
    assert!(is_live(None, u64::MAX));
    assert_eq!(seconds_remaining(Some(10), 4), Some(6));
    assert_eq!(seconds_remaining(Some(10), 40), Some(0));
    assert_eq!(seconds_remaining(None, 4), None);
}

#[test]
fn a_forward_port_serves_authenticated_addresses() {
    let known = vec!["10.0.0.9".to_string()];
    assert!(may_forward(false, &Vec::new(), "10.0.0.5"));
    assert!(may_forward(true, &known, "10.0.0.9"));
    assert!(!may_forward(true, &known, "10.0.0.5"));
}

// --- configuration -------------------------------------------------------------

/// The listen address that a configuration names.
fn bind_of(cfg: &ShareConfig) -> Option<Bind> {
    let text = cfg.bind_text(Profile::Adb);
    let (host, port) = text.rsplit_once(':')?;
    let port: u16 = port.parse().ok()?;
    let loopback = host.starts_with("127.");
    Some(Bind { addr: text.clone(), port, loopback })
}

fn resolve(cfg: &ShareConfig, with_token: bool) -> Result<ResolvedShare, String> {
    cfg.resolve(Profile::Adb, with_token, bind_of(cfg), &mut Dice::new())
}

#[test]
fn upstream_parses_both_forms() {
    assert_eq!(
        "tcp:127.0.0.1:5037".parse::<Upstream>().unwrap(),
        Upstream::Tcp("127.0.0.1:5037".to_string())
    );
    assert_eq!(
        "unix:/var/run/usbmuxd".parse::<Upstream>().unwrap(),
        Upstream::Unix("/var/run/usbmuxd".to_string())
    );
    // Round-trips through its text, so a status line can be pasted back into config.
    let u: Upstream = "tcp:10.0.0.2:5037".parse().unwrap();
    assert_eq!(u.to_string().parse::<Upstream>().unwrap(), u);
}

#[test]
fn upstream_rejects_junk() {
    assert!("127.0.0.1:5037".parse::<Upstream>().is_err()); // no scheme
    assert!("tcp:".parse::<Upstream>().is_err());
    assert!("unix:".parse::<Upstream>().is_err());
    assert!("http://host".parse::<Upstream>().is_err());
    // A missing port would otherwise fail much later, as a DNS error.
    assert!("tcp:127.0.0.1".parse::<Upstream>().is_err());
}

#[test]
fn profile_parses_and_round_trips() {
    assert_eq!("adb".parse::<Profile>().unwrap(), Profile::Adb);
    assert_eq!("ADB".parse::<Profile>().unwrap(), Profile::Adb);
    assert!("ios".parse::<Profile>().is_err()); // not shipped yet; must not silently pass
    assert_eq!(Profile::Adb.to_string(), "adb");
    // The share port and the shim's local port must differ, or running both ends on one
    // machine collides.
    assert_ne!(Profile::Adb.default_port(), Profile::Adb.default_client_port());
}

#[test]
fn defaults_bind_to_the_network_and_expire_in_an_hour() {
    let cfg = ShareConfig { all: true, ..Default::default() };
    let r = resolve(&cfg, false).unwrap();
    assert_eq!(r.bind.addr, "0.0.0.0:5939");
    assert!(r.is_public(), "the default bind is reachable from the network");
    assert_eq!(r.upstream, Upstream::Tcp("127.0.0.1:5037".to_string()));
    assert_eq!(r.expires_after, Some(3600));
}

#[test]
fn a_token_is_issued_only_when_asked_for() {
    // No token means an open share — allowed, and the reason the CLI warns loudly.
    let cfg = ShareConfig { all: true, ..Default::default() };
    let open = resolve(&cfg, false).unwrap();
    assert!(open.token.is_none());
    assert!(!open.require_auth());

    let guarded = resolve(&cfg, true).unwrap();
    assert!(guarded.require_auth());
    let token = guarded.token.unwrap();
    assert!(token.starts_with(TOKEN_PREFIX), "got: {token}");
    assert_eq!(token.len(), 16);
}

#[test]
fn each_resolve_mints_a_fresh_token() {
    let cfg = ShareConfig { all: true, ..Default::default() };
    let a = resolve(&cfg, true).unwrap().token.unwrap();
    let b = resolve(&cfg, true).unwrap().token.unwrap();
    assert_ne!(a, b);
}

#[test]
fn a_non_positive_expiry_means_never() {
    for secs in [0, -1, -3600] {
        let cfg = ShareConfig { all: true, expire_after: secs, ..Default::default() };
        assert_eq!(resolve(&cfg, false).unwrap().expires_after, None);
    }
    let cfg = ShareConfig { all: true, expire_after: 90, ..Default::default() };
    assert_eq!(resolve(&cfg, false).unwrap().expires_after, Some(90));
}

#[test]
fn a_loopback_bind_is_not_public() {
    let cfg = ShareConfig {
        bind: Some("127.0.0.1:5939".to_string()),
        all: true,
        ..Default::default()
    };
    assert!(!resolve(&cfg, false).unwrap().is_public());
}

#[test]
fn resolve_rejects_a_bad_bind() {
    let cfg = ShareConfig {
        bind: Some("not-an-address".to_string()),
        all: true,
        ..Default::default()
    };
    assert!(resolve(&cfg, false).unwrap_err().contains("not-an-address"));
}

#[test]
fn sharing_nothing_is_an_error_not_everything() {
    // Silence must never be read as "share the whole host".
    let cfg = ShareConfig::default();
    assert!(resolve(&cfg, false).is_err());
    let both = ShareConfig {
        all: true,
        targets: vec!["A1".to_string()],
        ..Default::default()
    };
    assert!(resolve(&both, false).is_err(), "all + targets is ambiguous");
}

#[test]
fn a_forward_port_is_refused_where_it_could_not_work() {
    let own = ShareConfig { all: true, forward_ports: vec![5939], ..Default::default() };
    assert!(resolve(&own, false).unwrap_err().contains("own port"));
    let local = ShareConfig {
        all: true,
        bind: Some("127.0.0.1:5939".to_string()),
        forward_ports: vec![9000],
        ..Default::default()
    };
    assert!(resolve(&local, false).unwrap_err().contains("network bind"));
    let fine = ShareConfig { all: true, forward_ports: vec![9000], ..Default::default() };
    assert_eq!(resolve(&fine, false).unwrap().forward_ports, vec![9000]);
    let bad = ShareConfig { all: true, upstream: Some("tcp:".to_string()), ..Default::default() };
    assert!(resolve(&bad, false).is_err());
}

#[test]
fn a_share_starts_switched_off() {
    let cfg = ShareConfig::default();
    assert!(!cfg.enabled); // never on by default
    assert!(cfg.bind.is_none());
    assert_eq!(cfg.expire_after, DEFAULT_EXPIRE_AFTER);
}

#[test]
fn local_addresses_are_usable_targets() {
    let ip = |a, b, c, d| Ipv4 { a, b, c, d };
    let found = vec![
        ip(127, 0, 0, 1),
        ip(192, 168, 1, 7),
        ip(169, 254, 3, 4),
        ip(100, 64, 0, 2),
        ip(192, 168, 1, 7),
    ];
    // None of it should be something a peer cannot dial; overlay addresses come first.
    assert_eq!(local_addresses(&found), vec![ip(100, 64, 0, 2), ip(192, 168, 1, 7)]);
}

// --- the course of a connection --------------------------------------------------

fn heard(line: &str) -> Heard {
    Heard::Line { n: line.len(), ended: line.ends_with('\n'), line: line.to_string(), more: false }
}

/// A connection that has got its challenge, and the nonce in it.
fn challenged(token: &str) -> (Preamble, String) {
    let mut p = Preamble::new(Profile::Adb, token.to_string());
    let sent = match p.hear(heard(&hello_line(Profile::Adb)), &mut Dice::new()) {
        Turn::Challenge(s) => s,
        other => panic!("no challenge: {other:?}"),
    };
    let nonce = read_challenge(sent.trim()).unwrap();
    (p, nonce)
}

#[test]
fn who_holds_the_token_is_served() {
    let (mut p, nonce) = challenged("a-token-of-some-length");
    let answer = answer_line("a-token-of-some-length", &nonce);
    assert!(matches!(p.hear(heard(&answer), &mut Dice::new()), Turn::Serve(s) if s == "OK\n"));
    assert!(matches!(p.stage, Stage::Served));
}

#[test]
fn another_token_is_turned_away() {
    let (mut p, nonce) = challenged("a-token-of-some-length");
    let answer = answer_line("b-token-of-some-length", &nonce);
    match p.hear(heard(&answer), &mut Dice::new()) {
        Turn::Refuse { reply, reason } => {
            assert_eq!(reply.as_deref(), Some("ERR auth failed\n"));
            assert_eq!(reason, "auth failed");
        }
        other => panic!("not refused: {other:?}"),
    }
    assert!(matches!(p.stage, Stage::Closed));
}

#[test]
fn an_answer_to_another_challenge_is_turned_away() {
    let (_, first) = challenged("a-token-of-some-length");
    let (mut p, second) = challenged("a-token-of-some-length");
    assert_ne!(first, second);
    let answer = answer_line("a-token-of-some-length", &first);
    assert!(matches!(p.hear(heard(&answer), &mut Dice::new()), Turn::Refuse { .. }));
}

#[test]
fn data_behind_the_answer_is_turned_away() {
    let (mut p, nonce) = challenged("a-token-of-some-length");
    let line = answer_line("a-token-of-some-length", &nonce);
    let early = Heard::Line { n: line.len(), ended: true, line, more: true };
    match p.hear(early, &mut Dice::new()) {
        Turn::Refuse { reply, reason } => {
            assert_eq!(reply.as_deref(), Some("OK\n"));
            assert_eq!(reason, "peer sent data before the handshake completed");
        }
        other => panic!("not refused: {other:?}"),
    }
}

#[test]
fn a_first_line_that_does_not_fit_is_turned_away() {
    let refused = |heard: Heard| {
        let mut p = Preamble::new(Profile::Adb, "a-token-of-some-length".to_string());
        match p.hear(heard, &mut Dice::new()) {
            Turn::Refuse { reply, reason } => (reply, reason),
            other => panic!("not refused: {other:?}"),
        }
    };
    let (reply, reason) = refused(heard("GET / HTTP/1.1\n"));
    assert_eq!(reply.as_deref(), Some("ERR bad magic\n"));
    assert_eq!(reason, "bad magic `GET`");
    let (reply, reason) = refused(heard("DIALF-SHARE/1 usbmux\n"));
    assert_eq!(reply.as_deref(), Some("ERR profile mismatch (serving adb)\n"));
    assert_eq!(reason, "profile `usbmux` (serving adb)");
    assert_eq!(refused(Heard::TimedOut), (None, "handshake timed out".to_string()));
    let nothing = Heard::Line { n: 0, ended: false, line: String::new(), more: false };
    assert_eq!(refused(nothing), (None, "peer closed during handshake".to_string()));
    let long = Heard::Line { n: MAX_LINE, ended: false, line: "x".repeat(MAX_LINE), more: true };
    assert_eq!(refused(long), (None, "handshake line exceeded 256 bytes".to_string()));
}
