use dialf::audio::mic_permission::Gate;
use dialf::audio::tool_detect::Os;
use dialf::config::{
    default_control_socket, system_control_socket, AudioConfig, Config, MixChannels,
};
use dialf::daemon::{
    audio_match, await_error, call_marker_dir, call_marker_file, candidate_pids, load_call_markers,
    multiplexer_name, resolve_job_paths, respond, server_info, should_reap,
    write_call_marker,
    AutoanswerOverride, DaemonState, InboundHandler, Plan, Query, Reply, Wanted, INBOX_CAP,
};
use dialf::hub::{command_result, CommandOutcome, Hub};
use dialf::jobs::schema::{Step, StepKind};
use dialf::phone::{
    call_ended_decision, hangup_result, next_nap, recording_ms, stopped, AnswerWait, CallEnd,
    CallWatch,
};
use dialf::protocol::{Action, CallState, ControlOp, Direction, ServerToPhone};
use dialf::registry::{DeviceInfo, MmiResult, SmsRecord};
use dialf::table::Table;
use dialf::transport::discovery::Advert;

// --- stray audio ---------------------------------------------------------------

#[test]
fn audio_match_devices_and_tool_basename() {
    let mut cfg = AudioConfig::default();
    cfg.capture_device = Some("MiniFuse 2".to_string()); // named-device fields
    cfg.playback_device = Some("MiniFuse 2".to_string());
    // A pinned command with a full tool path + coreaudio device — tool-agnostic: we take the
    // tool from argv[0], never a hardcoded name, and reduce it to its basename.
    cfg.capture_cmd = Some(vec![
        "/opt/homebrew/bin/sox".into(),
        "-t".into(),
        "coreaudio".into(),
        "USB Audio".into(),
        "-t".into(),
        "raw".into(),
    ]);
    // A different tool proves nothing is hardcoded to sox.
    cfg.playback_cmd = Some(vec!["ffmpeg".into(), "-i".into(), "{file}".into()]);

    let (devices, tools) = audio_match(&cfg);
    assert!(devices.contains(&"MiniFuse 2".to_string()));
    assert!(devices.contains(&"USB Audio".to_string())); // pulled from the coreaudio arg
    assert_eq!(devices.iter().filter(|d| *d == "MiniFuse 2").count(), 1); // deduped
    assert_eq!(tools, vec!["ffmpeg".to_string(), "sox".to_string()]); // basenames, sorted

    // Nothing configured -> no devices -> reap is a no-op.
    let (d, t) = audio_match(&AudioConfig::default());
    assert!(d.is_empty() && t.is_empty());
}

#[test]
fn should_reap_matches_device_and_tool() {
    let devices = vec!["MiniFuse 2".to_string()];
    let tools = vec!["sox".to_string()];
    // Our tool on our device -> reap (full path is reduced to its basename).
    assert!(should_reap("/opt/homebrew/bin/sox -t coreaudio MiniFuse 2 -t raw", &devices, &tools));
    // Our device but a different (pinned) tool -> leave it alone.
    assert!(!should_reap("/usr/bin/ffmpeg -f avfoundation -i MiniFuse 2", &devices, &tools));
    // A different device -> not ours.
    assert!(!should_reap("/opt/homebrew/bin/sox -t coreaudio Other Card", &devices, &tools));
    // Auto-detected tool (none pinned) -> device match alone is enough, any tool.
    assert!(should_reap("/usr/bin/arecord -D MiniFuse 2", &devices, &[]));
    // Empty command line -> never.
    assert!(!should_reap("", &devices, &tools));
}

#[test]
fn process_ids_are_read_once_each() {
    let pids = candidate_pids(&vec!["12\n7\n".to_string(), "7\nnot-a-pid\n".to_string()]);
    assert_eq!(pids, vec![7, 12]);
}

#[test]
fn detects_terminal_multiplexers() {
    assert_eq!(multiplexer_name(true, "", false, false), Some("tmux")); // $TMUX set
    assert_eq!(multiplexer_name(false, "tmux", false, false), Some("tmux")); // TERM_PROGRAM
    assert_eq!(multiplexer_name(false, "", true, false), Some("screen")); // $STY
    assert_eq!(multiplexer_name(false, "", false, true), Some("zellij")); // $ZELLIJ
    // Plain terminals -> no warning.
    assert_eq!(multiplexer_name(false, "Apple_Terminal", false, false), None);
    assert_eq!(multiplexer_name(false, "iTerm.app", false, false), None);
}

// --- call markers --------------------------------------------------------------

#[test]
fn call_markers_round_trip() {
    let dir = call_marker_dir("/tmp/d/dialfd.sock", "/tmp");
    assert_eq!(dir, "/tmp/d/dialf-callmarks");
    // Unsafe characters are sanitized in the name; the real id is kept in the file.
    assert_eq!(call_marker_file(&dir, "pixel-9-pro"), "/tmp/d/dialf-callmarks/call-pixel-9-pro");
    assert_eq!(
        call_marker_file(&dir, "other/../evil"),
        "/tmp/d/dialf-callmarks/call-other____evil"
    );
    assert!(load_call_markers(&Vec::new()).get("pixel-9-pro").is_none());
    let loaded = load_call_markers(&vec![
        write_call_marker("pixel-9-pro", "call-abc"),
        write_call_marker("other/../evil", "call-xyz"),
    ]);
    assert_eq!(loaded.get("pixel-9-pro"), Some(&"call-abc".to_string()));
    assert_eq!(loaded.get("other/../evil"), Some(&"call-xyz".to_string()));
    let loaded = load_call_markers(&vec![write_call_marker("other/../evil", "call-xyz")]);
    assert!(!loaded.contains("pixel-9-pro"));
    assert_eq!(loaded.get("other/../evil"), Some(&"call-xyz".to_string()));
}

// --- jobs ----------------------------------------------------------------------

fn play(file: &str) -> Step {
    Step {
        kind: StepKind::AudioPlay { file: file.to_string() },
        description: None,
        id: None,
    }
}

fn file_of(step: &Step) -> &str {
    match &step.kind {
        StepKind::AudioPlay { file } => file,
        other => panic!("{other:?}"),
    }
}

#[test]
fn load_job_file_resolves_audio_play_against_job_dir() {
    // A relative `audio.play` in a job resolves against the job file's own dir; absolute stays.
    // `./prompts/…` must resolve to `<dir>/prompts/…`, not `<dir>/./prompts/…`.
    let steps = resolve_job_paths("/tmp/jobs/job.yaml", vec![play("./prompts/hi.wav"), play("/abs/there.wav")]);
    assert_eq!(file_of(&steps[0]), "/tmp/jobs/prompts/hi.wav");
    assert!(!file_of(&steps[0]).contains("/./"));
    assert_eq!(file_of(&steps[1]), "/abs/there.wav");
    // A job named without a directory keeps its paths.
    assert_eq!(file_of(&resolve_job_paths("job.yaml", vec![play("a.wav")])[0]), "a.wav");
}

// --- state ---------------------------------------------------------------------

fn test_state(autoanswer: &[(&str, Option<&str>)]) -> DaemonState {
    let mut config = Config::default();
    for (number, path) in autoanswer {
        config.autoanswer.insert(number.to_string(), path.map(|p| p.to_string()));
    }
    DaemonState::new(config, Some("/etc/dialf".to_string()), Table::new())
}

fn phone(id: &str) -> DeviceInfo {
    DeviceInfo {
        id: id.to_string(),
        name: id.to_string(),
        addr: None,
        last_seen_ms: 0,
        current_call: None,
    }
}

#[test]
fn resolve_inbound_reads_config_jobs_and_answer_only() {
    let state = test_state(&[("+1111", Some("jobs/a.yaml")), ("+2222", None)]);
    // Some(path) → Job, resolved under the config dir; no device pin from config.
    assert_eq!(
        state.resolve_inbound("+1111"),
        Some(InboundHandler::Job { path: "/etc/dialf/jobs/a.yaml".to_string(), device: None })
    );
    // None → answer only.
    assert_eq!(state.resolve_inbound("+2222"), Some(InboundHandler::AnswerOnly));
    // Unknown number → not handled.
    assert_eq!(state.resolve_inbound("+9999"), None);
}

#[test]
fn override_takes_precedence_and_reverts_on_clear() {
    let mut state = test_state(&[("+1111", Some("jobs/a.yaml"))]);
    state.register_override(
        "+1111".to_string(),
        AutoanswerOverride {
            token: 7,
            path: "/tmp/override.yaml".to_string(),
            device: Some("phone1".to_string()),
        },
    );
    // Override wins over config, keeping its own absolute path + device pin.
    assert_eq!(
        state.resolve_inbound("+1111"),
        Some(InboundHandler::Job {
            path: "/tmp/override.yaml".to_string(),
            device: Some("phone1".to_string()),
        })
    );
    // Removing the token's overrides reverts to the config entry.
    state.clear_overrides(7);
    assert_eq!(
        state.resolve_inbound("+1111"),
        Some(InboundHandler::Job { path: "/etc/dialf/jobs/a.yaml".to_string(), device: None })
    );
}

#[test]
fn clearing_one_registration_keeps_another() {
    let mut state = test_state(&[]);
    let a = state.next_serve_token();
    let b = state.next_serve_token();
    assert_ne!(a, b);
    for (number, token) in [("+1", a), ("+2", b)] {
        state.register_override(
            number.to_string(),
            AutoanswerOverride { token, path: "/j.yaml".to_string(), device: None },
        );
    }
    state.clear_overrides(a);
    assert_eq!(state.resolve_inbound("+1"), None);
    assert!(state.resolve_inbound("+2").is_some());
}

#[test]
fn card_lock_is_exclusive_and_releases_on_drop() {
    let mut state = test_state(&[]);
    let guard = state.acquire_card().expect("first acquire succeeds");
    assert!(state.acquire_card().is_none(), "second acquire blocked while held");
    state.release_card(guard);
    assert!(state.acquire_card().is_some(), "reacquire after release");
}

#[test]
fn serve_lock_allows_only_one_session() {
    let mut state = test_state(&[]);
    let guard = state.acquire_serve().expect("first serve registers");
    assert!(state.acquire_serve().is_none(), "second serve rejected");
    state.release_serve(guard);
    assert!(state.acquire_serve().is_some(), "reacquire after release");
}

#[test]
fn the_inbox_keeps_the_latest_messages() {
    let mut state = test_state(&[]);
    for i in 0..INBOX_CAP + 5 {
        state.record_sms(
            "p",
            SmsRecord {
                direction: Direction::In,
                from: None,
                to: None,
                body: format!("{i}"),
                ts: i as i64,
            },
        );
    }
    match state.collect("p", Query::Messages) {
        Reply::Messages(m) => {
            assert_eq!(m.len(), INBOX_CAP);
            assert_eq!(m.last().unwrap().body, format!("{}", INBOX_CAP + 4));
        }
        other => panic!("{other:?}"),
    }
}

#[test]
fn requests_to_unknown_devices_are_refused() {
    let mut state = test_state(&[]);
    let op = ControlOp::CallHangup { device: "gone".to_string() };
    assert!(state.try_handle(op).unwrap_err().contains("gone"));
    state.registry.upsert(phone("p1"));
    let op = ControlOp::CallDial {
        device: "p1".to_string(),
        number: "+1".to_string(),
        sim_sub_id: None,
    };
    match state.try_handle(op).unwrap() {
        Plan::Command { device, action, .. } => {
            assert_eq!(device, "p1");
            assert_eq!(action.kind(), "dial");
        }
        other => panic!("{other:?}"),
    }
    match state.try_handle(ControlOp::DevicesList).unwrap() {
        Plan::Answer(Reply::Devices(d)) => assert_eq!(d.len(), 1),
        other => panic!("{other:?}"),
    }
    assert!(matches!(state.try_handle(ControlOp::ServerInfo).unwrap(), Plan::Info));
    assert!(state.try_handle(ControlOp::JobStatus { job_id: "j".to_string() }).is_err());
}

#[test]
fn one_job_runs_at_a_time() {
    let mut state = test_state(&[]);
    let run = |steps| ControlOp::JobRun { path: None, steps: Some(steps), device: None };
    let first = state.try_handle(run(vec![play("a.wav")])).unwrap();
    let card = match first {
        Plan::RunJob { card, steps, .. } => {
            assert_eq!(steps.len(), 1);
            card
        }
        other => panic!("{other:?}"),
    };
    assert!(state.try_handle(run(vec![play("b.wav")])).is_err());
    assert!(matches!(
        state.try_handle(ControlOp::JobCancel { force: false }).unwrap(),
        Plan::Answer(Reply::Cancelled { force: false })
    ));
    assert!(state.job_cancel);
    state.release_card(card);
    assert!(state.try_handle(run(vec![play("b.wav")])).is_ok());
}

#[test]
fn a_job_that_calls_needs_a_phone() {
    let mut state = test_state(&[]);
    let hang = Step { kind: StepKind::CallHangup, description: None, id: None };
    assert!(state.start_job(vec![hang.clone()], None).is_err());
    state.registry.upsert(phone("p1"));
    match state.start_job(vec![hang.clone()], None).unwrap() {
        Plan::RunJob { device, card, .. } => {
            assert_eq!(device, "p1");
            state.release_card(card);
        }
        other => panic!("{other:?}"),
    }
    state.registry.upsert(phone("p2"));
    assert!(state.start_job(vec![hang], None).is_err(), "two phones: which one is not said");
    assert_eq!(state.resolve_device(Some("p2".to_string())), Ok("p2".to_string()));
}

#[test]
fn results_are_polled_for() {
    let mut state = test_state(&[]);
    assert!(state.poll("p", Wanted::Mmi).is_none());
    state.set_mmi_result(
        "p",
        MmiResult { code: "#004#".to_string(), success: true, response: None },
    );
    assert!(matches!(state.poll("p", Wanted::Mmi), Some(Reply::Mmi(_))));
    assert!(!await_error(Wanted::Voicemail).is_empty());
    let ok = respond("7", Ok(Reply::Done));
    assert_eq!((ok.id.as_str(), ok.done, ok.ok), ("7", true, Some(true)));
    let err = respond("7", Err("no".to_string()));
    assert_eq!((err.ok, err.error.as_deref()), (Some(false), Some("no")));
}

#[test]
fn recordings_go_under_the_config_dir() {
    let mut state = test_state(&[]);
    assert!(state.record_plan(5).is_none());
    state.config.audio.record_dir = Some("rec".to_string());
    let p = state.record_plan(5).unwrap();
    assert_eq!(p.dir, "/etc/dialf/rec");
    assert!(p.session.contains('5'), "{}", p.session);
    assert!(p.tx_left);
}

// --- configuration -------------------------------------------------------------

#[test]
fn mix_channels_defaults_to_tx_left() {
    // Default is tx-left / rx-right.
    assert_eq!(MixChannels::default(), MixChannels::TxRx);
    assert!(MixChannels::TxRx.tx_left());
    assert!(!MixChannels::RxTx.tx_left());
    assert_eq!(Config::default().audio.mix_channels, MixChannels::TxRx);
}

#[test]
fn control_socket_explicit_wins_else_per_user_default() {
    // Unset -> the per-user default (isolated scope).
    assert_eq!(
        Config::default().control_socket_path(Some("/run/user/7"), 7),
        default_control_socket(Some("/run/user/7"), 7)
    );
    // An explicit control_socket wins.
    let mut cfg = Config::default();
    cfg.control_socket = Some("/run/dialf/dialfd.sock".to_string());
    assert_eq!(cfg.control_socket_path(Some("/run/user/7"), 7), "/run/dialf/dialfd.sock");
    // The shared/system socket path is absolute and platform-appropriate.
    assert!(system_control_socket(Os::Linux).starts_with('/'));
    assert!(system_control_socket(Os::MacOs).starts_with('/'));
}

#[test]
fn a_client_takes_the_socket_that_is_there() {
    let pick = |explicit, user, system| {
        Config::resolve_client_socket(explicit, "/u.sock", user, "/s.sock", system)
    };
    assert_eq!(pick(Some("/x.sock"), true, true), "/x.sock");
    assert_eq!(pick(None, true, true), "/u.sock");
    assert_eq!(pick(None, false, true), "/s.sock");
    assert_eq!(pick(None, false, false), "/u.sock");
    assert_eq!(Config::default_path(Some("/x"), Some("/h")), "/x/dialf/config.yaml");
    assert_eq!(Config::default_path(None, Some("/h")), "/h/.config/dialf/config.yaml");
}

// --- hub -----------------------------------------------------------------------

#[test]
fn newer_connection_supersedes_and_old_teardown_is_noop() {
    let mut hub = Hub::new();
    let gen1 = hub.register("dev");
    let gen2 = hub.register("dev"); // reconnected; supersedes gen1
    assert_ne!(gen1, gen2);

    // The OLD socket tearing down must NOT remove the current (newer) connection —
    // this is the bug that made commands time out after a silent reconnect.
    assert!(!hub.unregister("dev", gen1));
    assert!(hub.send_frame("dev").is_some(), "newer connection stays registered");

    // The current connection's own teardown does remove it.
    assert!(hub.unregister("dev", gen2));
    assert!(hub.send_frame("dev").is_none(), "device gone after current connection closes");
}

#[test]
fn an_acknowledgement_settles_its_command_once() {
    let mut hub = Hub::new();
    let gen = hub.register("dev");
    let d = hub.command("dev", Action::ListCalls).unwrap();
    assert_eq!(d.gen, gen);
    assert!(matches!(&d.frame, ServerToPhone::Cmd { cmd_id, .. } if *cmd_id == d.cmd_id));
    assert!(hub.resolve_ack("dev", &d.cmd_id, Ok(())));
    assert!(!hub.resolve_ack("dev", &d.cmd_id, Ok(())));
    let settled = hub.take_settled();
    assert_eq!(settled.len(), 1);
    assert_eq!(settled[0].cmd_id, d.cmd_id);
    assert!(hub.take_settled().is_empty());
    assert!(hub.command("gone", Action::ListCalls).is_err());
    assert!(hub.fire("dev", Action::ListSims).is_ok());
    hub.drop_device("dev");
    assert!(hub.send_frame("dev").is_none());
}

#[test]
fn a_command_tells_how_it_failed() {
    assert_eq!(command_result("dial", "p", CommandOutcome::Acknowledged), Ok(()));
    let timed = command_result("dial", "p", CommandOutcome::TimedOut).unwrap_err();
    assert!(timed.contains("dial"), "{timed}");
    let refused = command_result("dial", "p", CommandOutcome::Refused("busy".to_string()));
    assert!(refused.unwrap_err().contains("busy"));
    assert!(command_result("dial", "p", CommandOutcome::Dropped).is_err());
    assert!(command_result("dial", "p", CommandOutcome::SendClosed).is_err());
}

// --- a job's phone -------------------------------------------------------------

#[test]
fn call_ended_only_after_active_then_gone() {
    // Not in a call (record-only) -> never "ended", even with no call state.
    let mut seen = false;
    assert!(!call_ended_decision(false, &mut seen, None));

    // In a call but not yet active (dialing/ringing) -> not ended.
    let mut seen = false;
    assert!(!call_ended_decision(true, &mut seen, Some(CallState::Ringing)));
    assert!(!call_ended_decision(true, &mut seen, None)); // not connected yet, not ended

    // Goes active, then disappears -> ended.
    assert!(!call_ended_decision(true, &mut seen, Some(CallState::Active)));
    assert!(seen);
    assert!(call_ended_decision(true, &mut seen, None));
}

#[test]
fn wait_for_answer_interrupted_by_cancel() {
    // A cancel must break the ringing-wait immediately — not sit out the full timeout — and
    // report it as a cancellation.
    let mut watch = CallWatch::new(false, 0);
    let mut seen = false;
    match watch.wait_for_answer(&mut seen, true, None, 0, 30_000, 30_000) {
        AnswerWait::Cancelled(e) => assert!(e.contains("cancelled"), "{e}"),
        other => panic!("{other:?}"),
    }
}

#[test]
fn a_call_that_is_never_answered_times_out() {
    let mut watch = CallWatch::new(false, 0);
    watch.dial("+1", 0);
    let mut seen = false;
    let ringing = Some(CallState::Ringing);
    assert!(matches!(
        watch.wait_for_answer(&mut seen, false, ringing, 10, 1_000, 1_000),
        AnswerWait::Again
    ));
    assert!(matches!(
        watch.wait_for_answer(&mut seen, false, ringing, 1_000, 1_000, 1_000),
        AnswerWait::Failed(_)
    ));
    let mut watch = CallWatch::new(false, 0);
    watch.dial("+1", 0);
    let active = Some(CallState::Active);
    assert!(matches!(
        watch.wait_for_answer(&mut seen, false, active, 400, 1_000, 1_000),
        AnswerWait::Answered
    ));
    assert!(!watch.call_ended(active, 500));
    assert!(watch.call_ended(None, 2_400));
    let s = watch.call_summary(3_000).unwrap();
    assert_eq!(s.end_reason, CallEnd::FarEndHangup);
    assert_eq!(s.answer_latency_ms, Some(400));
    assert_eq!(s.remote_number.as_deref(), Some("+1"));
}

#[test]
fn an_answered_call_has_a_summary() {
    let mut watch = CallWatch::new(false, 0);
    assert!(watch.call_summary(5).is_none());
    watch.answer(100);
    let s = watch.call_summary(150).unwrap();
    assert_eq!(s.end_reason, CallEnd::Completed);
    assert_eq!((s.answer_latency_ms, s.duration_ms), (None, None));
    assert!(!watch.call_ended(Some(CallState::Active), 250));
    let s = watch.call_summary(1_250).unwrap();
    assert_eq!((s.answer_latency_ms, s.duration_ms), (Some(150), Some(1_000)));
}

#[test]
fn an_answered_call_is_a_fresh_one() {
    let mut watch = CallWatch::new(false, 0);
    let mut seen = false;
    watch.dial("+1", 0);
    let active = Some(CallState::Active);
    watch.wait_for_answer(&mut seen, false, active, 5, 1_000, 1_000);
    watch.hangup(10);
    watch.answer(20);
    let s = watch.call_summary(25).unwrap();
    assert_eq!((s.answer_latency_ms, s.duration_ms, s.remote_number), (None, None, None));
    assert!(!watch.call_ended(active, 30));
    assert_eq!(watch.call_summary(50).unwrap().answer_latency_ms, Some(10));
}

#[test]
fn the_daemon_tells_of_itself() {
    let info = server_info("1.2.3", None, Gate::Absent, Advert::Loopback.report());
    assert_eq!((info.version.as_str(), info.ten_vad.as_str()), ("1.2.3", "stub"));
    assert_eq!((info.microphone, info.mdns.state), ("not_applicable", "off"));
    assert_eq!(server_info("1", Some("2".into()), Gate::Unknown, Advert::Loopback.report()).ten_vad, "2");
}

#[test]
fn our_hangup_is_no_far_end_hangup() {
    let mut watch = CallWatch::new(true, 0);
    assert!(!watch.call_ended(Some(CallState::Active), 10));
    watch.hangup(20);
    assert!(!watch.call_ended(None, 30));
    assert_eq!(watch.call_summary(40).unwrap().end_reason, CallEnd::Completed);
    assert_eq!(hangup_result(Ok(())), Ok(()));
    assert_eq!(recording_ms(48_000, 48_000), 1_000);
    assert!(stopped(true, false, false));
    assert!(!stopped(false, false, false));
    assert_eq!(next_nap(false, 0, 120), Some(50));
    assert_eq!(next_nap(false, 100, 120), Some(20));
    assert_eq!(next_nap(false, 120, 120), None);
    assert_eq!(next_nap(true, 0, 120), None);
}
