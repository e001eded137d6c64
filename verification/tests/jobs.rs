use dialf::audio::record::RecordOutput;
use dialf::audio::vad::{EndReason, TurnConfig};
use dialf::jobs::runner::{
    run_job, Driver, JobIo, Recorded, RunClock, StepEnd, CALL_ENDED_SUMMARY, CANCELLED_SUMMARY,
};
use dialf::jobs::schema::{
    job_needs_phone, manifest, Step, StepKind, DEFAULT_END_TIMEOUT_MS, DEFAULT_ONSET_MS,
    DEFAULT_SILENCE_MS, SPEC_VERSION,
};
use dialf::loopback::{LoopbackJobIo, Machine, LOOPBACK_ID};
use dialf::protocol::{CallState, Direction};
use dialf::registry::{DeviceInfo, Registry};

fn step(kind: StepKind) -> Step {
    Step { kind, description: None, id: None }
}

fn play(file: &str) -> Step {
    step(StepKind::AudioPlay { file: file.to_string() })
}

fn wait_for_speech() -> Step {
    step(StepKind::AudioWaitForSpeech {
        end_timeout_ms: DEFAULT_END_TIMEOUT_MS,
        silence_duration_ms: DEFAULT_SILENCE_MS,
        onset_duration_ms: DEFAULT_ONSET_MS,
    })
}

fn wait_for_speech_start(timeout_ms: u64, wait_after_start_ms: u64) -> Step {
    step(StepKind::AudioWaitForSpeechStart {
        timeout_ms,
        wait_after_start_ms,
        onset_duration_ms: DEFAULT_ONSET_MS,
    })
}

/// Records the steps the runner invoked; stands in for a phone and a sound card.
#[derive(Default)]
struct MockIo {
    events: Vec<String>,
    speech_reason: Option<EndReason>,
    /// What `wait_for_speech_start` reports: `false` stands in for "the far end never spoke".
    speech_started: Option<bool>,
    /// A clock that advances a tick per audio call.
    clock_ms: u64,
    dial_error: Option<String>,
    /// After how many questions the call has ended.
    ends_after: Option<usize>,
    asked: usize,
    cancelled: bool,
    inbound: bool,
    /// Whether nothing is recorded.
    unrecorded: bool,
}

impl Driver for MockIo {
    fn play(&mut self, file: &str) -> Result<(), String> {
        self.clock_ms += 10;
        self.events.push(format!("play:{file}"));
        Ok(())
    }
    fn wait_for_speech(&mut self, _turn: TurnConfig) -> Result<EndReason, String> {
        self.clock_ms += 10;
        self.events.push("wait".into());
        Ok(self.speech_reason.unwrap_or(EndReason::Silence))
    }
    fn wait_for_speech_start(
        &mut self,
        _timeout_ms: u64,
        wait_after_start_ms: u64,
        _onset_duration_ms: u64,
    ) -> Result<bool, String> {
        self.clock_ms += 10;
        self.events.push(format!("wait_start:{wait_after_start_ms}"));
        Ok(self.speech_started.unwrap_or(true))
    }
    fn dial(&mut self, number: &str) -> Result<(), String> {
        self.events.push(format!("dial:{number}"));
        match &self.dial_error {
            Some(e) => Err(e.clone()),
            None => Ok(()),
        }
    }
    fn wait_for_answer(&mut self, _timeout_ms: u64) -> Result<(), String> {
        self.events.push("wait_answered".into());
        Ok(())
    }
    fn answer(&mut self) -> Result<(), String> {
        self.events.push("answer".into());
        Ok(())
    }
    fn hangup(&mut self) -> Result<(), String> {
        self.events.push("hangup".into());
        Ok(())
    }
    fn send_sms(&mut self, to: &str, body: &str) -> Result<(), String> {
        self.events.push(format!("sms:{to}:{body}"));
        Ok(())
    }
    fn sleep(&mut self, ms: u64) -> Result<(), String> {
        self.events.push(format!("sleep:{ms}"));
        Ok(())
    }
    fn log(&mut self, message: &str) {
        self.events.push(format!("log:{message}"));
    }
    fn call_ended(&mut self) -> bool {
        self.asked += 1;
        self.ends_after.is_some_and(|n| self.asked >= n)
    }
    fn inbound_mode(&self) -> bool {
        self.inbound
    }
    fn cancelled(&self) -> bool {
        self.cancelled
    }
    fn recording_ms(&mut self) -> Option<u64> {
        if self.unrecorded {
            None
        } else {
            Some(self.clock_ms)
        }
    }
    fn wall_ms(&mut self) -> u64 {
        self.clock_ms
    }
}

#[test]
fn runs_sample_job_in_order() {
    let mut first = step(StepKind::CallAnswer);
    first.description = Some("answer".to_string());
    let job = vec![first, play("q1.wav"), wait_for_speech(), step(StepKind::CallHangup)];
    let mut io = Recorded::new(MockIo::default());
    let outcomes = run_job(&job, &mut io).unwrap();

    assert_eq!(outcomes.len(), 4);
    assert_eq!(
        io.driver.events,
        vec![
            "log:answer", // description logged before the step
            "answer",
            "play:q1.wav",
            "wait",
            "hangup",
        ]
    );
}

#[test]
fn outcomes_carry_the_libretto_envelope() {
    // Offline analysis reads these fields, not the prose summary: `id` ties a span of recorded
    // audio back to the scripted turn, and the timestamps place it on the recording timeline.
    let mut ask = play("q.wav");
    ask.id = Some("rsp-001-ask".to_string());
    ask.description = Some("ask".to_string());
    let mut answer = wait_for_speech();
    answer.id = Some("rsp-001-answer".to_string());
    let out = run_job(&[ask, answer], &mut Recorded::new(MockIo::default())).unwrap();

    assert_eq!(out.len(), 2);
    assert_eq!(out[0].id.as_deref(), Some("rsp-001-ask"));
    assert_eq!(out[0].step_type, "audio.play");
    assert_eq!(out[0].description.as_deref(), Some("ask"));
    assert_eq!(out[0].end_reason, StepEnd::Completed);
    assert_eq!(out[1].id.as_deref(), Some("rsp-001-answer"));
    assert_eq!(out[1].step_type, "audio.wait_for_speech");

    // Timestamps must be usable as spans and must not go backwards between steps.
    for o in &out {
        assert!(o.t_start_ms <= o.t_end_ms, "{o:?}");
    }
    assert!(out[1].t_start_ms >= out[0].t_end_ms, "{out:?}");
}

#[test]
fn a_step_without_an_id_simply_omits_it() {
    let out = run_job(&[play("q.wav")], &mut Recorded::new(MockIo::default())).unwrap();
    assert!(out[0].id.is_none());
    assert_eq!(out[0].step_type, "audio.play");
}

#[test]
fn a_timed_out_turn_is_reported_not_failed() {
    // The far end going quiet is a datum, not a broken job — the call may still be fine.
    let mut io =
        Recorded::new(MockIo { speech_reason: Some(EndReason::Timeout), ..MockIo::default() });
    let out = run_job(&[wait_for_speech()], &mut io).unwrap();
    assert_eq!(out[0].end_reason, StepEnd::Timeout);
}

#[test]
fn wait_for_speech_start_timing_out_does_not_abort_the_job() {
    // If the agent never speaks, that turn yields no interrupt sample and the script carries on.
    let mut io = Recorded::new(MockIo { speech_started: Some(false), ..MockIo::default() });
    let out = run_job(&[wait_for_speech_start(500, 2_000), play("after.wav")], &mut io).unwrap();

    assert_eq!(out[0].end_reason, StepEnd::Timeout);
    assert_eq!(out[0].step_type, "audio.wait_for_speech_start");
    assert_eq!(out[1].end_reason, StepEnd::Completed, "the job must continue");
    assert!(io.driver.events.contains(&"play:after.wav".to_string()), "{:?}", io.driver.events);
}

#[test]
fn a_barge_in_script_runs_in_order() {
    // ask -> let the agent start -> talk over it -> capture the reaction.
    let steps =
        [play("q.wav"), wait_for_speech_start(15_000, 2_000), play("interrupt.wav"), wait_for_speech()];
    let mut io = Recorded::new(MockIo::default());
    let out = run_job(&steps, &mut io).unwrap();

    assert_eq!(
        io.driver.events,
        vec!["play:q.wav", "wait_start:2000", "play:interrupt.wav", "wait"]
    );
    assert!(out.iter().all(|o| o.end_reason == StepEnd::Completed), "{out:?}");
}

#[test]
fn stops_on_error() {
    let job = [step(StepKind::CallDial { number: "123".to_string() }), play("never.wav")];
    let mut io =
        Recorded::new(MockIo { dial_error: Some("no device".to_string()), ..MockIo::default() });
    let err = run_job(&job, &mut io).unwrap_err();
    assert!(err.contains("no device"), "{err}");
    assert_eq!(io.driver.events, vec!["dial:123"]);
}

#[test]
fn stops_and_marks_when_call_ends() {
    // The call has ended after the first step: the job records the answer, then a synthetic
    // "caller hung up" outcome, and skips the remaining steps.
    let job = [step(StepKind::CallAnswer), play("x.wav"), step(StepKind::CallHangup)];
    let mut io = Recorded::new(MockIo { ends_after: Some(1), ..MockIo::default() });
    let outcomes = run_job(&job, &mut io).unwrap();
    // answer ran; then the marker + one "skipped" line per remaining step.
    assert_eq!(outcomes.len(), 4);
    assert_eq!(outcomes[0].summary, "answered");
    assert_eq!(outcomes[1].summary, CALL_ENDED_SUMMARY);
    assert_eq!(outcomes[2].summary, "audio.play skipped");
    assert_eq!(outcomes[3].summary, "call.hangup skipped");
}

#[test]
fn cancels_and_marks_remaining() {
    // After the first step the runner stops, records a "cancelled" marker, and skips the rest.
    let job = [play("a.wav"), wait_for_speech(), step(StepKind::Log { message: "done".to_string() })];
    let mut io = Recorded::new(MockIo { cancelled: true, ..MockIo::default() });
    let outcomes = run_job(&job, &mut io).unwrap();
    assert_eq!(outcomes.len(), 4);
    assert_eq!(outcomes[0].summary, "played a.wav");
    assert_eq!(outcomes[1].summary, CANCELLED_SUMMARY);
    assert_eq!(outcomes[2].summary, "audio.wait_for_speech skipped");
    assert_eq!(outcomes[3].summary, "log skipped");
}

#[test]
fn inbound_mode_skips_call_setup_steps() {
    // In auto-answer mode the daemon already answered, so call.answer/dial/wait_answered are
    // no-ops; conversation steps still run.
    let job = [
        step(StepKind::CallAnswer),
        step(StepKind::CallDial { number: "1".to_string() }),
        play("x.wav"),
        step(StepKind::CallHangup),
    ];
    let mut io = Recorded::new(MockIo { inbound: true, ..MockIo::default() });
    let outcomes = run_job(&job, &mut io).unwrap();
    assert_eq!(outcomes.len(), 4);
    assert_eq!(outcomes[0].summary, "call.answer skipped (auto-answer mode)");
    assert_eq!(outcomes[1].summary, "call.dial skipped (auto-answer mode)");
    let ran: Vec<&String> = io.driver.events.iter().filter(|e| !e.starts_with("log:")).collect();
    assert_eq!(ran, vec!["play:x.wav", "hangup"]);
}

#[test]
fn the_manifest_lists_exactly_what_the_engine_runs() {
    // Scripts are validated against the manifest, and one that overstates what is implemented is
    // worse than none. Build one of every step and compare the two lists.
    let mut actual: Vec<&str> = vec![
        StepKind::CallDial { number: "1".into() }.name(),
        StepKind::CallWaitAnswered { timeout_ms: 0 }.name(),
        StepKind::CallAnswer.name(),
        StepKind::CallHangup.name(),
        StepKind::AudioPlay { file: "a".into() }.name(),
        StepKind::AudioWaitForSpeech {
            end_timeout_ms: 0,
            silence_duration_ms: 0,
            onset_duration_ms: 0,
        }
        .name(),
        StepKind::AudioWaitForSpeechStart {
            timeout_ms: 0,
            wait_after_start_ms: 0,
            onset_duration_ms: 0,
        }
        .name(),
        StepKind::SmsSend { to: "1".into(), body: "b".into() }.name(),
        // `wait`/`log` are reported bare but declared under their spec names.
        "control.wait",
        "control.log",
    ];
    let m = manifest("1.2.3");
    let mut declared: Vec<&str> = m.steps.iter().map(|s| s.as_str()).collect();
    declared.sort_unstable();
    actual.sort_unstable();
    assert_eq!(declared, actual, "manifest has drifted from the implemented steps");

    assert_eq!(m.executor, "dialf");
    assert_eq!(m.spec_version, SPEC_VERSION);
    assert_eq!(m.version, "1.2.3");
    // Everything declared inline-orchestrated must also be a step we implement.
    for s in &m.inline_orchestrated {
        assert!(m.steps.contains(s), "{s} is not implemented");
    }
}

#[test]
fn job_needs_phone_only_for_call_or_sms() {
    // Audio-only job -> runs with no phone (BlackHole / sound-card eval).
    assert!(!job_needs_phone(&vec![play("p.wav"), wait_for_speech()]));

    // Any call/SMS step -> a phone is required.
    assert!(job_needs_phone(&vec![play("p.wav"), step(StepKind::CallHangup)]));
    let sms = StepKind::SmsSend { to: "+100".to_string(), body: "hi".to_string() };
    assert!(job_needs_phone(&vec![step(sms)]));
    assert!(StepKind::CallAnswer.is_setup());
    assert!(!StepKind::CallHangup.is_setup());
}

struct Quiet(Vec<String>);

impl Machine for Quiet {
    fn play(&mut self, file: &str) -> Result<(), String> {
        self.0.push(format!("play {file}"));
        Ok(())
    }
    fn wait_for_speech(&mut self, _turn: TurnConfig) -> Result<EndReason, String> {
        Ok(EndReason::Silence)
    }
    fn wait_for_speech_start(&mut self, _: u64, _: u64, _: u64) -> Result<bool, String> {
        Ok(true)
    }
    fn sleep(&mut self, ms: u64) {
        self.0.push(format!("sleep {ms}"));
    }
    fn log(&mut self, message: &str) {
        self.0.push(message.to_string());
    }
    fn wall_ms(&mut self) -> u64 {
        1_000 + 7 * self.0.len() as u64
    }
    fn finish(&mut self) -> Result<RecordOutput, String> {
        Ok(RecordOutput { rx: "r".to_string(), tx: "t".to_string(), mix: None })
    }
}

#[test]
fn an_unrecorded_run_is_timed_from_its_first_reading() {
    let mut clock = RunClock::new();
    assert_eq!(clock.stamp(None, 5_000), 0);
    assert_eq!(clock.stamp(None, 5_250), 250);
    assert_eq!(clock.stamp(Some(7), 5_300), 7);
    assert_eq!(clock.stamp(None, 6_000), 1_000);
    assert_eq!(clock.stamp(None, 4_000), 0);

    let driver = MockIo { clock_ms: 500, unrecorded: true, ..MockIo::default() };
    let out = run_job(&vec![play("a.wav"), play("b.wav")], &mut Recorded::new(driver)).unwrap();
    let spans: Vec<(u64, u64)> = out.iter().map(|o| (o.t_start_ms, o.t_end_ms)).collect();
    assert_eq!(spans, vec![(0, 10), (10, 20)]);
}

#[test]
fn a_dry_run_leaves_the_card_alone() {
    let mut io =
        LoopbackJobIo::new(Quiet(Vec::new()), Registry::new(), LOOPBACK_ID, true, false, 1);
    let job = vec![play("a.wav"), wait_for_speech(), step(StepKind::Wait { ms: 5 })];
    let out = run_job(&job, &mut io).unwrap();
    assert_eq!(out.len(), 3);
    assert_eq!(io.machine.inner.0, vec!["sleep 5"]);
    assert!(matches!(io.finish(), Ok(None)));
}

#[test]
fn a_loopback_phone_takes_calls_in_the_registry() {
    let mut registry = Registry::new();
    registry.upsert(DeviceInfo {
        id: LOOPBACK_ID.to_string(),
        name: "loopback".to_string(),
        addr: None,
        last_seen_ms: 0,
        current_call: None,
    });
    let mut io = LoopbackJobIo::new(Quiet(Vec::new()), registry, LOOPBACK_ID, false, true, 4);
    io.dial("+15551234").unwrap();
    let call = io.registry.get(LOOPBACK_ID).unwrap().current_call.clone().unwrap();
    assert_eq!(call.number.as_deref(), Some("+15551234"));
    assert_eq!((call.state, call.direction), (CallState::Active, Direction::Out));
    assert_eq!(call.call_id, "lc-4");
    io.send_sms("+1", "hi").unwrap();
    assert!(io.registry.get(LOOPBACK_ID).unwrap().current_call.is_some());
    io.hangup().unwrap();
    assert!(io.registry.get(LOOPBACK_ID).unwrap().current_call.is_none());
    io.answer().unwrap();
    let call = io.registry.get(LOOPBACK_ID).unwrap().current_call.clone().unwrap();
    assert_eq!(call.direction, Direction::In);
    // Each call has a name of its own; one that is there is answered under the one it has.
    assert_eq!(call.call_id, "lc-5");
    io.answer().unwrap();
    assert_eq!(io.registry.get(LOOPBACK_ID).unwrap().current_call.clone().unwrap().call_id, "lc-5");
    io.dial("+15551234").unwrap();
    assert_eq!(io.registry.get(LOOPBACK_ID).unwrap().current_call.clone().unwrap().call_id, "lc-6");
    let out = run_job(&[play("a.wav"), step(StepKind::Wait { ms: 5 })], &mut io).unwrap();
    assert_eq!(out.len(), 2);
    assert_eq!(io.machine.inner.0, vec!["play a.wav", "sleep 5"]);
    assert_eq!((out[0].t_start_ms, out[0].t_end_ms), (0, 7));
    assert_eq!(io.finish().unwrap().unwrap().rx, "r");
}
