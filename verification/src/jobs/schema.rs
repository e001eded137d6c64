//! Job step definitions.
//!
//! ```yaml
//! - type: call.answer
//!   description: answer the inbound call
//! - type: audio.play
//!   file: samples/prompt-en-1.wav
//! - type: audio.wait_for_speech
//!   end_timeout_ms: 45000
//!   silence_duration_ms: 3000
//! ```

use vstd::prelude::*;

use crate::text;

verus! {

/// Default of `audio.wait_for_speech`'s `end_timeout_ms`.
pub const DEFAULT_END_TIMEOUT_MS: u64 = 45000;

/// Default of `audio.wait_for_speech`'s `silence_duration_ms`.
pub const DEFAULT_SILENCE_MS: u64 = 3000;

/// Default of `onset_duration_ms`: the continuous voiced run that counts as speech onset.
pub const DEFAULT_ONSET_MS: u64 = 100;

/// Default of `call.wait_answered`'s `timeout_ms`.
pub const DEFAULT_ANSWER_TIMEOUT_MS: u64 = 30000;

/// Default of `audio.wait_for_speech_start`'s `timeout_ms`.
pub const DEFAULT_SPEECH_START_TIMEOUT_MS: u64 = 15000;

/// Default of `audio.wait_for_speech_start`'s `wait_after_start_ms`.
pub const DEFAULT_WAIT_AFTER_START_MS: u64 = 2000;

/// Version of the step vocabulary.
pub const SPEC_VERSION: &'static str = "0.1";

/// One job step: its kind plus optional envelope fields.
#[derive(Debug, Clone, PartialEq, Eq)]
pub struct Step {
    pub kind: StepKind,
    pub description: Option<String>,
    /// Caller-supplied identifier, echoed on the step's outcome and never interpreted.
    pub id: Option<String>,
}

/// The kinds of step that the runner understands.
#[derive(Debug, Clone, PartialEq, Eq)]
pub enum StepKind {
    /// Play an audio file out the sound card.
    AudioPlay { file: String },
    /// Capture from the sound card until the speaker finishes a turn.
    AudioWaitForSpeech {
        end_timeout_ms: u64,
        silence_duration_ms: u64,
        onset_duration_ms: u64,
    },
    /// Wait for the far end to start speaking, then return while it still is.
    AudioWaitForSpeechStart { timeout_ms: u64, wait_after_start_ms: u64, onset_duration_ms: u64 },
    /// Place an outbound call on the controlled phone.
    CallDial { number: String },
    /// Block until the outbound call is answered, or the timeout elapses.
    CallWaitAnswered { timeout_ms: u64 },
    /// Answer the ringing call.
    CallAnswer,
    /// Hang up the active call.
    CallHangup,
    /// Send a text message.
    SmsSend { to: String, body: String },
    /// Sleep for a fixed duration.
    Wait { ms: u64 },
    /// Emit a log line.
    Log { message: String },
}

impl StepKind {
    /// The step's wire name.
    pub open spec fn wire_name(self) -> Seq<char> {
        match self {
            StepKind::AudioPlay { .. } => "audio.play"@,
            StepKind::AudioWaitForSpeech { .. } => "audio.wait_for_speech"@,
            StepKind::AudioWaitForSpeechStart { .. } => "audio.wait_for_speech_start"@,
            StepKind::CallDial { .. } => "call.dial"@,
            StepKind::CallWaitAnswered { .. } => "call.wait_answered"@,
            StepKind::CallAnswer => "call.answer"@,
            StepKind::CallHangup => "call.hangup"@,
            StepKind::SmsSend { .. } => "sms.send"@,
            StepKind::Wait { .. } => "wait"@,
            StepKind::Log { .. } => "log"@,
        }
    }

    /// Whether the step sets a call up: places it, waits for it or answers it.
    pub open spec fn sets_up_call(self) -> bool {
        self is CallDial || self is CallWaitAnswered || self is CallAnswer
    }

    /// Whether the step needs a phone.
    pub open spec fn needs_phone(self) -> bool {
        self.sets_up_call() || self is CallHangup || self is SmsSend
    }

    /// The step's wire name (the `type:` of a job file), for logs and skip messages.
    pub fn name(&self) -> (r: &'static str)
        ensures
            r@ == self.wire_name(),
    {
        match self {
            StepKind::AudioPlay { .. } => "audio.play",
            StepKind::AudioWaitForSpeech { .. } => "audio.wait_for_speech",
            StepKind::AudioWaitForSpeechStart { .. } => "audio.wait_for_speech_start",
            StepKind::CallDial { .. } => "call.dial",
            StepKind::CallWaitAnswered { .. } => "call.wait_answered",
            StepKind::CallAnswer => "call.answer",
            StepKind::CallHangup => "call.hangup",
            StepKind::SmsSend { .. } => "sms.send",
            StepKind::Wait { .. } => "wait",
            StepKind::Log { .. } => "log",
        }
    }

    /// Whether the step sets a call up.
    pub fn is_setup(&self) -> (r: bool)
        ensures
            r == self.sets_up_call(),
    {
        match self {
            StepKind::CallDial { .. } => true,
            StepKind::CallWaitAnswered { .. } => true,
            StepKind::CallAnswer => true,
            _ => false,
        }
    }

    /// The name that the step's kind is declared under in a capability manifest: `wait` and `log`
    /// stand there under their full names.
    pub open spec fn manifest_name(self) -> Seq<char> {
        match self {
            StepKind::Wait { .. } => "control.wait"@,
            StepKind::Log { .. } => "control.log"@,
            _ => self.wire_name(),
        }
    }
}

/// Whether any step of a job needs a phone.
pub fn job_needs_phone(steps: &Vec<Step>) -> (r: bool)
    ensures
        r == exists|i: int| 0 <= i < steps@.len() && (#[trigger] steps@[i]).kind.needs_phone(),
{
    let mut i: usize = 0;
    while i < steps.len()
        invariant
            i <= steps.len(),
            forall|j: int| 0 <= j < i ==> !(#[trigger] steps@[j]).kind.needs_phone(),
        decreases steps.len() - i,
    {
        let needs = match &steps[i].kind {
            StepKind::CallDial { .. } => true,
            StepKind::CallWaitAnswered { .. } => true,
            StepKind::CallAnswer => true,
            StepKind::CallHangup => true,
            StepKind::SmsSend { .. } => true,
            _ => false,
        };
        if needs {
            assert(steps@[i as int].kind.needs_phone());
            return true;
        }
        i += 1;
    }
    false
}

/// The step types that are executed, in the vocabulary's order.
pub open spec fn implemented() -> Seq<Seq<char>> {
    seq![
        "call.dial"@,
        "call.wait_answered"@,
        "call.answer"@,
        "call.hangup"@,
        "audio.play"@,
        "audio.wait_for_speech"@,
        "audio.wait_for_speech_start"@,
        "sms.send"@,
        "control.wait"@,
        "control.log"@,
    ]
}

/// The step types that are run inside a session block instead of being handed back to an
/// orchestrator in the middle of a call.
pub open spec fn inline_orchestrated() -> Seq<Seq<char>> {
    seq!["sms.send"@, "control.wait"@, "control.log"@]
}

/// What an engine says that it can run.
#[derive(Debug)]
pub struct Manifest {
    pub executor: String,
    pub spec_version: String,
    pub version: String,
    pub steps: Vec<String>,
    pub inline_orchestrated: Vec<String>,
}

/// The capability manifest of an engine of this version.
pub fn manifest(version: &str) -> (r: Manifest)
    ensures
        r.executor@ == "dialf"@,
        r.spec_version@ == SPEC_VERSION@,
        r.version@ == version@,
        text::views(r.steps@) == implemented(),
        text::views(r.inline_orchestrated@) == inline_orchestrated(),
{
    let mut steps: Vec<String> = Vec::new();
    steps.push("call.dial".to_owned());
    steps.push("call.wait_answered".to_owned());
    steps.push("call.answer".to_owned());
    steps.push("call.hangup".to_owned());
    steps.push("audio.play".to_owned());
    steps.push("audio.wait_for_speech".to_owned());
    steps.push("audio.wait_for_speech_start".to_owned());
    steps.push("sms.send".to_owned());
    steps.push("control.wait".to_owned());
    steps.push("control.log".to_owned());
    assert(text::views(steps@) =~= implemented());
    let mut inline: Vec<String> = Vec::new();
    inline.push("sms.send".to_owned());
    inline.push("control.wait".to_owned());
    inline.push("control.log".to_owned());
    assert(text::views(inline@) =~= inline_orchestrated());
    Manifest {
        executor: "dialf".to_owned(),
        spec_version: SPEC_VERSION.to_owned(),
        version: version.to_owned(),
        steps,
        inline_orchestrated: inline,
    }
}

/// The manifest lists what the engine runs and nothing else: each kind of step is in it, and
/// each of its entries is the name of some kind of step.
pub proof fn law_the_manifest_lists_what_runs(kind: StepKind, text: String, i: int)
    requires
        0 <= i < implemented().len(),
    ensures
        implemented().contains(kind.manifest_name()),
        exists|k: StepKind| #[trigger] k.manifest_name() == implemented()[i],
{
    let steps = implemented();
    assert(steps[0] == "call.dial"@);
    assert(steps[1] == "call.wait_answered"@);
    assert(steps[2] == "call.answer"@);
    assert(steps[3] == "call.hangup"@);
    assert(steps[4] == "audio.play"@);
    assert(steps[5] == "audio.wait_for_speech"@);
    assert(steps[6] == "audio.wait_for_speech_start"@);
    assert(steps[7] == "sms.send"@);
    assert(steps[8] == "control.wait"@);
    assert(steps[9] == "control.log"@);
    let k = if i == 0 {
        StepKind::CallDial { number: text }
    } else if i == 1 {
        StepKind::CallWaitAnswered { timeout_ms: 0 }
    } else if i == 2 {
        StepKind::CallAnswer
    } else if i == 3 {
        StepKind::CallHangup
    } else if i == 4 {
        StepKind::AudioPlay { file: text }
    } else if i == 5 {
        StepKind::AudioWaitForSpeech {
            end_timeout_ms: 0,
            silence_duration_ms: 0,
            onset_duration_ms: 0,
        }
    } else if i == 6 {
        StepKind::AudioWaitForSpeechStart {
            timeout_ms: 0,
            wait_after_start_ms: 0,
            onset_duration_ms: 0,
        }
    } else if i == 7 {
        StepKind::SmsSend { to: text, body: text }
    } else if i == 8 {
        StepKind::Wait { ms: 0 }
    } else {
        StepKind::Log { message: text }
    };
    assert(k.manifest_name() == steps[i]);
}

/// What runs inline is among what runs.
pub proof fn law_inline_steps_are_implemented(i: int)
    requires
        0 <= i < inline_orchestrated().len(),
    ensures
        implemented().contains(inline_orchestrated()[i]),
{
    assert(implemented()[7] == "sms.send"@);
    assert(implemented()[8] == "control.wait"@);
    assert(implemented()[9] == "control.log"@);
}

/// Whether two steps are of one kind, whatever they are given.
pub open spec fn same_kind(a: StepKind, b: StepKind) -> bool {
    match a {
        StepKind::AudioPlay { .. } => b is AudioPlay,
        StepKind::AudioWaitForSpeech { .. } => b is AudioWaitForSpeech,
        StepKind::AudioWaitForSpeechStart { .. } => b is AudioWaitForSpeechStart,
        StepKind::CallDial { .. } => b is CallDial,
        StepKind::CallWaitAnswered { .. } => b is CallWaitAnswered,
        StepKind::CallAnswer => b is CallAnswer,
        StepKind::CallHangup => b is CallHangup,
        StepKind::SmsSend { .. } => b is SmsSend,
        StepKind::Wait { .. } => b is Wait,
        StepKind::Log { .. } => b is Log,
    }
}

/// A step's name leads back to its kind: two steps have one name exactly where they are of one
/// kind.
pub proof fn law_a_name_leads_back_to_its_kind(a: StepKind, b: StepKind)
    ensures
        a.wire_name() == b.wire_name() <==> same_kind(a, b),
{
    reveal_strlit("audio.play");
    reveal_strlit("audio.wait_for_speech");
    reveal_strlit("audio.wait_for_speech_start");
    reveal_strlit("call.dial");
    reveal_strlit("call.wait_answered");
    reveal_strlit("call.answer");
    reveal_strlit("call.hangup");
    reveal_strlit("sms.send");
    reveal_strlit("wait");
    reveal_strlit("log");
    assert("call.answer"@[5] != "call.hangup"@[5]);
    assert(a.wire_name().len() == b.wire_name().len() ==> same_kind(a, b) || (a is CallAnswer
        && b is CallHangup) || (a is CallHangup && b is CallAnswer));
}

/// Which steps take a phone: those about calls and texts, and no others; of these, those that
/// place, await or answer a call set it up.
pub proof fn law_calls_and_texts_take_a_phone(kind: StepKind)
    ensures
        kind.needs_phone() <==> (kind is CallDial || kind is CallWaitAnswered || kind is CallAnswer
            || kind is CallHangup || kind is SmsSend),
        kind.sets_up_call() <==> (kind is CallDial || kind is CallWaitAnswered || kind is CallAnswer),
{
}

/// The word that each kind of step has in a job file.
pub proof fn law_steps_have_their_words(kind: StepKind)
    ensures
        kind is AudioPlay ==> kind.wire_name() == "audio.play"@,
        kind is AudioWaitForSpeech ==> kind.wire_name() == "audio.wait_for_speech"@,
        kind is AudioWaitForSpeechStart ==> kind.wire_name() == "audio.wait_for_speech_start"@,
        kind is CallDial ==> kind.wire_name() == "call.dial"@,
        kind is CallWaitAnswered ==> kind.wire_name() == "call.wait_answered"@,
        kind is CallAnswer ==> kind.wire_name() == "call.answer"@,
        kind is CallHangup ==> kind.wire_name() == "call.hangup"@,
        kind is SmsSend ==> kind.wire_name() == "sms.send"@,
        kind is Wait ==> kind.wire_name() == "wait"@ && kind.manifest_name() == "control.wait"@,
        kind is Log ==> kind.wire_name() == "log"@ && kind.manifest_name() == "control.log"@,
        !(kind is Wait) && !(kind is Log) ==> kind.manifest_name() == kind.wire_name(),
{
}

} // verus!
