//! The job runner: executes a list of steps against a [`JobIo`].
//!
//! The runner is pure control flow: all side effects go through [`JobIo`].

use vstd::prelude::*;
#[allow(unused_imports)]
use vstd::utf8::encode_utf8;

use super::schema::{Step, StepKind};
use crate::audio::vad::{EndReason, TurnConfig};
#[allow(unused_imports)]
use crate::phone::span;
use crate::text;
#[allow(unused_imports)]
use crate::text::{decimal, opt_view};

verus! {

/// What the runner asks of its surroundings.
pub enum Request {
    Play(Seq<char>),
    WaitForSpeech(TurnConfig),
    WaitForSpeechStart { timeout_ms: u64, wait_after_start_ms: u64, onset_duration_ms: u64 },
    Dial(Seq<char>),
    WaitForAnswer(u64),
    Answer,
    Hangup,
    SendSms(Seq<char>, Seq<char>),
    Sleep(u64),
    Log(Seq<char>),
    HasCallEnded,
    IsInbound,
    IsCancelled,
    Now,
}

/// What came back.
pub enum Reply {
    Done,
    Ended(EndReason),
    Started(bool),
    Failed(Seq<char>),
    Said(bool),
    Time(u64),
}

/// One request and its reply.
pub struct IoEvent {
    pub request: Request,
    pub reply: Reply,
}

/// The reply that a plain result stands for.
pub open spec fn plain_reply(r: Result<(), String>) -> Reply {
    match r {
        Ok(_) => Reply::Done,
        Err(e) => Reply::Failed(e@),
    }
}

/// The reply that the end of a turn stands for.
pub open spec fn ended_reply(r: Result<EndReason, String>) -> Reply {
    match r {
        Ok(why) => Reply::Ended(why),
        Err(e) => Reply::Failed(e@),
    }
}

/// The reply that the start of a turn stands for.
pub open spec fn started_reply(r: Result<bool, String>) -> Reply {
    match r {
        Ok(started) => Reply::Started(started),
        Err(e) => Reply::Failed(e@),
    }
}

/// Side-effecting operations that a job step can request.
///
/// `history` is the sequence of requests made so far with their replies, questions among them.
pub trait JobIo {
    spec fn history(&self) -> Seq<IoEvent>;

    /// Play an audio file out the sound card.
    fn play(&mut self, file: &str) -> (r: Result<(), String>)
        ensures
            final(self).history() == old(self).history().push(
                IoEvent { request: Request::Play(file@), reply: plain_reply(r) },
            ),
    ;

    /// Capture until the speaker's turn ends; tells why it ended.
    fn wait_for_speech(&mut self, turn: TurnConfig) -> (r: Result<EndReason, String>)
        ensures
            final(self).history() == old(self).history().push(
                IoEvent { request: Request::WaitForSpeech(turn), reply: ended_reply(r) },
            ),
    ;

    /// Block until the far end starts speaking, then `wait_after_start_ms` longer. `Ok(false)`
    /// means that the timeout elapsed without speech: a missing sample, not an error.
    fn wait_for_speech_start(
        &mut self,
        timeout_ms: u64,
        wait_after_start_ms: u64,
        onset_duration_ms: u64,
    ) -> (r: Result<bool, String>)
        ensures
            final(self).history() == old(self).history().push(
                IoEvent {
                    request: Request::WaitForSpeechStart {
                        timeout_ms,
                        wait_after_start_ms,
                        onset_duration_ms,
                    },
                    reply: started_reply(r),
                },
            ),
    ;

    /// Place an outbound call.
    fn dial(&mut self, number: &str) -> (r: Result<(), String>)
        ensures
            final(self).history() == old(self).history().push(
                IoEvent { request: Request::Dial(number@), reply: plain_reply(r) },
            ),
    ;

    /// Block until the current call is answered, or `timeout_ms` elapses.
    fn wait_for_answer(&mut self, timeout_ms: u64) -> (r: Result<(), String>)
        ensures
            final(self).history() == old(self).history().push(
                IoEvent { request: Request::WaitForAnswer(timeout_ms), reply: plain_reply(r) },
            ),
    ;

    /// Answer the ringing call.
    fn answer(&mut self) -> (r: Result<(), String>)
        ensures
            final(self).history() == old(self).history().push(
                IoEvent { request: Request::Answer, reply: plain_reply(r) },
            ),
    ;

    /// Hang up the active call.
    fn hangup(&mut self) -> (r: Result<(), String>)
        ensures
            final(self).history() == old(self).history().push(
                IoEvent { request: Request::Hangup, reply: plain_reply(r) },
            ),
    ;

    /// Send a text message.
    fn send_sms(&mut self, to: &str, body: &str) -> (r: Result<(), String>)
        ensures
            final(self).history() == old(self).history().push(
                IoEvent { request: Request::SendSms(to@, body@), reply: plain_reply(r) },
            ),
    ;

    /// Sleep for `ms` milliseconds.
    fn sleep(&mut self, ms: u64) -> (r: Result<(), String>)
        ensures
            final(self).history() == old(self).history().push(
                IoEvent { request: Request::Sleep(ms), reply: plain_reply(r) },
            ),
    ;

    /// Emit a log line.
    fn log(&mut self, message: &str)
        ensures
            final(self).history() == old(self).history().push(
                IoEvent { request: Request::Log(message@), reply: Reply::Done },
            ),
    ;

    /// Whether the call of this job has ended (the far end hung up). Asked between steps.
    fn call_ended(&mut self) -> (r: bool)
        ensures
            final(self).history() == old(self).history().push(
                IoEvent { request: Request::HasCallEnded, reply: Reply::Said(r) },
            ),
    ;

    /// Whether this run is for an auto-answered inbound call: the call already exists, so steps
    /// that set one up are skipped.
    fn inbound_mode(&mut self) -> (r: bool)
        ensures
            final(self).history() == old(self).history().push(
                IoEvent { request: Request::IsInbound, reply: Reply::Said(r) },
            ),
    ;

    /// Whether the job has been cancelled. Asked between steps.
    fn cancelled(&mut self) -> (r: bool)
        ensures
            final(self).history() == old(self).history().push(
                IoEvent { request: Request::IsCancelled, reply: Reply::Said(r) },
            ),
    ;

    /// Milliseconds since recording start, for stamping step outcomes; where nothing is recorded,
    /// wall-clock milliseconds since the first call.
    fn now_ms(&mut self) -> (r: u64)
        ensures
            final(self).history() == old(self).history().push(
                IoEvent { request: Request::Now, reply: Reply::Time(r) },
            ),
    ;
}

/// The operations of a [`JobIo`] by themselves: what a phone and a sound card offer. Nothing is
/// assumed of what these do.
pub trait Driver {
    /// Play an audio file out the sound card.
    fn play(&mut self, file: &str) -> Result<(), String>;

    /// Capture until the speaker's turn ends.
    fn wait_for_speech(&mut self, turn: TurnConfig) -> Result<EndReason, String>;

    /// Capture until the speaker starts.
    fn wait_for_speech_start(
        &mut self,
        timeout_ms: u64,
        wait_after_start_ms: u64,
        onset_duration_ms: u64,
    ) -> Result<bool, String>;

    /// Place an outbound call.
    fn dial(&mut self, number: &str) -> Result<(), String>;

    /// Block until the current call is answered, or `timeout_ms` elapses.
    fn wait_for_answer(&mut self, timeout_ms: u64) -> Result<(), String>;

    /// Answer the ringing call.
    fn answer(&mut self) -> Result<(), String>;

    /// Hang up the active call.
    fn hangup(&mut self) -> Result<(), String>;

    /// Send a text message.
    fn send_sms(&mut self, to: &str, body: &str) -> Result<(), String>;

    /// Sleep for `ms` milliseconds.
    fn sleep(&mut self, ms: u64) -> Result<(), String>;

    /// Emit a log line.
    fn log(&mut self, message: &str);

    /// Whether the call of this job has ended.
    fn call_ended(&mut self) -> bool {
        false
    }

    /// Whether this run is for an auto-answered inbound call.
    fn inbound_mode(&self) -> bool {
        false
    }

    /// Whether the job has been cancelled.
    fn cancelled(&self) -> bool {
        false
    }

    /// Milliseconds since recording start, by the recording's own clock; none where nothing is
    /// recorded.
    fn recording_ms(&mut self) -> Option<u64> {
        None
    }

    /// Milliseconds on the wall clock, counted from wherever that clock starts.
    fn wall_ms(&mut self) -> u64;
}

/// The clock of a run: that of its recording, or else the wall clock from the first reading on.
#[derive(Debug, Clone, Copy, PartialEq, Eq, Structural)]
pub struct RunClock {
    /// What the wall clock showed when it was first read.
    pub first: Option<u64>,
}

/// What a clock shows at a reading, and the clock after it.
pub open spec fn stamped(clock: RunClock, recording: Option<u64>, wall: u64) -> (u64, RunClock) {
    match recording {
        Some(t) => (t, clock),
        None => {
            let first = match clock.first {
                Some(f) => f,
                None => wall,
            };
            (span(first, wall), RunClock { first: Some(first) })
        },
    }
}

impl RunClock {
    /// A clock that has not been read.
    pub fn new() -> (r: Self)
        ensures
            r.first is None,
    {
        RunClock { first: None }
    }

    /// Reads the clock, given what the recording and the wall clock show.
    pub fn stamp(&mut self, recording: Option<u64>, wall: u64) -> (r: u64)
        ensures
            (r, *final(self)) == stamped(*old(self), recording, wall),
    {
        match recording {
            Some(t) => t,
            None => {
                let first: u64 = match self.first {
                    Some(f) => f,
                    None => wall,
                };
                self.first = Some(first);
                if wall >= first {
                    wall - first
                } else {
                    0
                }
            },
        }
    }
}

/// A run without a recording is timed from its first reading: that one shows nothing, and of any
/// two later ones the second shows as much more as the wall clock has gone on between them.
pub proof fn law_an_unrecorded_run_is_timed_from_its_first_reading(w0: u64, w1: u64, w2: u64)
    requires
        w0 <= w1 <= w2,
    ensures
        ({
            let (t0, c0) = stamped(RunClock { first: None }, None, w0);
            let (t1, c1) = stamped(c0, None, w1);
            let (t2, c2) = stamped(c1, None, w2);
            &&& t0 == 0
            &&& t1 - t0 == w1 - w0
            &&& t2 - t1 == w2 - w1
        }),
{
}

/// A [`Driver`] whose requests and replies are kept track of.
pub struct Recorded<D: Driver> {
    pub driver: D,
    pub clock: RunClock,
    /// What the recording's clock and the wall clock showed at each reading.
    pub readings: Ghost<Seq<(Option<u64>, u64)>>,
    /// The requests made so far, with their replies.
    pub events: Ghost<Seq<IoEvent>>,
}

impl<D: Driver> Recorded<D> {
    /// Keeps track of a driver from here on.
    pub fn new(driver: D) -> (r: Self)
        ensures
            r.driver == driver,
            r.clock.first is None,
            r.readings@ == Seq::<(Option<u64>, u64)>::empty(),
            r.history() == Seq::<IoEvent>::empty(),
    {
        Recorded {
            driver,
            clock: RunClock::new(),
            readings: Ghost(Seq::empty()),
            events: Ghost(Seq::empty()),
        }
    }

    fn note(&mut self, request: Ghost<Request>, reply: Ghost<Reply>)
        ensures
            final(self).history() == old(self).history().push(
                IoEvent { request: request@, reply: reply@ },
            ),
            final(self).clock == old(self).clock,
            final(self).readings == old(self).readings,
    {
        self.events = Ghost(self.events@.push(IoEvent { request: request@, reply: reply@ }));
    }
}

impl<D: Driver> JobIo for Recorded<D> {
    open spec fn history(&self) -> Seq<IoEvent> {
        self.events@
    }

    fn play(&mut self, file: &str) -> (r: Result<(), String>)
        ensures
            final(self).clock == old(self).clock,
            final(self).readings == old(self).readings,
    {
        let r = self.driver.play(file);
        self.note(Ghost(Request::Play(file@)), Ghost(plain_reply(r)));
        r
    }

    fn wait_for_speech(&mut self, turn: TurnConfig) -> (r: Result<EndReason, String>)
        ensures
            final(self).clock == old(self).clock,
            final(self).readings == old(self).readings,
    {
        let r = self.driver.wait_for_speech(turn);
        self.note(Ghost(Request::WaitForSpeech(turn)), Ghost(ended_reply(r)));
        r
    }

    fn wait_for_speech_start(
        &mut self,
        timeout_ms: u64,
        wait_after_start_ms: u64,
        onset_duration_ms: u64,
    ) -> (r: Result<bool, String>)
        ensures
            final(self).clock == old(self).clock,
            final(self).readings == old(self).readings,
    {
        let r = self.driver.wait_for_speech_start(timeout_ms, wait_after_start_ms, onset_duration_ms);
        self.note(
            Ghost(Request::WaitForSpeechStart { timeout_ms, wait_after_start_ms, onset_duration_ms }),
            Ghost(started_reply(r)),
        );
        r
    }

    fn dial(&mut self, number: &str) -> (r: Result<(), String>)
        ensures
            final(self).clock == old(self).clock,
            final(self).readings == old(self).readings,
    {
        let r = self.driver.dial(number);
        self.note(Ghost(Request::Dial(number@)), Ghost(plain_reply(r)));
        r
    }

    fn wait_for_answer(&mut self, timeout_ms: u64) -> (r: Result<(), String>)
        ensures
            final(self).clock == old(self).clock,
            final(self).readings == old(self).readings,
    {
        let r = self.driver.wait_for_answer(timeout_ms);
        self.note(Ghost(Request::WaitForAnswer(timeout_ms)), Ghost(plain_reply(r)));
        r
    }

    fn answer(&mut self) -> (r: Result<(), String>)
        ensures
            final(self).clock == old(self).clock,
            final(self).readings == old(self).readings,
    {
        let r = self.driver.answer();
        self.note(Ghost(Request::Answer), Ghost(plain_reply(r)));
        r
    }

    fn hangup(&mut self) -> (r: Result<(), String>)
        ensures
            final(self).clock == old(self).clock,
            final(self).readings == old(self).readings,
    {
        let r = self.driver.hangup();
        self.note(Ghost(Request::Hangup), Ghost(plain_reply(r)));
        r
    }

    fn send_sms(&mut self, to: &str, body: &str) -> (r: Result<(), String>)
        ensures
            final(self).clock == old(self).clock,
            final(self).readings == old(self).readings,
    {
        let r = self.driver.send_sms(to, body);
        self.note(Ghost(Request::SendSms(to@, body@)), Ghost(plain_reply(r)));
        r
    }

    fn sleep(&mut self, ms: u64) -> (r: Result<(), String>)
        ensures
            final(self).clock == old(self).clock,
            final(self).readings == old(self).readings,
    {
        let r = self.driver.sleep(ms);
        self.note(Ghost(Request::Sleep(ms)), Ghost(plain_reply(r)));
        r
    }

    fn log(&mut self, message: &str)
        ensures
            final(self).clock == old(self).clock,
            final(self).readings == old(self).readings,
    {
        self.driver.log(message);
        self.note(Ghost(Request::Log(message@)), Ghost(Reply::Done));
    }

    fn call_ended(&mut self) -> (r: bool)
        ensures
            final(self).clock == old(self).clock,
            final(self).readings == old(self).readings,
    {
        let r = self.driver.call_ended();
        self.note(Ghost(Request::HasCallEnded), Ghost(Reply::Said(r)));
        r
    }

    fn inbound_mode(&mut self) -> (r: bool)
        ensures
            final(self).clock == old(self).clock,
            final(self).readings == old(self).readings,
    {
        let r = self.driver.inbound_mode();
        self.note(Ghost(Request::IsInbound), Ghost(Reply::Said(r)));
        r
    }

    fn cancelled(&mut self) -> (r: bool)
        ensures
            final(self).clock == old(self).clock,
            final(self).readings == old(self).readings,
    {
        let r = self.driver.cancelled();
        self.note(Ghost(Request::IsCancelled), Ghost(Reply::Said(r)));
        r
    }

    fn now_ms(&mut self) -> (r: u64)
        ensures
            final(self).readings@.len() == old(self).readings@.len() + 1,
            final(self).readings@.drop_last() == old(self).readings@,
            (r, final(self).clock) == stamped(
                old(self).clock,
                final(self).readings@.last().0,
                final(self).readings@.last().1,
            ),
    {
        let recording = self.driver.recording_ms();
        let wall: u64 = self.driver.wall_ms();
        let r: u64 = self.clock.stamp(recording, wall);
        self.readings = Ghost(self.readings@.push((recording, wall)));
        assert(self.readings@.drop_last() =~= old(self).readings@);
        self.note(Ghost(Request::Now), Ghost(Reply::Time(r)));
        r
    }
}

/// Why a step stopped.
#[derive(Debug, Clone, Copy, PartialEq, Eq, Structural)]
pub enum StepEnd {
    /// Ran to its natural end.
    Completed,
    /// Hit its own timeout. Not necessarily a failure.
    Timeout,
    /// Never ran: an earlier step ended the job, or auto-answer mode made it meaningless.
    Skipped,
    /// The job was cancelled.
    Cancelled,
    /// The far end hung up.
    CallEnded,
}

/// Outcome of a single step. Times are relative to recording start.
#[derive(Debug)]
pub struct StepOutcome {
    pub index: usize,
    /// Echo of the step's `id`.
    pub id: Option<String>,
    /// The step's wire name.
    pub step_type: &'static str,
    pub description: Option<String>,
    pub t_start_ms: u64,
    pub t_end_ms: u64,
    pub end_reason: StepEnd,
    pub summary: String,
}

/// A [`StepOutcome`] with its text as characters.
pub struct OutcomeModel {
    pub index: nat,
    pub id: Option<Seq<char>>,
    pub step_type: Seq<char>,
    pub description: Option<Seq<char>>,
    pub t_start_ms: u64,
    pub t_end_ms: u64,
    pub end_reason: StepEnd,
    pub summary: Seq<char>,
}

impl View for StepOutcome {
    type V = OutcomeModel;

    open spec fn view(&self) -> OutcomeModel {
        OutcomeModel {
            index: self.index as nat,
            id: opt_view(self.id),
            step_type: self.step_type@,
            description: opt_view(self.description),
            t_start_ms: self.t_start_ms,
            t_end_ms: self.t_end_ms,
            end_reason: self.end_reason,
            summary: self.summary@,
        }
    }
}

/// The outcomes of a list, each as a model.
pub open spec fn models(v: Seq<StepOutcome>) -> Seq<OutcomeModel> {
    v.map_values(|o: StepOutcome| o@)
}

/// Summary of the outcome that marks a job stopped because the far end hung up.
pub const CALL_ENDED_SUMMARY: &'static str = "caller hung up — remaining steps skipped";

/// Summary of the outcome that marks a cancelled job.
pub const CANCELLED_SUMMARY: &'static str = "cancelled — remaining steps skipped";

/// What happened round one step: what the clock and the questions said, and the reply to its
/// request.
pub struct Watch {
    pub start: u64,
    pub inbound: bool,
    pub reply: Reply,
    pub end: u64,
    pub cancelled: bool,
    pub call_ended: bool,
    /// The clock when the job was found cancelled or its call ended.
    pub at: u64,
}

/// The request that a step makes.
pub open spec fn step_request(kind: StepKind) -> Request {
    match kind {
        StepKind::AudioPlay { file } => Request::Play(file@),
        StepKind::AudioWaitForSpeech { end_timeout_ms, silence_duration_ms, onset_duration_ms } =>
            Request::WaitForSpeech(
                TurnConfig { hop_size: 256, silence_duration_ms, end_timeout_ms, onset_duration_ms },
            ),
        StepKind::AudioWaitForSpeechStart { timeout_ms, wait_after_start_ms, onset_duration_ms } =>
            Request::WaitForSpeechStart { timeout_ms, wait_after_start_ms, onset_duration_ms },
        StepKind::CallDial { number } => Request::Dial(number@),
        StepKind::CallWaitAnswered { timeout_ms } => Request::WaitForAnswer(timeout_ms),
        StepKind::CallAnswer => Request::Answer,
        StepKind::CallHangup => Request::Hangup,
        StepKind::SmsSend { to, body } => Request::SendSms(to@, body@),
        StepKind::Wait { ms } => Request::Sleep(ms),
        StepKind::Log { message } => Request::Log(message@),
    }
}

/// Whether a reply is of the form that a step's request gets when it does not fail.
pub open spec fn reply_fits(kind: StepKind, reply: Reply) -> bool {
    match kind {
        StepKind::AudioWaitForSpeech { .. } => reply is Ended,
        StepKind::AudioWaitForSpeechStart { .. } => reply is Started,
        _ => reply is Done,
    }
}

/// The word for a turn's end.
pub open spec fn end_word(why: EndReason) -> Seq<char> {
    match why {
        EndReason::Silence => "Silence"@,
        EndReason::Timeout => "Timeout"@,
        EndReason::EndOfStream => "EndOfStream"@,
    }
}

/// What a step that got `reply` reports: its summary, and why it stopped. Neither a turn that
/// timed out nor speech that never started is a failure.
pub open spec fn step_report(kind: StepKind, reply: Reply) -> (Seq<char>, StepEnd) {
    match kind {
        StepKind::AudioPlay { file } => ("played "@ + file@, StepEnd::Completed),
        StepKind::AudioWaitForSpeech { .. } => (
            "turn ended: "@ + end_word(reply->Ended_0),
            if reply->Ended_0 == EndReason::Timeout {
                StepEnd::Timeout
            } else {
                StepEnd::Completed
            },
        ),
        StepKind::AudioWaitForSpeechStart { timeout_ms, wait_after_start_ms, .. } => if reply->Started_0 {
            (
                "speech started, waited "@ + decimal(wait_after_start_ms as nat) + "ms"@,
                StepEnd::Completed,
            )
        } else {
            ("no speech within "@ + decimal(timeout_ms as nat) + "ms"@, StepEnd::Timeout)
        },
        StepKind::CallDial { number } => ("dialed "@ + number@, StepEnd::Completed),
        StepKind::CallWaitAnswered { .. } => ("call answered"@, StepEnd::Completed),
        StepKind::CallAnswer => ("answered"@, StepEnd::Completed),
        StepKind::CallHangup => ("hung up"@, StepEnd::Completed),
        StepKind::SmsSend { to, body } => (
            "sms -> "@ + to@ + " ("@ + decimal(encode_utf8(body@).len()) + " chars)"@,
            StepEnd::Completed,
        ),
        StepKind::Wait { ms } => ("waited "@ + decimal(ms as nat) + "ms"@, StepEnd::Completed),
        StepKind::Log { message } => ("log: "@ + message@, StepEnd::Completed),
    }
}

/// The outcome of a step that never ran.
pub open spec fn unrun(index: nat, step: Step, at: u64, summary: Seq<char>) -> OutcomeModel {
    OutcomeModel {
        index,
        id: opt_view(step.id),
        step_type: step.kind.wire_name(),
        description: opt_view(step.description),
        t_start_ms: at,
        t_end_ms: at,
        end_reason: StepEnd::Skipped,
        summary,
    }
}

/// Whether a step is skipped: it would set up a call that already exists.
pub open spec fn is_moot(step: Step, w: Watch) -> bool {
    w.inbound && step.kind.sets_up_call()
}

/// The outcome of one step.
pub open spec fn outcome_of(index: nat, step: Step, w: Watch) -> OutcomeModel {
    if is_moot(step, w) {
        unrun(index, step, w.start, step.kind.wire_name() + " skipped (auto-answer mode)"@)
    } else {
        OutcomeModel {
            index,
            id: opt_view(step.id),
            step_type: step.kind.wire_name(),
            description: opt_view(step.description),
            t_start_ms: w.start,
            t_end_ms: w.end,
            end_reason: step_report(step.kind, w.reply).1,
            summary: step_report(step.kind, w.reply).0,
        }
    }
}

/// A look at the clock.
pub open spec fn clock(at: u64) -> IoEvent {
    IoEvent { request: Request::Now, reply: Reply::Time(at) }
}

/// What is asked before a step.
pub open spec fn asked_before(start: u64, inbound: bool) -> Seq<IoEvent> {
    seq![clock(start), IoEvent { request: Request::IsInbound, reply: Reply::Said(inbound) }]
}

/// The requests of a step that is run: its description is logged first.
pub open spec fn requests_of(step: Step, reply: Reply) -> Seq<IoEvent> {
    let ask = seq![IoEvent { request: step_request(step.kind), reply }];
    match step.description {
        Some(d) => seq![IoEvent { request: Request::Log(d@), reply: Reply::Done }] + ask,
        None => ask,
    }
}

/// What is asked after a step that did not fail: whether the job was cancelled, and, where it was
/// not, whether its call has ended. Where the job is stopped, the time is noted.
pub open spec fn asked_after(end: u64, cancelled: bool, call_ended: bool, at: u64) -> Seq<IoEvent> {
    let stop = seq![
        clock(end),
        IoEvent { request: Request::IsCancelled, reply: Reply::Said(cancelled) },
    ];
    if cancelled {
        stop.push(clock(at))
    } else {
        let ended = stop.push(
            IoEvent { request: Request::HasCallEnded, reply: Reply::Said(call_ended) },
        );
        if call_ended {
            ended.push(clock(at))
        } else {
            ended
        }
    }
}

/// The requests of one step with their replies, and the questions round it.
pub open spec fn events_of(step: Step, w: Watch) -> Seq<IoEvent> {
    let before = asked_before(w.start, w.inbound);
    if is_moot(step, w) {
        before
    } else if w.reply is Failed {
        before + requests_of(step, w.reply)
    } else {
        before + requests_of(step, w.reply) + asked_after(w.end, w.cancelled, w.call_ended, w.at)
    }
}

/// The requests of the steps that were reached.
pub open spec fn all_events(steps: Seq<Step>, w: Seq<Watch>) -> Seq<IoEvent>
    decreases w.len(),
{
    if w.len() == 0 {
        Seq::empty()
    } else {
        all_events(steps, w.drop_last()) + events_of(steps[w.len() - 1], w.last())
    }
}

/// The outcomes of the steps that were reached.
pub open spec fn reached(steps: Seq<Step>, w: Seq<Watch>) -> Seq<OutcomeModel> {
    Seq::new(w.len(), |i: int| outcome_of(i as nat, steps[i], w[i]))
}

/// Whether the job goes on after a step.
pub open spec fn goes_on(step: Step, w: Watch) -> bool {
    is_moot(step, w) || (reply_fits(step.kind, w.reply) && !w.cancelled && !w.call_ended)
}

/// The outcome that marks a job stopped after `n` steps: cancelled, or its call ended.
pub open spec fn marker(n: nat, w: Watch) -> OutcomeModel {
    OutcomeModel {
        index: n,
        id: None,
        step_type: "control.log"@,
        description: Some(
            if w.cancelled {
                "cancelled"@
            } else {
                "call ended"@
            },
        ),
        t_start_ms: w.at,
        t_end_ms: w.at,
        end_reason: if w.cancelled {
            StepEnd::Cancelled
        } else {
            StepEnd::CallEnded
        },
        summary: if w.cancelled {
            CANCELLED_SUMMARY@
        } else {
            CALL_ENDED_SUMMARY@
        },
    }
}

/// The outcomes of the steps from `n` on, none of which ran.
pub open spec fn left_over(steps: Seq<Step>, n: nat, at: u64) -> Seq<OutcomeModel> {
    Seq::new(
        (steps.len() - n) as nat,
        |i: int|
            unrun(
                (n + i) as nat,
                steps[n + i],
                at,
                steps[n + i].kind.wire_name() + " skipped"@,
            ),
    )
}

/// What a job came to: its outcomes, or what failed.
pub enum RunResult {
    Outcomes(Seq<OutcomeModel>),
    Failed(Seq<char>),
}

/// Whether `w` tells how the steps were gone through: all but the last one went on.
pub open spec fn is_walk(steps: Seq<Step>, w: Seq<Watch>) -> bool {
    &&& w.len() <= steps.len()
    &&& forall|i: int| 0 <= i < w.len() - 1 ==> goes_on(#[trigger] steps[i], w[i])
}

/// Whether a job that was gone through as `w` tells came to `r`: it failed at its last step, or
/// was stopped after it (and then the rest is reported as skipped), or ran to its end.
pub open spec fn comes_to(steps: Seq<Step>, w: Seq<Watch>, r: RunResult) -> bool {
    if w.len() > 0 && !goes_on(steps[w.len() - 1], w.last()) {
        let x = w.last();
        if x.reply is Failed {
            r == RunResult::Failed(x.reply->Failed_0)
        } else {
            &&& reply_fits(steps[w.len() - 1].kind, x.reply)
            &&& r == RunResult::Outcomes(
                reached(steps, w).push(marker(w.len(), x)) + left_over(steps, w.len(), x.at),
            )
        }
    } else {
        w.len() == steps.len() && r == RunResult::Outcomes(reached(steps, w))
    }
}

/// The result of [`run_job`], as a model.
pub open spec fn run_model(r: Result<Vec<StepOutcome>, String>) -> RunResult {
    match r {
        Ok(v) => RunResult::Outcomes(models(v@)),
        Err(e) => RunResult::Failed(e@),
    }
}

impl StepOutcome {
    /// An outcome for a step that never ran: it takes no time.
    fn skipped(index: usize, step: &Step, at_ms: u64, summary: String) -> (r: Self)
        ensures
            r@ == unrun(index as nat, *step, at_ms, summary@),
    {
        StepOutcome {
            index,
            id: text::copy_opt(&step.id),
            step_type: step.kind.name(),
            description: text::copy_opt(&step.description),
            t_start_ms: at_ms,
            t_end_ms: at_ms,
            end_reason: StepEnd::Skipped,
            summary,
        }
    }
}

proof fn lemma_models_push(v: Seq<StepOutcome>, o: StepOutcome)
    ensures
        models(v.push(o)) == models(v).push(o@),
{
    assert(models(v.push(o)) =~= models(v).push(o@));
}

/// Reports every step from `from` on as not run.
fn push_skipped(outcomes: &mut Vec<StepOutcome>, steps: &[Step], from: usize, at_ms: u64)
    requires
        from <= steps@.len(),
    ensures
        models(final(outcomes)@) == models(old(outcomes)@) + left_over(steps@, from as nat, at_ms),
{
    let ghost before = models(outcomes@);
    let mut j: usize = from;
    proof {
        assert(left_over(steps@, from as nat, at_ms).take(0) =~= Seq::empty());
        assert(before + Seq::<OutcomeModel>::empty() =~= before);
    }
    while j < steps.len()
        invariant
            from <= j <= steps@.len(),
            models(outcomes@) == before + left_over(steps@, from as nat, at_ms).take(j - from),
        decreases steps.len() - j,
    {
        let mut summary = steps[j].kind.name().to_owned();
        summary.append(" skipped");
        let o = StepOutcome::skipped(j, &steps[j], at_ms, summary);
        proof {
            let all = left_over(steps@, from as nat, at_ms);
            lemma_models_push(outcomes@, o);
            assert(all[j - from] == o@);
            assert(all.take(j - from + 1) =~= all.take(j - from).push(all[j - from]));
            assert(before + all.take(j - from).push(o@) =~= (before + all.take(j - from)).push(o@));
        }
        outcomes.push(o);
        j += 1;
    }
    proof {
        let all = left_over(steps@, from as nat, at_ms);
        assert(all.take(j - from) =~= all);
    }
}

/// Makes one step's request and reports on the reply.
pub fn run_step<I: JobIo>(kind: &StepKind, io: &mut I) -> (r: Result<(String, StepEnd), String>)
    ensures
        ({
            let ev = final(io).history().last();
            &&& final(io).history() == old(io).history().push(ev)
            &&& ev.request == step_request(*kind)
            &&& match r {
                Ok(out) => reply_fits(*kind, ev.reply) && (out.0@, out.1) == step_report(
                    *kind,
                    ev.reply,
                ),
                Err(e) => ev.reply == Reply::Failed(e@),
            }
        }),
{
    match kind {
        StepKind::AudioPlay { file } => match io.play(file) {
            Ok(_) => {
                let mut s = "played ".to_owned();
                s.append(file);
                Ok((s, StepEnd::Completed))
            },
            Err(e) => Err(e),
        },
        StepKind::AudioWaitForSpeech { end_timeout_ms, silence_duration_ms, onset_duration_ms } => {
            let turn = TurnConfig {
                hop_size: 256,
                silence_duration_ms: *silence_duration_ms,
                end_timeout_ms: *end_timeout_ms,
                onset_duration_ms: *onset_duration_ms,
            };
            match io.wait_for_speech(turn) {
                Ok(why) => {
                    let mut s = "turn ended: ".to_owned();
                    let end = match why {
                        EndReason::Silence => {
                            s.append("Silence");
                            StepEnd::Completed
                        },
                        EndReason::Timeout => {
                            s.append("Timeout");
                            StepEnd::Timeout
                        },
                        EndReason::EndOfStream => {
                            s.append("EndOfStream");
                            StepEnd::Completed
                        },
                    };
                    Ok((s, end))
                },
                Err(e) => Err(e),
            }
        },
        StepKind::AudioWaitForSpeechStart { timeout_ms, wait_after_start_ms, onset_duration_ms } => {
            match io.wait_for_speech_start(*timeout_ms, *wait_after_start_ms, *onset_duration_ms) {
                Ok(started) => if started {
                    let mut s = "speech started, waited ".to_owned();
                    s.append(&text::decimal_of(*wait_after_start_ms));
                    s.append("ms");
                    Ok((s, StepEnd::Completed))
                } else {
                    let mut s = "no speech within ".to_owned();
                    s.append(&text::decimal_of(*timeout_ms));
                    s.append("ms");
                    Ok((s, StepEnd::Timeout))
                },
                Err(e) => Err(e),
            }
        },
        StepKind::CallDial { number } => match io.dial(number) {
            Ok(_) => {
                let mut s = "dialed ".to_owned();
                s.append(number);
                Ok((s, StepEnd::Completed))
            },
            Err(e) => Err(e),
        },
        StepKind::CallWaitAnswered { timeout_ms } => match io.wait_for_answer(*timeout_ms) {
            Ok(_) => Ok(("call answered".to_owned(), StepEnd::Completed)),
            Err(e) => Err(e),
        },
        StepKind::CallAnswer => match io.answer() {
            Ok(_) => Ok(("answered".to_owned(), StepEnd::Completed)),
            Err(e) => Err(e),
        },
        StepKind::CallHangup => match io.hangup() {
            Ok(_) => Ok(("hung up".to_owned(), StepEnd::Completed)),
            Err(e) => Err(e),
        },
        StepKind::SmsSend { to, body } => match io.send_sms(to, body) {
            Ok(_) => {
                let mut s = "sms -> ".to_owned();
                s.append(to);
                s.append(" (");
                s.append(&text::decimal_of(body.as_str().as_bytes().len() as u64));
                s.append(" chars)");
                Ok((s, StepEnd::Completed))
            },
            Err(e) => Err(e),
        },
        StepKind::Wait { ms } => match io.sleep(*ms) {
            Ok(_) => {
                let mut s = "waited ".to_owned();
                s.append(&text::decimal_of(*ms));
                s.append("ms");
                Ok((s, StepEnd::Completed))
            },
            Err(e) => Err(e),
        },
        StepKind::Log { message } => {
            io.log(message);
            let mut s = "log: ".to_owned();
            s.append(message);
            Ok((s, StepEnd::Completed))
        },
    }
}

/// Asks what is asked before a step: the time, and whether the call exists already.
fn ask_before<I: JobIo>(io: &mut I) -> (r: (u64, bool))
    ensures
        final(io).history() == old(io).history() + asked_before(r.0, r.1),
{
    let start: u64 = io.now_ms();
    let inbound = io.inbound_mode();
    proof {
        assert(io.history() =~= old(io).history() + asked_before(start, inbound));
    }
    (start, inbound)
}

/// Logs a step's description and makes its request.
fn perform<I: JobIo>(step: &Step, io: &mut I) -> (r: Result<(String, StepEnd), String>)
    ensures
        ({
            let reply = final(io).history().last().reply;
            &&& final(io).history() == old(io).history() + requests_of(*step, reply)
            &&& match r {
                Ok(out) => reply_fits(step.kind, reply) && (out.0@, out.1) == step_report(
                    step.kind,
                    reply,
                ),
                Err(e) => reply == Reply::Failed(e@),
            }
        }),
{
    if let Some(d) = &step.description {
        io.log(d);
    }
    let r = run_step(&step.kind, io);
    proof {
        assert(io.history() =~= old(io).history() + requests_of(*step, io.history().last().reply));
    }
    r
}

/// Asks what is asked after a step: the time, whether the job was cancelled or its call has ended,
/// and, where one of these holds, the time again.
fn ask_after<I: JobIo>(io: &mut I) -> (r: (u64, bool, bool, u64))
    ensures
        final(io).history() == old(io).history() + asked_after(r.0, r.1, r.2, r.3),
{
    let end: u64 = io.now_ms();
    let cancelled = io.cancelled();
    let call_ended = if cancelled {
        false
    } else {
        io.call_ended()
    };
    let at: u64 = if cancelled || call_ended {
        io.now_ms()
    } else {
        0
    };
    proof {
        assert(io.history() =~= old(io).history() + asked_after(end, cancelled, call_ended, at));
    }
    (end, cancelled, call_ended, at)
}

/// Runs all `steps`, stopping at the first error. Gives the outcome of each.
///
/// Between steps the job is stopped where it was cancelled or its call has ended; a marker and
/// the steps that did not run are then among the outcomes.
pub fn run_job<I: JobIo>(steps: &[Step], io: &mut I) -> (r: Result<Vec<StepOutcome>, String>)
    ensures
        exists|w: Seq<Watch>|
            {
                &&& is_walk(steps@, w)
                &&& comes_to(steps@, w, run_model(r))
                &&& final(io).history() == old(io).history() + #[trigger] all_events(steps@, w)
            },
{
    let ghost before = io.history();
    let ghost mut w: Seq<Watch> = Seq::empty();
    let mut outcomes: Vec<StepOutcome> = Vec::new();
    let mut index: usize = 0;
    proof {
        assert(before + Seq::<IoEvent>::empty() =~= before);
        assert(models(outcomes@) =~= reached(steps@, w));
    }
    while index < steps.len()
        invariant
            index <= steps@.len(),
            before == old(io).history(),
            w.len() == index,
            forall|i: int| 0 <= i < index ==> goes_on(#[trigger] steps@[i], w[i]),
            models(outcomes@) == reached(steps@, w),
            io.history() == before + all_events(steps@, w),
        decreases steps.len() - index,
    {
        let step = &steps[index];
        let (t_start_ms, inbound): (u64, bool) = ask_before(io);
        let ghost asked = asked_before(t_start_ms, inbound);
        let ghost base = Watch {
            start: t_start_ms,
            inbound,
            reply: Reply::Done,
            end: 0,
            cancelled: false,
            call_ended: false,
            at: 0,
        };
        if inbound && step.kind.is_setup() {
            let mut summary = step.kind.name().to_owned();
            summary.append(" skipped (auto-answer mode)");
            let o = StepOutcome::skipped(index, step, t_start_ms, summary);
            proof {
                lemma_models_push(outcomes@, o);
                let w1 = w.push(base);
                assert(w1.drop_last() =~= w);
                assert(reached(steps@, w1) =~= reached(steps@, w).push(
                    outcome_of(index as nat, steps@[index as int], base),
                ));
                assert(before + all_events(steps@, w) + asked =~= before + (all_events(steps@, w)
                    + asked));
                w = w1;
            }
            outcomes.push(o);
            index += 1;
            continue ;
        }
        let (summary, end_reason) = match perform(step, io) {
            Ok(out) => out,
            Err(e) => {
                proof {
                    let x = Watch { reply: Reply::Failed(e@), ..base };
                    let w1 = w.push(x);
                    assert(w1.drop_last() =~= w);
                    let made = requests_of(*step, x.reply);
                    assert(before + all_events(steps@, w) + asked + made =~= before + (all_events(
                        steps@,
                        w,
                    ) + (asked + made)));
                    assert forall|i: int| 0 <= i < w1.len() - 1 implies goes_on(
                        #[trigger] steps@[i],
                        w1[i],
                    ) by {
                        assert(w1[i] == w[i]);
                    }
                    assert(is_walk(steps@, w1));
                    assert(!goes_on(steps@[index as int], x));
                    assert(comes_to(steps@, w1, RunResult::Failed(e@)));
                    assert(io.history() == before + all_events(steps@, w1));
                }
                return Err(e);
            },
        };
        let ghost reply = io.history().last().reply;
        let (t_end_ms, cancelled, call_ended, at_ms): (u64, bool, bool, u64) = ask_after(io);
        let o = StepOutcome {
            index,
            id: text::copy_opt(&step.id),
            step_type: step.kind.name(),
            description: text::copy_opt(&step.description),
            t_start_ms,
            t_end_ms,
            end_reason,
            summary,
        };
        proof {
            lemma_models_push(outcomes@, o);
        }
        outcomes.push(o);
        proof {
            let x = Watch { reply, end: t_end_ms, cancelled, call_ended, at: at_ms, ..base };
            let w1 = w.push(x);
            assert(w1.drop_last() =~= w);
            let made = requests_of(*step, reply);
            let after = asked_after(t_end_ms, cancelled, call_ended, at_ms);
            assert(before + all_events(steps@, w) + asked + made + after =~= before + (all_events(
                steps@,
                w,
            ) + (asked + made + after)));
            assert(reached(steps@, w1) =~= reached(steps@, w).push(
                outcome_of(index as nat, steps@[index as int], x),
            ));
            assert forall|i: int| 0 <= i < w1.len() - 1 implies goes_on(
                #[trigger] steps@[i],
                w1[i],
            ) by {
                assert(w1[i] == w[i]);
            }
            w = w1;
        }
        index += 1;
        if cancelled || call_ended {
            let mark = StepOutcome {
                index,
                id: None,
                step_type: "control.log",
                description: Some(
                    if cancelled {
                        "cancelled".to_owned()
                    } else {
                        "call ended".to_owned()
                    },
                ),
                t_start_ms: at_ms,
                t_end_ms: at_ms,
                end_reason: if cancelled {
                    StepEnd::Cancelled
                } else {
                    StepEnd::CallEnded
                },
                summary: if cancelled {
                    CANCELLED_SUMMARY.to_owned()
                } else {
                    CALL_ENDED_SUMMARY.to_owned()
                },
            };
            proof {
                lemma_models_push(outcomes@, mark);
            }
            outcomes.push(mark);
            push_skipped(&mut outcomes, steps, index, at_ms);
            proof {
                assert(is_walk(steps@, w));
                assert(comes_to(steps@, w, RunResult::Outcomes(models(outcomes@))));
                assert(io.history() == before + all_events(steps@, w));
            }
            return Ok(outcomes);
        }
    }
    proof {
        assert(is_walk(steps@, w));
        assert(comes_to(steps@, w, RunResult::Outcomes(models(outcomes@))));
    }
    Ok(outcomes)
}

/// A job that does not fail accounts for each of its steps: one outcome for each, and one more
/// that marks where it was stopped.
pub proof fn law_every_step_is_accounted_for(
    steps: Seq<Step>,
    w: Seq<Watch>,
    outcomes: Seq<OutcomeModel>,
)
    requires
        is_walk(steps, w),
        comes_to(steps, w, RunResult::Outcomes(outcomes)),
    ensures
        outcomes.len() == steps.len() || outcomes.len() == steps.len() + 1,
        forall|i: int|
            0 <= i < steps.len() ==> exists|j: int|
                0 <= j < outcomes.len() && (#[trigger] outcomes[j]).index == i
                    && outcomes[j].step_type == (#[trigger] steps[i]).kind.wire_name(),
{
    assert forall|i: int| 0 <= i < steps.len() implies exists|j: int|
        0 <= j < outcomes.len() && (#[trigger] outcomes[j]).index == i && outcomes[j].step_type == (
        #[trigger] steps[i]).kind.wire_name() by {
        if i < w.len() {
            assert(outcomes[i] == reached(steps, w)[i]);
        } else {
            assert(outcomes[i + 1] == left_over(steps, w.len(), w.last().at)[i - w.len()]);
        }
    }
}

/// Whether a request sets a call up.
pub open spec fn sets_up(r: Request) -> bool {
    r is Dial || r is WaitForAnswer || r is Answer
}

/// A run for an auto-answered call never places, awaits or answers one.
pub proof fn law_an_inbound_run_sets_up_no_call(steps: Seq<Step>, w: Seq<Watch>)
    requires
        w.len() <= steps.len(),
        forall|i: int| 0 <= i < w.len() ==> (#[trigger] w[i]).inbound,
    ensures
        forall|i: int|
            0 <= i < all_events(steps, w).len() ==> !sets_up(
                (#[trigger] all_events(steps, w)[i]).request,
            ),
    decreases w.len(),
{
    if w.len() > 0 {
        let head = w.drop_last();
        assert forall|i: int| 0 <= i < head.len() implies (#[trigger] head[i]).inbound by {
            assert(head[i] == w[i]);
        }
        law_an_inbound_run_sets_up_no_call(steps, head);
        let a = all_events(steps, head);
        let b = events_of(steps[w.len() - 1], w.last());
        assert(w[w.len() - 1].inbound);
        assert forall|i: int| 0 <= i < all_events(steps, w).len() implies !sets_up(
            (#[trigger] all_events(steps, w)[i]).request,
        ) by {
            if i < a.len() {
                assert(all_events(steps, w)[i] == a[i]);
            } else {
                assert(all_events(steps, w)[i] == b[i - a.len()]);
            }
        }
    }
}

/// Speech that never starts is a timeout of that step, and the job goes on.
pub proof fn law_missing_speech_does_not_abort(step: Step, w: Watch)
    requires
        step.kind is AudioWaitForSpeechStart,
        w.reply == Reply::Started(false),
        !w.cancelled,
        !w.call_ended,
    ensures
        goes_on(step, w),
        step_report(step.kind, w.reply).1 == StepEnd::Timeout,
{
}

proof fn lemma_events_at(steps: Seq<Step>, w: Seq<Watch>, i: int)
    requires
        0 <= i < w.len() <= steps.len(),
    ensures
        ({
            let all = all_events(steps, w);
            let k = all_events(steps, w.take(i)).len() as int;
            let mine = events_of(steps[i], w[i]);
            &&& k + mine.len() <= all.len()
            &&& all.subrange(k, k + mine.len()) == mine
            &&& i == w.len() - 1 ==> k + mine.len() == all.len()
        }),
    decreases w.len(),
{
    let all = all_events(steps, w);
    let head = w.drop_last();
    let a = all_events(steps, head);
    let b = events_of(steps[w.len() - 1], w.last());
    let mine = events_of(steps[i], w[i]);
    if i == w.len() - 1 {
        assert(w.take(i) =~= head);
        assert(all.subrange(a.len() as int, a.len() as int + b.len()) =~= b);
    } else {
        lemma_events_at(steps, head, i);
        assert(head.take(i) =~= w.take(i));
        assert(head[i] == w[i]);
        let k = all_events(steps, w.take(i)).len() as int;
        assert(all.subrange(k, k + mine.len()) =~= a.subrange(k, k + mine.len()));
    }
}

/// Where the request of a step that was run stands in a job's history: behind the looks at the
/// clock and at who answered the call, and behind its description.
pub open spec fn request_at(steps: Seq<Step>, w: Seq<Watch>, i: int) -> int {
    all_events(steps, w.take(i)).len() + 2 + if steps[i].description is Some {
        1int
    } else {
        0
    }
}

/// A step asks for what it says, in its own terms: the wait for a turn ends by the silence, the cap
/// and the onset of the step; that for the start of speech by its timeout, its wait and its onset;
/// a call goes to its number, a text to its recipient with its body; and so on for each kind. A
/// step that would set a call up is passed over where the call was answered already.
pub proof fn law_a_step_asks_for_what_it_says(steps: Seq<Step>, w: Seq<Watch>, i: int)
    requires
        0 <= i < w.len() <= steps.len(),
        !(w[i].inbound && (steps[i].kind is CallDial || steps[i].kind is CallWaitAnswered
            || steps[i].kind is CallAnswer)),
    ensures
        0 <= request_at(steps, w, i) < all_events(steps, w).len(),
        ({
            let ev = all_events(steps, w)[request_at(steps, w, i)];
            &&& ev.reply == w[i].reply
            &&& match steps[i].kind {
                StepKind::AudioPlay { file } => ev.request matches Request::Play(f) && f == file@,
                StepKind::AudioWaitForSpeech {
                    end_timeout_ms,
                    silence_duration_ms,
                    onset_duration_ms,
                } => {
                    &&& ev.request matches Request::WaitForSpeech(t)
                    &&& t.silence_duration_ms == silence_duration_ms
                    &&& t.end_timeout_ms == end_timeout_ms
                    &&& t.onset_duration_ms == onset_duration_ms
                    &&& t.hop_size == 256
                },
                StepKind::AudioWaitForSpeechStart {
                    timeout_ms,
                    wait_after_start_ms,
                    onset_duration_ms,
                } => {
                    &&& ev.request matches Request::WaitForSpeechStart {
                        timeout_ms: t,
                        wait_after_start_ms: a,
                        onset_duration_ms: o,
                    }
                    &&& t == timeout_ms
                    &&& a == wait_after_start_ms
                    &&& o == onset_duration_ms
                },
                StepKind::CallDial { number } => ev.request matches Request::Dial(n) && n
                    == number@,
                StepKind::CallWaitAnswered { timeout_ms } => ev.request
                    matches Request::WaitForAnswer(t) && t == timeout_ms,
                StepKind::CallAnswer => ev.request is Answer,
                StepKind::CallHangup => ev.request is Hangup,
                StepKind::SmsSend { to, body } => ev.request matches Request::SendSms(t, b) && t
                    == to@ && b == body@,
                StepKind::Wait { ms } => ev.request matches Request::Sleep(t) && t == ms,
                StepKind::Log { message } => ev.request matches Request::Log(m) && m == message@,
            }
        }),
{
    lemma_events_at(steps, w, i);
    let all = all_events(steps, w);
    let k = all_events(steps, w.take(i)).len() as int;
    let mine = events_of(steps[i], w[i]);
    let n = request_at(steps, w, i);
    assert(all.subrange(k, k + mine.len())[n - k] == all[n]);
}

/// What stands round a step in a job's history: the clock and who answered the call before it, its
/// description where it has one, and, where it did not fail, the clock and whether the job was
/// cancelled behind it, and whether the call has ended where it was not. A step that was passed
/// over is asked nothing for. One that failed is the last thing that is asked.
pub proof fn law_a_step_is_asked_about(steps: Seq<Step>, w: Seq<Watch>, i: int)
    requires
        is_walk(steps, w),
        0 <= i < w.len(),
    ensures
        ({
            let all = all_events(steps, w);
            let k = all_events(steps, w.take(i)).len() as int;
            let n = request_at(steps, w, i);
            let passed = w[i].inbound && (steps[i].kind is CallDial
                || steps[i].kind is CallWaitAnswered || steps[i].kind is CallAnswer);
            &&& k + 2 <= all.len()
            &&& all[k].request is Now && all[k].reply == Reply::Time(w[i].start)
            &&& all[k + 1].request is IsInbound && all[k + 1].reply == Reply::Said(w[i].inbound)
            &&& passed ==> all_events(steps, w.take(i + 1)).len() == k + 2
            &&& !passed && steps[i].description is Some ==> all[k + 2].request == Request::Log(
                steps[i].description->0@,
            )
            &&& !passed && w[i].reply is Failed ==> n + 1 == all.len()
            &&& !passed && !(w[i].reply is Failed) ==> {
                &&& n + 2 < all.len()
                &&& all[n + 1].request is Now && all[n + 1].reply == Reply::Time(w[i].end)
                &&& all[n + 2].request is IsCancelled && all[n + 2].reply == Reply::Said(
                    w[i].cancelled,
                )
                &&& !w[i].cancelled ==> {
                    &&& n + 3 < all.len()
                    &&& all[n + 3].request is HasCallEnded
                    &&& all[n + 3].reply == Reply::Said(w[i].call_ended)
                }
            }
        }),
{
    lemma_events_at(steps, w, i);
    let all = all_events(steps, w);
    let k = all_events(steps, w.take(i)).len() as int;
    let mine = events_of(steps[i], w[i]);
    let sub = all.subrange(k, k + mine.len());
    let n = request_at(steps, w, i);
    assert(sub[0] == all[k] && sub[1] == all[k + 1]);
    assert(w.take(i + 1).drop_last() =~= w.take(i));
    assert(w.take(i + 1).last() == w[i]);
    if !is_moot(steps[i], w[i]) {
        if steps[i].description is Some {
            assert(sub[2] == all[k + 2]);
        }
        if w[i].reply is Failed {
            if i < w.len() - 1 {
                assert(goes_on(steps[i], w[i]));
            }
        } else {
            assert(sub[n + 1 - k] == all[n + 1]);
            assert(sub[n + 2 - k] == all[n + 2]);
            if !w[i].cancelled {
                assert(sub[n + 3 - k] == all[n + 3]);
            }
        }
    }
}

/// A job that was cancelled, or whose call has ended, asks for nothing more: behind such an answer
/// the clock is looked at, and no step follows.
pub proof fn law_a_stopped_job_asks_for_nothing_more(steps: Seq<Step>, w: Seq<Watch>, i: int)
    requires
        is_walk(steps, w),
        0 <= i < w.len(),
        !(w[i].inbound && (steps[i].kind is CallDial || steps[i].kind is CallWaitAnswered
            || steps[i].kind is CallAnswer)),
        !(w[i].reply is Failed),
        w[i].cancelled || w[i].call_ended,
    ensures
        i == w.len() - 1,
        ({
            let all = all_events(steps, w);
            &&& all.last().request is Now
            &&& all.last().reply == Reply::Time(w[i].at)
            &&& all.len() <= request_at(steps, w, i) + 5
        }),
{
    if i < w.len() - 1 {
        assert(goes_on(steps[i], w[i]));
    }
    lemma_events_at(steps, w, i);
    let all = all_events(steps, w);
    let k = all_events(steps, w.take(i)).len() as int;
    let mine = events_of(steps[i], w[i]);
    assert(all.subrange(k, k + mine.len()).last() == all.last());
}

/// What is reported of a step that ran is its own: its place, its id and its description, the
/// clock before and behind it, and how it ended: by a timeout where its turn was capped or no
/// speech started, completed otherwise.
pub proof fn law_an_outcome_tells_of_its_step(
    steps: Seq<Step>,
    w: Seq<Watch>,
    outcomes: Seq<OutcomeModel>,
    i: int,
)
    requires
        is_walk(steps, w),
        comes_to(steps, w, RunResult::Outcomes(outcomes)),
        0 <= i < w.len(),
    ensures
        i < outcomes.len(),
        outcomes[i].index == i,
        outcomes[i].id == opt_view(steps[i].id),
        outcomes[i].description == opt_view(steps[i].description),
        outcomes[i].step_type == steps[i].kind.wire_name(),
        outcomes[i].t_start_ms == w[i].start,
        ({
            let passed = w[i].inbound && (steps[i].kind is CallDial
                || steps[i].kind is CallWaitAnswered || steps[i].kind is CallAnswer);
            if passed {
                outcomes[i].t_end_ms == w[i].start && outcomes[i].end_reason == StepEnd::Skipped
            } else {
                &&& outcomes[i].t_end_ms == w[i].end
                &&& outcomes[i].end_reason == StepEnd::Timeout <==> w[i].reply == Reply::Ended(
                    EndReason::Timeout,
                ) || w[i].reply == Reply::Started(false)
                &&& outcomes[i].end_reason == StepEnd::Completed || outcomes[i].end_reason
                    == StepEnd::Timeout
            }
        }),
{
    assert(outcomes[i] == reached(steps, w)[i]);
    if i < w.len() - 1 {
        assert(goes_on(steps[i], w[i]));
    }
}

/// A job that was stopped says so, and names what did not run: behind the steps that ran stands one
/// outcome that tells whether it was cancelled or its call ended, and behind that every step that
/// was not reached, as skipped, at the time of the stop.
pub proof fn law_a_stopped_job_says_so(
    steps: Seq<Step>,
    w: Seq<Watch>,
    outcomes: Seq<OutcomeModel>,
)
    requires
        is_walk(steps, w),
        comes_to(steps, w, RunResult::Outcomes(outcomes)),
        w.len() > 0,
        !(w.last().inbound && (steps[w.len() - 1].kind is CallDial
            || steps[w.len() - 1].kind is CallWaitAnswered || steps[w.len() - 1].kind is CallAnswer)),
        w.last().cancelled || w.last().call_ended,
    ensures
        outcomes.len() == steps.len() + 1,
        ({
            let mark = outcomes[w.len() as int];
            &&& mark.end_reason == if w.last().cancelled {
                StepEnd::Cancelled
            } else {
                StepEnd::CallEnded
            }
            &&& mark.summary == if w.last().cancelled {
                "cancelled — remaining steps skipped"@
            } else {
                "caller hung up — remaining steps skipped"@
            }
            &&& mark.t_start_ms == w.last().at && mark.t_end_ms == w.last().at
            &&& forall|j: int|
                w.len() < j < outcomes.len() ==> {
                    &&& (#[trigger] outcomes[j]).index == j - 1
                    &&& outcomes[j].end_reason == StepEnd::Skipped
                    &&& outcomes[j].id == opt_view(steps[j - 1].id)
                    &&& outcomes[j].step_type == steps[j - 1].kind.wire_name()
                    &&& outcomes[j].t_start_ms == w.last().at && outcomes[j].t_end_ms == w.last().at
                }
        }),
{
    let n = w.len() as int;
    let rest = left_over(steps, w.len(), w.last().at);
    assert(outcomes == reached(steps, w).push(marker(w.len(), w.last())) + rest);
    assert forall|j: int| n < j < outcomes.len() implies {
        &&& (#[trigger] outcomes[j]).index == j - 1
        &&& outcomes[j].end_reason == StepEnd::Skipped
        &&& outcomes[j].id == opt_view(steps[j - 1].id)
        &&& outcomes[j].step_type == steps[j - 1].kind.wire_name()
        &&& outcomes[j].t_start_ms == w.last().at && outcomes[j].t_end_ms == w.last().at
    } by {
        assert(outcomes[j] == rest[j - n - 1]);
    }
}

/// A job fails exactly where its last step did, with that step's words; one that is neither
/// stopped nor failed has run every step.
pub proof fn law_a_job_runs_to_its_end(steps: Seq<Step>, w: Seq<Watch>, r: RunResult)
    requires
        is_walk(steps, w),
        comes_to(steps, w, r),
    ensures
        match r {
            RunResult::Failed(e) => w.len() > 0 && w.last().reply == Reply::Failed(e),
            RunResult::Outcomes(outcomes) => w.len() == steps.len() || (w.len() > 0 && (
            w.last().cancelled || w.last().call_ended)),
        },
{
}

/// What a step that ran is reported as: the file that was played, how the turn ended, how long was
/// waited for or behind the start of speech, the number that was dialled, the recipient and the
/// size of a text, the time that was slept, the line that was logged.
pub proof fn law_a_summary_says_what_was_done(step: Step, w: Watch, index: nat)
    requires
        !(w.inbound && (step.kind is CallDial || step.kind is CallWaitAnswered
            || step.kind is CallAnswer)),
    ensures
        ({
            let said = outcome_of(index, step, w).summary;
            match step.kind {
                StepKind::AudioPlay { file } => said == "played "@ + file@,
                StepKind::AudioWaitForSpeech { .. } => {
                    &&& w.reply == Reply::Ended(EndReason::Silence) ==> said == "turn ended: "@
                        + "Silence"@
                    &&& w.reply == Reply::Ended(EndReason::Timeout) ==> said == "turn ended: "@
                        + "Timeout"@
                    &&& w.reply == Reply::Ended(EndReason::EndOfStream) ==> said == "turn ended: "@
                        + "EndOfStream"@
                },
                StepKind::AudioWaitForSpeechStart { timeout_ms, wait_after_start_ms, .. } => {
                    &&& w.reply == Reply::Started(true) ==> said == "speech started, waited "@
                        + decimal(wait_after_start_ms as nat) + "ms"@
                    &&& w.reply == Reply::Started(false) ==> said == "no speech within "@ + decimal(
                        timeout_ms as nat,
                    ) + "ms"@
                },
                StepKind::CallDial { number } => said == "dialed "@ + number@,
                StepKind::CallWaitAnswered { .. } => said == "call answered"@,
                StepKind::CallAnswer => said == "answered"@,
                StepKind::CallHangup => said == "hung up"@,
                StepKind::SmsSend { to, body } => said == "sms -> "@ + to@ + " ("@ + decimal(
                    encode_utf8(body@).len(),
                ) + " chars)"@,
                StepKind::Wait { ms } => said == "waited "@ + decimal(ms as nat) + "ms"@,
                StepKind::Log { message } => said == "log: "@ + message@,
            }
        }),
{
}

/// A recorded run is timed by its recording alone, and a clock that ran backwards shows nothing.
pub proof fn law_a_recorded_run_is_timed_by_its_recording(clock: RunClock, t: u64, wall: u64)
    ensures
        stamped(clock, Some(t), wall).0 == t,
        stamped(clock, Some(t), wall).1 == clock,
        clock.first matches Some(f) && wall <= f ==> stamped(clock, None, wall).0 == 0,
{
}

/// A reply is kept as it was given: how a turn ended, whether speech started, or why it failed.
pub proof fn law_replies_are_kept_as_given(
    plain: Result<(), String>,
    ended: Result<EndReason, String>,
    started: Result<bool, String>,
)
    ensures
        match plain {
            Ok(_) => plain_reply(plain) is Done,
            Err(e) => plain_reply(plain) == Reply::Failed(e@),
        },
        match ended {
            Ok(why) => ended_reply(ended) == Reply::Ended(why),
            Err(e) => ended_reply(ended) == Reply::Failed(e@),
        },
        match started {
            Ok(b) => started_reply(started) == Reply::Started(b),
            Err(e) => started_reply(started) == Reply::Failed(e@),
        },
{
}

} // verus!
