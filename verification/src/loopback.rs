//! A phone within the process, for runs without hardware.
//!
//! Call and message steps change the [`Registry`]; audio steps go to the sound card, or are
//! skipped in a dry run.

use vstd::prelude::*;

use crate::audio::record::RecordOutput;
use crate::audio::vad::{EndReason, TurnConfig};
#[allow(unused_imports)]
use crate::jobs::runner::{
    ended_reply, plain_reply, stamped, started_reply, IoEvent, Reply, Request,
};
use crate::jobs::runner::{JobIo, RunClock};
use crate::protocol::{CallState, Direction};
use crate::registry::{CallInfo, Registry};
#[allow(unused_imports)]
use crate::registry::DeviceInfo;
use crate::text;
#[allow(unused_imports)]
use crate::text::{decimal, opt_view};

verus! {

/// Default id of the loopback device.
pub const LOOPBACK_ID: &'static str = "loopback";

/// What a loopback run needs of its machine. Nothing is assumed of what these do.
pub trait Machine {
    /// Play an audio file out the sound card.
    fn play(&mut self, file: &str) -> Result<(), String>;

    /// Capture until the speaker's turn ends.
    fn wait_for_speech(&mut self, turn: TurnConfig) -> Result<EndReason, String>;

    /// Capture until the speaker starts.
    fn wait_for_speech_start(
        &mut self,
        timeout_ms: u64,
        wait_after_start_ms: u64,
        onset_duration_ms: u64,
    ) -> Result<bool, String>;

    /// Sleep for `ms` milliseconds.
    fn sleep(&mut self, ms: u64);

    /// Emit a log line.
    fn log(&mut self, message: &str);

    /// Milliseconds on the wall clock.
    fn wall_ms(&mut self) -> u64;

    /// Finish the recording that was made of the run.
    fn finish(&mut self) -> Result<RecordOutput, String>;
}

/// A [`Machine`] of which it is kept track what it was asked and what it replied.
pub struct Deck<M: Machine> {
    pub inner: M,
    /// What it was asked to do, with its replies.
    pub asked: Ghost<Seq<IoEvent>>,
    /// What finishing its recording came to, each time.
    pub finished: Ghost<Seq<Result<RecordOutput, String>>>,
}

impl<M: Machine> Deck<M> {
    /// Keeps track of a machine from here on.
    pub fn new(inner: M) -> (r: Self)
        ensures
            r.inner == inner,
            r.asked@ == Seq::<IoEvent>::empty(),
            r.finished@ == Seq::<Result<RecordOutput, String>>::empty(),
    {
        Deck { inner, asked: Ghost(Seq::empty()), finished: Ghost(Seq::empty()) }
    }

    /// This machine after one more request.
    pub open spec fn after(self, before: Self, request: Request, reply: Reply) -> bool {
        &&& self.asked@ == before.asked@.push(IoEvent { request, reply })
        &&& self.finished == before.finished
    }

    fn play(&mut self, file: &str) -> (r: Result<(), String>)
        ensures
            final(self).after(*old(self), Request::Play(file@), plain_reply(r)),
    {
        let r = self.inner.play(file);
        self.asked = Ghost(
            self.asked@.push(IoEvent { request: Request::Play(file@), reply: plain_reply(r) }),
        );
        r
    }

    fn wait_for_speech(&mut self, turn: TurnConfig) -> (r: Result<EndReason, String>)
        ensures
            final(self).after(*old(self), Request::WaitForSpeech(turn), ended_reply(r)),
    {
        let r = self.inner.wait_for_speech(turn);
        self.asked = Ghost(
            self.asked@.push(
                IoEvent { request: Request::WaitForSpeech(turn), reply: ended_reply(r) },
            ),
        );
        r
    }

    fn wait_for_speech_start(
        &mut self,
        timeout_ms: u64,
        wait_after_start_ms: u64,
        onset_duration_ms: u64,
    ) -> (r: Result<bool, String>)
        ensures
            final(self).after(
                *old(self),
                start_request(timeout_ms, wait_after_start_ms, onset_duration_ms),
                started_reply(r),
            ),
    {
        let r = self.inner.wait_for_speech_start(timeout_ms, wait_after_start_ms, onset_duration_ms);
        self.asked = Ghost(
            self.asked@.push(
                IoEvent {
                    request: start_request(timeout_ms, wait_after_start_ms, onset_duration_ms),
                    reply: started_reply(r),
                },
            ),
        );
        r
    }

    fn sleep(&mut self, ms: u64)
        ensures
            final(self).after(*old(self), Request::Sleep(ms), Reply::Done),
    {
        self.inner.sleep(ms);
        self.asked = Ghost(
            self.asked@.push(IoEvent { request: Request::Sleep(ms), reply: Reply::Done }),
        );
    }

    fn log(&mut self, message: &str)
        ensures
            final(self).after(*old(self), Request::Log(message@), Reply::Done),
    {
        self.inner.log(message);
        self.asked = Ghost(
            self.asked@.push(IoEvent { request: Request::Log(message@), reply: Reply::Done }),
        );
    }

    fn wall_ms(&mut self) -> (r: u64)
        ensures
            final(self).after(*old(self), Request::Now, Reply::Time(r)),
    {
        let r: u64 = self.inner.wall_ms();
        self.asked = Ghost(
            self.asked@.push(IoEvent { request: Request::Now, reply: Reply::Time(r) }),
        );
        r
    }

    fn finish(&mut self) -> (r: Result<RecordOutput, String>)
        ensures
            final(self).asked == old(self).asked,
            final(self).finished@ == old(self).finished@.push(r),
    {
        let r = self.inner.finish();
        self.finished = Ghost(self.finished@.push(r));
        r
    }
}

/// The request to wait for the start of speech.
pub open spec fn start_request(
    timeout_ms: u64,
    wait_after_start_ms: u64,
    onset_duration_ms: u64,
) -> Request {
    Request::WaitForSpeechStart { timeout_ms, wait_after_start_ms, onset_duration_ms }
}

/// A [`JobIo`] backed by a phone that exists in the registry only.
pub struct LoopbackJobIo<M: Machine> {
    pub machine: Deck<M>,
    pub registry: Registry,
    pub device_id: String,
    /// Whether audio steps are skipped.
    pub dry_audio: bool,
    /// Whether the machine records the run.
    pub recorded: bool,
    /// The number of the next call.
    pub call_seq: u64,
    pub clock: RunClock,
    /// The requests made so far, with their replies.
    pub events: Ghost<Seq<IoEvent>>,
}

/// The name of call `n`.
pub open spec fn call_name(n: u64) -> Seq<char> {
    "lc-"@ + decimal(n as nat)
}

/// The number of the call after call `n`.
pub open spec fn call_after(n: u64) -> u64 {
    if n == u64::MAX {
        0
    } else {
        (n + 1) as u64
    }
}

/// Calls with different numbers have different names.
pub proof fn law_calls_have_names_of_their_own(n: u64, m: u64)
    requires
        n != m,
    ensures
        call_name(n) != call_name(m),
{
    text::lemma_decimal_value(n as nat);
    text::lemma_decimal_value(m as nat);
    if call_name(n) == call_name(m) {
        let k = "lc-"@.len() as int;
        assert(call_name(n).skip(k) =~= decimal(n as nat));
        assert(call_name(m).skip(k) =~= decimal(m as nat));
    }
}

/// A registry in which one device has another call. A device that is not registered has none.
pub open spec fn with_call(
    m: Map<Seq<char>, DeviceInfo>,
    id: Seq<char>,
    call: Option<CallInfo>,
) -> Map<Seq<char>, DeviceInfo> {
    if m.dom().contains(id) {
        m.insert(id, DeviceInfo { current_call: call, ..m[id] })
    } else {
        m
    }
}

impl<M: Machine> LoopbackJobIo<M> {
    /// A loopback phone under `device_id`, whose calls are numbered from `first_call` on.
    pub fn new(
        machine: M,
        registry: Registry,
        device_id: &str,
        dry_audio: bool,
        recorded: bool,
        first_call: u64,
    ) -> (r: Self)
        ensures
            r.machine.inner == machine,
            r.machine.asked@ == Seq::<IoEvent>::empty(),
            r.machine.finished@ == Seq::<Result<RecordOutput, String>>::empty(),
            r.registry == registry,
            r.device_id@ == device_id@,
            r.dry_audio == dry_audio,
            r.recorded == recorded,
            r.call_seq == first_call,
            r.clock.first is None,
            r.history() == Seq::<IoEvent>::empty(),
    {
        LoopbackJobIo {
            machine: Deck::new(machine),
            registry,
            device_id: device_id.to_owned(),
            dry_audio,
            recorded,
            call_seq: first_call,
            clock: RunClock::new(),
            events: Ghost(Seq::empty()),
        }
    }

    /// Finishes the recording, where one was made, and tells what was written.
    pub fn finish(&mut self) -> (r: Result<Option<RecordOutput>, String>)
        ensures
            final(self).keeps_settings(*old(self)),
            final(self).keeps_phone(*old(self)),
            final(self).clock == old(self).clock,
            final(self).history() == old(self).history(),
            if old(self).recorded {
                exists|reply: Result<RecordOutput, String>|
                    {
                        &&& final(self).machine.asked == old(self).machine.asked
                        &&& final(self).machine.finished@ == #[trigger] old(
                            self,
                        ).machine.finished@.push(reply)
                        &&& match reply {
                            Ok(o) => r == Ok::<Option<RecordOutput>, String>(Some(o)),
                            Err(e) => r == Err::<Option<RecordOutput>, String>(e),
                        }
                    }
            } else {
                &&& r == Ok::<Option<RecordOutput>, String>(None)
                &&& final(self).machine == old(self).machine
            },
    {
        if !self.recorded {
            return Ok(None);
        }
        match self.machine.finish() {
            Ok(o) => {
                let ghost reply = Ok::<RecordOutput, String>(o);
                assert(self.machine.finished@ == old(self).machine.finished@.push(reply));
                Ok(Some(o))
            },
            Err(e) => {
                let ghost reply = Err::<RecordOutput, String>(e);
                assert(self.machine.finished@ == old(self).machine.finished@.push(reply));
                Err(e)
            },
        }
    }

    /// The call that the phone has, if it is registered and has one.
    pub open spec fn current_call(self) -> Option<CallInfo> {
        if self.registry@.dom().contains(self.device_id@) {
            self.registry@[self.device_id@].current_call
        } else {
            None
        }
    }

    /// Whether this phone is set up as another one.
    pub open spec fn keeps_settings(self, before: Self) -> bool {
        &&& self.device_id == before.device_id
        &&& self.dry_audio == before.dry_audio
        &&& self.recorded == before.recorded
    }

    /// Whether this phone has the calls of another one, and will number its next call alike.
    pub open spec fn keeps_phone(self, before: Self) -> bool {
        &&& self.registry == before.registry
        &&& self.call_seq == before.call_seq
    }

    /// Whether the sound card was asked once, or, in a dry run, left alone.
    pub open spec fn audio_asked(self, before: Self, request: Request, reply: Reply) -> bool {
        if before.dry_audio {
            self.machine == before.machine
        } else {
            self.machine.after(before.machine, request, reply)
        }
    }

    fn set_call(&mut self, call: Option<CallInfo>)
        ensures
            final(self).keeps_settings(*old(self)),
            final(self).machine == old(self).machine,
            final(self).call_seq == old(self).call_seq,
            final(self).clock == old(self).clock,
            final(self).events == old(self).events,
            final(self).registry@ == with_call(old(self).registry@, old(self).device_id@, call),
    {
        if let Some(dev) = self.registry.get_mut(&self.device_id) {
            dev.current_call = call;
        }
    }

    fn next_call_id(&mut self) -> (r: String)
        ensures
            r@ == call_name(old(self).call_seq),
            final(self).call_seq == call_after(old(self).call_seq),
            final(self).keeps_settings(*old(self)),
            final(self).machine == old(self).machine,
            final(self).registry == old(self).registry,
            final(self).clock == old(self).clock,
            final(self).events == old(self).events,
    {
        let n: u64 = self.call_seq;
        self.call_seq = if n == u64::MAX {
            0
        } else {
            n + 1
        };
        let mut s = "lc-".to_owned();
        s.append(&text::decimal_of(n));
        s
    }
}

impl<M: Machine> JobIo for LoopbackJobIo<M> {
    closed spec fn history(&self) -> Seq<IoEvent> {
        self.events@
    }

    fn play(&mut self, file: &str) -> (r: Result<(), String>)
        ensures
            old(self).dry_audio ==> r is Ok,
            final(self).audio_asked(*old(self), Request::Play(file@), plain_reply(r)),
            final(self).keeps_settings(*old(self)),
            final(self).keeps_phone(*old(self)),
            final(self).clock == old(self).clock,
    {
        let r = if self.dry_audio {
            Ok(())
        } else {
            self.machine.play(file)
        };
        self.events = Ghost(
            self.events@.push(IoEvent { request: Request::Play(file@), reply: plain_reply(r) }),
        );
        r
    }

    fn wait_for_speech(&mut self, turn: TurnConfig) -> (r: Result<EndReason, String>)
        ensures
            old(self).dry_audio ==> r == Ok::<EndReason, String>(EndReason::Silence),
            final(self).audio_asked(*old(self), Request::WaitForSpeech(turn), ended_reply(r)),
            final(self).keeps_settings(*old(self)),
            final(self).keeps_phone(*old(self)),
            final(self).clock == old(self).clock,
    {
        let r = if self.dry_audio {
            Ok(EndReason::Silence)
        } else {
            self.machine.wait_for_speech(turn)
        };
        self.events = Ghost(
            self.events@.push(
                IoEvent { request: Request::WaitForSpeech(turn), reply: ended_reply(r) },
            ),
        );
        r
    }

    fn wait_for_speech_start(
        &mut self,
        timeout_ms: u64,
        wait_after_start_ms: u64,
        onset_duration_ms: u64,
    ) -> (r: Result<bool, String>)
        ensures
            old(self).dry_audio ==> r == Ok::<bool, String>(true),
            final(self).audio_asked(
                *old(self),
                start_request(timeout_ms, wait_after_start_ms, onset_duration_ms),
                started_reply(r),
            ),
            final(self).keeps_settings(*old(self)),
            final(self).keeps_phone(*old(self)),
            final(self).clock == old(self).clock,
    {
        let r = if self.dry_audio {
            Ok(true)
        } else {
            self.machine.wait_for_speech_start(timeout_ms, wait_after_start_ms, onset_duration_ms)
        };
        self.events = Ghost(
            self.events@.push(
                IoEvent {
                    request: start_request(timeout_ms, wait_after_start_ms, onset_duration_ms),
                    reply: started_reply(r),
                },
            ),
        );
        r
    }

    fn dial(&mut self, number: &str) -> (r: Result<(), String>)
        ensures
            r is Ok,
            final(self).keeps_settings(*old(self)),
            final(self).machine == old(self).machine,
            final(self).clock == old(self).clock,
            final(self).call_seq == call_after(old(self).call_seq),
            final(self).registry@ == with_call(
                old(self).registry@,
                old(self).device_id@,
                final(self).current_call(),
            ),
            old(self).registry@.dom().contains(old(self).device_id@) ==> {
                &&& final(self).current_call() matches Some(c)
                &&& c.call_id@ == call_name(old(self).call_seq)
                &&& opt_view(c.number) == Some(number@)
                &&& c.state == CallState::Active
                &&& c.direction == Direction::Out
            },
    {
        let call_id = self.next_call_id();
        self.set_call(
            Some(
                CallInfo {
                    call_id,
                    number: Some(number.to_owned()),
                    state: CallState::Active,
                    direction: Direction::Out,
                },
            ),
        );
        let r = Ok(());
        self.events = Ghost(
            self.events@.push(IoEvent { request: Request::Dial(number@), reply: plain_reply(r) }),
        );
        r
    }

    /// The loopback phone's calls are active at once.
    fn wait_for_answer(&mut self, timeout_ms: u64) -> (r: Result<(), String>)
        ensures
            r is Ok,
            final(self).keeps_settings(*old(self)),
            final(self).keeps_phone(*old(self)),
            final(self).machine == old(self).machine,
            final(self).clock == old(self).clock,
    {
        let r = Ok(());
        self.events = Ghost(
            self.events@.push(
                IoEvent { request: Request::WaitForAnswer(timeout_ms), reply: plain_reply(r) },
            ),
        );
        r
    }

    /// Answers the call that is there, or one that it makes up.
    fn answer(&mut self) -> (r: Result<(), String>)
        ensures
            r is Ok,
            final(self).keeps_settings(*old(self)),
            final(self).machine == old(self).machine,
            final(self).clock == old(self).clock,
            final(self).call_seq == (if old(self).current_call() is Some {
                old(self).call_seq
            } else {
                call_after(old(self).call_seq)
            }),
            final(self).registry@ == with_call(
                old(self).registry@,
                old(self).device_id@,
                final(self).current_call(),
            ),
            old(self).registry@.dom().contains(old(self).device_id@) ==> {
                &&& final(self).current_call() matches Some(c)
                &&& c.call_id@ == (match old(self).current_call() {
                    Some(was) => was.call_id@,
                    None => call_name(old(self).call_seq),
                })
                &&& c.number is None
                &&& c.state == CallState::Active
                &&& c.direction == Direction::In
            },
    {
        let known = match self.registry.get(&self.device_id) {
            Some(dev) => match &dev.current_call {
                Some(c) => Some(c.call_id.clone()),
                None => None,
            },
            None => None,
        };
        let call_id = match known {
            Some(id) => id,
            None => self.next_call_id(),
        };
        self.set_call(
            Some(
                CallInfo {
                    call_id,
                    number: None,
                    state: CallState::Active,
                    direction: Direction::In,
                },
            ),
        );
        let r = Ok(());
        self.events = Ghost(
            self.events@.push(IoEvent { request: Request::Answer, reply: plain_reply(r) }),
        );
        r
    }

    fn hangup(&mut self) -> (r: Result<(), String>)
        ensures
            r is Ok,
            final(self).keeps_settings(*old(self)),
            final(self).machine == old(self).machine,
            final(self).clock == old(self).clock,
            final(self).call_seq == old(self).call_seq,
            final(self).registry@ == with_call(old(self).registry@, old(self).device_id@, None),
    {
        self.set_call(None);
        let r = Ok(());
        self.events = Ghost(
            self.events@.push(IoEvent { request: Request::Hangup, reply: plain_reply(r) }),
        );
        r
    }

    fn send_sms(&mut self, to: &str, body: &str) -> (r: Result<(), String>)
        ensures
            r is Ok,
            final(self).keeps_settings(*old(self)),
            final(self).keeps_phone(*old(self)),
            final(self).machine == old(self).machine,
            final(self).clock == old(self).clock,
    {
        let r = Ok(());
        self.events = Ghost(
            self.events@.push(
                IoEvent { request: Request::SendSms(to@, body@), reply: plain_reply(r) },
            ),
        );
        r
    }

    fn sleep(&mut self, ms: u64) -> (r: Result<(), String>)
        ensures
            r is Ok,
            final(self).machine.after(old(self).machine, Request::Sleep(ms), Reply::Done),
            final(self).keeps_settings(*old(self)),
            final(self).keeps_phone(*old(self)),
            final(self).clock == old(self).clock,
    {
        self.machine.sleep(ms);
        let r = Ok(());
        self.events = Ghost(
            self.events@.push(IoEvent { request: Request::Sleep(ms), reply: plain_reply(r) }),
        );
        r
    }

    fn log(&mut self, message: &str)
        ensures
            final(self).machine.after(old(self).machine, Request::Log(message@), Reply::Done),
            final(self).keeps_settings(*old(self)),
            final(self).keeps_phone(*old(self)),
            final(self).clock == old(self).clock,
    {
        self.machine.log(message);
        self.events = Ghost(
            self.events@.push(IoEvent { request: Request::Log(message@), reply: Reply::Done }),
        );
    }

    /// The loopback phone never hangs up by itself.
    fn call_ended(&mut self) -> (r: bool)
        ensures
            r == false,
            final(self).keeps_settings(*old(self)),
            final(self).keeps_phone(*old(self)),
            final(self).machine == old(self).machine,
            final(self).clock == old(self).clock,
    {
        self.events = Ghost(
            self.events@.push(IoEvent { request: Request::HasCallEnded, reply: Reply::Said(false) }),
        );
        false
    }

    /// A loopback run sets up its own calls.
    fn inbound_mode(&mut self) -> (r: bool)
        ensures
            r == false,
            final(self).keeps_settings(*old(self)),
            final(self).keeps_phone(*old(self)),
            final(self).machine == old(self).machine,
            final(self).clock == old(self).clock,
    {
        self.events = Ghost(
            self.events@.push(IoEvent { request: Request::IsInbound, reply: Reply::Said(false) }),
        );
        false
    }

    /// A loopback run cannot be cancelled.
    fn cancelled(&mut self) -> (r: bool)
        ensures
            r == false,
            final(self).keeps_settings(*old(self)),
            final(self).keeps_phone(*old(self)),
            final(self).machine == old(self).machine,
            final(self).clock == old(self).clock,
    {
        self.events = Ghost(
            self.events@.push(IoEvent { request: Request::IsCancelled, reply: Reply::Said(false) }),
        );
        false
    }

    /// A loopback run is timed by the wall clock, from the first call on.
    fn now_ms(&mut self) -> (r: u64)
        ensures
            exists|wall: u64|
                {
                    &&& final(self).machine.after(
                        old(self).machine,
                        Request::Now,
                        Reply::Time(wall),
                    )
                    &&& (r, final(self).clock) == #[trigger] stamped(old(self).clock, None, wall)
                },
            final(self).keeps_settings(*old(self)),
            final(self).keeps_phone(*old(self)),
    {
        let wall: u64 = self.machine.wall_ms();
        let r: u64 = self.clock.stamp(None, wall);
        proof {
            assert((r, self.clock) == stamped(old(self).clock, None, wall));
        }
        self.events = Ghost(
            self.events@.push(IoEvent { request: Request::Now, reply: Reply::Time(r) }),
        );
        r
    }
}

/// Of two calls that a phone places one after the other, each has a name of its own.
pub proof fn law_two_calls_in_a_row_differ(n: u64)
    ensures
        call_name(call_after(n)) != call_name(n),
{
    law_calls_have_names_of_their_own(call_after(n), n);
}

/// A loopback phone's call changes on that phone alone, and only its call does.
pub proof fn law_a_call_changes_on_its_phone_alone(
    m: Map<Seq<char>, DeviceInfo>,
    id: Seq<char>,
    call: Option<CallInfo>,
    other: Seq<char>,
)
    ensures
        with_call(m, id, call).dom() == m.dom(),
        m.dom().contains(id) ==> {
            &&& with_call(m, id, call)[id].current_call == call
            &&& with_call(m, id, call)[id].id == m[id].id
            &&& with_call(m, id, call)[id].name == m[id].name
            &&& with_call(m, id, call)[id].addr == m[id].addr
            &&& with_call(m, id, call)[id].last_seen_ms == m[id].last_seen_ms
        },
        other != id && m.dom().contains(other) ==> with_call(m, id, call)[other] == m[other],
{
    assert(with_call(m, id, call).dom() =~= m.dom());
}

/// The wait for the start of speech is asked for in its own terms.
pub proof fn law_a_start_is_asked_for_in_its_terms(
    timeout_ms: u64,
    wait_after_start_ms: u64,
    onset_duration_ms: u64,
)
    ensures
        start_request(timeout_ms, wait_after_start_ms, onset_duration_ms) matches Request::WaitForSpeechStart {
            timeout_ms: t,
            wait_after_start_ms: w,
            onset_duration_ms: o,
        } && t == timeout_ms && w == wait_after_start_ms && o == onset_duration_ms,
{
}

/// A dry run leaves the sound card alone; any other asks it once, for the very thing.
pub proof fn law_a_dry_run_leaves_the_sound_card_alone<M: Machine>(
    before: LoopbackJobIo<M>,
    after: LoopbackJobIo<M>,
    request: Request,
    reply: Reply,
)
    requires
        after.audio_asked(before, request, reply),
    ensures
        before.dry_audio ==> after.machine.asked@ == before.machine.asked@,
        !before.dry_audio ==> {
            &&& after.machine.asked@.len() == before.machine.asked@.len() + 1
            &&& after.machine.asked@.last().request == request
            &&& after.machine.asked@.last().reply == reply
        },
        after.machine.finished == before.machine.finished,
{
}

/// Calls are counted up by one.
pub proof fn law_calls_are_counted_up(n: u64)
    ensures
        n < u64::MAX ==> call_after(n) == n + 1,
        call_after(u64::MAX) == 0,
{
}

} // verus!
