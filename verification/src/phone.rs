//! What a job observes of the call that it placed or answered on a phone.
//!
//! All times are milliseconds on one clock.

use vstd::prelude::*;

use crate::protocol::CallState;
use crate::text;
#[allow(unused_imports)]
use crate::text::{contains_text, decimal, opt_view};

verus! {

/// How often a call that is not answered yet is looked at.
pub const ANSWER_POLL_MS: u64 = 150;

/// The longest single nap of a `wait` step, so that it can be cut short.
pub const NAP_MS: u64 = 50;

/// How a call finished.
#[derive(Debug, Clone, Copy, PartialEq, Eq, Structural)]
pub enum CallEnd {
    /// The job ran its course and the call was still up, or we hung up.
    Completed,
    /// The far end hung up mid-job.
    FarEndHangup,
    /// Never answered within the time given.
    NoAnswer,
}

/// Call disposition, reported with the outcomes of a job's steps.
#[derive(Debug)]
pub struct CallSummary {
    /// From dialling to the answer; none for an inbound call, which was connected already.
    pub answer_latency_ms: Option<u64>,
    /// From the answer to the end, or to now where the call is still up.
    pub duration_ms: Option<u64>,
    pub end_reason: CallEnd,
    pub remote_number: Option<String>,
    pub sim: Option<String>,
}

/// What the job has observed so far.
#[derive(Debug)]
pub struct CallWatch {
    /// Whether this job placed or answered a call.
    pub in_call: bool,
    /// Whether that call has been seen active, so that its absence means that it ended.
    pub saw_active: bool,
    /// Whether the daemon had answered before the job started.
    pub inbound: bool,
    /// When the call was placed or answered.
    pub began: Option<u64>,
    /// When it went active.
    pub answered: Option<u64>,
    /// When it ended, however it ended.
    pub ended: Option<u64>,
    /// The far end's number.
    pub remote_number: Option<String>,
    /// SIM subscription, where the phone reported one.
    pub sim: Option<String>,
    /// Why the call finished, once something has decided.
    pub end_reason: Option<CallEnd>,
}

/// The time from `a` to `b`, none where `b` is earlier.
pub open spec fn span(a: u64, b: u64) -> u64 {
    if b >= a {
        (b - a) as u64
    } else {
        0
    }
}

fn span_of(a: u64, b: u64) -> (r: u64)
    ensures
        r == span(a, b),
{
    if b >= a {
        b - a
    } else {
        0
    }
}

/// What to do while waiting for an answer.
#[derive(Debug)]
pub enum AnswerWait {
    /// Look again after [`ANSWER_POLL_MS`].
    Again,
    Answered,
    /// Hang up, then fail with this text: the job was cancelled.
    Cancelled(String),
    /// Fail with this text.
    Failed(String),
}

impl CallWatch {
    /// The state at the start of a job. An inbound call is connected already.
    pub fn new(inbound: bool, now: u64) -> (r: Self)
        ensures
            r.in_call == inbound,
            !r.saw_active,
            r.inbound == inbound,
            r.began == (if inbound {
                Some(now)
            } else {
                None
            }),
            r.answered == r.began,
            r.ended is None,
            r.remote_number is None,
            r.sim is None,
            r.end_reason is None,
    {
        let at = if inbound {
            Some(now)
        } else {
            None
        };
        CallWatch {
            in_call: inbound,
            saw_active: false,
            inbound,
            began: at,
            answered: at,
            ended: None,
            remote_number: None,
            sim: None,
            end_reason: None,
        }
    }

    /// Whether the watch has become `next` by placing a call.
    pub open spec fn dials(self, number: Seq<char>, now: u64, next: CallWatch) -> bool {
        &&& next.remote_number is Some
        &&& next.remote_number->0@ == number
        &&& next == (CallWatch {
            in_call: true,
            saw_active: false,
            began: Some(now),
            answered: None,
            ended: None,
            end_reason: None,
            remote_number: next.remote_number,
            ..self
        })
    }

    /// Notes that a call is being placed.
    pub fn dial(&mut self, number: &str, now: u64)
        ensures
            old(self).dials(number@, now, *final(self)),
    {
        self.in_call = true;
        self.saw_active = false;
        self.began = Some(now);
        self.answered = None;
        self.ended = None;
        self.end_reason = None;
        self.remote_number = Some(number.to_owned());
    }

    /// The state once the ringing call is being answered.
    pub open spec fn after_answer(self, now: u64) -> CallWatch {
        CallWatch {
            in_call: true,
            saw_active: false,
            began: Some(now),
            answered: None,
            ended: None,
            end_reason: None,
            remote_number: None,
            ..self
        }
    }

    /// Notes that the ringing call is being answered: a fresh call, whose number is not known.
    pub fn answer(&mut self, now: u64)
        ensures
            *final(self) == old(self).after_answer(now),
    {
        self.in_call = true;
        self.saw_active = false;
        self.began = Some(now);
        self.answered = None;
        self.ended = None;
        self.end_reason = None;
        self.remote_number = None;
    }

    /// The state once we have hung up.
    pub open spec fn after_hangup(self, now: u64) -> CallWatch {
        CallWatch {
            in_call: false,
            saw_active: false,
            ended: (if self.ended is None {
                Some(now)
            } else {
                self.ended
            }),
            end_reason: (if self.ended is None {
                Some(CallEnd::Completed)
            } else {
                self.end_reason
            }),
            ..self
        }
    }

    /// Notes that we are hanging up. That ends the watch for the far end's hanging up, so that
    /// the steps that follow still run.
    pub fn hangup(&mut self, now: u64)
        ensures
            *final(self) == old(self).after_hangup(now),
    {
        if self.ended.is_none() {
            self.ended = Some(now);
            self.end_reason = Some(CallEnd::Completed);
        }
        self.in_call = false;
        self.saw_active = false;
    }

    fn note_answered(&mut self, now: u64)
        ensures
            *final(self) == (CallWatch {
                answered: (if old(self).answered is None {
                    Some(now)
                } else {
                    old(self).answered
                }),
                ..*old(self)
            }),
    {
        if self.answered.is_none() {
            self.answered = Some(now);
        }
    }

    /// The state once the call has not been answered.
    pub open spec fn unanswered(self, now: u64) -> CallWatch {
        CallWatch { ended: Some(now), end_reason: Some(CallEnd::NoAnswer), ..self }
    }

    /// Whether `r` is what one look at a call that is not answered yet comes to.
    pub open spec fn waits(
        self,
        seen: bool,
        cancelled: bool,
        state: Option<CallState>,
        now: u64,
        deadline: u64,
        timeout_ms: u64,
        next: CallWatch,
        next_seen: bool,
        r: AnswerWait,
    ) -> bool {
        if cancelled {
            &&& r matches AnswerWait::Cancelled(e)
            &&& e@ == "cancelled while waiting for the call to be answered"@
            &&& next == self
            &&& next_seen == seen
        } else if state == Some(CallState::Active) {
            &&& r is Answered
            &&& next == (CallWatch {
                answered: (if self.answered is None {
                    Some(now)
                } else {
                    self.answered
                }),
                ..self
            })
            &&& next_seen == seen
        } else if state is None && seen {
            &&& r matches AnswerWait::Failed(e)
            &&& e@ == "call ended before it was answered"@
            &&& next == self.unanswered(now)
            &&& next_seen
        } else {
            &&& next_seen == (seen || state is Some)
            &&& if now >= deadline {
                &&& r matches AnswerWait::Failed(e)
                &&& e@ == "call not answered within "@ + decimal(timeout_ms as nat) + "ms"@
                &&& next == self.unanswered(now)
            } else {
                r is Again && next == self
            }
        }
    }

    /// Decides, from one look at the call, whether the wait for an answer is over. `seen` notes
    /// whether the call has been there on an earlier look: gone after that, it was never answered.
    pub fn wait_for_answer(
        &mut self,
        seen: &mut bool,
        cancelled: bool,
        state: Option<CallState>,
        now: u64,
        deadline: u64,
        timeout_ms: u64,
    ) -> (r: AnswerWait)
        ensures
            old(self).waits(
                *old(seen),
                cancelled,
                state,
                now,
                deadline,
                timeout_ms,
                *final(self),
                *final(seen),
                r,
            ),
    {
        if cancelled {
            return AnswerWait::Cancelled(
                "cancelled while waiting for the call to be answered".to_owned(),
            );
        }
        match state {
            Some(CallState::Active) => {
                self.note_answered(now);
                return AnswerWait::Answered;
            },
            Some(_) => {
                *seen = true;
            },
            None => if *seen {
                self.ended = Some(now);
                self.end_reason = Some(CallEnd::NoAnswer);
                return AnswerWait::Failed("call ended before it was answered".to_owned());
            },
        }
        if now >= deadline {
            self.ended = Some(now);
            self.end_reason = Some(CallEnd::NoAnswer);
            let mut e = "call not answered within ".to_owned();
            e.append(&text::decimal_of(timeout_ms));
            e.append("ms");
            return AnswerWait::Failed(e);
        }
        AnswerWait::Again
    }

    /// The state once the call was looked at.
    pub open spec fn after_look(self, state: Option<CallState>, now: u64) -> CallWatch {
        let gone = has_ended(self.in_call, self.saw_active, state);
        CallWatch {
            saw_active: self.saw_active || (self.in_call && state == Some(CallState::Active)),
            answered: (if state == Some(CallState::Active) && self.answered is None {
                Some(now)
            } else {
                self.answered
            }),
            ended: (if gone && self.ended is None {
                Some(now)
            } else {
                self.ended
            }),
            end_reason: (if gone && self.ended is None {
                Some(CallEnd::FarEndHangup)
            } else {
                self.end_reason
            }),
            ..self
        }
    }

    /// Whether the call has ended, noting when it went active and when it ended.
    pub fn call_ended(&mut self, state: Option<CallState>, now: u64) -> (r: bool)
        ensures
            r == has_ended(old(self).in_call, old(self).saw_active, state),
            *final(self) == old(self).after_look(state, now),
    {
        if let Some(CallState::Active) = state {
            self.note_answered(now);
        }
        let mut saw = self.saw_active;
        let ended = call_ended_decision(self.in_call, &mut saw, state);
        self.saw_active = saw;
        if ended && self.ended.is_none() {
            self.ended = Some(now);
            self.end_reason = Some(CallEnd::FarEndHangup);
        }
        ended
    }

    /// Whether `r` is the call's disposition.
    pub open spec fn sums_up(self, now: u64, r: Option<CallSummary>) -> bool {
        match (self.began, r) {
            (Some(began), Some(s)) => {
                let end = match self.ended {
                    Some(t) => t,
                    None => now,
                };
                &&& s.answer_latency_ms == (match self.answered {
                    Some(a) => if self.inbound {
                        None
                    } else {
                        Some(span(began, a))
                    },
                    None => None,
                })
                &&& s.duration_ms == (match self.answered {
                    Some(a) => Some(span(a, end)),
                    None => None,
                })
                &&& s.end_reason == (match self.end_reason {
                    Some(e) => e,
                    None => CallEnd::Completed,
                })
                &&& s.remote_number == self.remote_number
                &&& s.sim == self.sim
            },
            (None, None) => true,
            _ => false,
        }
    }

    /// The call's disposition, or none where the job never had a call.
    pub fn call_summary(&self, now: u64) -> (r: Option<CallSummary>)
        ensures
            self.sums_up(now, r),
    {
        match self.began {
            Some(began) => {
                let end: u64 = match self.ended {
                    Some(t) => t,
                    None => now,
                };
                Some(
                    CallSummary {
                        answer_latency_ms: match self.answered {
                            Some(a) => if self.inbound {
                                None
                            } else {
                                Some(span_of(began, a))
                            },
                            None => None,
                        },
                        duration_ms: match self.answered {
                            Some(a) => Some(span_of(a, end)),
                            None => None,
                        },
                        end_reason: match self.end_reason {
                            Some(e) => e,
                            None => CallEnd::Completed,
                        },
                        remote_number: text::copy_opt(&self.remote_number),
                        sim: text::copy_opt(&self.sim),
                    },
                )
            },
            None => None,
        }
    }
}

/// Whether a call has ended: only one that was once active and is now gone has. One that is not
/// connected yet has not, nor has a job without a call.
pub open spec fn has_ended(in_call: bool, saw_active: bool, state: Option<CallState>) -> bool {
    in_call && saw_active && state is None
}

/// Whether a call has ended, noting whether it was seen active.
pub fn call_ended_decision(in_call: bool, saw_active: &mut bool, state: Option<CallState>) -> (r:
    bool)
    ensures
        r == has_ended(in_call, *old(saw_active), state),
        *final(saw_active) == (*old(saw_active) || (in_call && state == Some(CallState::Active))),
{
    if !in_call {
        return false;
    }
    match state {
        Some(CallState::Active) => {
            *saw_active = true;
            false
        },
        None => *saw_active,
        _ => false,
    }
}

/// The result of a hang-up: a phone without a call is in the state that was wanted.
pub fn hangup_result(sent: Result<(), String>) -> (r: Result<(), String>)
    ensures
        match sent {
            Ok(_) => r is Ok,
            Err(e) => if contains_text(e@, "no call to hang up"@) {
                r is Ok
            } else {
                r == Err::<(), String>(e)
            },
        },
{
    match sent {
        Err(e) => if text::contains(&e, "no call to hang up") {
            Ok(())
        } else {
            Err(e)
        },
        Ok(_) => Ok(()),
    }
}

/// Milliseconds since a recording started, read off its frame count.
pub fn recording_ms(rx_len: u64, sample_rate: u32) -> (r: u64)
    requires
        rx_len * 1000 <= u64::MAX,
    ensures
        r == rx_len * 1000 / (if sample_rate == 0 {
            1
        } else {
            sample_rate as int
        }),
{
    let rate: u64 = if sample_rate == 0 {
        1
    } else {
        sample_rate as u64
    };
    rx_len * 1000 / rate
}

/// Whether a job is to stop: it was cancelled, cancelled by force, or its app was launched anew.
pub fn stopped(cancel: bool, force: bool, abort: bool) -> (r: bool)
    ensures
        r == (cancel || force || abort),
{
    cancel || force || abort
}

/// How long to nap before looking at the clock again; none ends the wait. Force ends it early.
pub fn next_nap(force: bool, now: u64, deadline: u64) -> (r: Option<u64>)
    ensures
        r == (if force || now >= deadline {
            None::<u64>
        } else if deadline - now < NAP_MS {
            Some((deadline - now) as u64)
        } else {
            Some(NAP_MS)
        }),
{
    if force || now >= deadline {
        None
    } else {
        let remaining: u64 = deadline - now;
        Some(
            if remaining < NAP_MS {
                remaining
            } else {
                NAP_MS
            },
        )
    }
}

/// After our own hang-up the call never counts as ended by the far end, whatever its state.
pub proof fn law_our_hangup_ends_the_watch(after: CallWatch, state: Option<CallState>)
    requires
        !after.in_call,
    ensures
        !has_ended(after.in_call, after.saw_active, state),
{
}

/// A call has ended by the far end exactly where this job has one, it was seen active, and it is
/// gone: never while it rings, is active, or has not been seen active yet.
pub proof fn law_only_a_call_that_was_active_can_end(
    in_call: bool,
    saw_active: bool,
    state: Option<CallState>,
)
    ensures
        state is Some ==> !has_ended(in_call, saw_active, state),
        !saw_active ==> !has_ended(in_call, saw_active, state),
        !in_call ==> !has_ended(in_call, saw_active, state),
        has_ended(true, true, None),
{
}

/// A call that was not answered is noted as such, at that time, and nothing else of it changes.
pub proof fn law_an_unanswered_call_is_noted(w: CallWatch, now: u64)
    ensures
        w.unanswered(now).ended == Some(now),
        w.unanswered(now).end_reason == Some(CallEnd::NoAnswer),
        w.unanswered(now).in_call == w.in_call,
        w.unanswered(now).saw_active == w.saw_active,
        w.unanswered(now).inbound == w.inbound,
        w.unanswered(now).began == w.began,
        w.unanswered(now).answered == w.answered,
        w.unanswered(now).remote_number == w.remote_number,
        w.unanswered(now).sim == w.sim,
{
}

/// A time span leads from its start to its end, and spans that follow one another add up.
pub proof fn law_spans_add_up(a: u64, b: u64, c: u64)
    ensures
        a <= b ==> a + span(a, b) == b,
        b <= a ==> span(a, b) == 0,
        a <= b <= c ==> span(a, b) + span(b, c) == span(a, c),
{
}

/// A call that was placed, answered and then hung up by the far end is summed up so: how long it
/// took to be answered, how long it lasted from there, that the far end ended it, and the number
/// that was dialled. The watch is told of nothing but what it saw.
pub proof fn law_a_call_is_summed_up(
    w: CallWatch,
    number: Seq<char>,
    t0: u64,
    dialled: CallWatch,
    t1: u64,
    t2: u64,
    now: u64,
    r: Option<CallSummary>,
)
    requires
        !w.inbound,
        w.dials(number, t0, dialled),
        t0 <= t1 <= t2,
        dialled.after_look(Some(CallState::Active), t1).after_look(None, t2).sums_up(now, r),
    ensures
        r is Some,
        r->0.answer_latency_ms == Some((t1 - t0) as u64),
        r->0.duration_ms == Some((t2 - t1) as u64),
        r->0.end_reason == CallEnd::FarEndHangup,
        r->0.remote_number is Some && r->0.remote_number->0@ == number,
{
}

/// A call that we hang up has completed, and lasted until then; one that is still up has lasted
/// until now; one that was never answered has lasted no time, and is noted as such.
pub proof fn law_a_call_ends_as_it_was_ended(
    w: CallWatch,
    number: Seq<char>,
    t0: u64,
    dialled: CallWatch,
    t1: u64,
    t2: u64,
    ours: Option<CallSummary>,
    up: Option<CallSummary>,
    never: Option<CallSummary>,
)
    requires
        w.dials(number, t0, dialled),
        t0 <= t1 <= t2,
        dialled.after_look(Some(CallState::Active), t1).after_hangup(t2).sums_up(u64::MAX, ours),
        dialled.after_look(Some(CallState::Active), t1).sums_up(t2, up),
        dialled.unanswered(t1).sums_up(t2, never),
    ensures
        ours is Some && ours->0.end_reason == CallEnd::Completed && ours->0.duration_ms == Some(
            (t2 - t1) as u64,
        ),
        up is Some && up->0.end_reason == CallEnd::Completed && up->0.duration_ms == Some(
            (t2 - t1) as u64,
        ),
        never is Some && never->0.end_reason == CallEnd::NoAnswer && never->0.duration_ms is None
            && never->0.answer_latency_ms is None,
{
}

/// What ended a call first is what it ended with: a hang-up of ours behind that of the far end, or
/// the reverse, changes neither the time nor the reason.
pub proof fn law_the_first_end_counts(w: CallWatch, state: Option<CallState>, now: u64)
    requires
        w.ended is Some,
    ensures
        w.after_hangup(now).ended == w.ended,
        w.after_hangup(now).end_reason == w.end_reason,
        w.after_look(state, now).ended == w.ended,
        w.after_look(state, now).end_reason == w.end_reason,
        !w.after_hangup(now).in_call,
{
}

/// A call that is answered on the phone is a fresh one: nothing of an earlier call is left, and its
/// number is not known.
pub proof fn law_an_answered_call_is_a_fresh_one(w: CallWatch, now: u64)
    ensures
        w.after_answer(now).in_call,
        !w.after_answer(now).saw_active,
        w.after_answer(now).began == Some(now),
        w.after_answer(now).answered is None,
        w.after_answer(now).ended is None,
        w.after_answer(now).end_reason is None,
        w.after_answer(now).remote_number is None,
        w.after_answer(now).inbound == w.inbound,
{
}

/// The wait for an answer is over when the job is cancelled, when the call is active, when it has
/// gone after it was there, or when its time is up; otherwise it goes on, and only a call that
/// was answered is noted as answered.
pub proof fn law_a_wait_for_an_answer_ends(
    w: CallWatch,
    seen: bool,
    cancelled: bool,
    state: Option<CallState>,
    now: u64,
    deadline: u64,
    timeout_ms: u64,
    next: CallWatch,
    next_seen: bool,
    r: AnswerWait,
)
    requires
        w.waits(seen, cancelled, state, now, deadline, timeout_ms, next, next_seen, r),
    ensures
        r is Cancelled <==> cancelled,
        r is Answered <==> !cancelled && state == Some(CallState::Active),
        r is Failed <==> !cancelled && state != Some(CallState::Active) && ((state is None && seen)
            || now >= deadline),
        r is Answered && w.answered is None ==> next.answered == Some(now),
        !(r is Answered) ==> next.answered == w.answered,
        r is Failed ==> next.ended == Some(now) && next.end_reason == Some(CallEnd::NoAnswer),
        r is Again ==> next == w,
        r is Again && state is Some ==> next_seen,
{
}

/// A wait for an answer that fails says why: that it was cancelled, that the call had gone, or that
/// its time was up, and how long that was.
pub proof fn law_a_failed_wait_says_why(
    w: CallWatch,
    seen: bool,
    state: Option<CallState>,
    now: u64,
    deadline: u64,
    timeout_ms: u64,
    next: CallWatch,
    next_seen: bool,
    r: AnswerWait,
)
    requires
        w.waits(seen, false, state, now, deadline, timeout_ms, next, next_seen, r),
        r is Failed,
    ensures
        state is None && seen ==> r->Failed_0@ == "call ended before it was answered"@,
        !(state is None && seen) ==> r->Failed_0@ == "call not answered within "@ + decimal(
            timeout_ms as nat,
        ) + "ms"@,
{
}

/// A look at a call notes it as seen where this job has a call and it is active, and notes the time
/// of the answer at the first look at which it is; nothing else is noted of a call that is there.
pub proof fn law_a_look_notes_an_active_call(w: CallWatch, state: Option<CallState>, now: u64)
    ensures
        w.after_look(state, now).saw_active <==> w.saw_active || (w.in_call && state == Some(
            CallState::Active,
        )),
        w.answered is None ==> (w.after_look(state, now).answered is Some <==> state == Some(
            CallState::Active,
        )),
        w.answered is None && state == Some(CallState::Active) ==> w.after_look(state, now).answered
            == Some(now),
        w.answered is Some ==> w.after_look(state, now).answered == w.answered,
        state is Some ==> w.after_look(state, now).ended == w.ended && w.after_look(state, now).end_reason
            == w.end_reason,
        w.after_look(state, now).in_call == w.in_call,
        w.after_look(state, now).began == w.began,
        w.after_look(state, now).remote_number == w.remote_number,
{
}

} // verus!
