//! Turn detection.
//!
//! [`TurnDetector`] is a state machine fed one voiced or unvoiced decision per hop: it waits for
//! speech onset, ends the turn after a stretch of continuous non-speech, and ends it in any case
//! at the overall cap. [`SpeechWait`] cuts captured audio into hops for it.

use vstd::prelude::*;

use crate::text;

verus! {

/// The voice detector operates at 16 kHz.
pub const VAD_SAMPLE_RATE: u32 = 16000;

/// Samples of a hop where nothing else is asked for.
pub const DEFAULT_HOP: usize = 256;

/// Configuration of one wait for a speaking turn.
#[derive(Debug, Clone, Copy, PartialEq, Eq, Structural)]
pub struct TurnConfig {
    /// Hop size in samples (256 is 16 ms at 16 kHz).
    pub hop_size: usize,
    /// Continuous trailing non-speech that ends the turn.
    pub silence_duration_ms: u64,
    /// Overall cap on the wait.
    pub end_timeout_ms: u64,
    /// Continuous voiced run that counts as speech onset; at least one hop is needed.
    pub onset_duration_ms: u64,
}

impl Default for TurnConfig {
    fn default() -> (r: Self)
        ensures
            r == (TurnConfig {
                hop_size: 256,
                silence_duration_ms: 3000,
                end_timeout_ms: 45000,
                onset_duration_ms: 100,
            }),
    {
        TurnConfig {
            hop_size: DEFAULT_HOP,
            silence_duration_ms: 3000,
            end_timeout_ms: 45000,
            onset_duration_ms: 100,
        }
    }
}

/// Why a turn ended.
#[derive(Debug, Clone, Copy, PartialEq, Eq, Structural)]
pub enum EndReason {
    /// Enough continuous non-speech after speech started.
    Silence,
    /// The overall cap.
    Timeout,
    /// The capture stream ended before a normal turn boundary.
    EndOfStream,
}

/// Events of a [`TurnDetector`].
#[derive(Debug, Clone, Copy, PartialEq, Eq, Structural)]
pub enum TurnEvent {
    /// Speech started.
    SpeechStarted,
    /// The turn is over.
    Ended(EndReason),
}

/// How many hops of `hop_size` samples at 16 kHz cover `ms` milliseconds.
pub open spec fn hops_covering(ms: nat, hop_size: nat) -> nat {
    ((ms * 16 + hop_size - 1) / hop_size as int) as nat
}

/// `n`, or the largest `usize`.
pub open spec fn saturated(n: nat) -> usize {
    if n <= usize::MAX {
        n as usize
    } else {
        usize::MAX
    }
}

/// How many hops of `hop_size` samples at 16 kHz cover `ms` milliseconds: without a hop size,
/// more than there will ever be.
pub fn ms_to_hops(ms: u64, hop_size: usize) -> (r: usize)
    ensures
        hop_size == 0 ==> r == usize::MAX,
        hop_size > 0 ==> r == saturated(hops_covering(ms as nat, hop_size as nat)),
{
    if hop_size == 0 {
        return usize::MAX;
    }
    let hop: u128 = hop_size as u128;
    let n: u128 = (ms as u128 * 16 + hop - 1) / hop;
    if n <= usize::MAX as u128 {
        n as usize
    } else {
        usize::MAX
    }
}

/// The state of a turn detector.
pub struct TurnState {
    /// Unvoiced hops in a row that end the turn.
    pub silence_needed: nat,
    /// Voiced hops in a row that start it.
    pub onset_needed: nat,
    /// Hops after which it ends in any case.
    pub timeout: nat,
    pub started: bool,
    pub voiced_run: nat,
    pub silence_run: nat,
    pub elapsed: nat,
    pub finished: bool,
}

/// The state before the first hop.
pub open spec fn initial_state(cfg: TurnConfig) -> TurnState {
    let hops = |ms: u64|
        if cfg.hop_size == 0 {
            usize::MAX as nat
        } else {
            saturated(hops_covering(ms as nat, cfg.hop_size as nat)) as nat
        };
    TurnState {
        silence_needed: hops(cfg.silence_duration_ms),
        onset_needed: if hops(cfg.onset_duration_ms) == 0 {
            1
        } else {
            hops(cfg.onset_duration_ms)
        },
        timeout: hops(cfg.end_timeout_ms),
        started: false,
        voiced_run: 0,
        silence_run: 0,
        elapsed: 0,
        finished: false,
    }
}

/// One hop later: onset is looked for first, then trailing silence, then the overall cap. A hop
/// that starts the turn does not end it; the next one does where the cap was reached.
pub open spec fn after_hop(s: TurnState, voiced: bool) -> (TurnState, Option<TurnEvent>) {
    if s.finished {
        (s, None)
    } else {
        let elapsed = if s.elapsed < usize::MAX {
            s.elapsed + 1
        } else {
            s.elapsed
        };
        let voiced_run: nat = if s.started || !voiced {
            0
        } else {
            s.voiced_run + 1
        };
        let silence_run: nat = if s.started && !voiced {
            s.silence_run + 1
        } else {
            0
        };
        let t = TurnState { elapsed, voiced_run, silence_run, ..s };
        if !s.started && voiced_run >= s.onset_needed {
            (TurnState { started: true, voiced_run: 0, ..t }, Some(TurnEvent::SpeechStarted))
        } else if s.started && !voiced && silence_run >= s.silence_needed {
            (TurnState { finished: true, ..t }, Some(TurnEvent::Ended(EndReason::Silence)))
        } else if elapsed >= s.timeout {
            (TurnState { finished: true, ..t }, Some(TurnEvent::Ended(EndReason::Timeout)))
        } else {
            (t, None)
        }
    }
}

/// Detects a speaking turn. Feed it one voiced or unvoiced decision per hop.
#[derive(Debug)]
pub struct TurnDetector {
    silence_hops_needed: usize,
    onset_hops_needed: usize,
    timeout_hops: usize,
    started: bool,
    voiced_run: usize,
    silence_run: usize,
    elapsed_hops: usize,
    finished: bool,
}

impl View for TurnDetector {
    type V = TurnState;

    closed spec fn view(&self) -> TurnState {
        TurnState {
            silence_needed: self.silence_hops_needed as nat,
            onset_needed: self.onset_hops_needed as nat,
            timeout: self.timeout_hops as nat,
            started: self.started,
            voiced_run: self.voiced_run as nat,
            silence_run: self.silence_run as nat,
            elapsed: self.elapsed_hops as nat,
            finished: self.finished,
        }
    }
}

impl TurnDetector {
    /// The runs stay below what they are compared with.
    #[verifier::type_invariant]
    spec fn runs_are_open(self) -> bool {
        &&& self.onset_hops_needed > 0
        &&& !self.finished && !self.started ==> self.voiced_run < self.onset_hops_needed
        &&& !self.finished ==> self.silence_run == 0 || self.silence_run < self.silence_hops_needed
    }

    /// A detector for one turn.
    pub fn new(cfg: &TurnConfig) -> (r: Self)
        ensures
            r@ == initial_state(*cfg),
    {
        let onset: usize = ms_to_hops(cfg.onset_duration_ms, cfg.hop_size);
        TurnDetector {
            silence_hops_needed: ms_to_hops(cfg.silence_duration_ms, cfg.hop_size),
            onset_hops_needed: if onset == 0 {
                1
            } else {
                onset
            },
            timeout_hops: ms_to_hops(cfg.end_timeout_ms, cfg.hop_size),
            started: false,
            voiced_run: 0,
            silence_run: 0,
            elapsed_hops: 0,
            finished: false,
        }
    }

    /// Whether a terminal event has already been emitted.
    pub fn is_finished(&self) -> (r: bool)
        ensures
            r == self@.finished,
    {
        self.finished
    }

    /// How many hops were fed since the wait began.
    pub fn elapsed_hops(&self) -> (r: usize)
        ensures
            r == self@.elapsed,
    {
        self.elapsed_hops
    }

    /// Feeds one hop's decision. At most one event comes per hop; after a terminal one, none.
    pub fn push(&mut self, voiced: bool) -> (r: Option<TurnEvent>)
        ensures
            final(self)@ == after_hop(old(self)@, voiced).0,
            r == after_hop(old(self)@, voiced).1,
    {
        proof {
            use_type_invariant(&*self);
        }
        if self.finished {
            return None;
        }
        let elapsed_hops: usize = if self.elapsed_hops < usize::MAX {
            self.elapsed_hops + 1
        } else {
            self.elapsed_hops
        };
        let voiced_run: usize = if self.started || !voiced {
            0
        } else {
            self.voiced_run + 1
        };
        let silence_run: usize = if self.started && !voiced {
            if self.silence_run < usize::MAX {
                self.silence_run + 1
            } else {
                self.silence_run
            }
        } else {
            0
        };
        let starts = !self.started && voiced_run >= self.onset_hops_needed;
        let quiet = self.started && !voiced && silence_run >= self.silence_hops_needed;
        let capped = !starts && !quiet && elapsed_hops >= self.timeout_hops;
        *self = TurnDetector {
            silence_hops_needed: self.silence_hops_needed,
            onset_hops_needed: self.onset_hops_needed,
            timeout_hops: self.timeout_hops,
            started: self.started || starts,
            voiced_run: if starts {
                0
            } else {
                voiced_run
            },
            silence_run,
            elapsed_hops,
            finished: quiet || capped,
        };
        if starts {
            Some(TurnEvent::SpeechStarted)
        } else if quiet {
            Some(TurnEvent::Ended(EndReason::Silence))
        } else if capped {
            Some(TurnEvent::Ended(EndReason::Timeout))
        } else {
            None
        }
    }

    /// Signals that the capture stream ended. Gives a terminal event unless one came before.
    pub fn finish(&mut self) -> (r: Option<TurnEvent>)
        ensures
            final(self)@ == (TurnState { finished: true, ..old(self)@ }),
            r == (if old(self)@.finished {
                None
            } else {
                Some(TurnEvent::Ended(EndReason::EndOfStream))
            }),
    {
        proof {
            use_type_invariant(&*self);
        }
        if self.finished {
            return None;
        }
        self.finished = true;
        Some(TurnEvent::Ended(EndReason::EndOfStream))
    }
}

/// The state after a run of hops.
pub open spec fn after_hops(s: TurnState, hops: Seq<bool>) -> TurnState
    decreases hops.len(),
{
    if hops.len() == 0 {
        s
    } else {
        after_hop(after_hops(s, hops.drop_last()), hops.last()).0
    }
}

/// A turn that is over stays as it is and tells nothing more.
pub proof fn law_the_end_is_told_once(s: TurnState, voiced: bool)
    requires
        after_hop(s, voiced).1 matches Some(TurnEvent::Ended(_)),
    ensures
        !s.finished,
        forall|next: bool| after_hop(#[trigger] after_hop(s, voiced).0, next) == (
            after_hop(s, voiced).0,
            None::<TurnEvent>,
        ),
{
}

/// The detector counts hops, and is past its cap by one hop at most while a turn is open.
proof fn lemma_elapsed(cfg: TurnConfig, hops: Seq<bool>)
    requires
        hops.len() < usize::MAX,
    ensures
        ({
            let s = after_hops(initial_state(cfg), hops);
            &&& s.timeout == initial_state(cfg).timeout
            &&& !s.finished ==> s.elapsed == hops.len()
            &&& !s.finished ==> s.elapsed < s.timeout || (s.started && s.elapsed == s.timeout)
                || hops.len() == 0
                || (s.started && s.timeout == 0 && hops.len() == 1)
        }),
    decreases hops.len(),
{
    if hops.len() > 0 {
        lemma_elapsed(cfg, hops.drop_last());
        let before = after_hops(initial_state(cfg), hops.drop_last());
        if !after_hops(initial_state(cfg), hops).finished {
            assert(!before.finished);
        }
    }
}

/// Whatever is said, a turn is over after one hop more than the overall cap (caps that fit a
/// `usize` count of hops).
pub proof fn law_a_turn_ends_at_its_cap(cfg: TurnConfig, hops: Seq<bool>)
    requires
        initial_state(cfg).timeout + 1 < usize::MAX,
        hops.len() > initial_state(cfg).timeout,
        hops.len() > 1,
        hops.len() < usize::MAX,
    ensures
        after_hops(initial_state(cfg), hops).finished,
{
    lemma_elapsed(cfg, hops);
}

/// The state before trailing silence: the turn has started and is not over.
proof fn lemma_silence(s: TurnState, n: nat)
    requires
        s.started,
        !s.finished,
        s.silence_run == 0,
        n <= s.silence_needed,
        s.elapsed + n < usize::MAX,
        s.silence_needed > 0,
    ensures
        ({
            let t = after_hops(s, Seq::new(n, |i: int| false));
            &&& t.silence_needed == s.silence_needed
            &&& n == s.silence_needed ==> t.finished
            &&& !t.finished ==> t.started && t.silence_run == n && t.elapsed == s.elapsed + n
        }),
    decreases n,
{
    if n > 0 {
        let all = Seq::new(n, |i: int| false);
        let some = Seq::new((n - 1) as nat, |i: int| false);
        assert(all.drop_last() =~= some);
        lemma_silence(s, (n - 1) as nat);
    }
}

/// Once speech has started, as many unvoiced hops in a row as the configured silence takes end
/// the turn.
pub proof fn law_silence_ends_a_started_turn(s: TurnState)
    requires
        s.started,
        !s.finished,
        s.silence_run == 0,
        s.silence_needed > 0,
        s.elapsed + s.silence_needed < usize::MAX,
    ensures
        after_hops(s, Seq::new(s.silence_needed, |i: int| false)).finished,
{
    lemma_silence(s, s.silence_needed);
}

/// How many hops at the end of a run are voiced, or unvoiced, without a break.
pub open spec fn trailing(hops: Seq<bool>, voiced: bool) -> nat
    decreases hops.len(),
{
    if hops.len() == 0 || hops.last() != voiced {
        0
    } else {
        trailing(hops.drop_last(), voiced) + 1
    }
}

/// The first hop with which so many in a row are voiced.
pub open spec fn onset_in(hops: Seq<bool>, needed: nat) -> Option<int>
    decreases hops.len(),
{
    if hops.len() == 0 {
        None
    } else {
        match onset_in(hops.drop_last(), needed) {
            Some(o) => Some(o),
            None => if trailing(hops, true) >= needed {
                Some(hops.len() - 1)
            } else {
                None
            },
        }
    }
}

/// What a detector tells of the last of some hops.
pub open spec fn told_of(cfg: TurnConfig, hops: Seq<bool>) -> Option<TurnEvent> {
    after_hop(after_hops(initial_state(cfg), hops.drop_last()), hops.last()).1
}

/// Whether none of some hops has ended the turn.
pub open spec fn still_open(cfg: TurnConfig, hops: Seq<bool>) -> bool {
    forall|n: int|
        0 < n <= hops.len() ==> !(told_of(cfg, #[trigger] hops.take(n)) matches Some(
            TurnEvent::Ended(_),
        ))
}

/// What the last of some hops is: the start of speech where the voiced hops in a row become enough
/// for the first time; behind it the end by silence where the unvoiced ones in a row become
/// enough; else the end by the cap where that many hops were heard.
pub open spec fn due(cfg: TurnConfig, hops: Seq<bool>) -> Option<TurnEvent> {
    let s = initial_state(cfg);
    let ends = if hops.len() >= s.timeout {
        Some(TurnEvent::Ended(EndReason::Timeout))
    } else {
        None
    };
    match onset_in(hops.drop_last(), s.onset_needed) {
        None => if onset_in(hops, s.onset_needed) is Some {
            Some(TurnEvent::SpeechStarted)
        } else {
            ends
        },
        Some(o) => {
            let quiet = trailing(hops.skip(o + 1), false);
            if quiet > 0 && quiet >= s.silence_needed {
                Some(TurnEvent::Ended(EndReason::Silence))
            } else {
                ends
            }
        },
    }
}

proof fn lemma_open_turn(cfg: TurnConfig, hops: Seq<bool>)
    requires
        still_open(cfg, hops),
    ensures
        ({
            let s = initial_state(cfg);
            let t = after_hops(s, hops);
            &&& !t.finished
            &&& t.silence_needed == s.silence_needed
            &&& t.onset_needed == s.onset_needed
            &&& t.timeout == s.timeout
            &&& t.elapsed == (if hops.len() <= usize::MAX {
                hops.len() as int
            } else {
                usize::MAX as int
            })
            &&& t.started == (onset_in(hops, s.onset_needed) is Some)
            &&& !t.started ==> t.voiced_run == trailing(hops, true)
            &&& onset_in(hops, s.onset_needed) matches Some(o) ==> {
                &&& 0 <= o < hops.len()
                &&& t.silence_run == trailing(hops.skip(o + 1), false)
            }
        }),
    decreases hops.len(),
{
    if hops.len() > 0 {
        let init = hops.drop_last();
        let s = initial_state(cfg);
        lemma_part_is_open(cfg, hops);
        lemma_open_turn(cfg, init);
        assert(hops.take(hops.len() as int) =~= hops);
        assert(!(told_of(cfg, hops.take(hops.len() as int)) matches Some(TurnEvent::Ended(_))));
        match onset_in(init, s.onset_needed) {
            Some(o) => {
                let tail = hops.skip(o + 1);
                assert(tail.drop_last() =~= init.skip(o + 1));
                assert(tail.last() == hops.last());
            },
            None => {
                assert(hops.skip(hops.len() as int) =~= Seq::<bool>::empty());
            },
        }
    }
}

proof fn lemma_part_is_open(cfg: TurnConfig, hops: Seq<bool>)
    requires
        hops.len() > 0,
        still_open(cfg, hops),
    ensures
        still_open(cfg, hops.drop_last()),
{
    let init = hops.drop_last();
    assert forall|n: int| 0 < n <= init.len() implies !(told_of(cfg, #[trigger] init.take(n)) matches Some(
        TurnEvent::Ended(_),
    )) by {
        assert(init.take(n) =~= hops.take(n));
    }
}

/// A turn from its start to its end: as long as no hop has ended it, each hop tells what it is.
pub proof fn law_a_turn_tells_what_is_due(cfg: TurnConfig, hops: Seq<bool>)
    requires
        hops.len() > 0,
        still_open(cfg, hops.drop_last()),
    ensures
        told_of(cfg, hops) == due(cfg, hops),
{
    let init = hops.drop_last();
    let s = initial_state(cfg);
    lemma_open_turn(cfg, init);
    match onset_in(init, s.onset_needed) {
        Some(o) => {
            let tail = hops.skip(o + 1);
            assert(tail.drop_last() =~= init.skip(o + 1));
            assert(tail.last() == hops.last());
        },
        None => {},
    }
}

/// Once a hop has ended a turn, no later hop tells anything, and the turn is over, so that the end
/// of the stream is not told either.
pub proof fn law_nothing_is_told_behind_the_end(cfg: TurnConfig, hops: Seq<bool>, more: Seq<bool>)
    requires
        hops.len() > 0,
        told_of(cfg, hops) matches Some(TurnEvent::Ended(_)),
    ensures
        after_hops(initial_state(cfg), hops + more).finished,
        more.len() > 0 ==> told_of(cfg, hops + more) is None,
    decreases more.len(),
{
    if more.len() == 0 {
        assert(hops + more =~= hops);
    } else {
        law_nothing_is_told_behind_the_end(cfg, hops, more.drop_last());
        assert((hops + more).drop_last() =~= hops + more.drop_last());
    }
}

// ---------------------------------------------------------------------------
// Waiting for the start of speech
// ---------------------------------------------------------------------------

/// How a wait for the start of speech came out.
#[derive(Debug, Clone, Copy, PartialEq, Eq, Structural)]
pub enum StartOutcome {
    /// Speech started, and the time to listen on has passed.
    Started,
    /// The timeout elapsed without speech.
    NoSpeech,
}

/// Waits for speech to start, then listens on for a while and returns mid-speech.
#[derive(Debug)]
pub struct StartDetector {
    onset_hops_needed: usize,
    timeout_hops: usize,
    wait_hops: usize,
    voiced_run: usize,
    elapsed_hops: usize,
    /// Hops still to wait, once speech has started.
    remaining: Option<usize>,
}

/// The state of a wait for the start of speech.
pub struct StartState {
    pub onset_needed: nat,
    pub timeout: nat,
    pub wait: nat,
    pub voiced_run: nat,
    pub elapsed: nat,
    pub remaining: Option<nat>,
}

/// One hop later: onset starts the wait, which then runs down whatever is said; before it, the
/// timeout counts.
pub open spec fn after_start_hop(s: StartState, voiced: bool) -> (StartState, Option<StartOutcome>) {
    match s.remaining {
        Some(n) => if n <= 1 {
            (StartState { remaining: Some(0), ..s }, Some(StartOutcome::Started))
        } else {
            (StartState { remaining: Some((n - 1) as nat), ..s }, None)
        },
        None => {
            let elapsed = if s.elapsed < usize::MAX {
                s.elapsed + 1
            } else {
                s.elapsed
            };
            let voiced_run: nat = if voiced {
                s.voiced_run + 1
            } else {
                0
            };
            let t = StartState { elapsed, voiced_run, ..s };
            if voiced_run >= s.onset_needed {
                (
                    StartState { remaining: Some(s.wait), voiced_run: 0, ..t },
                    if s.wait == 0 {
                        Some(StartOutcome::Started)
                    } else {
                        None
                    },
                )
            } else if elapsed >= s.timeout {
                (t, Some(StartOutcome::NoSpeech))
            } else {
                (t, None)
            }
        },
    }
}

impl View for StartDetector {
    type V = StartState;

    closed spec fn view(&self) -> StartState {
        StartState {
            onset_needed: self.onset_hops_needed as nat,
            timeout: self.timeout_hops as nat,
            wait: self.wait_hops as nat,
            voiced_run: self.voiced_run as nat,
            elapsed: self.elapsed_hops as nat,
            remaining: match self.remaining {
                Some(n) => Some(n as nat),
                None => None,
            },
        }
    }
}

impl StartDetector {
    #[verifier::type_invariant]
    spec fn run_is_open(self) -> bool {
        self.voiced_run < self.onset_hops_needed
    }

    /// A detector for hops of `hop_size` samples.
    pub fn new(
        hop_size: usize,
        timeout_ms: u64,
        wait_after_start_ms: u64,
        onset_duration_ms: u64,
    ) -> (r: Self)
        requires
            hop_size > 0,
        ensures
            r@ == initial_start(
                hop_size as nat,
                timeout_ms,
                wait_after_start_ms,
                onset_duration_ms,
            ),
    {
        let onset: usize = ms_to_hops(onset_duration_ms, hop_size);
        proof {
            let h = hop_size as int;
            assert((h - 1) / h == 0) by (nonlinear_arith)
                requires
                    h > 0,
            ;
            if onset_duration_ms > 0 {
                let n = onset_duration_ms * 16 + h - 1;
                assert(n / h >= 1) by (nonlinear_arith)
                    requires
                        h > 0,
                        n >= h,
                ;
            }
        }
        StartDetector {
            onset_hops_needed: if onset == 0 {
                1
            } else {
                onset
            },
            timeout_hops: ms_to_hops(timeout_ms, hop_size),
            wait_hops: ms_to_hops(wait_after_start_ms, hop_size),
            voiced_run: 0,
            elapsed_hops: 0,
            remaining: None,
        }
    }

    /// Feeds one hop's decision. The first outcome ends the wait.
    pub fn push(&mut self, voiced: bool) -> (r: Option<StartOutcome>)
        ensures
            final(self)@ == after_start_hop(old(self)@, voiced).0,
            r == after_start_hop(old(self)@, voiced).1,
    {
        proof {
            use_type_invariant(&*self);
        }
        let (onset_hops_needed, timeout_hops, wait_hops) = (
            self.onset_hops_needed,
            self.timeout_hops,
            self.wait_hops,
        );
        match self.remaining {
            Some(n) => {
                let left: usize = if n <= 1 {
                    0
                } else {
                    n - 1
                };
                *self = StartDetector {
                    onset_hops_needed,
                    timeout_hops,
                    wait_hops,
                    voiced_run: self.voiced_run,
                    elapsed_hops: self.elapsed_hops,
                    remaining: Some(left),
                };
                if n <= 1 {
                    Some(StartOutcome::Started)
                } else {
                    None
                }
            },
            None => {
                let elapsed_hops: usize = if self.elapsed_hops < usize::MAX {
                    self.elapsed_hops + 1
                } else {
                    self.elapsed_hops
                };
                let voiced_run: usize = if voiced {
                    self.voiced_run + 1
                } else {
                    0
                };
                let starts = voiced_run >= onset_hops_needed;
                *self = StartDetector {
                    onset_hops_needed,
                    timeout_hops,
                    wait_hops,
                    voiced_run: if starts {
                        0
                    } else {
                        voiced_run
                    },
                    elapsed_hops,
                    remaining: if starts {
                        Some(wait_hops)
                    } else {
                        None
                    },
                };
                if starts {
                    if wait_hops == 0 {
                        Some(StartOutcome::Started)
                    } else {
                        None
                    }
                } else if elapsed_hops >= timeout_hops {
                    Some(StartOutcome::NoSpeech)
                } else {
                    None
                }
            },
        }
    }
}

// ---------------------------------------------------------------------------
// Turns by the clock
// ---------------------------------------------------------------------------

/// Whether so many hops of `hop_size` samples last for `ms` milliseconds, of which each has 16
/// samples.
pub open spec fn lasts(n: nat, hop_size: nat, ms: u64) -> bool {
    n * hop_size >= ms * 16
}

/// Whether some hops end with speech that has lasted for `ms` milliseconds.
pub open spec fn ends_in_speech(hops: Seq<bool>, hop_size: nat, ms: u64) -> bool {
    trailing(hops, true) > 0 && lasts(trailing(hops, true), hop_size, ms)
}

/// Whether `o` is the number of hops after which speech has lasted for `ms` milliseconds for the
/// first time.
pub open spec fn starts_after(hops: Seq<bool>, hop_size: nat, ms: u64, o: int) -> bool {
    &&& 0 < o <= hops.len()
    &&& ends_in_speech(hops.take(o), hop_size, ms)
    &&& forall|n: int| 0 < n < o ==> !ends_in_speech(#[trigger] hops.take(n), hop_size, ms)
}

/// Whether speech has lasted for `ms` milliseconds nowhere in some hops.
pub open spec fn never_starts(hops: Seq<bool>, hop_size: nat, ms: u64) -> bool {
    forall|n: int| 0 < n <= hops.len() ==> !ends_in_speech(#[trigger] hops.take(n), hop_size, ms)
}

/// The hops that are counted for a time are the fewest that last for it.
pub proof fn law_hops_last_for_their_time(ms: u64, hop_size: nat, n: nat)
    requires
        hop_size > 0,
    ensures
        n >= hops_covering(ms as nat, hop_size) <==> lasts(n, hop_size, ms),
{
    let h = hop_size as int;
    let a = ms * 16;
    let c = (a + h - 1) / h;
    assert(c * h >= a && (c - 1) * h < a && c >= 0) by (nonlinear_arith)
        requires
            h > 0,
            a >= 0,
            c == (a + h - 1) / h,
    ;
    if n >= c {
        assert(n * h >= c * h) by (nonlinear_arith)
            requires
                n >= c,
                h > 0,
        ;
    } else {
        assert(n * h <= (c - 1) * h) by (nonlinear_arith)
            requires
                n <= c - 1,
                h > 0,
        ;
    }
}

proof fn lemma_trailing_bound(hops: Seq<bool>, voiced: bool)
    ensures
        trailing(hops, voiced) <= hops.len(),
    decreases hops.len(),
{
    if hops.len() > 0 {
        lemma_trailing_bound(hops.drop_last(), voiced);
    }
}

/// The onset by counting is the start by the clock.
proof fn lemma_onset_by_the_clock(hops: Seq<bool>, hop_size: nat, ms: u64, needed: nat)
    requires
        hop_size > 0,
        hops.len() < usize::MAX,
        needed == (if saturated(hops_covering(ms as nat, hop_size)) == 0 {
            1nat
        } else {
            saturated(hops_covering(ms as nat, hop_size)) as nat
        }),
    ensures
        match onset_in(hops, needed) {
            Some(o) => starts_after(hops, hop_size, ms, o + 1),
            None => never_starts(hops, hop_size, ms),
        },
    decreases hops.len(),
{
    if hops.len() > 0 {
        let init = hops.drop_last();
        lemma_onset_by_the_clock(init, hop_size, ms, needed);
        let r = trailing(hops, true);
        lemma_trailing_bound(hops, true);
        law_hops_last_for_their_time(ms, hop_size, r);
        assert(r >= needed <==> r > 0 && lasts(r, hop_size, ms));
        assert(hops.take(hops.len() as int) =~= hops);
        assert forall|n: int| 0 < n <= init.len() implies #[trigger] hops.take(n) == init.take(n) by {
            assert(hops.take(n) =~= init.take(n));
        }
        match onset_in(init, needed) {
            Some(o) => {
                assert(hops.take(o + 1) == init.take(o + 1));
                assert forall|n: int| 0 < n < o + 1 implies !ends_in_speech(
                    #[trigger] hops.take(n),
                    hop_size,
                    ms,
                ) by {
                    assert(hops.take(n) == init.take(n));
                }
            },
            None => {
                assert forall|n: int| 0 < n < hops.len() implies !ends_in_speech(
                    #[trigger] hops.take(n),
                    hop_size,
                    ms,
                ) by {
                    assert(hops.take(n) == init.take(n));
                }
            },
        }
    }
}

/// Before a turn has started, a hop tells its start once speech has lasted for the onset of the
/// configuration, and else its end by the cap once the cap has passed since the wait began.
pub proof fn law_a_turn_starts_by_the_clock(cfg: TurnConfig, hops: Seq<bool>)
    requires
        0 < hops.len() < usize::MAX,
        cfg.hop_size > 0,
        still_open(cfg, hops.drop_last()),
        never_starts(hops.drop_last(), cfg.hop_size as nat, cfg.onset_duration_ms),
    ensures
        told_of(cfg, hops) == if ends_in_speech(hops, cfg.hop_size as nat, cfg.onset_duration_ms) {
            Some(TurnEvent::SpeechStarted)
        } else if lasts(hops.len(), cfg.hop_size as nat, cfg.end_timeout_ms) {
            Some(TurnEvent::Ended(EndReason::Timeout))
        } else {
            None
        },
{
    let h = cfg.hop_size as nat;
    let s = initial_state(cfg);
    law_a_turn_tells_what_is_due(cfg, hops);
    lemma_onset_by_the_clock(hops.drop_last(), h, cfg.onset_duration_ms, s.onset_needed);
    lemma_onset_by_the_clock(hops, h, cfg.onset_duration_ms, s.onset_needed);
    law_hops_last_for_their_time(cfg.end_timeout_ms, h, hops.len());
    let init = hops.drop_last();
    assert(hops.take(hops.len() as int) =~= hops);
    if let Some(o) = onset_in(init, s.onset_needed) {
        assert(ends_in_speech(init.take(o + 1), h, cfg.onset_duration_ms));
    }
    if let Some(o) = onset_in(hops, s.onset_needed) {
        if o + 1 < hops.len() {
            assert(init.take(o + 1) =~= hops.take(o + 1));
            assert(!ends_in_speech(init.take(o + 1), h, cfg.onset_duration_ms));
        }
    }
}

/// Once a turn has started, with its hop `o`, a hop tells its end by silence once what followed has
/// been silent for the silence of the configuration, and else its end by the cap once the cap has
/// passed since the wait began.
pub proof fn law_a_turn_ends_by_the_clock(cfg: TurnConfig, hops: Seq<bool>, o: int)
    requires
        0 < hops.len() < usize::MAX,
        cfg.hop_size > 0,
        still_open(cfg, hops.drop_last()),
        starts_after(hops.drop_last(), cfg.hop_size as nat, cfg.onset_duration_ms, o),
    ensures
        told_of(cfg, hops) == ({
            let quiet = trailing(hops.skip(o), false);
            if quiet > 0 && lasts(quiet, cfg.hop_size as nat, cfg.silence_duration_ms) {
                Some(TurnEvent::Ended(EndReason::Silence))
            } else if lasts(hops.len(), cfg.hop_size as nat, cfg.end_timeout_ms) {
                Some(TurnEvent::Ended(EndReason::Timeout))
            } else {
                None
            }
        }),
{
    let h = cfg.hop_size as nat;
    let s = initial_state(cfg);
    let init = hops.drop_last();
    law_a_turn_tells_what_is_due(cfg, hops);
    lemma_onset_by_the_clock(init, h, cfg.onset_duration_ms, s.onset_needed);
    let p = onset_in(init, s.onset_needed);
    assert(ends_in_speech(init.take(o), h, cfg.onset_duration_ms));
    assert(p is Some);
    let q = p->0 + 1;
    assert(ends_in_speech(init.take(q), h, cfg.onset_duration_ms));
    assert(q == o);
    let quiet = trailing(hops.skip(o), false);
    lemma_trailing_bound(hops.skip(o), false);
    law_hops_last_for_their_time(cfg.silence_duration_ms, h, quiet);
    law_hops_last_for_their_time(cfg.end_timeout_ms, h, hops.len());
}

/// The state of a wait for the start of speech after some hops.
pub open spec fn after_start_hops(s: StartState, hops: Seq<bool>) -> StartState
    decreases hops.len(),
{
    if hops.len() == 0 {
        s
    } else {
        after_start_hop(after_start_hops(s, hops.drop_last()), hops.last()).0
    }
}

/// What a wait for the start of speech tells of the last of some hops.
pub open spec fn start_told(s: StartState, hops: Seq<bool>) -> Option<StartOutcome> {
    after_start_hop(after_start_hops(s, hops.drop_last()), hops.last()).1
}

/// Whether none of some hops has told how the wait came out.
pub open spec fn start_open(s: StartState, hops: Seq<bool>) -> bool {
    forall|n: int| 0 < n <= hops.len() ==> start_told(s, #[trigger] hops.take(n)) is None
}

proof fn lemma_open_start(
    hops: Seq<bool>,
    hop_size: nat,
    timeout_ms: u64,
    wait_ms: u64,
    onset_ms: u64,
)
    requires
        hop_size > 0,
        hops.len() < usize::MAX,
        start_open(initial_start(hop_size, timeout_ms, wait_ms, onset_ms), hops),
    ensures
        ({
            let s = initial_start(hop_size, timeout_ms, wait_ms, onset_ms);
            let t = after_start_hops(s, hops);
            &&& t.onset_needed == s.onset_needed
            &&& t.timeout == s.timeout
            &&& t.wait == s.wait
            &&& match onset_in(hops, s.onset_needed) {
                Some(o) => 0 <= o < hops.len() && hops.len() - 1 - o < s.wait && t.remaining == Some(
                    (s.wait - (hops.len() - 1 - o)) as nat,
                ),
                None => t.remaining is None && t.elapsed == hops.len() && t.voiced_run == trailing(
                    hops,
                    true,
                ),
            }
        }),
    decreases hops.len(),
{
    if hops.len() > 0 {
        let s = initial_start(hop_size, timeout_ms, wait_ms, onset_ms);
        let init = hops.drop_last();
        assert forall|n: int| 0 < n <= init.len() implies start_told(s, #[trigger] init.take(n)) is None by {
            assert(init.take(n) =~= hops.take(n));
        }
        lemma_open_start(init, hop_size, timeout_ms, wait_ms, onset_ms);
        assert(hops.take(hops.len() as int) =~= hops);
        assert(start_told(s, hops.take(hops.len() as int)) is None);
    }
}

/// Before speech has started, a wait for its start tells nothing, until the timeout has passed
/// without speech that has lasted for the onset.
pub proof fn law_missing_speech_is_told_at_the_timeout(
    hops: Seq<bool>,
    hop_size: nat,
    timeout_ms: u64,
    wait_ms: u64,
    onset_ms: u64,
)
    requires
        hop_size > 0,
        0 < hops.len() < usize::MAX,
        start_open(initial_start(hop_size, timeout_ms, wait_ms, onset_ms), hops.drop_last()),
        never_starts(hops, hop_size, onset_ms),
    ensures
        start_told(initial_start(hop_size, timeout_ms, wait_ms, onset_ms), hops) == if lasts(
            hops.len(),
            hop_size,
            timeout_ms,
        ) {
            Some(StartOutcome::NoSpeech)
        } else {
            None
        },
{
    let s = initial_start(hop_size, timeout_ms, wait_ms, onset_ms);
    let init = hops.drop_last();
    lemma_start_needs(hop_size, timeout_ms, wait_ms, onset_ms);
    lemma_open_start(init, hop_size, timeout_ms, wait_ms, onset_ms);
    lemma_onset_by_the_clock(init, hop_size, onset_ms, s.onset_needed);
    lemma_onset_by_the_clock(hops, hop_size, onset_ms, s.onset_needed);
    if let Some(o) = onset_in(hops, s.onset_needed) {
        assert(ends_in_speech(hops.take(o + 1), hop_size, onset_ms));
    }
    if let Some(o) = onset_in(init, s.onset_needed) {
        assert(init.take(o + 1) =~= hops.take(o + 1));
        assert(ends_in_speech(hops.take(o + 1), hop_size, onset_ms));
    }
    law_hops_last_for_their_time(timeout_ms, hop_size, hops.len());
}

/// Once speech has started, with its hop `o`, a wait for its start tells so as soon as the wait has
/// passed since, whatever is said meanwhile, and nothing before.
pub proof fn law_speech_is_told_after_its_wait(
    hops: Seq<bool>,
    hop_size: nat,
    timeout_ms: u64,
    wait_ms: u64,
    onset_ms: u64,
    o: int,
)
    requires
        hop_size > 0,
        0 < hops.len() < usize::MAX,
        start_open(initial_start(hop_size, timeout_ms, wait_ms, onset_ms), hops.drop_last()),
        starts_after(hops, hop_size, onset_ms, o),
    ensures
        start_told(initial_start(hop_size, timeout_ms, wait_ms, onset_ms), hops) == if lasts(
            (hops.len() - o) as nat,
            hop_size,
            wait_ms,
        ) {
            Some(StartOutcome::Started)
        } else {
            None
        },
{
    let s = initial_start(hop_size, timeout_ms, wait_ms, onset_ms);
    let init = hops.drop_last();
    lemma_start_needs(hop_size, timeout_ms, wait_ms, onset_ms);
    lemma_open_start(init, hop_size, timeout_ms, wait_ms, onset_ms);
    lemma_onset_by_the_clock(init, hop_size, onset_ms, s.onset_needed);
    lemma_onset_by_the_clock(hops, hop_size, onset_ms, s.onset_needed);
    assert(ends_in_speech(hops.take(o), hop_size, onset_ms));
    let p = onset_in(hops, s.onset_needed);
    assert(p is Some);
    assert(ends_in_speech(hops.take(p->0 + 1), hop_size, onset_ms));
    assert(p->0 + 1 == o);
    law_hops_last_for_their_time(wait_ms, hop_size, (hops.len() - o) as nat);
    if o < hops.len() {
        assert(init.take(o) =~= hops.take(o));
        let q = onset_in(init, s.onset_needed);
        if q is None {
            assert(ends_in_speech(init.take(o), hop_size, onset_ms));
        }
    }
}

/// The whole of a barge-in: where speech starts with hop `o` before the timeout has passed, nothing
/// is told for the `w` hops that it takes for the wait to pass, and then that speech has started.
pub proof fn law_a_barge_in_waits_its_time(
    hops: Seq<bool>,
    hop_size: nat,
    timeout_ms: u64,
    wait_ms: u64,
    onset_ms: u64,
    o: int,
    w: int,
)
    requires
        hop_size > 0,
        0 < hops.len() < usize::MAX,
        starts_after(hops, hop_size, onset_ms, o),
        forall|n: nat| n < o ==> !#[trigger] lasts(n, hop_size, timeout_ms),
        hops.len() == o + w,
        lasts(w as nat, hop_size, wait_ms),
        forall|n: nat| n < w ==> !#[trigger] lasts(n, hop_size, wait_ms),
    ensures
        start_open(initial_start(hop_size, timeout_ms, wait_ms, onset_ms), hops.drop_last()),
        start_told(initial_start(hop_size, timeout_ms, wait_ms, onset_ms), hops) == Some(
            StartOutcome::Started,
        ),
{
    lemma_quiet_until(hops, hop_size, timeout_ms, wait_ms, onset_ms, o, hops.len() - 1);
    law_speech_is_told_after_its_wait(hops, hop_size, timeout_ms, wait_ms, onset_ms, o);
}

proof fn lemma_quiet_until(
    hops: Seq<bool>,
    hop_size: nat,
    timeout_ms: u64,
    wait_ms: u64,
    onset_ms: u64,
    o: int,
    k: int,
)
    requires
        hop_size > 0,
        0 < hops.len() < usize::MAX,
        starts_after(hops, hop_size, onset_ms, o),
        forall|n: nat| n < o ==> !#[trigger] lasts(n, hop_size, timeout_ms),
        forall|n: nat| n < hops.len() - o ==> !#[trigger] lasts(n, hop_size, wait_ms),
        0 <= k < hops.len(),
    ensures
        start_open(initial_start(hop_size, timeout_ms, wait_ms, onset_ms), hops.take(k)),
    decreases k,
{
    let s = initial_start(hop_size, timeout_ms, wait_ms, onset_ms);
    let part = hops.take(k);
    if k > 0 {
        lemma_quiet_until(hops, hop_size, timeout_ms, wait_ms, onset_ms, o, k - 1);
        let init = hops.take(k - 1);
        assert(part.drop_last() =~= init);
        if o <= k {
            assert(part.take(o) =~= hops.take(o));
            assert forall|n: int| 0 < n < o implies !ends_in_speech(
                #[trigger] part.take(n),
                hop_size,
                onset_ms,
            ) by {
                assert(part.take(n) =~= hops.take(n));
            }
            law_speech_is_told_after_its_wait(part, hop_size, timeout_ms, wait_ms, onset_ms, o);
            assert(!lasts((k - o) as nat, hop_size, wait_ms));
        } else {
            assert forall|n: int| 0 < n <= part.len() implies !ends_in_speech(
                #[trigger] part.take(n),
                hop_size,
                onset_ms,
            ) by {
                assert(part.take(n) =~= hops.take(n));
            }
            law_missing_speech_is_told_at_the_timeout(part, hop_size, timeout_ms, wait_ms, onset_ms);
            assert(!lasts(k as nat, hop_size, timeout_ms));
        }
        assert forall|n: int| 0 < n <= part.len() implies start_told(s, #[trigger] part.take(n)) is None by {
            if n < k {
                assert(part.take(n) =~= init.take(n));
            } else {
                assert(part.take(n) =~= part);
            }
        }
    }
}

proof fn lemma_start_needs(hop_size: nat, timeout_ms: u64, wait_ms: u64, onset_ms: u64)
    requires
        hop_size > 0,
    ensures
        initial_start(hop_size, timeout_ms, wait_ms, onset_ms).onset_needed == (if saturated(
            hops_covering(onset_ms as nat, hop_size),
        ) == 0 {
            1nat
        } else {
            saturated(hops_covering(onset_ms as nat, hop_size)) as nat
        }),
{
    law_hops_last_for_their_time(onset_ms, hop_size, 0);
    assert(0 * hop_size == 0);
}

// ---------------------------------------------------------------------------
// The wait for a turn
// ---------------------------------------------------------------------------

/// Milliseconds without any captured data after which a capture counts as dead.
pub const STALL_LIMIT_MS: u64 = 3000;

/// The refusal of a capture that delivers nothing.
pub open spec fn stall_text() -> Seq<char> {
    "capture stalled — no audio for 3000 ms. Please grant Microphone permission to the daemon (macOS) and check the sound card is connected"@
}

/// Whether a capture that has delivered nothing for `idle_ms` may be waited for any longer.
///
/// A live capture delivers frames continuously (silence is frames of zeros), so a capture without
/// any is dead, and the count of hops will never reach the overall cap.
pub fn check_stall(idle_ms: u64) -> (r: Result<(), String>)
    ensures
        r is Ok <==> idle_ms < STALL_LIMIT_MS,
        r matches Err(e) ==> e@ == stall_text(),
{
    if idle_ms < STALL_LIMIT_MS {
        Ok(())
    } else {
        Err(
            "capture stalled — no audio for 3000 ms. Please grant Microphone permission to the daemon (macOS) and check the sound card is connected".to_owned(),
        )
    }
}

/// Cuts captured samples into hops.
#[derive(Debug)]
pub struct Framing {
    pub hop: usize,
    /// Samples that no hop has taken yet.
    pub pending: Vec<i16>,
}

impl Framing {
    /// Hops of a size, and no samples yet.
    pub fn new(hop: usize) -> (r: Self)
        ensures
            r.hop == hop,
            r.pending@ == Seq::<i16>::empty(),
    {
        Framing { hop, pending: Vec::new() }
    }

    /// Takes in captured samples at 16 kHz.
    pub fn push_samples(&mut self, samples: &[i16])
        ensures
            final(self).pending@ == old(self).pending@ + samples@,
            final(self).hop == old(self).hop,
    {
        self.pending.extend_from_slice(samples);
        assert(self.pending@ =~= old(self).pending@ + samples@);
    }

    /// The next whole hop, if there is one.
    pub fn next_hop(&mut self) -> (r: Option<Vec<i16>>)
        ensures
            final(self).hop == old(self).hop,
            match r {
                Some(h) => {
                    &&& h@.len() == old(self).hop
                    &&& old(self).hop > 0
                    &&& h@ + final(self).pending@ == old(self).pending@
                },
                None => {
                    &&& old(self).hop == 0 || old(self).pending@.len() < old(self).hop
                    &&& final(self).pending@ == old(self).pending@
                },
            },
    {
        if self.hop == 0 || self.pending.len() < self.hop {
            return None;
        }
        let rest = self.pending.split_off(self.hop);
        let mut taken = rest;
        std::mem::swap(&mut taken, &mut self.pending);
        assert(taken@ + self.pending@ =~= old(self).pending@);
        Some(taken)
    }
}

/// The wait for one turn: samples go in as they are captured, hops come out to be judged, and the
/// judgements go back in.
#[derive(Debug)]
pub struct SpeechWait {
    pub detector: TurnDetector,
    pub framing: Framing,
}

impl SpeechWait {
    /// A wait for one turn.
    pub fn new(cfg: &TurnConfig) -> (r: Self)
        ensures
            r.detector@ == initial_state(*cfg),
            r.framing.hop == cfg.hop_size,
            r.framing.pending@ == Seq::<i16>::empty(),
    {
        SpeechWait { detector: TurnDetector::new(cfg), framing: Framing::new(cfg.hop_size) }
    }

    /// Takes in the judgement on a hop; gives why the turn ended, once it has.
    pub fn judge(&mut self, voiced: bool) -> (r: Option<EndReason>)
        ensures
            final(self).framing == old(self).framing,
            final(self).detector@ == after_hop(old(self).detector@, voiced).0,
            r == (match after_hop(old(self).detector@, voiced).1 {
                Some(TurnEvent::Ended(why)) => Some(why),
                _ => None,
            }),
    {
        match self.detector.push(voiced) {
            Some(TurnEvent::Ended(why)) => Some(why),
            _ => None,
        }
    }

    /// The capture ended, or the job was cancelled: the turn is over.
    pub fn end(&mut self) -> (r: EndReason)
        ensures
            final(self).framing == old(self).framing,
            final(self).detector@ == (TurnState { finished: true, ..old(self).detector@ }),
            r == EndReason::EndOfStream,
    {
        let _ = self.detector.finish();
        EndReason::EndOfStream
    }
}

/// What came while a turn is waited for.
#[derive(Debug)]
pub enum WaitEvent {
    /// The job was cancelled.
    Cancelled,
    /// The capture has nothing yet, and has had nothing for so long.
    Nothing { idle_ms: u64 },
    /// The capture delivered these samples, at 16 kHz.
    Samples(Vec<i16>),
    /// The hop that was handed out last is voiced, or is not.
    Judged(bool),
    /// The capture ended.
    End,
    /// The capture, or the judging of a hop, failed.
    Failed(String),
}

/// What is done next for a turn.
#[derive(Debug)]
pub enum WaitMove {
    /// Read from the capture.
    Read,
    /// Judge this hop.
    Judge(Vec<i16>),
    /// The turn is over.
    Ended(EndReason),
    Failed(String),
}

/// A [`WaitMove`] with its samples and texts.
pub enum MoveText {
    Read,
    Judge(Seq<i16>),
    Ended(EndReason),
    Failed(Seq<char>),
}

impl View for WaitMove {
    type V = MoveText;

    open spec fn view(&self) -> MoveText {
        match *self {
            WaitMove::Read => MoveText::Read,
            WaitMove::Judge(h) => MoveText::Judge(h@),
            WaitMove::Ended(why) => MoveText::Ended(why),
            WaitMove::Failed(e) => MoveText::Failed(e@),
        }
    }
}

/// A wait for one turn: how far it is, and the samples that no hop has taken yet.
pub struct WaitState {
    pub turn: TurnState,
    pub hop: nat,
    pub pending: Seq<i16>,
}

impl View for SpeechWait {
    type V = WaitState;

    open spec fn view(&self) -> WaitState {
        WaitState {
            turn: self.detector@,
            hop: self.framing.hop as nat,
            pending: self.framing.pending@,
        }
    }
}

/// Takes a whole hop to be judged, or reads on where there is none.
pub open spec fn with_hop_taken(s: WaitState) -> (WaitState, MoveText) {
    if s.hop == 0 || s.pending.len() < s.hop {
        (s, MoveText::Read)
    } else {
        (
            WaitState { pending: s.pending.skip(s.hop as int), ..s },
            MoveText::Judge(s.pending.take(s.hop as int)),
        )
    }
}

/// A turn that is over because nothing more will come.
pub open spec fn with_end(s: WaitState) -> (WaitState, MoveText) {
    (
        WaitState { turn: TurnState { finished: true, ..s.turn }, ..s },
        MoveText::Ended(EndReason::EndOfStream),
    )
}

/// What an event makes of a wait, and what is done next.
pub open spec fn after_event(s: WaitState, e: WaitEvent) -> (WaitState, MoveText) {
    match e {
        WaitEvent::Cancelled => with_end(s),
        WaitEvent::End => with_end(s),
        WaitEvent::Nothing { idle_ms } => if idle_ms < STALL_LIMIT_MS {
            (s, MoveText::Read)
        } else {
            (s, MoveText::Failed(stall_text()))
        },
        WaitEvent::Samples(v) => with_hop_taken(WaitState { pending: s.pending + v@, ..s }),
        WaitEvent::Judged(voiced) => {
            let (turn, event) = after_hop(s.turn, voiced);
            let next = WaitState { turn, ..s };
            match event {
                Some(TurnEvent::Ended(why)) => (next, MoveText::Ended(why)),
                _ => with_hop_taken(next),
            }
        },
        WaitEvent::Failed(why) => (s, MoveText::Failed(why@)),
    }
}

impl SpeechWait {
    fn take_hop(&mut self) -> (r: WaitMove)
        ensures
            (final(self)@, r@) == with_hop_taken(old(self)@),
    {
        match self.framing.next_hop() {
            Some(h) => {
                proof {
                    assert(h@ =~= old(self).framing.pending@.take(self.framing.hop as int));
                    assert(self.framing.pending@ =~= old(self).framing.pending@.skip(
                        self.framing.hop as int,
                    ));
                }
                WaitMove::Judge(h)
            },
            None => WaitMove::Read,
        }
    }

    /// Takes what came; tells what to do next. A turn that ends while hops are left over leaves
    /// them be.
    pub fn step(&mut self, event: WaitEvent) -> (r: WaitMove)
        ensures
            (final(self)@, r@) == after_event(old(self)@, event),
    {
        match event {
            WaitEvent::Cancelled => WaitMove::Ended(self.end()),
            WaitEvent::End => WaitMove::Ended(self.end()),
            WaitEvent::Nothing { idle_ms } => match check_stall(idle_ms) {
                Ok(_) => WaitMove::Read,
                Err(e) => WaitMove::Failed(e),
            },
            WaitEvent::Samples(v) => {
                self.framing.push_samples(&v);
                self.take_hop()
            },
            WaitEvent::Judged(voiced) => match self.judge(voiced) {
                Some(why) => WaitMove::Ended(why),
                None => self.take_hop(),
            },
            WaitEvent::Failed(why) => WaitMove::Failed(why),
        }
    }
}

/// The wait for the start of speech: samples go in as they are captured, hops come out to be
/// judged, and the judgements go back in.
#[derive(Debug)]
pub struct StartWait {
    pub detector: StartDetector,
    pub framing: Framing,
}

/// What is done next for the start of speech.
#[derive(Debug)]
pub enum StartMove {
    /// Read from the capture.
    Read,
    /// Judge this hop.
    Judge(Vec<i16>),
    /// The wait is over: speech has started, or has not.
    Done(bool),
    Failed(String),
}

/// A [`StartMove`] with its samples and texts.
pub enum StartMoveText {
    Read,
    Judge(Seq<i16>),
    Done(bool),
    Failed(Seq<char>),
}

impl View for StartMove {
    type V = StartMoveText;

    open spec fn view(&self) -> StartMoveText {
        match *self {
            StartMove::Read => StartMoveText::Read,
            StartMove::Judge(h) => StartMoveText::Judge(h@),
            StartMove::Done(b) => StartMoveText::Done(b),
            StartMove::Failed(e) => StartMoveText::Failed(e@),
        }
    }
}

/// A wait for the start of speech: how far it is, and the samples that no hop has taken yet.
pub struct StartWaitState {
    pub start: StartState,
    pub hop: nat,
    pub pending: Seq<i16>,
}

impl View for StartWait {
    type V = StartWaitState;

    open spec fn view(&self) -> StartWaitState {
        StartWaitState {
            start: self.detector@,
            hop: self.framing.hop as nat,
            pending: self.framing.pending@,
        }
    }
}

/// Takes a whole hop to be judged, or reads on where there is none.
pub open spec fn with_start_hop_taken(s: StartWaitState) -> (StartWaitState, StartMoveText) {
    if s.hop == 0 || s.pending.len() < s.hop {
        (s, StartMoveText::Read)
    } else {
        (
            StartWaitState { pending: s.pending.skip(s.hop as int), ..s },
            StartMoveText::Judge(s.pending.take(s.hop as int)),
        )
    }
}

/// What an event makes of a wait for the start of speech, and what is done next. A wait that is
/// cancelled or whose capture ends has heard no start.
pub open spec fn after_start_event(s: StartWaitState, e: WaitEvent) -> (
    StartWaitState,
    StartMoveText,
) {
    match e {
        WaitEvent::Cancelled => (s, StartMoveText::Done(false)),
        WaitEvent::End => (s, StartMoveText::Done(false)),
        WaitEvent::Nothing { idle_ms } => if idle_ms < STALL_LIMIT_MS {
            (s, StartMoveText::Read)
        } else {
            (s, StartMoveText::Failed(stall_text()))
        },
        WaitEvent::Samples(v) => with_start_hop_taken(
            StartWaitState { pending: s.pending + v@, ..s },
        ),
        WaitEvent::Judged(voiced) => {
            let (start, outcome) = after_start_hop(s.start, voiced);
            let next = StartWaitState { start, ..s };
            match outcome {
                Some(StartOutcome::Started) => (next, StartMoveText::Done(true)),
                Some(StartOutcome::NoSpeech) => (next, StartMoveText::Done(false)),
                None => with_start_hop_taken(next),
            }
        },
        WaitEvent::Failed(why) => (s, StartMoveText::Failed(why@)),
    }
}

/// A detector for the start of speech before its first hop.
pub open spec fn initial_start(
    hop_size: nat,
    timeout_ms: u64,
    wait_after_start_ms: u64,
    onset_duration_ms: u64,
) -> StartState {
    StartState {
        onset_needed: if onset_duration_ms == 0 {
            1
        } else {
            saturated(hops_covering(onset_duration_ms as nat, hop_size)) as nat
        },
        timeout: saturated(hops_covering(timeout_ms as nat, hop_size)) as nat,
        wait: saturated(hops_covering(wait_after_start_ms as nat, hop_size)) as nat,
        voiced_run: 0,
        elapsed: 0,
        remaining: None,
    }
}

impl StartWait {
    /// A wait for the start of speech, over hops of the default size.
    pub fn new(timeout_ms: u64, wait_after_start_ms: u64, onset_duration_ms: u64) -> (r: Self)
        ensures
            r@.start == initial_start(
                DEFAULT_HOP as nat,
                timeout_ms,
                wait_after_start_ms,
                onset_duration_ms,
            ),
            r@.hop == DEFAULT_HOP,
            r@.pending == Seq::<i16>::empty(),
    {
        StartWait {
            detector: StartDetector::new(
                DEFAULT_HOP,
                timeout_ms,
                wait_after_start_ms,
                onset_duration_ms,
            ),
            framing: Framing::new(DEFAULT_HOP),
        }
    }

    fn take_hop(&mut self) -> (r: StartMove)
        ensures
            (final(self)@, r@) == with_start_hop_taken(old(self)@),
    {
        match self.framing.next_hop() {
            Some(h) => {
                proof {
                    assert(h@ =~= old(self).framing.pending@.take(self.framing.hop as int));
                    assert(self.framing.pending@ =~= old(self).framing.pending@.skip(
                        self.framing.hop as int,
                    ));
                }
                StartMove::Judge(h)
            },
            None => StartMove::Read,
        }
    }

    /// Takes what came; tells what to do next.
    pub fn step(&mut self, event: WaitEvent) -> (r: StartMove)
        ensures
            (final(self)@, r@) == after_start_event(old(self)@, event),
    {
        match event {
            WaitEvent::Cancelled => StartMove::Done(false),
            WaitEvent::End => StartMove::Done(false),
            WaitEvent::Nothing { idle_ms } => match check_stall(idle_ms) {
                Ok(_) => StartMove::Read,
                Err(e) => StartMove::Failed(e),
            },
            WaitEvent::Samples(v) => {
                self.framing.push_samples(&v);
                self.take_hop()
            },
            WaitEvent::Judged(voiced) => match self.detector.push(voiced) {
                Some(StartOutcome::Started) => StartMove::Done(true),
                Some(StartOutcome::NoSpeech) => StartMove::Done(false),
                None => self.take_hop(),
            },
            WaitEvent::Failed(why) => StartMove::Failed(why),
        }
    }
}

/// What an event adds to the samples that a wait has got.
pub open spec fn brought(e: WaitEvent) -> Seq<i16> {
    match e {
        WaitEvent::Samples(v) => v@,
        _ => Seq::empty(),
    }
}

/// What a move takes out of the samples that a wait has got.
pub open spec fn judged(m: MoveText) -> Seq<i16> {
    match m {
        MoveText::Judge(h) => h,
        _ => Seq::empty(),
    }
}

/// No sample is lost, added or put out of order by any event: the hop that is handed out,
/// followed by what is left, is what was left before, followed by what came.
pub proof fn law_no_sample_is_lost(s: WaitState, e: WaitEvent)
    ensures
        judged(after_event(s, e).1) + after_event(s, e).0.pending == s.pending + brought(e),
        after_event(s, e).1 matches MoveText::Judge(h) ==> h.len() == s.hop && s.hop > 0,
{
    assert(s.pending + Seq::<i16>::empty() =~= s.pending);
    let (t, m) = after_event(s, e);
    assert(judged(m) + t.pending =~= s.pending + brought(e));
}

/// A cancelled wait ends at once, and so does one whose capture ended.
pub proof fn law_a_cancelled_wait_ends(s: WaitState, e: WaitEvent)
    requires
        e is Cancelled || e is End,
    ensures
        after_event(s, e).1 == MoveText::Ended(EndReason::EndOfStream),
{
}

/// The same of a wait for the start of speech: the hop that is handed out, followed by what is
/// left, is what was left before, followed by what came.
pub proof fn law_no_sample_is_lost_before_the_start(s: StartWaitState, e: WaitEvent)
    ensures
        ({
            let (t, m) = after_start_event(s, e);
            let hop = match m {
                StartMoveText::Judge(h) => h,
                _ => Seq::empty(),
            };
            &&& hop + t.pending == s.pending + brought(e)
            &&& m is Judge ==> hop.len() == s.hop && s.hop > 0
            &&& m is Read && s.hop > 0 && !(e is Nothing) ==> t.pending.len() < s.hop
        }),
{
    let (t, m) = after_start_event(s, e);
    let hop = match m {
        StartMoveText::Judge(h) => h,
        _ => Seq::empty(),
    };
    assert(hop + t.pending =~= s.pending + brought(e));
}

/// A wait that holds a whole hop hands it out before it reads on.
pub proof fn law_a_whole_hop_is_handed_out(s: WaitState, e: WaitEvent)
    requires
        s.hop > 0,
        e is Samples || e is Judged,
        after_event(s, e).1 is Read,
    ensures
        s.pending.len() + brought(e).len() < s.hop,
{
}

/// A capture that has delivered nothing for three seconds fails a wait, and one that has not yet is
/// read again; what failed fails it with its own words.
pub proof fn law_a_stalled_capture_fails_the_wait(
    s: WaitState,
    t: StartWaitState,
    idle_ms: u64,
    why: String,
)
    ensures
        idle_ms < 3000 ==> after_event(s, WaitEvent::Nothing { idle_ms }) == (s, MoveText::Read),
        idle_ms >= 3000 ==> after_event(s, WaitEvent::Nothing { idle_ms }).1 == MoveText::Failed(
            stall_text(),
        ),
        idle_ms < 3000 ==> after_start_event(t, WaitEvent::Nothing { idle_ms }) == (
            t,
            StartMoveText::Read,
        ),
        idle_ms >= 3000 ==> after_start_event(t, WaitEvent::Nothing { idle_ms }).1
            == StartMoveText::Failed(stall_text()),
        after_event(s, WaitEvent::Failed(why)).1 == MoveText::Failed(why@),
        after_start_event(t, WaitEvent::Failed(why)).1 == StartMoveText::Failed(why@),
{
}

} // verus!
