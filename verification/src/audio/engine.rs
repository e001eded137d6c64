//! The audio engine: which commands play and capture, when a capture counts as dead, and how a
//! speaking turn is waited for.

use vstd::prelude::*;

use super::backend::{AudioError, CaptureSource, ReadEvent};
#[allow(unused_imports)]
use super::backend::read_event;
use super::tool_detect::{self, AudioParams, CaptureCommand, Os, PlaybackCommand};
#[allow(unused_imports)]
use super::tool_detect::{
    capture_tools, filled, is_capture_choice, is_piped, is_playback_choice, looked_for, playback_tools,
};
use super::vad::{
    EndReason, MoveText, SpeechWait, StartMove, StartMoveText, StartWait, StartWaitState,
    TurnConfig, WaitEvent, WaitMove, WaitState,
};
#[allow(unused_imports)]
use super::vad::{
    after_event, after_hops, after_start_event, after_start_hops, brought, initial_start,
    initial_state, judged, start_told, told_of, StartOutcome, TurnEvent, DEFAULT_HOP,
};
use crate::config::AudioConfig;
use crate::search::Search;
#[allow(unused_imports)]
use crate::search::{added, hits};
use crate::text;
#[allow(unused_imports)]
use crate::text::views;

verus! {

/// Milliseconds within which a capture must yield its first frame.
pub const FIRST_FRAME_MS: u64 = 3_000;

/// Milliseconds between two looks for the first frame.
pub const FIRST_FRAME_POLL_MS: u64 = 50;

/// What is said of a command that cannot play files.
pub const PIPED_PLAYBACK: &'static str = "configured playback_cmd reads stdin; use a {file} template for audio.play";

/// What is said of a capture that yields nothing.
pub const NO_AUDIO: &'static str = "capture produced no audio (3s) — the capture device delivered no frames: check the sound card is connected and `audio.capture_device` matches its EXACT name (the daemon log has the capture tool's error output)";

/// Owns the audio settings, and finds the tools.
pub struct AudioEngine {
    pub cfg: AudioConfig,
}

impl AudioEngine {
    /// An engine with some settings.
    pub fn new(cfg: AudioConfig) -> (r: Self)
        ensures
            r.cfg == cfg,
    {
        AudioEngine { cfg }
    }

    /// What the capture command is filled with.
    pub fn capture_params(&self) -> (r: AudioParams)
        ensures
            r == (AudioParams {
                rate: self.cfg.sample_rate,
                channels: self.cfg.channels,
                device: self.cfg.capture_device,
            }),
    {
        AudioParams {
            rate: self.cfg.sample_rate,
            channels: self.cfg.channels,
            device: text::copy_opt(&self.cfg.capture_device),
        }
    }

    /// What the playback command is filled with.
    pub fn playback_params(&self) -> (r: AudioParams)
        ensures
            r == (AudioParams {
                rate: self.cfg.sample_rate,
                channels: self.cfg.channels,
                device: self.cfg.playback_device,
            }),
    {
        AudioParams {
            rate: self.cfg.sample_rate,
            channels: self.cfg.channels,
            device: text::copy_opt(&self.cfg.playback_device),
        }
    }

    /// The command that plays a file: as configured, else that of the first tool which is found.
    /// One that reads samples from its input cannot.
    pub fn play_file(&self, os: Os, file: &str, search: &mut Search) -> (r: Result<
        PlaybackCommand,
        String,
    >)
        ensures
            ({
                let p = AudioParams {
                    rate: self.cfg.sample_rate,
                    channels: self.cfg.channels,
                    device: self.cfg.playback_device,
                };
                match self.cfg.playback_cmd {
                    Some(tpl) => {
                        &&& final(search).log() == old(search).log()
                        &&& if is_piped(views(tpl@)) {
                            r matches Err(e) && e@ == PIPED_PLAYBACK@
                        } else {
                            r matches Ok(c) && views(c.argv@) == filled(views(tpl@), p, Some(file@))
                                && !c.via_stdin
                        }
                    },
                    None => {
                        &&& looked_for(old(search).log(), final(search).log(), playback_tools(os))
                        &&& is_playback_choice(
                            os,
                            file@,
                            p,
                            hits(added(old(search).log(), final(search).log())),
                            r,
                        )
                    },
                }
            }),
    {
        let tpl = match &self.cfg.playback_cmd {
            Some(v) => Some(v.as_slice()),
            None => None,
        };
        match tool_detect::resolve_playback_file(os, file, &self.playback_params(), tpl, search) {
            Ok(c) => if c.via_stdin {
                Err(PIPED_PLAYBACK.to_owned())
            } else {
                Ok(c)
            },
            Err(e) => Err(e),
        }
    }

    /// The command that captures: as configured, else that of the first tool which is found.
    pub fn open_capture(&self, os: Os, search: &mut Search) -> (r: Result<CaptureCommand, String>)
        ensures
            ({
                let p = AudioParams {
                    rate: self.cfg.sample_rate,
                    channels: self.cfg.channels,
                    device: self.cfg.capture_device,
                };
                match self.cfg.capture_cmd {
                    Some(tpl) => {
                        &&& r matches Ok(c)
                        &&& views(c.argv@) == filled(views(tpl@), p, None)
                        &&& final(search).log() == old(search).log()
                    },
                    None => {
                        &&& looked_for(old(search).log(), final(search).log(), capture_tools(os))
                        &&& is_capture_choice(
                            os,
                            p,
                            hits(added(old(search).log(), final(search).log())),
                            r,
                        )
                    },
                }
            }),
    {
        let tpl = match &self.cfg.capture_cmd {
            Some(v) => Some(v.as_slice()),
            None => None,
        };
        tool_detect::resolve_capture(os, &self.capture_params(), tpl, search)
    }
}

/// Whether a capture is alive.
#[derive(Debug)]
pub enum FirstFrame {
    Came,
    /// Look again after [`FIRST_FRAME_POLL_MS`].
    NotYet,
    /// Stop, and fail with this text.
    Dead(String),
}

/// Decides whether a capture is alive: a tool opens even where the card is dead or the microphone
/// denied, but then it yields nothing.
pub fn first_frame(rx_len: u64, now: u64, deadline: u64) -> (r: FirstFrame)
    ensures
        if rx_len > 0 {
            r is Came
        } else if now >= deadline {
            r matches FirstFrame::Dead(e) && e@ == NO_AUDIO@
        } else {
            r is NotYet
        },
{
    if rx_len > 0 {
        FirstFrame::Came
    } else if now >= deadline {
        FirstFrame::Dead(NO_AUDIO.to_owned())
    } else {
        FirstFrame::NotYet
    }
}

/// `n` copies of a sample.
pub open spec fn copies(s: i16, n: nat) -> Seq<i16> {
    Seq::new(n, |i: int| s)
}

/// Samples of one channel on several.
pub open spec fn spread(mono: Seq<i16>, channels: nat) -> Seq<i16>
    decreases mono.len(),
{
    if mono.len() == 0 {
        Seq::empty()
    } else {
        spread(mono.drop_last(), channels) + copies(mono.last(), channels)
    }
}

/// Puts samples of one channel on each channel of the tx leg, which has the capture's shape so
/// that both legs share one clock.
pub fn spread_over(mono: &[i16], channels: u16) -> (r: Vec<i16>)
    ensures
        r@ == spread(mono@, super::record::lanes(channels)),
{
    let ch: usize = if channels == 0 {
        1
    } else {
        channels as usize
    };
    let mut out: Vec<i16> = Vec::new();
    let mut i: usize = 0;
    proof {
        assert(out@ =~= spread(mono@.take(0), ch as nat));
    }
    while i < mono.len()
        invariant
            i <= mono.len(),
            out@ == spread(mono@.take(i as int), ch as nat),
        decreases mono.len() - i,
    {
        let s: i16 = mono[i];
        let ghost had = out@;
        let mut k: usize = 0;
        proof {
            assert(had + copies(s, 0) =~= had);
        }
        while k < ch
            invariant
                k <= ch,
                out@ == had + copies(s, k as nat),
            decreases ch - k,
        {
            out.push(s);
            k += 1;
            proof {
                assert(out@ =~= had + copies(s, k as nat));
            }
        }
        proof {
            assert(mono@.take(i + 1).drop_last() =~= mono@.take(i as int));
            assert(mono@.take(i + 1).last() == s);
        }
        i += 1;
    }
    proof {
        assert(mono@.take(i as int) =~= mono@);
    }
    out
}

/// Spreading over channels makes as many frames as there were samples.
pub proof fn law_spreading_keeps_the_duration(mono: Seq<i16>, channels: nat)
    ensures
        spread(mono, channels).len() == mono.len() * channels,
    decreases mono.len(),
{
    if mono.len() > 0 {
        law_spreading_keeps_the_duration(mono.drop_last(), channels);
        let n = mono.len() as int;
        let c = channels as int;
        assert((n - 1) * c + c == n * c) by (nonlinear_arith);
    } else {
        assert(0 * channels == 0) by (nonlinear_arith);
    }
}

// ---------------------------------------------------------------------------
// Waiting for a turn to end
// ---------------------------------------------------------------------------

/// Samples that a wait has room for in one read.
pub const WAIT_ROOM: usize = 4096;

/// What a wait needs besides the capture. Nothing is assumed of what it does.
pub trait RawEar {
    /// Whether the job was cancelled.
    fn cancelled(&mut self) -> bool;

    /// Takes captured samples to 16 kHz.
    fn resample(&mut self, samples: &[i16]) -> Vec<i16>;

    /// Milliseconds since samples were taken last, or since the wait began.
    fn idle_ms(&mut self) -> u64;

    /// Whether a hop is voiced.
    fn voiced(&mut self, hop: &Vec<i16>) -> Result<bool, String>;
}

/// What was asked of a [`RawEar`], and what it said.
pub enum EarEvent {
    Cancelled(bool),
    Resampled { raw: Seq<i16>, samples: Seq<i16> },
    Idle(u64),
    Voiced { hop: Seq<i16>, said: Result<bool, String> },
}

/// A [`RawEar`] with everything that was asked of it.
pub struct Ear<R: RawEar> {
    pub device: R,
    pub log: Ghost<Seq<EarEvent>>,
}

/// One step of a wait: what came, and the captured samples that it came of.
pub struct Link {
    pub event: WaitEvent,
    pub raw: Seq<i16>,
}

/// Whether a step answers a move: a read brings samples, none, an end, a failure, or is not made
/// because the job was cancelled; a hop is judged, or cannot be.
pub open spec fn answers(m: MoveText, l: Link) -> bool {
    match (m, l.event) {
        (MoveText::Read, WaitEvent::Samples(_)) => l.raw.len() > 0,
        (MoveText::Read, WaitEvent::Judged(_)) => false,
        (MoveText::Read, _) => true,
        (MoveText::Judge(_), WaitEvent::Judged(_)) => true,
        (MoveText::Judge(_), WaitEvent::Failed(_)) => true,
        _ => false,
    }
}

/// The reads of a capture in one step.
pub open spec fn reads_for(m: MoveText, l: Link) -> Seq<ReadEvent> {
    match (m, l.event) {
        (MoveText::Read, WaitEvent::Samples(_)) => seq![waiting_read(Ok(l.raw))],
        (MoveText::Read, WaitEvent::Nothing { .. }) => seq![
            waiting_read(Err(AudioError::WouldBlock)),
        ],
        (MoveText::Read, WaitEvent::End) => seq![waiting_read(Ok(Seq::empty()))],
        (MoveText::Read, WaitEvent::Failed(e)) => seq![waiting_read(Err(AudioError::Failed(e)))],
        _ => Seq::empty(),
    }
}

/// A read of a wait.
pub open spec fn waiting_read(got: Result<Seq<i16>, AudioError>) -> ReadEvent {
    ReadEvent { room: WAIT_ROOM as nat, got }
}

/// What is asked of the [`RawEar`] in one step. Whether the job was cancelled is asked before every
/// read.
pub open spec fn asked_for(m: MoveText, l: Link) -> Seq<EarEvent> {
    match (m, l.event) {
        (MoveText::Read, WaitEvent::Cancelled) => seq![EarEvent::Cancelled(true)],
        (MoveText::Read, WaitEvent::Samples(v)) => seq![
            EarEvent::Cancelled(false),
            EarEvent::Resampled { raw: l.raw, samples: v@ },
        ],
        (MoveText::Read, WaitEvent::Nothing { idle_ms }) => seq![
            EarEvent::Cancelled(false),
            EarEvent::Idle(idle_ms),
        ],
        (MoveText::Read, _) => seq![EarEvent::Cancelled(false)],
        (MoveText::Judge(hop), WaitEvent::Judged(b)) => seq![EarEvent::Voiced { hop, said: Ok(b) }],
        (MoveText::Judge(hop), WaitEvent::Failed(e)) => seq![EarEvent::Voiced { hop, said: Err(e) }],
        _ => Seq::empty(),
    }
}

/// A wait after some steps, and what is done next. It starts with a read.
pub open spec fn course(s: WaitState, links: Seq<Link>) -> (WaitState, MoveText)
    decreases links.len(),
{
    if links.len() == 0 {
        (s, MoveText::Read)
    } else {
        after_event(course(s, links.drop_last()).0, links.last().event)
    }
}

/// Whether each step answers the move before it.
pub open spec fn is_course(s: WaitState, links: Seq<Link>) -> bool
    decreases links.len(),
{
    links.len() == 0 || {
        &&& is_course(s, links.drop_last())
        &&& answers(course(s, links.drop_last()).1, links.last())
    }
}

/// The reads of a capture over some steps.
pub open spec fn reads_in(s: WaitState, links: Seq<Link>) -> Seq<ReadEvent>
    decreases links.len(),
{
    if links.len() == 0 {
        Seq::empty()
    } else {
        reads_in(s, links.drop_last()) + reads_for(course(s, links.drop_last()).1, links.last())
    }
}

/// What is asked of the [`RawEar`] over some steps.
pub open spec fn asked_in(s: WaitState, links: Seq<Link>) -> Seq<EarEvent>
    decreases links.len(),
{
    if links.len() == 0 {
        Seq::empty()
    } else {
        asked_in(s, links.drop_last()) + asked_for(course(s, links.drop_last()).1, links.last())
    }
}

/// A wait that has not begun.
pub open spec fn before_waiting(turn: TurnConfig) -> WaitState {
    WaitState { turn: initial_state(turn), hop: turn.hop_size as nat, pending: Seq::empty() }
}

/// Whether a wait that is at `m` after `n` steps ends with `r`.
pub open spec fn concludes(m: MoveText, n: nat, r: Result<EndReason, String>) -> bool {
    match m {
        MoveText::Ended(why) => r == Ok::<EndReason, String>(why),
        MoveText::Failed(e) => r matches Err(t) && t@ == e,
        _ => n == u64::MAX && (r matches Err(t) && t@ == "the turn never ended"@),
    }
}

impl<R: RawEar> Ear<R> {
    /// Nothing was asked yet.
    pub fn new(device: R) -> (r: Self)
        ensures
            r.device == device,
            r.log@ == Seq::<EarEvent>::empty(),
    {
        Ear { device, log: Ghost(Seq::empty()) }
    }

    fn listen<C: CaptureSource>(&mut self, src: &mut C, buf: &mut Vec<i16>) -> (r: (
        WaitEvent,
        Ghost<Seq<i16>>,
    ))
        requires
            old(buf)@.len() == WAIT_ROOM,
        ensures
            final(buf)@.len() == WAIT_ROOM,
            ({
                let l = Link { event: r.0, raw: r.1@ };
                &&& answers(MoveText::Read, l)
                &&& final(src).reads() == old(src).reads() + reads_for(MoveText::Read, l)
                &&& final(self).log@ == old(self).log@ + asked_for(MoveText::Read, l)
            }),
    {
        let ghost none = Seq::<i16>::empty();
        let ghost log = self.log@;
        if self.device.cancelled() {
            self.log = Ghost(log + seq![EarEvent::Cancelled(true)]);
            proof {
                assert(src.reads() =~= old(src).reads() + Seq::<ReadEvent>::empty());
            }
            return (WaitEvent::Cancelled, Ghost(none));
        }
        let read = src.read(buf.as_mut_slice());
        proof {
            assert(src.reads() =~= old(src).reads() + seq![read_event(buf@, read)]);
        }
        match read {
            Ok(n) => {
                let ghost raw = buf@.take(n as int);
                if n == 0 {
                    proof {
                        assert(raw =~= none);
                    }
                    self.log = Ghost(log + seq![EarEvent::Cancelled(false)]);
                    return (WaitEvent::End, Ghost(none));
                }
                let part = vstd::slice::slice_subrange(buf.as_slice(), 0, n);
                proof {
                    assert(part@ =~= raw);
                }
                let samples = self.device.resample(part);
                self.log = Ghost(
                    log + seq![
                        EarEvent::Cancelled(false),
                        EarEvent::Resampled { raw, samples: samples@ },
                    ],
                );
                (WaitEvent::Samples(samples), Ghost(raw))
            },
            Err(AudioError::WouldBlock) => {
                let idle_ms: u64 = self.device.idle_ms();
                self.log = Ghost(log + seq![EarEvent::Cancelled(false), EarEvent::Idle(idle_ms)]);
                (WaitEvent::Nothing { idle_ms }, Ghost(none))
            },
            Err(AudioError::Failed(e)) => {
                self.log = Ghost(log + seq![EarEvent::Cancelled(false)]);
                (WaitEvent::Failed(e), Ghost(none))
            },
        }
    }

    fn judge(&mut self, hop: &Vec<i16>) -> (r: WaitEvent)
        ensures
            ({
                let l = Link { event: r, raw: Seq::empty() };
                &&& answers(MoveText::Judge(hop@), l)
                &&& final(self).log@ == old(self).log@ + asked_for(MoveText::Judge(hop@), l)
            }),
    {
        let said = self.device.voiced(hop);
        self.log = Ghost(self.log@ + seq![EarEvent::Voiced { hop: hop@, said }]);
        match said {
            Ok(b) => WaitEvent::Judged(b),
            Err(e) => WaitEvent::Failed(e),
        }
    }
}

/// Waits until a speaking turn ends: reads the capture, takes it to 16 kHz, cuts it into hops and
/// has each judged, until the turn is over.
pub fn run_wait_for_speech<C: CaptureSource, R: RawEar>(
    src: &mut C,
    turn: &TurnConfig,
    ear: &mut Ear<R>,
) -> (r: Result<EndReason, String>)
    ensures
        exists|links: Seq<Link>|
            {
                &&& #[trigger] is_course(before_waiting(*turn), links)
                &&& final(src).reads() == old(src).reads() + reads_in(before_waiting(*turn), links)
                &&& final(ear).log@ == old(ear).log@ + asked_in(before_waiting(*turn), links)
                &&& concludes(course(before_waiting(*turn), links).1, links.len(), r)
            },
{
    let mut wait = SpeechWait::new(turn);
    let mut buf: Vec<i16> = Vec::new();
    buf.resize(WAIT_ROOM, 0);
    let mut next = WaitMove::Read;
    let mut left: u64 = u64::MAX;
    let ghost s = before_waiting(*turn);
    let ghost mut links: Seq<Link> = Seq::empty();
    proof {
        assert(wait@.pending =~= s.pending);
        assert(src.reads() =~= old(src).reads() + reads_in(s, links));
        assert(ear.log@ =~= old(ear).log@ + asked_in(s, links));
    }
    while left > 0
        invariant
            s == before_waiting(*turn),
            is_course(s, links),
            src.reads() == old(src).reads() + reads_in(s, links),
            ear.log@ == old(ear).log@ + asked_in(s, links),
            (wait@, next@) == course(s, links),
            links.len() + left == u64::MAX,
            buf@.len() == WAIT_ROOM,
        decreases left,
    {
        let ghost m = next@;
        let ghost reads = src.reads();
        let ghost log = ear.log@;
        let (event, raw): (WaitEvent, Ghost<Seq<i16>>) = match next {
            WaitMove::Ended(why) => {
                return Ok(why);
            },
            WaitMove::Failed(e) => {
                return Err(e);
            },
            WaitMove::Read => ear.listen(src, &mut buf),
            WaitMove::Judge(hop) => {
                let event = ear.judge(&hop);
                proof {
                    assert(reads + Seq::<ReadEvent>::empty() =~= reads);
                }
                (event, Ghost(Seq::empty()))
            },
        };
        let ghost l = Link { event, raw: raw@ };
        next = wait.step(event);
        proof {
            let more = links.push(l);
            assert(more.drop_last() =~= links);
            assert(src.reads() =~= old(src).reads() + reads_in(s, more));
            assert(ear.log@ =~= old(ear).log@ + asked_in(s, more));
            links = more;
        }
        left = left - 1;
    }
    match next {
        WaitMove::Ended(why) => Ok(why),
        WaitMove::Failed(e) => Err(e),
        _ => Err("the turn never ended".to_owned()),
    }
}

// ---------------------------------------------------------------------------
// Waiting for the start of speech
// ---------------------------------------------------------------------------

/// What a move of a wait for the start of speech asks for: what the same move of a wait for a turn
/// does. A wait that is over asks for nothing.
pub open spec fn asks(m: StartMoveText) -> MoveText {
    match m {
        StartMoveText::Read => MoveText::Read,
        StartMoveText::Judge(hop) => MoveText::Judge(hop),
        StartMoveText::Done(_) => MoveText::Failed(Seq::empty()),
        StartMoveText::Failed(e) => MoveText::Failed(e),
    }
}

/// A wait for the start of speech after some steps, and what is done next. It starts with a read.
pub open spec fn start_course(s: StartWaitState, links: Seq<Link>) -> (
    StartWaitState,
    StartMoveText,
)
    decreases links.len(),
{
    if links.len() == 0 {
        (s, StartMoveText::Read)
    } else {
        after_start_event(start_course(s, links.drop_last()).0, links.last().event)
    }
}

/// Whether each step answers the move before it.
pub open spec fn is_start_course(s: StartWaitState, links: Seq<Link>) -> bool
    decreases links.len(),
{
    links.len() == 0 || {
        &&& is_start_course(s, links.drop_last())
        &&& answers(asks(start_course(s, links.drop_last()).1), links.last())
    }
}

/// The reads of a capture over some steps.
pub open spec fn start_reads_in(s: StartWaitState, links: Seq<Link>) -> Seq<ReadEvent>
    decreases links.len(),
{
    if links.len() == 0 {
        Seq::empty()
    } else {
        start_reads_in(s, links.drop_last()) + reads_for(
            asks(start_course(s, links.drop_last()).1),
            links.last(),
        )
    }
}

/// What is asked of the [`RawEar`] over some steps.
pub open spec fn start_asked_in(s: StartWaitState, links: Seq<Link>) -> Seq<EarEvent>
    decreases links.len(),
{
    if links.len() == 0 {
        Seq::empty()
    } else {
        start_asked_in(s, links.drop_last()) + asked_for(
            asks(start_course(s, links.drop_last()).1),
            links.last(),
        )
    }
}

/// A wait for the start of speech that has not begun.
pub open spec fn before_starting(
    timeout_ms: u64,
    wait_after_start_ms: u64,
    onset_duration_ms: u64,
) -> StartWaitState {
    StartWaitState {
        start: initial_start(
            DEFAULT_HOP as nat,
            timeout_ms,
            wait_after_start_ms,
            onset_duration_ms,
        ),
        hop: DEFAULT_HOP as nat,
        pending: Seq::empty(),
    }
}

/// Whether a wait for the start of speech that is at `m` after `n` steps ends with `r`.
pub open spec fn start_concludes(m: StartMoveText, n: nat, r: Result<bool, String>) -> bool {
    match m {
        StartMoveText::Done(started) => r == Ok::<bool, String>(started),
        StartMoveText::Failed(e) => r matches Err(t) && t@ == e,
        _ => n == u64::MAX && (r matches Err(t) && t@ == "the turn never started"@),
    }
}

/// Waits until the speaker starts, and a while longer: reads the capture, takes it to 16 kHz, cuts
/// it into hops and has each judged. Tells whether they did; a wait that is cancelled, or whose
/// capture ends, has heard no start.
pub fn run_wait_for_speech_start<C: CaptureSource, R: RawEar>(
    src: &mut C,
    timeout_ms: u64,
    wait_after_start_ms: u64,
    onset_duration_ms: u64,
    ear: &mut Ear<R>,
) -> (r: Result<bool, String>)
    ensures
        ({
            let s = before_starting(timeout_ms, wait_after_start_ms, onset_duration_ms);
            exists|links: Seq<Link>|
                {
                    &&& #[trigger] is_start_course(s, links)
                    &&& final(src).reads() == old(src).reads() + start_reads_in(s, links)
                    &&& final(ear).log@ == old(ear).log@ + start_asked_in(s, links)
                    &&& start_concludes(start_course(s, links).1, links.len(), r)
                }
        }),
{
    let mut wait = StartWait::new(timeout_ms, wait_after_start_ms, onset_duration_ms);
    let mut buf: Vec<i16> = Vec::new();
    buf.resize(WAIT_ROOM, 0);
    let mut next = StartMove::Read;
    let mut left: u64 = u64::MAX;
    let ghost s = before_starting(timeout_ms, wait_after_start_ms, onset_duration_ms);
    let ghost mut links: Seq<Link> = Seq::empty();
    proof {
        assert(src.reads() =~= old(src).reads() + start_reads_in(s, links));
        assert(ear.log@ =~= old(ear).log@ + start_asked_in(s, links));
    }
    while left > 0
        invariant
            s == before_starting(timeout_ms, wait_after_start_ms, onset_duration_ms),
            is_start_course(s, links),
            src.reads() == old(src).reads() + start_reads_in(s, links),
            ear.log@ == old(ear).log@ + start_asked_in(s, links),
            (wait@, next@) == start_course(s, links),
            links.len() + left == u64::MAX,
            buf@.len() == WAIT_ROOM,
        decreases left,
    {
        let ghost reads = src.reads();
        let (event, raw): (WaitEvent, Ghost<Seq<i16>>) = match next {
            StartMove::Done(started) => {
                return Ok(started);
            },
            StartMove::Failed(e) => {
                return Err(e);
            },
            StartMove::Read => ear.listen(src, &mut buf),
            StartMove::Judge(hop) => {
                let event = ear.judge(&hop);
                proof {
                    assert(reads + Seq::<ReadEvent>::empty() =~= reads);
                }
                (event, Ghost(Seq::empty()))
            },
        };
        let ghost l = Link { event, raw: raw@ };
        next = wait.step(event);
        proof {
            let more = links.push(l);
            assert(more.drop_last() =~= links);
            assert(src.reads() =~= old(src).reads() + start_reads_in(s, more));
            assert(ear.log@ =~= old(ear).log@ + start_asked_in(s, more));
            links = more;
        }
        left = left - 1;
    }
    match next {
        StartMove::Done(started) => Ok(started),
        StartMove::Failed(e) => Err(e),
        _ => Err("the turn never started".to_owned()),
    }
}

/// All samples at 16 kHz that some steps brought.
pub open spec fn heard_in(links: Seq<Link>) -> Seq<i16>
    decreases links.len(),
{
    if links.len() == 0 {
        Seq::empty()
    } else {
        heard_in(links.drop_last()) + brought(links.last().event)
    }
}

/// All hops that are handed out over some steps.
pub open spec fn hops_in(s: WaitState, links: Seq<Link>) -> Seq<i16>
    decreases links.len(),
{
    if links.len() == 0 {
        Seq::empty()
    } else {
        hops_in(s, links.drop_last()) + judged(course(s, links).1)
    }
}

/// Over a whole wait no sample is skipped, judged twice or put out of order: the hops that are
/// handed out, followed by what is left, are what was heard.
pub proof fn law_a_wait_judges_what_it_hears(turn: TurnConfig, links: Seq<Link>)
    ensures
        ({
            let s = before_waiting(turn);
            hops_in(s, links) + course(s, links).0.pending == heard_in(links)
        }),
    decreases links.len(),
{
    let s = before_waiting(turn);
    if links.len() == 0 {
        assert(hops_in(s, links) + course(s, links).0.pending =~= heard_in(links));
    } else {
        let init = links.drop_last();
        law_a_wait_judges_what_it_hears(turn, init);
        let was = course(s, init).0;
        let e = links.last().event;
        super::vad::law_no_sample_is_lost(was, e);
        let now = course(s, links).0;
        let hop = judged(course(s, links).1);
        assert(hops_in(s, init) + hop + now.pending =~= hops_in(s, init) + (hop + now.pending));
        assert(hops_in(s, init) + (was.pending + brought(e)) =~= hops_in(s, init) + was.pending
            + brought(e));
    }
}

/// What was said of the hops that some steps judged, in order.
pub open spec fn verdicts_in(links: Seq<Link>) -> Seq<bool>
    decreases links.len(),
{
    if links.len() == 0 {
        Seq::empty()
    } else {
        match links.last().event {
            WaitEvent::Judged(b) => verdicts_in(links.drop_last()).push(b),
            _ => verdicts_in(links.drop_last()),
        }
    }
}

proof fn lemma_course_follows(turn: TurnConfig, links: Seq<Link>)
    requires
        is_course(before_waiting(turn), links),
        course(before_waiting(turn), links).1 is Read || course(before_waiting(turn), links).1 is Judge,
    ensures
        course(before_waiting(turn), links).0.turn == after_hops(
            initial_state(turn),
            verdicts_in(links),
        ),
        course(before_waiting(turn), links).0.hop == turn.hop_size,
    decreases links.len(),
{
    if links.len() > 0 {
        let init = links.drop_last();
        lemma_course_follows(turn, init);
        let v = verdicts_in(links);
        if links.last().event is Judged {
            assert(v.drop_last() =~= verdicts_in(init));
        }
    }
}

/// A wait for a turn ends with the turn, for the turn's own reason: as its verdicts tell, or because
/// nothing more will come once the job is cancelled or the capture ends. A capture that has been
/// silent for three seconds fails it, as does one that failed; otherwise it goes on.
pub proof fn law_a_wait_ends_with_its_turn(turn: TurnConfig, links: Seq<Link>)
    requires
        links.len() > 0,
        is_course(before_waiting(turn), links),
    ensures
        ({
            let m = course(before_waiting(turn), links).1;
            match links.last().event {
                WaitEvent::Judged(b) => match told_of(turn, verdicts_in(links)) {
                    Some(TurnEvent::Ended(why)) => m == MoveText::Ended(why),
                    _ => m is Read || m is Judge,
                },
                WaitEvent::Cancelled => m == MoveText::Ended(EndReason::EndOfStream),
                WaitEvent::End => m == MoveText::Ended(EndReason::EndOfStream),
                WaitEvent::Nothing { idle_ms } => if idle_ms < 3000 {
                    m is Read
                } else {
                    m is Failed
                },
                WaitEvent::Samples(_) => m is Read || m is Judge,
                WaitEvent::Failed(e) => m == MoveText::Failed(e@),
            }
        }),
{
    let init = links.drop_last();
    if links.last().event is Judged {
        lemma_course_follows(turn, init);
        assert(verdicts_in(links).drop_last() =~= verdicts_in(init));
    }
}

proof fn lemma_start_course_follows(
    timeout_ms: u64,
    wait_after_start_ms: u64,
    onset_duration_ms: u64,
    links: Seq<Link>,
)
    requires
        is_start_course(
            before_starting(timeout_ms, wait_after_start_ms, onset_duration_ms),
            links,
        ),
        ({
            let s = before_starting(timeout_ms, wait_after_start_ms, onset_duration_ms);
            start_course(s, links).1 is Read || start_course(s, links).1 is Judge
        }),
    ensures
        ({
            let s = before_starting(timeout_ms, wait_after_start_ms, onset_duration_ms);
            &&& start_course(s, links).0.start == after_start_hops(
                initial_start(256, timeout_ms, wait_after_start_ms, onset_duration_ms),
                verdicts_in(links),
            )
            &&& start_course(s, links).0.hop == 256
        }),
    decreases links.len(),
{
    if links.len() > 0 {
        let init = links.drop_last();
        lemma_start_course_follows(timeout_ms, wait_after_start_ms, onset_duration_ms, init);
        let v = verdicts_in(links);
        if links.last().event is Judged {
            assert(v.drop_last() =~= verdicts_in(init));
        }
    }
}

/// A wait for the start of speech is over when its verdicts tell that speech has started, or that
/// the timeout has passed without; a cancelled job and an ended capture have heard no start. A
/// capture that has been silent for three seconds fails it, as does one that failed.
pub proof fn law_a_start_wait_ends_as_it_is_told(
    timeout_ms: u64,
    wait_after_start_ms: u64,
    onset_duration_ms: u64,
    links: Seq<Link>,
)
    requires
        links.len() > 0,
        is_start_course(
            before_starting(timeout_ms, wait_after_start_ms, onset_duration_ms),
            links,
        ),
    ensures
        ({
            let s = before_starting(timeout_ms, wait_after_start_ms, onset_duration_ms);
            let m = start_course(s, links).1;
            match links.last().event {
                WaitEvent::Judged(b) => match start_told(
                    initial_start(256, timeout_ms, wait_after_start_ms, onset_duration_ms),
                    verdicts_in(links),
                ) {
                    Some(StartOutcome::Started) => m == StartMoveText::Done(true),
                    Some(StartOutcome::NoSpeech) => m == StartMoveText::Done(false),
                    None => m is Read || m is Judge,
                },
                WaitEvent::Cancelled => m == StartMoveText::Done(false),
                WaitEvent::End => m == StartMoveText::Done(false),
                WaitEvent::Nothing { idle_ms } => if idle_ms < 3000 {
                    m is Read
                } else {
                    m is Failed
                },
                WaitEvent::Samples(_) => m is Read || m is Judge,
                WaitEvent::Failed(e) => m == StartMoveText::Failed(e@),
            }
        }),
{
    let init = links.drop_last();
    if links.last().event is Judged {
        lemma_start_course_follows(timeout_ms, wait_after_start_ms, onset_duration_ms, init);
        assert(verdicts_in(links).drop_last() =~= verdicts_in(init));
    }
}

/// What a finished wait returns is what it ended with.
pub proof fn law_a_wait_returns_its_end(
    m: MoveText,
    n: nat,
    r: Result<EndReason, String>,
    sm: StartMoveText,
    sr: Result<bool, String>,
)
    requires
        concludes(m, n, r),
        start_concludes(sm, n, sr),
    ensures
        m matches MoveText::Ended(why) ==> r == Ok::<EndReason, String>(why),
        m is Failed ==> r is Err && r->Err_0@ == m->Failed_0,
        r is Ok ==> m is Ended,
        sm matches StartMoveText::Done(b) ==> sr == Ok::<bool, String>(b),
        sm is Failed ==> sr is Err && sr->Err_0@ == sm->Failed_0,
        sr is Ok ==> sm is Done,
{
}

/// Before every read it is asked whether the job was cancelled, and a cancelled job is read no
/// further. What a read delivered is taken to 16 kHz whole, and what comes of that is what the
/// wait hears.
pub proof fn law_a_read_asks_for_cancellation_first(l: Link)
    requires
        answers(MoveText::Read, l),
    ensures
        asked_for(MoveText::Read, l).len() > 0,
        asked_for(MoveText::Read, l)[0] == EarEvent::Cancelled(l.event is Cancelled),
        reads_for(MoveText::Read, l).len() == if l.event is Cancelled {
            0int
        } else {
            1
        },
        l.event matches WaitEvent::Samples(v) ==> {
            &&& l.raw.len() > 0
            &&& reads_for(MoveText::Read, l)[0].got == Ok::<Seq<i16>, AudioError>(l.raw)
            &&& asked_for(MoveText::Read, l)[1] == EarEvent::Resampled { raw: l.raw, samples: v@ }
        },
        l.event is End ==> reads_for(MoveText::Read, l)[0].got == Ok::<Seq<i16>, AudioError>(
            Seq::empty(),
        ),
        l.event is Nothing ==> reads_for(MoveText::Read, l)[0].got == Err::<Seq<i16>, AudioError>(
            AudioError::WouldBlock,
        ),
{
}

/// A hop that is handed out is judged once, as it is, and nothing is read meanwhile.
pub proof fn law_a_hop_is_judged_as_it_is(hop: Seq<i16>, l: Link)
    requires
        answers(MoveText::Judge(hop), l),
    ensures
        reads_for(MoveText::Judge(hop), l).len() == 0,
        asked_for(MoveText::Judge(hop), l).len() == 1,
        asked_for(MoveText::Judge(hop), l)[0] matches EarEvent::Voiced { hop: h, said } && h == hop
            && match l.event {
            WaitEvent::Judged(b) => said == Ok::<bool, String>(b),
            WaitEvent::Failed(e) => said == Err::<bool, String>(e),
            _ => false,
        },
{
}

/// Each sample of one channel stands on every channel of its frame.
pub proof fn law_every_channel_gets_the_sample(mono: Seq<i16>, channels: nat, i: int, c: int)
    requires
        0 <= i < mono.len(),
        0 <= c < channels,
    ensures
        0 <= i * channels + c < spread(mono, channels).len(),
        spread(mono, channels)[i * channels + c] == mono[i],
    decreases mono.len(),
{
    law_spreading_keeps_the_duration(mono, channels);
    law_spreading_keeps_the_duration(mono.drop_last(), channels);
    let n = mono.len() as int;
    let k = channels as int;
    assert(0 <= i * k + c < n * k) by (nonlinear_arith)
        requires
            0 <= i < n,
            0 <= c < k,
    ;
    if i < n - 1 {
        law_every_channel_gets_the_sample(mono.drop_last(), channels, i, c);
    } else {
        assert(spread(mono, channels)[i * channels + c] == copies(mono.last(), channels)[c]);
    }
}

/// A wait that is at no end after all its steps fails, and says so.
pub proof fn law_an_endless_wait_fails(
    m: MoveText,
    n: nat,
    r: Result<EndReason, String>,
    sm: StartMoveText,
    sr: Result<bool, String>,
)
    requires
        concludes(m, n, r),
        start_concludes(sm, n, sr),
        m is Read || m is Judge,
        sm is Read || sm is Judge,
    ensures
        n == u64::MAX,
        r is Err && r->Err_0@ == "the turn never ended"@,
        sr is Err && sr->Err_0@ == "the turn never started"@,
{
}

} // verus!
