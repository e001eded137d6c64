//! Call recording on a single clock.
//!
//! rx is what was captured, and tx what we injected. rx is recorded without a break, and its frame
//! count is the clock: tx is written at its true offset on the same timeline, with silence
//! elsewhere. At the end both legs are padded to one length, so that they and their mix are
//! aligned frame by frame.

use vstd::prelude::*;

use super::backend::{take_every, AudioError, CaptureSource, PlaybackSink, ReadEvent};
#[allow(unused_imports)]
use super::backend::{every, read_event};
use super::frames::{FrameChannel, FrameEvent};
#[allow(unused_imports)]
use super::frames::FrameText;
use super::vad::VAD_SAMPLE_RATE;
use crate::config::join_name;
#[allow(unused_imports)]
use crate::config::inside;
use crate::text;
#[allow(unused_imports)]
use crate::text::decimal;

verus! {

/// Sample rate of recordings without a card.
pub const RECORD_RATE: u32 = 16_000;

/// Milliseconds to wait for a frame of the capture before saying that none is there.
pub const VAD_RECV_POLL_MS: u64 = 200;

/// The files of a finished recording.
#[derive(Debug, Clone)]
pub struct RecordOutput {
    pub rx: String,
    pub tx: String,
    pub mix: Option<String>,
}

/// A file of a recording.
#[derive(Debug, Clone, Copy, PartialEq, Eq, Structural)]
pub enum Leg {
    Rx,
    Tx,
    Mix,
}

/// The path of a recording's file.
pub fn leg_path(dir: &str, session: &str, leg: Leg) -> (r: String)
    ensures
        r@ == inside(
            dir@,
            session@ + (match leg {
                Leg::Rx => "-rx.wav"@,
                Leg::Tx => "-tx.wav"@,
                Leg::Mix => "-mix.wav"@,
            }),
        ),
{
    let name = match leg {
        Leg::Rx => text::cat(session, "-rx.wav"),
        Leg::Tx => text::cat(session, "-tx.wav"),
        Leg::Mix => text::cat(session, "-mix.wav"),
    };
    join_name(dir, &name)
}

/// `n` samples of silence.
pub open spec fn silence(n: nat) -> Seq<i16> {
    Seq::new(n, |i: int| 0i16)
}

/// Whether a buffer holds silence only.
pub open spec fn is_silent(s: Seq<i16>) -> bool {
    forall|i: int| 0 <= i < s.len() ==> #[trigger] s[i] == 0
}

/// The samples of a frame: at least one.
pub open spec fn lanes(channels: u16) -> nat {
    if channels == 0 {
        1
    } else {
        channels as nat
    }
}

/// The samples between two frame counts, none where the second one is not larger.
pub open spec fn gap(have: u64, want: u64, channels: u16) -> nat {
    if want <= have {
        0
    } else {
        ((want - have) * lanes(channels)) as nat
    }
}

/// Pads a leg with silence from `have` frames up to `want`. `scratch` is a buffer of silence.
pub fn pad_to<S: PlaybackSink>(
    sink: &mut S,
    channels: u16,
    have: u64,
    want: u64,
    scratch: &mut Vec<i16>,
) -> (r: Result<(), AudioError>)
    requires
        is_silent(old(scratch)@),
        gap(have, want, channels) <= usize::MAX,
    ensures
        is_silent(final(scratch)@),
        match r {
            Ok(_) => {
                &&& final(sink).written() == old(sink).written() + silence(
                    gap(have, want, channels),
                )
                &&& final(sink).refusals() == old(sink).refusals()
            },
            Err(e) => final(sink).refusals() == old(sink).refusals().push(e),
        },
{
    if want <= have {
        proof {
            assert(sink.written() + silence(0) =~= sink.written());
        }
        return Ok(());
    }
    let per_frame: usize = if channels == 0 {
        1
    } else {
        channels as usize
    };
    if scratch.len() == 0 {
        scratch.resize(4096, 0);
    }
    proof {
        let d = (want - have) as int;
        let l = per_frame as int;
        assert(d <= d * l) by (nonlinear_arith)
            requires
                d >= 0,
                l >= 1,
        ;
    }
    let frames: usize = (want - have) as usize;
    let total: usize = frames * per_frame;
    let mut remaining: usize = total;
    let ghost start = sink.written();
    proof {
        assert(start + silence(0) =~= start);
    }
    while remaining > 0
        invariant
            remaining <= total,
            scratch@.len() > 0,
            is_silent(scratch@),
            sink.written() == start + silence((total - remaining) as nat),
            sink.refusals() == old(sink).refusals(),
        decreases remaining,
    {
        let chunk: usize = if remaining < scratch.len() {
            remaining
        } else {
            scratch.len()
        };
        let part = vstd::slice::slice_subrange(scratch.as_slice(), 0, chunk);
        let ghost quiet = part@;
        match sink.write(part) {
            Ok(_) => {},
            Err(e) => {
                return Err(e);
            },
        }
        proof {
            assert(quiet =~= silence(chunk as nat));
            assert(silence((total - remaining) as nat) + silence(chunk as nat) =~= silence(
                (total - remaining + chunk) as nat,
            ));
            assert(start + (silence((total - remaining) as nat) + silence(chunk as nat)) =~= start
                + silence((total - remaining) as nat) + silence(chunk as nat));
        }
        remaining = remaining - chunk;
    }
    Ok(())
}

/// The larger of two frame counts.
pub open spec fn later(a: u64, b: u64) -> u64 {
    if a < b {
        b
    } else {
        a
    }
}

/// Places samples on a leg of `len` frames at frame `offset`, with silence up to it. Where the leg
/// is longer already, they follow what is there.
pub fn place_at<S: PlaybackSink>(
    leg: &mut S,
    channels: u16,
    len: &mut u64,
    offset: u64,
    samples: &[i16],
    scratch: &mut Vec<i16>,
) -> (r: Result<(), AudioError>)
    requires
        is_silent(old(scratch)@),
        gap(*old(len), offset, channels) <= usize::MAX,
        later(*old(len), offset) + samples@.len() <= u64::MAX,
    ensures
        is_silent(final(scratch)@),
        match r {
            Ok(_) => {
                &&& final(leg).written() == old(leg).written() + silence(
                    gap(*old(len), offset, channels),
                ) + samples@
                &&& final(leg).refusals() == old(leg).refusals()
                &&& *final(len) == later(*old(len), offset) + samples@.len() as int / lanes(
                    channels,
                ) as int
            },
            Err(e) => {
                &&& final(leg).refusals() == old(leg).refusals().push(e)
                &&& *final(len) == *old(len) || *final(len) == later(*old(len), offset)
            },
        },
{
    match pad_to(leg, channels, *len, offset, scratch) {
        Ok(_) => {},
        Err(e) => {
            return Err(e);
        },
    }
    if *len < offset {
        *len = offset;
    }
    match leg.write(samples) {
        Ok(_) => {},
        Err(e) => {
            return Err(e);
        },
    }
    let per_frame: usize = if channels == 0 {
        1
    } else {
        channels as usize
    };
    let frames: usize = samples.len() / per_frame;
    proof {
        lemma_frames_of(samples@.len() as int, per_frame as int, *len as int);
    }
    *len = *len + frames as u64;
    Ok(())
}

/// Two legs on one clock.
pub struct DuplexRecorder<S: PlaybackSink> {
    pub rx: S,
    pub tx: S,
    /// Channels of both legs.
    pub channels: u16,
    /// Frames of rx: the clock.
    pub rx_len: u64,
    /// Frames of tx.
    pub tx_len: u64,
    /// A buffer of silence.
    pub scratch: Vec<i16>,
}

impl<S: PlaybackSink> DuplexRecorder<S> {
    /// Whether the buffer of silence is silent.
    pub open spec fn wf(self) -> bool {
        is_silent(self.scratch@)
    }

    /// Whether both legs hold exactly their frames.
    pub open spec fn aligned(self) -> bool {
        &&& self.rx.written().len() == self.rx_len * lanes(self.channels)
        &&& self.tx.written().len() == self.tx_len * lanes(self.channels)
    }

    /// A recorder over two empty legs.
    pub fn new(rx: S, tx: S, channels: u16) -> (r: Self)
        ensures
            r.wf(),
            r.rx == rx,
            r.tx == tx,
            r.channels == channels,
            r.rx_len == 0,
            r.tx_len == 0,
            rx.written().len() == 0 && tx.written().len() == 0 ==> r.aligned(),
    {
        DuplexRecorder { rx, tx, channels, rx_len: 0, tx_len: 0, scratch: Vec::new() }
    }

    fn per_frame(&self) -> (r: usize)
        ensures
            r == lanes(self.channels),
            r > 0,
    {
        if self.channels == 0 {
            1
        } else {
            self.channels as usize
        }
    }

    /// Appends captured samples to rx, and tells the clock after them.
    pub fn push_rx(&mut self, samples: &[i16]) -> (r: Result<u64, AudioError>)
        requires
            old(self).wf(),
            old(self).rx_len + samples@.len() <= u64::MAX,
        ensures
            final(self).wf(),
            final(self).channels == old(self).channels,
            final(self).tx == old(self).tx,
            final(self).tx_len == old(self).tx_len,
            r matches Err(e) ==> {
                &&& final(self).rx.refusals() == old(self).rx.refusals().push(e)
                &&& final(self).rx_len == old(self).rx_len
            },
            r matches Ok(n) ==> {
                &&& final(self).rx.written() == old(self).rx.written() + samples@
                &&& final(self).rx.refusals() == old(self).rx.refusals()
                &&& final(self).rx_len == old(self).rx_len + samples@.len() as int / lanes(
                    old(self).channels,
                ) as int
                &&& n == final(self).rx_len
                &&& old(self).aligned() && samples@.len() as int % lanes(old(self).channels) as int
                    == 0 ==> final(self).aligned()
            },
    {
        match self.rx.write(samples) {
            Ok(_) => {},
            Err(e) => {
                return Err(e);
            },
        }
        let per_frame: usize = self.per_frame();
        let frames: usize = samples.len() / per_frame;
        proof {
            lemma_frames_of(samples@.len() as int, per_frame as int, old(self).rx_len as int);
        }
        self.rx_len = self.rx_len + frames as u64;
        Ok(self.rx_len)
    }

    /// Places samples on tx at frame `offset`, with silence up to it. Where tx is longer already,
    /// they follow what is there.
    pub fn push_tx_at(&mut self, offset: u64, samples: &[i16]) -> (r: Result<(), AudioError>)
        requires
            old(self).wf(),
            gap(old(self).tx_len, offset, old(self).channels) <= usize::MAX,
            later(old(self).tx_len, offset) + samples@.len() <= u64::MAX,
        ensures
            final(self).wf(),
            final(self).channels == old(self).channels,
            final(self).rx == old(self).rx,
            final(self).rx_len == old(self).rx_len,
            r matches Err(e) ==> {
                &&& final(self).tx.refusals() == old(self).tx.refusals().push(e)
                &&& final(self).tx_len == old(self).tx_len || final(self).tx_len == later(
                    old(self).tx_len,
                    offset,
                )
            },
            r is Ok ==> {
                &&& final(self).tx.refusals() == old(self).tx.refusals()
                &&& final(self).tx.written() == old(self).tx.written() + silence(
                    gap(old(self).tx_len, offset, old(self).channels),
                ) + samples@
                &&& final(self).tx_len == later(old(self).tx_len, offset) + samples@.len() as int
                    / lanes(old(self).channels) as int
                &&& old(self).aligned() && samples@.len() as int % lanes(old(self).channels) as int
                    == 0 ==> final(self).aligned()
            },
    {
        let r = place_at(
            &mut self.tx,
            self.channels,
            &mut self.tx_len,
            offset,
            samples,
            &mut self.scratch,
        );
        proof {
            let per_frame = lanes(self.channels) as int;
            lemma_frames_of(
                samples@.len() as int,
                per_frame,
                later(old(self).tx_len, offset) as int,
            );
            lemma_gap(old(self).tx_len as int, offset as int, per_frame);
        }
        r
    }

    /// The clock: frames of rx.
    pub fn rx_len(&self) -> (r: u64)
        ensures
            r == self.rx_len,
    {
        self.rx_len
    }

    /// Frames of tx.
    pub fn tx_len(&self) -> (r: u64)
        ensures
            r == self.tx_len,
    {
        self.tx_len
    }

    /// Pads both legs to one length, and tells it in frames.
    pub fn finish(&mut self) -> (r: Result<u64, AudioError>)
        requires
            old(self).wf(),
            gap(old(self).rx_len, old(self).tx_len, old(self).channels) <= usize::MAX,
            gap(old(self).tx_len, old(self).rx_len, old(self).channels) <= usize::MAX,
        ensures
            final(self).wf(),
            final(self).channels == old(self).channels,
            r matches Err(e) ==> {
                ||| {
                    &&& final(self).rx.refusals() == old(self).rx.refusals().push(e)
                    &&& final(self).tx == old(self).tx
                }
                ||| {
                    &&& final(self).rx.refusals() == old(self).rx.refusals()
                    &&& final(self).tx.refusals() == old(self).tx.refusals().push(e)
                }
            },
            r matches Ok(n) ==> {
                &&& final(self).rx.refusals() == old(self).rx.refusals()
                &&& final(self).tx.refusals() == old(self).tx.refusals()
                &&& n == later(old(self).rx_len, old(self).tx_len)
                &&& final(self).rx_len == n
                &&& final(self).tx_len == n
                &&& final(self).rx.written() == old(self).rx.written() + silence(
                    gap(old(self).rx_len, n, old(self).channels),
                )
                &&& final(self).tx.written() == old(self).tx.written() + silence(
                    gap(old(self).tx_len, n, old(self).channels),
                )
                &&& old(self).aligned() ==> final(self).aligned()
            },
    {
        let total: u64 = if self.rx_len < self.tx_len {
            self.tx_len
        } else {
            self.rx_len
        };
        match pad_to(&mut self.rx, self.channels, self.rx_len, total, &mut self.scratch) {
            Ok(_) => {},
            Err(e) => {
                return Err(e);
            },
        }
        match pad_to(&mut self.tx, self.channels, self.tx_len, total, &mut self.scratch) {
            Ok(_) => {},
            Err(e) => {
                return Err(e);
            },
        }
        proof {
            lemma_gap(old(self).rx_len as int, total as int, lanes(self.channels) as int);
            lemma_gap(old(self).tx_len as int, total as int, lanes(self.channels) as int);
        }
        self.rx_len = total;
        self.tx_len = total;
        Ok(total)
    }
}

proof fn lemma_frames_of(len: int, per_frame: int, before: int)
    requires
        len >= 0,
        per_frame > 0,
        before >= 0,
    ensures
        0 <= len / per_frame <= len,
        len % per_frame == 0 ==> (before + len / per_frame) * per_frame == before * per_frame + len,
{
    assert(0 <= len / per_frame <= len) by (nonlinear_arith)
        requires
            len >= 0,
            per_frame > 0,
    ;
    if len % per_frame == 0 {
        assert((before + len / per_frame) * per_frame == before * per_frame + len)
            by (nonlinear_arith)
            requires
                len % per_frame == 0,
                per_frame > 0,
        ;
    }
}

proof fn lemma_gap(have: int, want: int, per_frame: int)
    ensures
        have * per_frame + (want - have) * per_frame == want * per_frame,
{
    assert(have * per_frame + (want - have) * per_frame == want * per_frame) by (nonlinear_arith);
}

/// Samples that have come and are not read yet.
#[derive(Debug)]
pub struct FrameBuffer {
    pub leftover: Vec<i16>,
    pub pos: usize,
}

impl FrameBuffer {
    /// The samples that are not read yet.
    pub open spec fn pending(self) -> Seq<i16> {
        if self.pos <= self.leftover@.len() {
            self.leftover@.skip(self.pos as int)
        } else {
            Seq::empty()
        }
    }

    /// An empty buffer.
    pub fn new() -> (r: Self)
        ensures
            r.pending() == Seq::<i16>::empty(),
    {
        let r = FrameBuffer { leftover: Vec::new(), pos: 0 };
        assert(r.pending() =~= Seq::<i16>::empty());
        r
    }

    /// Whether nothing is left to read.
    pub fn is_drained(&self) -> (r: bool)
        ensures
            r == (self.pending().len() == 0),
    {
        self.pos >= self.leftover.len()
    }

    /// Takes an event in. Where it brings no samples, that is the result of the read.
    pub fn accept(&mut self, event: FrameEvent) -> (r: Option<Result<usize, AudioError>>)
        ensures
            match event {
                FrameEvent::Frame(f) => r is None && final(self).pending() == f@,
                FrameEvent::Timeout => r == Some(
                    Err::<usize, AudioError>(AudioError::WouldBlock),
                ) && *final(self) == *old(self),
                FrameEvent::Closed => r == Some(Ok::<usize, AudioError>(0)) && *final(self) == *old(
                    self,
                ),
            },
    {
        match event {
            FrameEvent::Frame(f) => {
                self.leftover = f;
                self.pos = 0;
                assert(self.pending() =~= f@);
                None
            },
            FrameEvent::Timeout => Some(Err(AudioError::WouldBlock)),
            FrameEvent::Closed => Some(Ok(0)),
        }
    }

    /// Delivers samples that have come, as many as fit.
    pub fn deliver(&mut self, out: &mut [i16]) -> (r: usize)
        ensures
            r == (if old(self).pending().len() < old(out)@.len() {
                old(self).pending().len()
            } else {
                old(out)@.len()
            }),
            final(out)@.len() == old(out)@.len(),
            final(out)@.take(r as int) == old(self).pending().take(r as int),
            final(self).pending() == old(self).pending().skip(r as int),
    {
        let room: usize = out.len();
        let ghost all = self.pending();
        let from: usize = self.pos;
        let total: usize = self.leftover.len();
        let avail: usize = if self.pos < total {
            total - self.pos
        } else {
            0
        };
        let n: usize = if avail < room {
            avail
        } else {
            room
        };
        let mut i: usize = 0;
        while i < n
            invariant
                i <= n,
                n <= room,
                room == out@.len(),
                n <= all.len(),
                total == self.leftover@.len(),
                n > 0 ==> total - from == all.len() && all == self.leftover@.skip(from as int),
                forall|j: int| 0 <= j < i ==> #[trigger] out@[j] == all[j],
            decreases n - i,
        {
            out[i] = self.leftover[from + i];
            i += 1;
        }
        if n > 0 {
            self.pos = from + n;
        }
        proof {
            assert(out@.take(n as int) =~= all.take(n as int));
            assert(self.pending() =~= all.skip(n as int));
        }
        n
    }
}

/// A capture that reads the frames which a capture thread sends over a channel.
pub struct VadFrameSource<'a> {
    channel: FrameChannel<'a>,
    buffer: FrameBuffer,
    log: Ghost<Seq<ReadEvent>>,
}

/// Samples that were delivered, out of some that were there, into `out`.
pub open spec fn delivered(
    there: Seq<i16>,
    room: nat,
    r: Result<usize, AudioError>,
    out: Seq<i16>,
    left: Seq<i16>,
) -> bool {
    &&& r matches Ok(n)
    &&& n == (if there.len() < room {
        there.len()
    } else {
        room
    })
    &&& out.take(n as int) == there.take(n as int)
    &&& left == there.skip(n as int)
}

/// Whether a read that had to wait came to what the channel gave. It waited for as long each time,
/// went on as long as empty frames came, and then: delivers samples that have come, or says that
/// it would block where none came in time, or that the stream has ended. A read that got nothing
/// but empty frames for all times that can be counted says that it would block.
pub open spec fn waited(
    heard: Seq<(u64, FrameText)>,
    room: nat,
    r: Result<usize, AudioError>,
    out: Seq<i16>,
    left: Seq<i16>,
) -> bool {
    &&& heard.len() > 0
    &&& forall|i: int| 0 <= i < heard.len() ==> (#[trigger] heard[i]).0 == VAD_RECV_POLL_MS
    &&& forall|i: int|
        0 <= i < heard.len() - 1 ==> (#[trigger] heard[i]).1 == FrameText::Frame(Seq::empty())
    &&& match heard.last().1 {
        FrameText::Timeout => r == Err::<usize, AudioError>(AudioError::WouldBlock) && left.len() == 0,
        FrameText::Closed => r == Ok::<usize, AudioError>(0) && left.len() == 0,
        FrameText::Frame(f) => if f.len() > 0 {
            delivered(f, room, r, out, left)
        } else {
            heard.len() == u64::MAX && r == Err::<usize, AudioError>(AudioError::WouldBlock)
                && left.len() == 0
        },
    }
}

impl<'a> VadFrameSource<'a> {
    /// Reads a channel for one wait.
    pub fn new(rx: &'a mut std::sync::mpsc::Receiver<Vec<i16>>) -> (r: Self)
        ensures
            r.reads() == Seq::<ReadEvent>::empty(),
            r.unread() == Seq::<i16>::empty(),
            r.heard() == Seq::<(u64, FrameText)>::empty(),
    {
        VadFrameSource {
            channel: FrameChannel::new(rx),
            buffer: FrameBuffer::new(),
            log: Ghost(Seq::empty()),
        }
    }

    /// The samples that have come and are not read yet.
    pub closed spec fn unread(&self) -> Seq<i16> {
        self.buffer.pending()
    }

    /// What came of the channel, in order, each with the milliseconds that were waited for it at
    /// most.
    pub closed spec fn heard(&self) -> Seq<(u64, FrameText)> {
        self.channel.heard()
    }
}

/// What holds of the events from `n` on holds of those behind the first `n`.
proof fn lemma_since(heard: Seq<(u64, FrameText)>, n: int)
    requires
        0 <= n < heard.len(),
        forall|i: int| n <= i < heard.len() ==> (#[trigger] heard[i]).0 == VAD_RECV_POLL_MS,
        forall|i: int|
            n <= i < heard.len() - 1 ==> (#[trigger] heard[i]).1 == FrameText::Frame(Seq::empty()),
    ensures
        forall|i: int|
            0 <= i < heard.len() - n ==> (#[trigger] heard.skip(n)[i]).0 == VAD_RECV_POLL_MS,
        forall|i: int|
            0 <= i < heard.len() - n - 1 ==> (#[trigger] heard.skip(n)[i]).1 == FrameText::Frame(
                Seq::empty(),
            ),
        heard.skip(n).last() == heard.last(),
{
    let new = heard.skip(n);
    assert forall|i: int| 0 <= i < new.len() implies (#[trigger] new[i]).0 == VAD_RECV_POLL_MS by {
        assert(new[i] == heard[n + i]);
    }
    assert forall|i: int| 0 <= i < new.len() - 1 implies (#[trigger] new[i]).1 == FrameText::Frame(
        Seq::empty(),
    ) by {
        assert(new[i] == heard[n + i]);
    }
}

impl<'a> VadFrameSource<'a> {
    fn read_frames(&mut self, out: &mut [i16]) -> (r: Result<usize, AudioError>)
        ensures
            final(out)@.len() == old(out)@.len(),
            final(self).log == old(self).log,
            r matches Ok(n) ==> n <= old(out)@.len(),
            old(self).heard().is_prefix_of(final(self).heard()),
            old(out)@.len() == 0 ==> {
                &&& r == Ok::<usize, AudioError>(0)
                &&& final(self).heard() == old(self).heard()
                &&& final(self).unread() == old(self).unread()
            },
            old(out)@.len() > 0 && old(self).unread().len() > 0 ==> {
                &&& delivered(
                    old(self).unread(),
                    old(out)@.len(),
                    r,
                    final(out)@,
                    final(self).unread(),
                )
                &&& final(self).heard() == old(self).heard()
            },
            old(out)@.len() > 0 && old(self).unread().len() == 0 ==> waited(
                final(self).heard().skip(old(self).heard().len() as int),
                old(out)@.len(),
                r,
                final(out)@,
                final(self).unread(),
            ),
    {
        if out.len() == 0 {
            return Ok(0);
        }
        let ghost had = self.heard();
        let mut tries: u64 = u64::MAX;
        while self.buffer.is_drained()
            invariant
                had == old(self).heard(),
                had.is_prefix_of(self.heard()),
                self.heard().len() == had.len() + (u64::MAX - tries),
                forall|i: int|
                    had.len() <= i < self.heard().len() ==> (#[trigger] self.heard()[i]).0
                        == VAD_RECV_POLL_MS,
                forall|i: int|
                    had.len() <= i < self.heard().len() - 1 ==> (#[trigger] self.heard()[i]).1
                        == FrameText::Frame(Seq::empty()),
                tries < u64::MAX ==> {
                    &&& old(self).unread().len() == 0
                    &&& self.heard().last().1 == FrameText::Frame(self.unread())
                },
                tries == u64::MAX ==> self.buffer == old(self).buffer,
                self.log == old(self).log,
                out@ == old(out)@,
                out@.len() > 0,
            decreases tries,
        {
            let ghost before = self.heard();
            proof {
                if tries < u64::MAX {
                    assert(self.unread() =~= Seq::<i16>::empty());
                }
            }
            if tries == 0 {
                proof {
                    lemma_since(self.heard(), had.len() as int);
                }
                return Err(AudioError::WouldBlock);
            }
            let event = self.channel.next(VAD_RECV_POLL_MS);
            let ghost e = event@;
            proof {
                assert(self.heard() == before.push((VAD_RECV_POLL_MS, e)));
                assert forall|i: int| had.len() <= i < self.heard().len() - 1 implies (
                #[trigger] self.heard()[i]).1 == FrameText::Frame(Seq::empty()) by {
                    if i == before.len() - 1 {
                        assert(before[i] == before.last());
                        assert(before[i].1 == FrameText::Frame(Seq::empty()));
                    } else {
                        assert(before[i].1 == FrameText::Frame(Seq::empty()));
                    }
                }
                lemma_since(self.heard(), had.len() as int);
            }
            if let Some(r) = self.buffer.accept(event) {
                return r;
            }
            tries = tries - 1;
        }
        proof {
            if tries < u64::MAX {
                lemma_since(self.heard(), had.len() as int);
            }
        }
        Ok(self.buffer.deliver(out))
    }
}

impl<'a> CaptureSource for VadFrameSource<'a> {
    closed spec fn reads(&self) -> Seq<ReadEvent> {
        self.log@
    }

    open spec fn width(&self) -> u16 {
        1
    }

    open spec fn rate(&self) -> u32 {
        VAD_SAMPLE_RATE
    }

    /// Reads what has come, and waits for more where nothing has. What comes depends on the
    /// capture.
    fn read(&mut self, out: &mut [i16]) -> (r: Result<usize, AudioError>)
        ensures
            old(self).heard().is_prefix_of(final(self).heard()),
            old(out)@.len() == 0 ==> {
                &&& r == Ok::<usize, AudioError>(0)
                &&& final(self).heard() == old(self).heard()
                &&& final(self).unread() == old(self).unread()
            },
            old(out)@.len() > 0 && old(self).unread().len() > 0 ==> {
                &&& delivered(
                    old(self).unread(),
                    old(out)@.len(),
                    r,
                    final(out)@,
                    final(self).unread(),
                )
                &&& final(self).heard() == old(self).heard()
            },
            old(out)@.len() > 0 && old(self).unread().len() == 0 ==> waited(
                final(self).heard().skip(old(self).heard().len() as int),
                old(out)@.len(),
                r,
                final(out)@,
                final(self).unread(),
            ),
    {
        let r = self.read_frames(out);
        self.log = Ghost(self.log@.push(read_event(out@, r)));
        r
    }

    fn sample_rate(&self) -> (r: u32) {
        VAD_SAMPLE_RATE
    }

    fn channels(&self) -> (r: u16) {
        1
    }
}

/// What the capture thread keeps between two reads.
#[derive(Debug)]
pub struct CaptureFeed {
    /// Channels of the capture: at least one.
    pub channels: u16,
    /// Samples of an incomplete frame.
    pub carry: Vec<i16>,
    /// Frames written so far.
    pub total: u64,
    /// Whether a turn was being listened to at the last read.
    pub was_active: bool,
}

/// What to do with the samples of one read.
#[derive(Debug)]
pub struct Fed {
    /// Whole frames, to be written to rx.
    pub write: Vec<i16>,
    /// Whether the resampler starts anew: the audio between two turns never reached it.
    pub fresh: bool,
    /// The call's channel, to be resampled and judged, while a turn is listened to.
    pub mono: Option<Vec<i16>>,
}

/// How many samples of `s` make whole frames.
pub open spec fn whole(s: Seq<i16>, channels: int) -> int {
    (s.len() as int / channels) * channels
}

/// A [`CaptureFeed`] over samples.
pub struct FeedText {
    pub channels: nat,
    pub carry: Seq<i16>,
    pub total: nat,
    pub was_active: bool,
}

impl View for CaptureFeed {
    type V = FeedText;

    open spec fn view(&self) -> FeedText {
        FeedText {
            channels: self.channels as nat,
            carry: self.carry@,
            total: self.total as nat,
            was_active: self.was_active,
        }
    }
}

/// A [`Fed`] over samples.
pub struct FedText {
    pub write: Seq<i16>,
    pub fresh: bool,
    pub mono: Option<Seq<i16>>,
}

impl View for Fed {
    type V = FedText;

    open spec fn view(&self) -> FedText {
        FedText {
            write: self.write@,
            fresh: self.fresh,
            mono: match self.mono {
                Some(m) => Some(m@),
                None => None,
            },
        }
    }
}

/// The state of a capture thread before its first read.
pub open spec fn unfed(channels: u16) -> FeedText {
    FeedText { channels: lanes(channels), carry: Seq::empty(), total: 0, was_active: false }
}

/// What the samples of one read make of a capture thread's state, and what to do with them.
pub open spec fn fed(f: FeedText, samples: Seq<i16>, active: bool) -> (FeedText, FedText) {
    let all = f.carry + samples;
    let k = whole(all, f.channels as int);
    let write = all.take(k);
    let next = FeedText {
        carry: all.skip(k),
        total: f.total + all.len() / f.channels,
        ..f
    };
    if k == 0 {
        (next, FedText { write, fresh: false, mono: None })
    } else {
        (
            FeedText { was_active: active, ..next },
            FedText {
                write,
                fresh: active && !f.was_active,
                mono: if active {
                    Some(every(write, f.channels as int))
                } else {
                    None
                },
            },
        )
    }
}

impl CaptureFeed {
    /// Whether there is a channel, and less than a frame is carried.
    pub open spec fn wf(self) -> bool {
        self.carry@.len() < self.channels
    }

    /// The state before the first read.
    pub fn new(channels: u16) -> (r: Self)
        ensures
            r.wf(),
            r@ == unfed(channels),
    {
        let r = CaptureFeed {
            channels: if channels == 0 {
                1
            } else {
                channels
            },
            carry: Vec::new(),
            total: 0,
            was_active: false,
        };
        assert(r.carry@ =~= Seq::<i16>::empty());
        r
    }

    /// Takes the samples of one read in. Only whole frames are written: half a frame would swap
    /// the channels of everything after it.
    pub fn push(&mut self, samples: &[i16], active: bool) -> (r: Fed)
        requires
            old(self).wf(),
            old(self).total + old(self).carry@.len() + samples@.len() <= u64::MAX,
        ensures
            final(self).wf(),
            (final(self)@, r@) == fed(old(self)@, samples@, active),
    {
        let ch: usize = self.channels as usize;
        let ghost all = self.carry@ + samples@;
        let mut buf: Vec<i16> = Vec::new();
        std::mem::swap(&mut buf, &mut self.carry);
        let ghost had = buf@;
        let mut i: usize = 0;
        while i < samples.len()
            invariant
                i <= samples.len(),
                buf@ == had + samples@.take(i as int),
            decreases samples.len() - i,
        {
            buf.push(samples[i]);
            i += 1;
            proof {
                assert(buf@ =~= had + samples@.take(i as int));
            }
        }
        proof {
            assert(samples@.take(i as int) =~= samples@);
            assert(buf@ == all);
            lemma_whole(all.len() as int, ch as int);
        }
        let frames: usize = buf.len() / ch;
        let k: usize = frames * ch;
        let rest = buf.split_off(k);
        proof {
            assert(buf@ =~= all.take(k as int));
            assert(rest@ =~= all.skip(k as int));
        }
        self.carry = rest;
        self.total = self.total + frames as u64;
        if buf.len() == 0 {
            return Fed { write: buf, fresh: false, mono: None };
        }
        let fresh = active && !self.was_active;
        self.was_active = active;
        let mono = if active {
            Some(take_every(buf.as_slice(), ch))
        } else {
            None
        };
        Fed { write: buf, fresh, mono }
    }
}

proof fn lemma_whole(len: int, ch: int)
    requires
        len >= 0,
        ch > 0,
    ensures
        0 <= (len / ch) * ch <= len,
        len - (len / ch) * ch < ch,
        ((len / ch) * ch) / ch == len / ch,
        0 <= len / ch <= len,
        (len / ch) * ch == 0 <==> len / ch == 0,
{
    assert(0 <= (len / ch) * ch <= len && len - (len / ch) * ch < ch && 0 <= len / ch <= len)
        by (nonlinear_arith)
        requires
            len >= 0,
            ch > 0,
    ;
    let q = len / ch;
    assert((q * ch) / ch == q) by (nonlinear_arith)
        requires
            ch > 0,
    ;
    assert(q * ch == 0 <==> q == 0) by (nonlinear_arith)
        requires
            ch > 0,
    ;
}

proof fn lemma_feed_channels(f: FeedText, pieces: Seq<Piece>)
    ensures
        fed_all(f, pieces).channels == f.channels,
    decreases pieces.len(),
{
    if pieces.len() > 0 {
        lemma_feed_channels(f, pieces.drop_last());
    }
}

/// What listens to a capture while it is recorded. Nothing is assumed of what it does.
pub trait RawTap {
    /// Whether a turn is being listened to.
    fn active(&mut self) -> bool;

    /// Takes the clock: the frames recorded so far.
    fn clock(&mut self, frames: u64);

    /// Forgets what was heard: a new turn begins, and the audio since the last one was not heard.
    fn restart(&mut self);

    /// Hears the call's channel of some frames.
    fn hear(&mut self, mono: Vec<i16>);
}

/// What a listener was asked and told.
pub enum TapEvent {
    Active(bool),
    Clock(nat),
    Restart,
    Hear(Seq<i16>),
}

/// A listener with everything that it was asked and told.
pub struct Tap<R: RawTap> {
    pub device: R,
    pub log: Ghost<Seq<TapEvent>>,
}

impl<R: RawTap> Tap<R> {
    /// A listener that was told nothing yet.
    pub fn new(device: R) -> (r: Self)
        ensures
            r.device == device,
            r.log@ == Seq::<TapEvent>::empty(),
    {
        Tap { device, log: Ghost(Seq::empty()) }
    }

    fn active(&mut self) -> (r: bool)
        ensures
            final(self).log@ == old(self).log@.push(TapEvent::Active(r)),
    {
        let r = self.device.active();
        self.log = Ghost(self.log@.push(TapEvent::Active(r)));
        r
    }

    fn take(&mut self, total: u64, fed: Fed)
        ensures
            final(self).log@ == old(self).log@ + told(total as nat, fed@),
    {
        if fed.write.len() > 0 {
            self.device.clock(total);
        }
        if fed.fresh {
            self.device.restart();
        }
        let ghost text = fed@;
        if let Some(m) = fed.mono {
            self.device.hear(m);
        }
        self.log = Ghost(self.log@ + told(total as nat, text));
    }
}

/// What a listener is told of frames that were recorded.
pub open spec fn told(total: nat, f: FedText) -> Seq<TapEvent> {
    let clock = if f.write.len() > 0 {
        seq![TapEvent::Clock(total)]
    } else {
        Seq::empty()
    };
    let restart = if f.fresh {
        seq![TapEvent::Restart]
    } else {
        Seq::empty()
    };
    let hear = match f.mono {
        Some(m) => seq![TapEvent::Hear(m)],
        None => Seq::empty(),
    };
    clock + restart + hear
}

/// The samples of one read, and whether a turn was being listened to.
pub struct Piece {
    pub samples: Seq<i16>,
    pub active: bool,
}

/// All samples of some reads.
pub open spec fn samples_in(pieces: Seq<Piece>) -> Seq<i16>
    decreases pieces.len(),
{
    if pieces.len() == 0 {
        Seq::empty()
    } else {
        samples_in(pieces.drop_last()) + pieces.last().samples
    }
}

/// The state of a capture thread after some reads.
pub open spec fn fed_all(f: FeedText, pieces: Seq<Piece>) -> FeedText
    decreases pieces.len(),
{
    if pieces.len() == 0 {
        f
    } else {
        fed(fed_all(f, pieces.drop_last()), pieces.last().samples, pieces.last().active).0
    }
}

/// What the last of some reads comes to.
pub open spec fn last_fed(f: FeedText, pieces: Seq<Piece>) -> FedText {
    fed(fed_all(f, pieces.drop_last()), pieces.last().samples, pieces.last().active).1
}

/// What is recorded of some reads.
pub open spec fn recorded(f: FeedText, pieces: Seq<Piece>) -> Seq<i16>
    decreases pieces.len(),
{
    if pieces.len() == 0 {
        Seq::empty()
    } else {
        recorded(f, pieces.drop_last()) + last_fed(f, pieces).write
    }
}

/// What a listener is asked and told over some reads.
pub open spec fn overheard(f: FeedText, pieces: Seq<Piece>) -> Seq<TapEvent>
    decreases pieces.len(),
{
    if pieces.len() == 0 {
        Seq::empty()
    } else {
        overheard(f, pieces.drop_last()).push(TapEvent::Active(pieces.last().active)) + told(
            fed_all(f, pieces).total,
            last_fed(f, pieces),
        )
    }
}

/// Samples that a capture thread has room for in one read.
pub const RX_ROOM: usize = 8192;

/// Samples that a recording can hold: its clock does not wrap.
pub const MAX_RX_SAMPLES: u64 = 0xffff_ffff_fffe_0000;

/// Reads of a capture thread, with the samples that came.
pub open spec fn full_reads(pieces: Seq<Piece>) -> Seq<ReadEvent> {
    pieces.map_values(|p: Piece| ReadEvent { room: RX_ROOM as nat, got: Ok(p.samples) })
}

/// A read of a capture thread that ended the stream or failed.
pub open spec fn last_read(got: Result<Seq<i16>, AudioError>) -> ReadEvent {
    ReadEvent { room: RX_ROOM as nat, got }
}

/// What a capture, a leg and a listener have been through.
pub struct Trail {
    pub reads: Seq<ReadEvent>,
    pub written: Seq<i16>,
    pub refusals: Seq<AudioError>,
    pub log: Seq<TapEvent>,
}

/// What a capture, a leg and a listener have been through.
pub open spec fn trail<C: CaptureSource, S: PlaybackSink, R: RawTap>(c: C, rx: S, tap: Tap<R>) -> Trail {
    Trail { reads: c.reads(), written: rx.written(), refusals: rx.refusals(), log: tap.log@ }
}

/// Whether the pieces were recorded between two points in time, and what was read besides them.
pub open spec fn has_recorded(f: FeedText, was: Trail, now: Trail, pieces: Seq<Piece>, more: Seq<ReadEvent>) -> bool {
    &&& now.reads == was.reads + full_reads(pieces) + more
    &&& now.written == was.written + recorded(f, pieces)
    &&& now.refusals == was.refusals
    &&& now.log == was.log + overheard(f, pieces)
}

/// Whether the last piece that was read could not be recorded for `e`.
pub open spec fn was_refused(f: FeedText, was: Trail, now: Trail, pieces: Seq<Piece>, e: AudioError) -> bool {
    let heard = pieces.drop_last();
    &&& pieces.len() > 0
    &&& last_fed(f, pieces).write.len() > 0
    &&& now.reads == was.reads + full_reads(pieces)
    &&& now.refusals == was.refusals.push(e)
    &&& now.log == was.log + overheard(f, heard).push(TapEvent::Active(pieces.last().active))
}

/// Whether a recording ended with `r` after some pieces: at the end of the capture, at the failure
/// of the capture or of the leg, or because it got too long.
pub open spec fn ended_with(f: FeedText, was: Trail, now: Trail, pieces: Seq<Piece>, r: Result<u64, AudioError>) -> bool {
    match r {
        Ok(total) => {
            &&& has_recorded(f, was, now, pieces, seq![last_read(Ok(Seq::empty()))])
            &&& total == fed_all(f, pieces).total
        },
        Err(e) => {
            ||| has_recorded(f, was, now, pieces, seq![last_read(Err(e))])
            ||| was_refused(f, was, now, pieces, e)
            ||| {
                &&& has_recorded(f, was, now, pieces, Seq::empty())
                &&& samples_in(pieces).len() + RX_ROOM > MAX_RX_SAMPLES
                &&& e matches AudioError::Failed(t) && t@ == "the recording is too long"@
            }
        },
    }
}

/// Records a capture until it ends, and tells its frames. Everything that comes is written to `rx`
/// as it is; the listener gets the clock after every write and, while a turn is on, its own copy
/// of the call's channel.
pub fn record_rx<C: CaptureSource, S: PlaybackSink, R: RawTap>(
    capture: &mut C,
    rx: &mut S,
    tap: &mut Tap<R>,
) -> (r: Result<u64, AudioError>)
    ensures
        exists|pieces: Seq<Piece>|
            {
                &&& forall|i: int| 0 <= i < pieces.len() ==> (#[trigger] pieces[i]).samples.len() > 0
                &&& #[trigger] ended_with(
                    unfed(old(capture).width()),
                    trail(*old(capture), *old(rx), *old(tap)),
                    trail(*final(capture), *final(rx), *final(tap)),
                    pieces,
                    r,
                )
            },
{
    let mut feed = CaptureFeed::new(capture.channels());
    let mut buf: Vec<i16> = Vec::new();
    buf.resize(RX_ROOM, 0);
    let mut left: u64 = MAX_RX_SAMPLES;
    let ghost f = unfed(capture.width());
    let ghost was = trail(*capture, *rx, *tap);
    let ghost mut pieces: Seq<Piece> = Seq::empty();
    proof {
        assert(full_reads(pieces) =~= Seq::<ReadEvent>::empty());
        assert(was.reads + full_reads(pieces) + Seq::<ReadEvent>::empty() =~= was.reads);
        assert(was.written + recorded(f, pieces) =~= was.written);
        assert(was.log + overheard(f, pieces) =~= was.log);
    }
    while left >= RX_ROOM as u64
        invariant
            f == unfed(old(capture).width()),
            was == trail(*old(capture), *old(rx), *old(tap)),
            has_recorded(f, was, trail(*capture, *rx, *tap), pieces, Seq::empty()),
            feed.wf(),
            feed@ == fed_all(f, pieces),
            feed.total + feed.carry@.len() + left <= MAX_RX_SAMPLES,
            samples_in(pieces).len() + left == MAX_RX_SAMPLES,
            buf@.len() == RX_ROOM,
            forall|i: int| 0 <= i < pieces.len() ==> (#[trigger] pieces[i]).samples.len() > 0,
        decreases left,
    {
        let ghost before = trail(*capture, *rx, *tap);
        let n: usize = match capture.read(buf.as_mut_slice()) {
            Ok(n) => n,
            Err(e) => {
                proof {
                    assert(capture.reads() =~= was.reads + full_reads(pieces) + seq![
                        last_read(Err(e)),
                    ]);
                    assert(ended_with(f, was, trail(*capture, *rx, *tap), pieces, Err(e)));
                }
                return Err(e);
            },
        };
        if n == 0 {
            proof {
                assert(buf@.take(0) =~= Seq::<i16>::empty());
                assert(capture.reads() =~= was.reads + full_reads(pieces) + seq![
                    last_read(Ok(Seq::empty())),
                ]);
                assert(ended_with(f, was, trail(*capture, *rx, *tap), pieces, Ok(feed.total)));
            }
            return Ok(feed.total);
        }
        let active = tap.active();
        let part = vstd::slice::slice_subrange(buf.as_slice(), 0, n);
        let ghost piece = Piece { samples: part@, active };
        let ghost next = pieces.push(piece);
        let ghost had = feed@;
        proof {
            assert(next.drop_last() =~= pieces);
            assert(part@ =~= buf@.take(n as int));
            assert(full_reads(next) =~= full_reads(pieces).push(last_read(Ok(part@))));
            assert(capture.reads() =~= was.reads + full_reads(next));
            let all = had.carry + part@;
            lemma_whole(all.len() as int, had.channels as int);
            let q = all.len() as int / had.channels as int;
            assert(q <= q * had.channels) by (nonlinear_arith)
                requires
                    q >= 0,
                    had.channels >= 1,
            ;
        }
        let fed = feed.push(part, active);
        if fed.write.len() > 0 {
            match rx.write(fed.write.as_slice()) {
                Ok(_) => {},
                Err(e) => {
                    proof {
                        assert(tap.log@ =~= was.log + overheard(f, next.drop_last()).push(
                            TapEvent::Active(active),
                        ));
                        assert(ended_with(f, was, trail(*capture, *rx, *tap), next, Err(e)));
                    }
                    return Err(e);
                },
            }
        }
        proof {
            assert(rx.written() =~= was.written + recorded(f, next));
        }
        tap.take(feed.total, fed);
        proof {
            assert(tap.log@ =~= was.log + overheard(f, next));
            assert(capture.reads() =~= was.reads + full_reads(next) + Seq::<ReadEvent>::empty());
            pieces = next;
        }
        left = left - n as u64;
    }
    let e = AudioError::Failed("the recording is too long".to_owned());
    proof {
        assert(ended_with(f, was, trail(*capture, *rx, *tap), pieces, Err(e)));
    }
    Err(e)
}

/// The refusal of a leg that has not the capture's shape.
pub open spec fn wrong_shape(leg: Seq<char>, channels: u16, source_channels: u16) -> Seq<char> {
    leg + " sink has "@ + decimal(channels as nat) + " channel(s) but the capture yields "@
        + decimal(lanes(source_channels)) + " — refusing to record a mislabeled file"@
}

fn lanes_of(channels: u16) -> (r: u64)
    ensures
        r == lanes(channels),
{
    if channels == 0 {
        1
    } else {
        channels as u64
    }
}

fn refuse_shape(leg: &str, channels: u16, source_channels: u16) -> (r: String)
    ensures
        r@ == wrong_shape(leg@, channels, source_channels),
{
    let mut e = text::cat3(leg, " sink has ", &text::decimal_of(channels as u64));
    e.append(" channel(s) but the capture yields ");
    e.append(&text::decimal_of(lanes_of(source_channels)));
    e.append(" — refusing to record a mislabeled file");
    e
}

/// Why a recording cannot start, if it cannot: both legs must have the capture's channels. A file
/// whose header does not describe its stream would be silently wrong, and legs of different shapes
/// could not share one clock.
pub fn check_shape(rx_channels: u16, tx_channels: u16, source_channels: u16) -> (r: Result<
    (),
    String,
>)
    ensures
        r is Ok <==> lanes(rx_channels) == lanes(source_channels) && lanes(tx_channels) == lanes(
            source_channels,
        ),
        r matches Err(e) ==> e@ == (if lanes(rx_channels) != lanes(source_channels) {
            wrong_shape("rx"@, rx_channels, source_channels)
        } else {
            wrong_shape("tx"@, tx_channels, source_channels)
        }),
{
    let want: u64 = lanes_of(source_channels);
    if lanes_of(rx_channels) != want {
        Err(refuse_shape("rx", rx_channels, source_channels))
    } else if lanes_of(tx_channels) != want {
        Err(refuse_shape("tx", tx_channels, source_channels))
    } else {
        Ok(())
    }
}

/// Why two legs cannot be mixed, if they cannot.
pub fn check_rates(tx_rate: u32, rx_rate: u32) -> (r: Result<(), String>)
    ensures
        match r {
            Ok(_) => tx_rate == rx_rate,
            Err(e) => tx_rate != rx_rate && e@
                == "cannot mix legs recorded at different rates (tx "@ + decimal(tx_rate as nat)
                + " Hz, rx "@ + decimal(rx_rate as nat) + " Hz)"@,
        },
{
    if tx_rate == rx_rate {
        return Ok(());
    }
    let mut e = text::cat3(
        "cannot mix legs recorded at different rates (tx ",
        &text::decimal_of(tx_rate as u64),
        " Hz, rx ",
    );
    e.append(&text::decimal_of(rx_rate as u64));
    e.append(" Hz)");
    Err(e)
}

/// One frame of the mix, left before right; none once both legs have ended. The leg that has
/// ended is silent.
pub open spec fn mixed_frame(tx: Option<i16>, rx: Option<i16>, tx_left: bool) -> Option<(i16, i16)> {
    if tx is None && rx is None {
        None
    } else {
        let t = match tx {
            Some(v) => v,
            None => 0i16,
        };
        let x = match rx {
            Some(v) => v,
            None => 0i16,
        };
        Some(
            if tx_left {
                (t, x)
            } else {
                (x, t)
            },
        )
    }
}

/// One frame of the mix, left before right; none once both legs have ended.
pub fn mix_frame(tx: Option<i16>, rx: Option<i16>, tx_left: bool) -> (r: Option<(i16, i16)>)
    ensures
        r == mixed_frame(tx, rx, tx_left),
{
    if tx.is_none() && rx.is_none() {
        return None;
    }
    let t: i16 = match tx {
        Some(v) => v,
        None => 0,
    };
    let x: i16 = match rx {
        Some(v) => v,
        None => 0,
    };
    if tx_left {
        Some((t, x))
    } else {
        Some((x, t))
    }
}

/// A leg's sample, silence behind its end.
pub open spec fn at_or_silent(s: Seq<i16>, i: int) -> i16 {
    if 0 <= i < s.len() {
        s[i]
    } else {
        0
    }
}

/// The mix of two legs of one channel each: two channels, interleaved, as long as the longer leg.
pub open spec fn mixed(tx: Seq<i16>, rx: Seq<i16>, tx_left: bool) -> Seq<i16> {
    let frames = if tx.len() < rx.len() {
        rx.len()
    } else {
        tx.len()
    };
    Seq::new(
        2 * frames,
        |i: int|
            if (i % 2 == 0) == tx_left {
                at_or_silent(tx, i / 2)
            } else {
                at_or_silent(rx, i / 2)
            },
    )
}

/// Mixes two legs: each is reduced to its first channel, the call's, so that the mix keeps the two
/// voices apart, one to a side.
pub fn mix_legs(tx: &[i16], tx_channels: u16, rx: &[i16], rx_channels: u16, tx_left: bool) -> (r: Vec<
    i16,
>)
    ensures
        r@ == mixed(
            every(tx@, lanes(tx_channels) as int),
            every(rx@, lanes(rx_channels) as int),
            tx_left,
        ),
{
    let t = take_every(
        tx,
        if tx_channels == 0 {
            1
        } else {
            tx_channels as usize
        },
    );
    let x = take_every(
        rx,
        if rx_channels == 0 {
            1
        } else {
            rx_channels as usize
        },
    );
    let ghost want = mixed(t@, x@, tx_left);
    let mut out: Vec<i16> = Vec::new();
    let mut f: usize = 0;
    while f < t.len() || f < x.len()
        invariant
            want == mixed(t@, x@, tx_left),
            f <= t.len() || f <= x.len(),
            out@.len() == 2 * f,
            2 * f <= want.len(),
            forall|i: int| 0 <= i < out@.len() ==> #[trigger] out@[i] == want[i],
        decreases want.len() - 2 * f,
    {
        let a = if f < t.len() {
            Some(t[f])
        } else {
            None
        };
        let b = if f < x.len() {
            Some(x[f])
        } else {
            None
        };
        let ghost had = out@;
        if let Some((l, rr)) = mix_frame(a, b, tx_left) {
            out.push(l);
            out.push(rr);
            proof {
                let k = 2 * f as int;
                assert(k % 2 == 0 && k / 2 == f && (k + 1) % 2 == 1 && (k + 1) / 2 == f);
                assert(want[k] == l && want[k + 1] == rr);
                assert forall|i: int| 0 <= i < out@.len() implies #[trigger] out@[i] == want[i] by {
                    if i < had.len() {
                        assert(out@[i] == had[i]);
                    }
                }
            }
        }
        f += 1;
    }
    proof {
        assert(out@ =~= want);
    }
    out
}

/// A leg's sample, none behind its end.
pub open spec fn sample_at(s: Seq<i16>, i: int) -> Option<i16> {
    if 0 <= i < s.len() {
        Some(s[i])
    } else {
        None
    }
}

/// The first `n` frames of two legs of one channel each, mixed one by one.
pub open spec fn frames_mixed(tx: Seq<i16>, rx: Seq<i16>, tx_left: bool, n: nat) -> Seq<i16>
    decreases n,
{
    if n == 0 {
        Seq::empty()
    } else {
        let rest = frames_mixed(tx, rx, tx_left, (n - 1) as nat);
        match mixed_frame(sample_at(tx, n - 1), sample_at(rx, n - 1), tx_left) {
            Some((left, right)) => rest.push(left).push(right),
            None => rest,
        }
    }
}

proof fn lemma_frames_mixed(tx: Seq<i16>, rx: Seq<i16>, tx_left: bool, n: nat)
    requires
        n <= tx.len() || n <= rx.len(),
    ensures
        frames_mixed(tx, rx, tx_left, n) == mixed(tx, rx, tx_left).take(2 * n as int),
    decreases n,
{
    let want = mixed(tx, rx, tx_left);
    if n > 0 {
        lemma_frames_mixed(tx, rx, tx_left, (n - 1) as nat);
        let k = 2 * (n - 1);
        assert(k % 2 == 0 && k / 2 == n - 1 && (k + 1) % 2 == 1 && (k + 1) / 2 == n - 1);
        assert(frames_mixed(tx, rx, tx_left, n) =~= want.take(2 * n as int));
    } else {
        assert(frames_mixed(tx, rx, tx_left, n) =~= want.take(0));
    }
}

/// Mixing two legs frame by frame, until both have ended, gives their mix.
pub proof fn law_frames_make_the_mix(tx: Seq<i16>, rx: Seq<i16>, tx_left: bool)
    ensures
        ({
            let n = if tx.len() < rx.len() {
                rx.len()
            } else {
                tx.len()
            };
            &&& frames_mixed(tx, rx, tx_left, n) == mixed(tx, rx, tx_left)
            &&& mixed_frame(sample_at(tx, n as int), sample_at(rx, n as int), tx_left) is None
            &&& forall|f: int|
                0 <= f < n ==> mixed_frame(
                    #[trigger] sample_at(tx, f),
                    sample_at(rx, f),
                    tx_left,
                ) is Some
        }),
{
    let n = if tx.len() < rx.len() {
        rx.len()
    } else {
        tx.len()
    };
    lemma_frames_mixed(tx, rx, tx_left, n);
    assert(mixed(tx, rx, tx_left).take(2 * n as int) =~= mixed(tx, rx, tx_left));
}

/// A prompt lands on tx exactly at its offset, with silence before it.
pub proof fn law_tx_lands_at_its_offset(
    before: Seq<i16>,
    tx_len: u64,
    offset: u64,
    channels: u16,
    samples: Seq<i16>,
)
    requires
        before.len() == tx_len * lanes(channels),
        tx_len <= offset,
    ensures
        ({
            let after = before + silence(gap(tx_len, offset, channels)) + samples;
            let at = (offset * lanes(channels)) as int;
            &&& after.len() == at + samples.len()
            &&& after.skip(at) == samples
            &&& after.take(before.len() as int) == before
            &&& is_silent(after.subrange(before.len() as int, at))
        }),
{
    let l = lanes(channels) as int;
    lemma_gap(tx_len as int, offset as int, l);
    let quiet = silence(gap(tx_len, offset, channels));
    let after = before + quiet + samples;
    let at = offset * l;
    assert((offset - tx_len) * l >= 0) by (nonlinear_arith)
        requires
            tx_len <= offset,
            l >= 0,
    ;
    if tx_len == offset {
        assert(tx_len * l == offset * l);
    }
    assert(before.len() + quiet.len() == at);
    assert(after.skip(at) =~= samples);
    assert(after.take(before.len() as int) =~= before);
}

/// A finished recording's legs are equally long.
pub proof fn law_legs_end_together<S: PlaybackSink>(r: DuplexRecorder<S>)
    requires
        r.aligned(),
        r.rx_len == r.tx_len,
    ensures
        r.rx.written().len() == r.tx.written().len(),
{
}

/// No sample of a capture is lost or moved, however its reads are split: what is recorded and what
/// is carried at the end make up what came. Only whole frames are recorded, and they are what the
/// clock counts.
pub proof fn law_split_reads_lose_nothing(channels: u16, pieces: Seq<Piece>)
    ensures
        ({
            let f = fed_all(unfed(channels), pieces);
            let rx = recorded(unfed(channels), pieces);
            &&& rx + f.carry == samples_in(pieces)
            &&& f.carry.len() < lanes(channels)
            &&& rx.len() == f.total * lanes(channels)
        }),
    decreases pieces.len(),
{
    let f0 = unfed(channels);
    let l = lanes(channels) as int;
    lemma_feed_channels(f0, pieces);
    if pieces.len() == 0 {
        assert(recorded(f0, pieces) + fed_all(f0, pieces).carry =~= samples_in(pieces));
        assert(0 * l == 0);
    } else {
        let init = pieces.drop_last();
        law_split_reads_lose_nothing(channels, init);
        lemma_feed_channels(f0, init);
        let f = fed_all(f0, init);
        let p = pieces.last();
        let all = f.carry + p.samples;
        let k = whole(all, l);
        lemma_whole(all.len() as int, l);
        assert(all.take(k) + all.skip(k) =~= all);
        let rx = recorded(f0, init);
        assert(rx + all.take(k) + all.skip(k) =~= rx + (all.take(k) + all.skip(k)));
        assert(rx + (f.carry + p.samples) =~= rx + f.carry + p.samples);
        let q = all.len() as int / l;
        assert((f.total + q) * l == f.total * l + q * l) by (nonlinear_arith);
        assert(fed_all(f0, pieces).total == f.total + q);
        assert(recorded(f0, pieces) == rx + all.take(k));
        assert(fed_all(f0, pieces).carry == all.skip(k));
    }
}

proof fn lemma_every_frame(s: Seq<i16>, frames: int, l: int)
    requires
        l > 0,
        frames >= 0,
        s.len() == frames * l,
    ensures
        every(s, l).len() == frames,
        forall|i: int| 0 <= i < frames ==> #[trigger] every(s, l)[i] == s[i * l],
{
    assert((frames * l + l - 1) / l == frames) by (nonlinear_arith)
        requires
            l > 0,
            frames >= 0,
    ;
}

/// A recording as a whole. A capture is recorded over some reads, and a prompt of whole frames is
/// placed on tx when the clock stands at frame `at`. Once the recording is finished:
///
/// - rx is the whole frames of the capture in their order, then silence;
/// - tx is silent up to `at`, then the prompt, then silence;
/// - both have one length, up to the end of what came last;
/// - the mix has two channels of that length, and each of its frames holds the first channel of
///   tx and that of rx at this very frame, one on either side.
pub proof fn law_a_recording_is_aligned(
    channels: u16,
    pieces: Seq<Piece>,
    at: u64,
    prompt: Seq<i16>,
    tx_left: bool,
)
    requires
        prompt.len() as int % lanes(channels) as int == 0,
        at <= fed_all(unfed(channels), pieces).total <= u64::MAX,
        at + prompt.len() <= u64::MAX,
    ensures
        ({
            let l = lanes(channels) as int;
            let captured = fed_all(unfed(channels), pieces).total as u64;
            let placed = (at + prompt.len() as int / l) as u64;
            let end = later(captured, placed);
            let rx = recorded(unfed(channels), pieces) + silence(gap(captured, end, channels));
            let tx = Seq::<i16>::empty() + silence(gap(0, at, channels)) + prompt + silence(
                gap(placed, end, channels),
            );
            let mix = mixed(every(tx, l), every(rx, l), tx_left);
            &&& rx.len() == end * l
            &&& tx.len() == end * l
            &&& rx.take(captured * l) == samples_in(pieces).take(captured * l)
            &&& is_silent(rx.skip(captured * l))
            &&& is_silent(tx.take(at * l))
            &&& tx.subrange(at * l, at * l + prompt.len()) == prompt
            &&& is_silent(tx.skip(at * l + prompt.len()))
            &&& mix.len() == 2 * end
            &&& forall|i: int|
                0 <= i < end ==> {
                    &&& #[trigger] mix[2 * i] == (if tx_left {
                        tx[i * l]
                    } else {
                        rx[i * l]
                    })
                    &&& mix[2 * i + 1] == (if tx_left {
                        rx[i * l]
                    } else {
                        tx[i * l]
                    })
                }
        }),
{
    let l = lanes(channels) as int;
    let n = prompt.len() as int;
    law_split_reads_lose_nothing(channels, pieces);
    lemma_frames_of(n, l, at as int);
    let captured = fed_all(unfed(channels), pieces).total as u64;
    let placed = (at + n / l) as u64;
    let end = later(captured, placed);
    let whole = recorded(unfed(channels), pieces);
    lemma_gap(captured as int, end as int, l);
    lemma_gap(placed as int, end as int, l);
    lemma_gap(0, at as int, l);
    assert(0 * l == 0);
    assert((end - captured) * l >= 0 && (end - placed) * l >= 0 && at * l >= 0) by (nonlinear_arith)
        requires
            end >= captured,
            end >= placed,
            at >= 0,
            l > 0,
    ;
    let rx = whole + silence(gap(captured, end, channels));
    let tx = Seq::<i16>::empty() + silence(gap(0, at, channels)) + prompt + silence(
        gap(placed, end, channels),
    );
    assert(gap(0, at, channels) == at * l);
    assert(gap(captured, end, channels) == (end - captured) * l) by {
        if end == captured {
            assert((end - captured) * l == 0) by (nonlinear_arith)
                requires
                    end == captured,
            ;
        }
    }
    assert(gap(placed, end, channels) == (end - placed) * l) by {
        if end == placed {
            assert((end - placed) * l == 0) by (nonlinear_arith)
                requires
                    end == placed,
            ;
        }
    }
    assert(placed * l == at * l + n);
    assert(rx.len() == end * l);
    assert(tx.len() == end * l);
    assert(rx.take(captured * l) =~= whole);
    assert(samples_in(pieces).take(captured * l) =~= whole);
    assert(tx.subrange(at * l, at * l + n) =~= prompt);
    lemma_every_frame(rx, end as int, l);
    lemma_every_frame(tx, end as int, l);
    let (t, x) = (every(tx, l), every(rx, l));
    let mix = mixed(t, x, tx_left);
    assert forall|i: int| 0 <= i < end implies {
        &&& #[trigger] mix[2 * i] == (if tx_left {
            tx[i * l]
        } else {
            rx[i * l]
        })
        &&& mix[2 * i + 1] == (if tx_left {
            rx[i * l]
        } else {
            tx[i * l]
        })
    } by {
        law_the_mix_keeps_the_sides_apart(t, x, tx_left, i);
    }
}

/// The two sides of a mix are the two legs.
pub proof fn law_the_mix_keeps_the_sides_apart(tx: Seq<i16>, rx: Seq<i16>, tx_left: bool, f: int)
    requires
        tx.len() == rx.len(),
        0 <= f < tx.len(),
    ensures
        mixed(tx, rx, tx_left)[2 * f] == (if tx_left {
            tx[f]
        } else {
            rx[f]
        }),
        mixed(tx, rx, tx_left)[2 * f + 1] == (if tx_left {
            rx[f]
        } else {
            tx[f]
        }),
{
    assert((2 * f) % 2 == 0 && (2 * f) / 2 == f && (2 * f + 1) % 2 == 1 && (2 * f + 1) / 2 == f);
}

/// A frame has one sample for each channel, and one where no channel is named.
pub proof fn law_a_frame_has_a_sample_per_channel(channels: u16, have: u64, want: u64)
    ensures
        lanes(0) == 1,
        channels > 0 ==> lanes(channels) == channels,
        want <= have ==> gap(have, want, channels) == 0,
        have <= want ==> gap(have, want, channels) == (want - have) * lanes(channels),
        later(have, want) == have || later(have, want) == want,
        later(have, want) >= have,
        later(have, want) >= want,
{
    if have == want {
        assert((want - have) * lanes(channels) == 0) by (nonlinear_arith)
            requires
                have == want,
        ;
    }
}

/// What is fed in while someone listens is heard, the first channel of each whole frame; while
/// nobody does, nothing is. A listener is told anew where none was listening before. Whole frames
/// are written either way.
pub proof fn law_the_listener_hears_the_first_channel(
    f: FeedText,
    samples: Seq<i16>,
    active: bool,
    i: int,
)
    requires
        f.channels > 0,
    ensures
        ({
            let (next, r) = fed(f, samples, active);
            let c = f.channels as int;
            &&& r.write + next.carry == f.carry + samples
            &&& next.carry.len() < c
            &&& r.write.len() as int % c == 0
            &&& r.mono is Some <==> active && r.write.len() > 0
            &&& r.fresh <==> active && r.write.len() > 0 && !f.was_active
            &&& next.was_active == if r.write.len() > 0 {
                active
            } else {
                f.was_active
            }
            &&& r.mono is Some && 0 <= i ==> {
                &&& i < r.mono->0.len() <==> i * c < r.write.len()
                &&& i < r.mono->0.len() ==> r.mono->0[i] == r.write[i * c]
            }
            &&& next.total * c == f.total * c + r.write.len()
        }),
{
    let c = f.channels as int;
    let all = f.carry + samples;
    let k = whole(all, c);
    lemma_whole(all.len() as int, c);
    assert(all.take(k) + all.skip(k) =~= all);
    let q = all.len() as int / c;
    assert((q * c) % c == 0) by (nonlinear_arith)
        requires
            c > 0,
    ;
    assert((f.total + q) * c == f.total * c + q * c) by (nonlinear_arith);
    if 0 <= i {
        super::backend::law_every_nth_sample_is_taken(all.take(k), c, i);
    }
    if k == 0 {
        assert(0int % c == 0);
    }
}

/// A listener is told in order: first how far the recording is, then that it starts anew, then
/// what is to be heard; and it is told nothing of what it need not know.
pub proof fn law_a_listener_is_told_in_order(total: nat, f: FedText)
    ensures
        f.write.len() > 0 ==> told(total, f)[0] == TapEvent::Clock(total),
        f.mono is Some ==> told(total, f).last() == TapEvent::Hear(f.mono->0),
        told(total, f).contains(TapEvent::Restart) <==> f.fresh,
        told(total, f).len() == (if f.write.len() > 0 {
            1int
        } else {
            0
        }) + (if f.fresh {
            1int
        } else {
            0
        }) + (if f.mono is Some {
            1int
        } else {
            0
        }),
{
    let t = told(total, f);
    let n: int = if f.write.len() > 0 {
        1
    } else {
        0
    };
    if f.fresh {
        assert(t[n] == TapEvent::Restart);
    }
}

/// Where one leg is shorter than the other, its side of the mix is silent from its end on.
pub proof fn law_the_shorter_leg_is_silent(tx: Seq<i16>, rx: Seq<i16>, tx_left: bool, f: int)
    requires
        0 <= f,
        f < tx.len() || f < rx.len(),
    ensures
        ({
            let t = if f < tx.len() {
                tx[f]
            } else {
                0i16
            };
            let x = if f < rx.len() {
                rx[f]
            } else {
                0i16
            };
            let m = mixed(tx, rx, tx_left);
            &&& 2 * f + 1 < m.len()
            &&& tx_left ==> m[2 * f] == t && m[2 * f + 1] == x
            &&& !tx_left ==> m[2 * f] == x && m[2 * f + 1] == t
        }),
        mixed(tx, rx, tx_left).len() == 2 * (if tx.len() < rx.len() {
            rx.len()
        } else {
            tx.len()
        }),
{
    assert((2 * f) % 2 == 0 && (2 * f) / 2 == f && (2 * f + 1) % 2 == 1 && (2 * f + 1) / 2 == f);
}

/// What is read of frames that came is the first of them, as much as there is room for, and the
/// rest is left for the next read.
pub proof fn law_what_is_not_read_is_left(
    there: Seq<i16>,
    room: nat,
    r: Result<usize, AudioError>,
    out: Seq<i16>,
    left: Seq<i16>,
)
    requires
        delivered(there, room, r, out, left),
    ensures
        r is Ok,
        r->Ok_0 <= room,
        r->Ok_0 <= there.len(),
        r->Ok_0 == room || r->Ok_0 == there.len(),
        out.take(r->Ok_0 as int) + left == there,
{
    let n = r->Ok_0 as int;
    assert(there.take(n) + there.skip(n) =~= there);
}

/// A leg of another shape is refused by name, with both numbers of channels.
pub proof fn law_a_leg_of_another_shape_is_named(
    leg: Seq<char>,
    channels: u16,
    source_channels: u16,
)
    requires
        source_channels > 0,
    ensures
        wrong_shape(leg, channels, source_channels) == leg + " sink has "@ + decimal(channels as nat)
            + " channel(s) but the capture yields "@ + decimal(source_channels as nat)
            + " — refusing to record a mislabeled file"@,
{
}

/// A feed starts with nothing carried over and nothing counted, and with nobody listening, so that
/// the first who listens is told anew.
pub proof fn law_a_feed_starts_afresh(channels: u16, samples: Seq<i16>)
    requires
        samples.len() >= lanes(channels),
    ensures
        unfed(channels).carry.len() == 0,
        unfed(channels).total == 0,
        unfed(channels).channels == lanes(channels),
        fed(unfed(channels), samples, true).1.fresh,
        !fed(unfed(channels), samples, false).1.fresh,
{
    let f = unfed(channels);
    let all = f.carry + samples;
    assert(all =~= samples);
    let c = f.channels as int;
    lemma_whole(all.len() as int, c);
    assert(all.len() as int / c >= 1) by (nonlinear_arith)
        requires
            all.len() >= c,
            c > 0,
    ;
}

} // verus!
