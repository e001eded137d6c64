//! Sources and sinks of audio samples.
//!
//! A [`CaptureSource`] yields interleaved 16-bit samples at a known rate and channel count; a
//! [`PlaybackSink`] takes samples. The reads of a source, and what a sink has taken and refused,
//! are part of their contracts, so that what is done to audio can be stated of whole streams.

use vstd::prelude::*;

verus! {

/// Why samples could not be read or written.
#[derive(Debug)]
pub enum AudioError {
    /// Nothing is there yet.
    WouldBlock,
    /// The device failed, with this text.
    Failed(String),
}

/// One read of a source: the samples that there was room for, and those that came.
pub struct ReadEvent {
    pub room: nat,
    pub got: Result<Seq<i16>, AudioError>,
}

/// The read that filled `out` with `r` samples, or failed.
pub open spec fn read_event(out: Seq<i16>, r: Result<usize, AudioError>) -> ReadEvent {
    ReadEvent {
        room: out.len(),
        got: match r {
            Ok(n) => Ok(out.take(n as int)),
            Err(e) => Err(e),
        },
    }
}

/// A source of interleaved samples.
pub trait CaptureSource {
    /// The reads so far.
    spec fn reads(&self) -> Seq<ReadEvent>;

    /// The number of interleaved channels.
    spec fn width(&self) -> u16;

    /// The sample rate.
    spec fn rate(&self) -> u32;

    /// Fills `out` with samples, and tells how many. None is the end of the stream. A source with
    /// several channels reads whole frames only.
    fn read(&mut self, out: &mut [i16]) -> (r: Result<usize, AudioError>)
        ensures
            final(out)@.len() == old(out)@.len(),
            final(self).width() == old(self).width(),
            final(self).rate() == old(self).rate(),
            final(self).reads() == old(self).reads().push(read_event(final(out)@, r)),
            r matches Ok(n) ==> {
                &&& n <= old(out)@.len()
                &&& old(self).width() > 1 ==> n as int % old(self).width() as int == 0
            },
    ;

    /// The sample rate.
    fn sample_rate(&self) -> (r: u32)
        ensures
            r == self.rate(),
    ;

    /// The number of interleaved channels.
    fn channels(&self) -> (r: u16)
        ensures
            r == self.width(),
    ;
}

/// A sink that plays or keeps samples.
pub trait PlaybackSink {
    /// Everything that has been written so far. How much of a write that failed is in it is left
    /// open.
    spec fn written(&self) -> Seq<i16>;

    /// Why writes have failed so far.
    spec fn refusals(&self) -> Seq<AudioError>;

    /// Writes all of `samples`.
    fn write(&mut self, samples: &[i16]) -> (r: Result<(), AudioError>)
        ensures
            match r {
                Ok(_) => {
                    &&& final(self).written() == old(self).written() + samples@
                    &&& final(self).refusals() == old(self).refusals()
                },
                Err(e) => final(self).refusals() == old(self).refusals().push(e),
            },
    ;

    /// Blocks until everything is played.
    fn flush(&mut self) -> (r: Result<(), AudioError>)
        ensures
            final(self).written() == old(self).written(),
            final(self).refusals() == old(self).refusals(),
    ;
}

/// A device that yields interleaved samples. Nothing is assumed of what it does.
pub trait RawSource {
    /// Reads samples into `out`, and tells how many. None means that the stream has ended.
    fn read(&mut self, out: &mut [i16]) -> Result<usize, AudioError>;

    /// The sample rate.
    fn sample_rate(&self) -> u32;

    /// The number of interleaved channels.
    fn channels(&self) -> u16;
}

/// One call of a device's read: the samples that there was room for, what they held afterwards,
/// and what the device said.
pub struct DeviceRead {
    pub room: nat,
    pub filled: Seq<i16>,
    pub said: Result<usize, AudioError>,
}

/// Whether a device that said `n` kept its word: it has filled that many samples, and no frame is
/// broken.
pub open spec fn keeps_frames(d: DeviceRead, n: usize, channels: u16) -> bool {
    &&& n <= d.room
    &&& n <= d.filled.len()
    &&& channels > 1 ==> n as int % channels as int == 0
}

/// Whether a read that had `was` before it and `out` after it passes on what a device did: the
/// samples that came, the device's failure, or that it broke its frames.
pub open spec fn passes_on(
    d: DeviceRead,
    channels: u16,
    was: Seq<i16>,
    out: Seq<i16>,
    r: Result<usize, AudioError>,
) -> bool {
    &&& out.len() == was.len()
    &&& match d.said {
        Ok(n) => if keeps_frames(d, n, channels) {
            &&& r == Ok::<usize, AudioError>(n)
            &&& out.take(n as int) == d.filled.take(n as int)
            &&& out.skip(n as int) == was.skip(n as int)
        } else {
            &&& r matches Err(AudioError::Failed(t))
            &&& t@ == "capture gave an incomplete frame"@
            &&& out == was
        },
        Err(e) => r == Err::<usize, AudioError>(e) && out == was,
    }
}

/// A device as a source: its shape is asked once, and a read that breaks it is a failure.
pub struct Source<R: RawSource> {
    pub device: R,
    pub asked_rate: u32,
    pub asked_channels: u16,
    /// The calls of the device's read so far.
    pub device_reads: Ghost<Seq<DeviceRead>>,
    /// The reads so far.
    pub log: Ghost<Seq<ReadEvent>>,
}

impl<R: RawSource> Source<R> {
    /// A source over a device.
    pub fn new(device: R) -> (r: Self)
        ensures
            r.device == device,
            r.device_reads@ == Seq::<DeviceRead>::empty(),
            r.reads() == Seq::<ReadEvent>::empty(),
    {
        let rate: u32 = device.sample_rate();
        let channels: u16 = device.channels();
        Source {
            device,
            asked_rate: rate,
            asked_channels: channels,
            device_reads: Ghost(Seq::empty()),
            log: Ghost(Seq::empty()),
        }
    }
}

impl<R: RawSource> Source<R> {
    fn read_device(&mut self, out: &mut [i16]) -> (r: Result<usize, AudioError>)
        ensures
            final(out)@.len() == old(out)@.len(),
            final(self).asked_rate == old(self).asked_rate,
            final(self).asked_channels == old(self).asked_channels,
            final(self).log == old(self).log,
            ({
                let d = final(self).device_reads@.last();
                &&& final(self).device_reads@ == old(self).device_reads@.push(d)
                &&& d.room == old(out)@.len()
                &&& passes_on(d, old(self).asked_channels, old(out)@, final(out)@, r)
            }),
    {
        let room: usize = out.len();
        let mut buf: Vec<i16> = Vec::new();
        buf.resize(room, 0);
        let said = self.device.read(buf.as_mut_slice());
        let ghost d = DeviceRead { room: room as nat, filled: buf@, said };
        self.device_reads = Ghost(self.device_reads@.push(d));
        let n: usize = match said {
            Ok(n) => n,
            Err(e) => {
                return Err(e);
            },
        };
        if n > room || n > buf.len() || (self.asked_channels > 1 && n % (self.asked_channels as usize) != 0) {
            return Err(AudioError::Failed("capture gave an incomplete frame".to_owned()));
        }
        let mut i: usize = 0;
        while i < n
            invariant
                i <= n <= out@.len(),
                n <= buf@.len(),
                out@.len() == old(out)@.len(),
                forall|k: int| 0 <= k < i ==> out@[k] == buf@[k],
                forall|k: int| i <= k < out@.len() ==> out@[k] == old(out)@[k],
            decreases n - i,
        {
            out[i] = buf[i];
            i += 1;
        }
        proof {
            assert(out@.take(n as int) =~= buf@.take(n as int));
            assert(out@.skip(n as int) =~= old(out)@.skip(n as int));
        }
        Ok(n)
    }
}

impl<R: RawSource> CaptureSource for Source<R> {
    open spec fn reads(&self) -> Seq<ReadEvent> {
        self.log@
    }

    open spec fn width(&self) -> u16 {
        self.asked_channels
    }

    open spec fn rate(&self) -> u32 {
        self.asked_rate
    }

    /// Reads the device once. What it yields is its own affair; that it fills more than there is
    /// room for, or breaks a frame, is a failure.
    fn read(&mut self, out: &mut [i16]) -> (r: Result<usize, AudioError>)
        ensures
            ({
                let d = final(self).device_reads@.last();
                &&& final(self).device_reads@ == old(self).device_reads@.push(d)
                &&& d.room == old(out)@.len()
                &&& passes_on(d, old(self).asked_channels, old(out)@, final(out)@, r)
            }),
    {
        let r = self.read_device(out);
        self.log = Ghost(self.log@.push(read_event(out@, r)));
        r
    }

    fn sample_rate(&self) -> (r: u32) {
        self.asked_rate
    }

    fn channels(&self) -> (r: u16) {
        self.asked_channels
    }
}

/// A device that plays or keeps samples. Nothing is assumed of what it does.
pub trait RawSink {
    /// Writes all of `samples`.
    fn write(&mut self, samples: &[i16]) -> Result<(), AudioError>;

    /// Blocks until everything is played.
    fn flush(&mut self) -> Result<(), AudioError>;
}

/// A device as a sink: what it took is kept track of.
pub struct Sink<R: RawSink> {
    pub device: R,
    /// What has been written.
    pub given: Ghost<Seq<i16>>,
    /// Why writes have failed.
    pub refused: Ghost<Seq<AudioError>>,
    /// What the device said each time that it was flushed.
    pub flushed: Ghost<Seq<Result<(), AudioError>>>,
}

impl<R: RawSink> Sink<R> {
    /// A sink over a device.
    pub fn new(device: R) -> (r: Self)
        ensures
            r.device == device,
            r.written() == Seq::<i16>::empty(),
            r.refusals() == Seq::<AudioError>::empty(),
            r.flushed@ == Seq::<Result<(), AudioError>>::empty(),
    {
        Sink {
            device,
            given: Ghost(Seq::empty()),
            refused: Ghost(Seq::empty()),
            flushed: Ghost(Seq::empty()),
        }
    }
}

impl<R: RawSink> PlaybackSink for Sink<R> {
    open spec fn written(&self) -> Seq<i16> {
        self.given@
    }

    open spec fn refusals(&self) -> Seq<AudioError> {
        self.refused@
    }

    fn write(&mut self, samples: &[i16]) -> (r: Result<(), AudioError>) {
        match self.device.write(samples) {
            Ok(_) => {
                self.given = Ghost(self.given@ + samples@);
                Ok(())
            },
            Err(e) => {
                self.refused = Ghost(self.refused@.push(e));
                Err(e)
            },
        }
    }

    fn flush(&mut self) -> (r: Result<(), AudioError>)
        ensures
            final(self).flushed@ == old(self).flushed@.push(r),
    {
        let r = self.device.flush();
        self.flushed = Ghost(self.flushed@.push(r));
        r
    }
}

/// Every `n`-th of some samples, from the first one on.
pub open spec fn every(s: Seq<i16>, n: int) -> Seq<i16> {
    Seq::new(((s.len() + n - 1) / n) as nat, |i: int| s[i * n])
}

/// Every `n`-th of some samples, from the first one on.
pub fn take_every(s: &[i16], n: usize) -> (r: Vec<i16>)
    requires
        n > 0,
    ensures
        r@ == every(s@, n as int),
{
    let mut out: Vec<i16> = Vec::new();
    let mut i: usize = 0;
    proof {
        lemma_every_len(0, n as int);
        assert(out@ =~= every(s@.take(0), n as int));
    }
    while i < s.len()
        invariant
            i <= s.len(),
            n > 0,
            out@ == every(s@.take(i as int), n as int),
        decreases s.len() - i,
    {
        proof {
            lemma_every_push(s@.take(i as int), s@[i as int], n as int);
            assert(s@.take(i + 1) =~= s@.take(i as int).push(s@[i as int]));
        }
        if i % n == 0 {
            out.push(s[i]);
        }
        i += 1;
    }
    proof {
        assert(s@.take(i as int) =~= s@);
    }
    out
}

proof fn lemma_every_len(len: int, n: int)
    requires
        len >= 0,
        n > 0,
    ensures
        (len + n - 1) / n == (if len % n == 0 {
            len / n
        } else {
            len / n + 1
        }),
{
    let q = len / n;
    let m = len % n;
    assert(len == q * n + m) by (nonlinear_arith)
        requires
            n > 0,
            q == len / n,
            m == len % n,
    ;
    assert(0 <= m < n) by (nonlinear_arith)
        requires
            n > 0,
            m == len % n,
    ;
    if m == 0 {
        assert((q * n + n - 1) / n == q) by (nonlinear_arith)
            requires
                n > 0,
        ;
    } else {
        assert((q * n + m + n - 1) / n == q + 1) by (nonlinear_arith)
            requires
                n > 0,
                1 <= m < n,
        ;
    }
}

proof fn lemma_every_push(s: Seq<i16>, x: i16, n: int)
    requires
        n > 0,
    ensures
        every(s.push(x), n) == (if s.len() as int % n == 0 {
            every(s, n).push(x)
        } else {
            every(s, n)
        }),
{
    let len = s.len() as int;
    lemma_every_len(len, n);
    lemma_every_len(len + 1, n);
    let q = len / n;
    let m = len % n;
    assert(len == q * n + m && 0 <= m < n) by (nonlinear_arith)
        requires
            n > 0,
            q == len / n,
            m == len % n,
    ;
    if m + 1 == n {
        assert((len + 1) / n == q + 1 && (len + 1) % n == 0) by (nonlinear_arith)
            requires
                n > 0,
                len == q * n + m,
                m + 1 == n,
        ;
    } else {
        assert((len + 1) / n == q && (len + 1) % n == m + 1) by (nonlinear_arith)
            requires
                n > 0,
                len == q * n + m,
                0 <= m,
                m + 1 < n,
        ;
    }
    let count = every(s, n).len() as int;
    let all = s.push(x);
    assert forall|i: int| 0 <= i < count implies #[trigger] every(s, n)[i] == all[i * n] && i * n
        < len by {
        assert(0 <= i * n) by (nonlinear_arith)
            requires
                0 <= i,
                n > 0,
        ;
        if m == 0 {
            assert(i * n < q * n) by (nonlinear_arith)
                requires
                    i < q,
                    n > 0,
            ;
        } else {
            assert(i * n <= q * n) by (nonlinear_arith)
                requires
                    i <= q,
                    n > 0,
            ;
        }
    }
    let a = every(s.push(x), n);
    if m == 0 {
        let b = every(s, n).push(x);
        assert(a.len() == b.len()) by {
            assert(count == q);
            if n == 1 {
                assert((len + 1) / n == q + 1);
            }
        }
        assert forall|i: int| 0 <= i < a.len() implies a[i] == b[i] by {
            if i == q {
                assert(q * n == len);
            } else {
                assert(every(s, n)[i] == all[i * n]);
            }
        }
        assert(a =~= b);
    } else {
        assert forall|i: int| 0 <= i < a.len() implies a[i] == every(s, n)[i] by {
            assert(every(s, n)[i] == all[i * n]);
        }
        assert(a =~= every(s, n));
    }
}

/// Reduces a source with several channels to one of them.
///
/// One channel is picked rather than all averaged: on some hardware the other channels carry our
/// own playback, which must not be taken for the far end. The first channel is the call by
/// convention.
pub struct DownmixMono<C: CaptureSource> {
    pub inner: C,
    pub channel: usize,
    pub buf: Vec<i16>,
    /// The reads so far.
    pub log: Ghost<Seq<ReadEvent>>,
}

/// The channel that is picked of `width` channels.
pub open spec fn picked(channel: usize, width: u16) -> int {
    if channel as int >= width as int {
        width - 1
    } else {
        channel as int
    }
}

impl<C: CaptureSource> DownmixMono<C> {
    /// Keeps the first channel of a source.
    pub fn new(inner: C) -> (r: Self)
        ensures
            r.inner == inner,
            r.channel == 0,
            r.reads() == Seq::<ReadEvent>::empty(),
    {
        DownmixMono::channel(inner, 0)
    }

    /// Keeps one channel of a source: the last one where it has fewer.
    pub fn channel(inner: C, channel: usize) -> (r: Self)
        ensures
            r.inner == inner,
            r.channel == channel,
            r.reads() == Seq::<ReadEvent>::empty(),
    {
        DownmixMono { inner, channel, buf: Vec::new(), log: Ghost(Seq::empty()) }
    }
}

/// Whether `out` holds one channel of `chunk`: that of its frames that fit.
pub open spec fn is_downmix(chunk: Seq<i16>, width: int, pick: int, out: Seq<i16>, n: nat, room: nat) -> bool {
    let frames = chunk.len() as int / width;
    &&& n == (if frames < room {
        frames
    } else {
        room as int
    })
    &&& forall|i: int| 0 <= i < n ==> #[trigger] out[i] == chunk[i * width + pick]
}

/// The samples that are asked of a source with several channels, for `room` of one channel: one
/// frame at least.
pub open spec fn asked_of(width: u16, room: nat) -> nat {
    let all = room * width as nat;
    if room == 0 {
        width as nat
    } else if all > usize::MAX {
        usize::MAX as nat
    } else {
        all
    }
}

impl<C: CaptureSource> DownmixMono<C> {
    fn read_frames(&mut self, out: &mut [i16]) -> (r: Result<usize, AudioError>)
        requires
            old(self).inner.width() > 1,
        ensures
            final(out)@.len() == old(out)@.len(),
            final(self).channel == old(self).channel,
            final(self).log == old(self).log,
            final(self).inner.width() == old(self).inner.width(),
            final(self).inner.rate() == old(self).inner.rate(),
            r matches Ok(n) ==> n <= old(out)@.len(),
            ({
                let width = old(self).inner.width();
                let event = final(self).inner.reads().last();
                &&& final(self).inner.reads() == old(self).inner.reads().push(event)
                &&& event.room == asked_of(width, old(out)@.len())
                &&& match event.got {
                    Ok(chunk) => r matches Ok(n) && is_downmix(
                        chunk,
                        width as int,
                        picked(old(self).channel, width),
                        final(out)@,
                        n as nat,
                        old(out)@.len(),
                    ),
                    Err(e) => r == Err::<usize, AudioError>(e),
                }
            }),
    {
        let ch: usize = self.inner.channels() as usize;
        let room: usize = out.len();
        let pick: usize = if self.channel >= ch {
            ch - 1
        } else {
            self.channel
        };
        let want: usize = if room == 0 {
            ch
        } else {
            match room.checked_mul(ch) {
                Some(w) => w,
                None => usize::MAX,
            }
        };
        self.buf.resize(want, 0);
        let read = self.inner.read(self.buf.as_mut_slice());
        proof {
            assert(self.inner.reads().last() == read_event(self.buf@, read));
        }
        let got: usize = match read {
            Ok(n) => n,
            Err(e) => {
                return Err(e);
            },
        };
        let ghost chunk = self.buf@.take(got as int);
        let frames: usize = got / ch;
        let n: usize = if frames < room {
            frames
        } else {
            room
        };
        let mut i: usize = 0;
        while i < n
            invariant
                i <= n,
                n <= frames,
                n <= room,
                room == out@.len(),
                frames == got / ch,
                ch > 1,
                pick < ch,
                got <= self.buf@.len(),
                chunk == self.buf@.take(got as int),
                forall|j: int| 0 <= j < i ==> #[trigger] out@[j] == chunk[j * ch as int + pick as int],
            decreases n - i,
        {
            proof {
                lemma_within(i as int, ch as int, pick as int, got as int);
            }
            out[i] = self.buf[i * ch + pick];
            i += 1;
        }
        proof {
            assert(is_downmix(chunk, ch as int, pick as int, out@, n as nat, room as nat));
        }
        Ok(n)
    }
}

impl<C: CaptureSource> CaptureSource for DownmixMono<C> {
    open spec fn reads(&self) -> Seq<ReadEvent> {
        self.log@
    }

    open spec fn width(&self) -> u16 {
        1
    }

    open spec fn rate(&self) -> u32 {
        self.inner.rate()
    }

    /// Reads as many frames as fit, in one read of the source. From a source with one channel,
    /// this is its own read; from one with several, the picked channel of each frame.
    fn read(&mut self, out: &mut [i16]) -> (r: Result<usize, AudioError>)
        ensures
            final(self).channel == old(self).channel,
            final(self).inner.width() == old(self).inner.width(),
            ({
                let width = old(self).inner.width();
                let event = final(self).inner.reads().last();
                &&& final(self).inner.reads() == old(self).inner.reads().push(event)
                &&& if width <= 1 {
                    event == read_event(final(out)@, r)
                } else {
                    &&& event.room == asked_of(width, old(out)@.len())
                    &&& match event.got {
                        Ok(chunk) => r matches Ok(n) && is_downmix(
                            chunk,
                            width as int,
                            picked(old(self).channel, width),
                            final(out)@,
                            n as nat,
                            old(out)@.len(),
                        ),
                        Err(e) => r == Err::<usize, AudioError>(e),
                    }
                }
            }),
    {
        let r = if self.inner.channels() <= 1 {
            self.inner.read(out)
        } else {
            self.read_frames(out)
        };
        self.log = Ghost(self.log@.push(read_event(out@, r)));
        r
    }

    fn sample_rate(&self) -> (r: u32) {
        self.inner.sample_rate()
    }

    fn channels(&self) -> (r: u16) {
        1
    }
}

proof fn lemma_within(i: int, ch: int, pick: int, got: int)
    requires
        0 <= i < got / ch,
        ch > 1,
        0 <= pick < ch,
        got >= 0,
    ensures
        0 <= i * ch <= i * ch + pick < got,
{
    assert(0 <= i * ch && i * ch + ch <= got) by (nonlinear_arith)
        requires
            0 <= i < got / ch,
            ch > 1,
            got >= 0,
    ;
}

/// The samples of a file, read as a capture: one channel, the first one where the file has
/// several.
pub struct WavFileSource {
    pub samples: Vec<i16>,
    pub pos: usize,
    pub sample_rate: u32,
    /// The reads so far.
    pub log: Ghost<Seq<ReadEvent>>,
}

impl WavFileSource {
    /// A source over the interleaved samples of a file.
    pub fn new(all: Vec<i16>, channels: u16, sample_rate: u32) -> (r: Self)
        ensures
            r.samples@ == (if channels <= 1 {
                all@
            } else {
                every(all@, channels as int)
            }),
            r.pos == 0,
            r.sample_rate == sample_rate,
            r.reads() == Seq::<ReadEvent>::empty(),
    {
        let samples = if channels <= 1 {
            all
        } else {
            take_every(all.as_slice(), channels as usize)
        };
        WavFileSource { samples, pos: 0, sample_rate, log: Ghost(Seq::empty()) }
    }
}

impl CaptureSource for WavFileSource {
    open spec fn reads(&self) -> Seq<ReadEvent> {
        self.log@
    }

    open spec fn width(&self) -> u16 {
        1
    }

    open spec fn rate(&self) -> u32 {
        self.sample_rate
    }

    fn read(&mut self, out: &mut [i16]) -> (r: Result<usize, AudioError>)
        ensures
            final(self).samples == old(self).samples,
            ({
                let left = if old(self).pos >= old(self).samples@.len() {
                    0
                } else {
                    old(self).samples@.len() - old(self).pos
                };
                &&& r matches Ok(n)
                &&& n == (if left < old(out)@.len() {
                    left
                } else {
                    old(out)@.len() as int
                })
                &&& final(self).pos == old(self).pos + n
                &&& forall|i: int|
                    0 <= i < n ==> #[trigger] final(out)@[i] == old(self).samples@[old(self).pos + i]
            }),
    {
        let room: usize = out.len();
        let from: usize = self.pos;
        let mut n: usize = 0;
        while n < room && self.pos < self.samples.len()
            invariant
                n <= room,
                room == out@.len(),
                from <= self.samples@.len() ==> from + n == self.pos,
                from <= self.samples@.len() ==> self.pos <= self.samples@.len(),
                from > self.samples@.len() ==> n == 0 && self.pos == from,
                self.samples == old(self).samples,
                self.sample_rate == old(self).sample_rate,
                self.log == old(self).log,
                forall|j: int| 0 <= j < n ==> #[trigger] out@[j] == self.samples@[from + j],
            decreases room - n,
        {
            out[n] = self.samples[self.pos];
            n += 1;
            self.pos = self.pos + 1;
        }
        self.log = Ghost(self.log@.push(read_event(out@, Ok(n))));
        Ok(n)
    }

    fn sample_rate(&self) -> (r: u32) {
        self.sample_rate
    }

    fn channels(&self) -> (r: u16) {
        1
    }
}

/// A sink that keeps its samples in memory.
#[derive(Debug)]
pub struct MemorySink {
    pub samples: Vec<i16>,
}

impl MemorySink {
    /// An empty sink.
    pub fn new() -> (r: Self)
        ensures
            r.written() == Seq::<i16>::empty(),
    {
        MemorySink { samples: Vec::new() }
    }
}

impl PlaybackSink for MemorySink {
    open spec fn written(&self) -> Seq<i16> {
        self.samples@
    }

    open spec fn refusals(&self) -> Seq<AudioError> {
        Seq::empty()
    }

    fn write(&mut self, samples: &[i16]) -> (r: Result<(), AudioError>)
        ensures
            r is Ok,
    {
        let ghost had = self.samples@;
        let mut i: usize = 0;
        while i < samples.len()
            invariant
                i <= samples.len(),
                self.samples@ == had + samples@.take(i as int),
            decreases samples.len() - i,
        {
            self.samples.push(samples[i]);
            i += 1;
            proof {
                assert(self.samples@ =~= had + samples@.take(i as int));
            }
        }
        proof {
            assert(samples@.take(i as int) =~= samples@);
        }
        Ok(())
    }

    fn flush(&mut self) -> (r: Result<(), AudioError>)
        ensures
            r is Ok,
    {
        Ok(())
    }
}

/// What is said of a failure.
pub fn audio_error_text(e: &AudioError) -> (r: String)
    ensures
        r@ == (match *e {
            AudioError::WouldBlock => "no capture frame yet"@,
            AudioError::Failed(t) => t@,
        }),
{
    match e {
        AudioError::WouldBlock => "no capture frame yet".to_owned(),
        AudioError::Failed(t) => t.clone(),
    }
}

/// The channel that is picked is the one that was asked for, or the last where there are fewer.
pub proof fn law_the_picked_channel_is_there(channel: usize, width: u16)
    requires
        width > 0,
    ensures
        0 <= picked(channel, width) < width,
        channel < width ==> picked(channel, width) == channel,
        channel >= width ==> picked(channel, width) == width - 1,
{
}

/// One channel of several is read frame by frame: each sample is that channel's of its frame, and
/// there are as many as frames came and as there is room for.
pub proof fn law_one_channel_of_each_frame(
    chunk: Seq<i16>,
    width: int,
    pick: int,
    out: Seq<i16>,
    n: nat,
    room: nat,
    i: int,
)
    requires
        width > 0,
        is_downmix(chunk, width, pick, out, n, room),
    ensures
        n <= room,
        n == room || n == chunk.len() as int / width,
        0 <= i < n ==> out[i] == chunk[i * width + pick],
{
}

/// A read of several channels asks for room for all of them, and never for less than a frame.
pub proof fn law_there_is_room_for_every_channel(width: u16, room: nat)
    requires
        width > 0,
        room * width <= usize::MAX,
    ensures
        room > 0 ==> asked_of(width, room) == room * width,
        room == 0 ==> asked_of(width, room) == width,
{
}

/// What a device says that it has filled is handed on as it is; a device that breaks a frame, or
/// says more than it has, fails, and nothing is handed on.
pub proof fn law_a_devices_word_is_checked(
    d: DeviceRead,
    channels: u16,
    was: Seq<i16>,
    out: Seq<i16>,
    r: Result<usize, AudioError>,
)
    requires
        passes_on(d, channels, was, out, r),
    ensures
        r matches Ok(n) ==> {
            &&& d.said == Ok::<usize, AudioError>(n)
            &&& n <= d.room
            &&& n <= d.filled.len()
            &&& channels > 1 ==> n as int % channels as int == 0
            &&& out.take(n as int) == d.filled.take(n as int)
        },
        r is Err ==> out == was,
        d.said is Err ==> r == d.said,
        d.said matches Ok(n) && n <= d.room && n <= d.filled.len() && (channels > 1 ==> n as int
            % channels as int == 0) ==> r is Ok,
{
}

/// Every `n`th sample is taken, from the first on.
pub proof fn law_every_nth_sample_is_taken(s: Seq<i16>, n: int, i: int)
    requires
        n > 0,
        0 <= i,
    ensures
        i < every(s, n).len() <==> i * n < s.len(),
        i < every(s, n).len() ==> every(s, n)[i] == s[i * n],
{
    let l = s.len() as int;
    let q = (l + n - 1) / n;
    assert(q * n >= l && (q - 1) * n < l) by (nonlinear_arith)
        requires
            n > 0,
            l >= 0,
            q == (l + n - 1) / n,
    ;
    assert(q >= 0) by (nonlinear_arith)
        requires
            n > 0,
            l >= 0,
            q == (l + n - 1) / n,
    ;
    if i < q {
        assert(i * n <= (q - 1) * n) by (nonlinear_arith)
            requires
                i <= q - 1,
                n > 0,
        ;
    } else {
        assert(i * n >= q * n) by (nonlinear_arith)
            requires
                i >= q,
                n > 0,
        ;
    }
}

} // verus!
