//! Samples through the pipes of external tools.
//!
//! A pipe can hand over any number of bytes at a time. [`FrameAssembler`] keeps the bytes of an
//! incomplete frame, so that neither the bytes of a sample nor the channels of a frame are ever
//! parted.

use vstd::prelude::*;

use super::backend::{AudioError, CaptureSource, ReadEvent};
#[allow(unused_imports)]
use super::backend::read_event;
use super::tool_detect::{CaptureCommand, PlaybackCommand};
use crate::text;

verus! {

/// Milliseconds between two looks at a playback tool.
pub const PLAYBACK_POLL_MS: u64 = 50;

/// The sample that two bytes write, the low one first.
pub open spec fn sample(lo: u8, hi: u8) -> i16 {
    let v = lo as int + 256 * (hi as int);
    if v >= 32768 {
        (v - 65536) as i16
    } else {
        v as i16
    }
}

/// A sample as a number without sign.
pub open spec fn unsigned(s: i16) -> int {
    if s < 0 {
        s as int + 65536
    } else {
        s as int
    }
}

/// The low byte of a sample.
pub open spec fn low_byte(s: i16) -> u8 {
    (unsigned(s) % 256) as u8
}

/// The high byte of a sample.
pub open spec fn high_byte(s: i16) -> u8 {
    (unsigned(s) / 256) as u8
}

/// The samples that bytes write. An odd byte at the end writes none.
pub open spec fn decoded(bytes: Seq<u8>) -> Seq<i16> {
    Seq::new((bytes.len() / 2) as nat, |i: int| sample(bytes[2 * i], bytes[2 * i + 1]))
}

/// The bytes that write samples.
pub open spec fn encoded(pcm: Seq<i16>) -> Seq<u8> {
    Seq::new(
        (2 * pcm.len()) as nat,
        |i: int|
            if i % 2 == 0 {
                low_byte(pcm[i / 2])
            } else {
                high_byte(pcm[i / 2])
            },
    )
}

fn to_sample(lo: u8, hi: u8) -> (r: i16)
    ensures
        r == sample(lo, hi),
{
    let v: i32 = lo as i32 + 256 * (hi as i32);
    if v >= 32768 {
        (v - 65536) as i16
    } else {
        v as i16
    }
}

/// The bytes that write samples, for a tool that reads them from its input.
pub fn encode_pcm(pcm: &[i16]) -> (r: Vec<u8>)
    ensures
        r@ == encoded(pcm@),
{
    let mut out: Vec<u8> = Vec::new();
    let mut i: usize = 0;
    proof {
        assert(out@ =~= encoded(pcm@.take(0)));
    }
    while i < pcm.len()
        invariant
            i <= pcm.len(),
            out@ == encoded(pcm@.take(i as int)),
        decreases pcm.len() - i,
    {
        let s: i16 = pcm[i];
        let u: i32 = if s < 0 {
            s as i32 + 65536
        } else {
            s as i32
        };
        let ghost had = out@;
        out.push((u % 256) as u8);
        out.push((u / 256) as u8);
        proof {
            let next = pcm@.take(i + 1);
            assert(out@ =~= encoded(next)) by {
                assert forall|j: int| 0 <= j < out@.len() implies out@[j] == encoded(next)[j] by {
                    if j < had.len() {
                        assert(encoded(pcm@.take(i as int))[j] == had[j]);
                        assert(next[j / 2] == pcm@.take(i as int)[j / 2]);
                    } else {
                        assert(next[j / 2] == s);
                    }
                }
            }
        }
        i += 1;
    }
    proof {
        assert(pcm@.take(i as int) =~= pcm@);
    }
    out
}

/// The number of whole frames that some bytes make and that fit.
pub open spec fn frames_in(bytes: nat, room: nat, channels: u16) -> int {
    let have = bytes as int / (2 * channels as int);
    let fit = room as int / channels as int;
    if have < fit {
        have
    } else {
        fit
    }
}

/// Turns the bytes of a capture tool into whole frames of samples.
#[derive(Debug)]
pub struct FrameAssembler {
    pub channels: u16,
    /// Bytes that have come and are not delivered yet.
    pub leftover: Vec<u8>,
}

impl FrameAssembler {
    /// Whether there is a channel.
    pub open spec fn wf(self) -> bool {
        self.channels > 0
    }

    /// The bytes of one frame.
    pub open spec fn frame_bytes(self) -> int {
        2 * self.channels
    }

    /// An assembler without bytes.
    pub fn new(channels: u16) -> (r: Self)
        ensures
            r.wf(),
            r.channels == (if channels == 0 {
                1
            } else {
                channels
            }),
            r.leftover@.len() == 0,
    {
        FrameAssembler {
            channels: if channels == 0 {
                1
            } else {
                channels
            },
            leftover: Vec::new(),
        }
    }

    /// Whether a whole frame has come.
    pub fn ready(&self) -> (r: bool)
        requires
            self.wf(),
        ensures
            r == (self.leftover@.len() >= self.frame_bytes()),
    {
        self.leftover.len() >= 2 * (self.channels as usize)
    }

    /// Takes bytes in.
    pub fn push(&mut self, bytes: &[u8])
        ensures
            final(self).leftover@ == old(self).leftover@ + bytes@,
            final(self).channels == old(self).channels,
    {
        let ghost had = self.leftover@;
        let mut i: usize = 0;
        while i < bytes.len()
            invariant
                i <= bytes.len(),
                self.leftover@ == had + bytes@.take(i as int),
                self.channels == old(self).channels,
            decreases bytes.len() - i,
        {
            self.leftover.push(bytes[i]);
            i += 1;
            proof {
                assert(self.leftover@ =~= had + bytes@.take(i as int));
            }
        }
        proof {
            assert(bytes@.take(i as int) =~= bytes@);
        }
    }

    /// The number of whole frames that are there and fit.
    pub open spec fn frames_for(self, room: nat) -> int {
        frames_in(self.leftover@.len(), room, self.channels)
    }

    /// Delivers as many whole frames as are there and fit, and tells how many samples that are.
    /// The rest of the bytes stays for the next time.
    pub fn take(&mut self, out: &mut [i16]) -> (r: usize)
        requires
            old(self).wf(),
        ensures
            final(self).wf(),
            final(self).channels == old(self).channels,
            final(out)@.len() == old(out)@.len(),
            r == old(self).frames_for(old(out)@.len()) * old(self).channels,
            r <= old(out)@.len(),
            final(self).leftover@ == old(self).leftover@.skip(2 * r),
            decoded(old(self).leftover@) == final(out)@.take(r as int) + decoded(
                final(self).leftover@,
            ),
            forall|i: int| r <= i < old(out)@.len() ==> final(out)@[i] == old(out)@[i],
    {
        let ch: usize = self.channels as usize;
        let fb: usize = 2 * ch;
        let room: usize = out.len();
        let have: usize = self.leftover.len() / fb;
        let fit: usize = room / ch;
        let frames: usize = if have < fit {
            have
        } else {
            fit
        };
        proof {
            lemma_frames(frames as int, ch as int, self.leftover@.len() as int, room as int);
        }
        let n: usize = frames * ch;
        let total: usize = self.leftover.len();
        let ghost bytes = self.leftover@;
        let ghost was = out@;
        let mut i: usize = 0;
        while i < n
            invariant
                i <= n,
                n <= room,
                room == out@.len(),
                was.len() == room,
                2 * n <= total,
                total == bytes.len(),
                self.leftover@ == bytes,
                self.channels == old(self).channels,
                forall|j: int| 0 <= j < i ==> #[trigger] out@[j] == sample(bytes[2 * j], bytes[2 * j + 1]),
                forall|j: int| i <= j < room ==> #[trigger] out@[j] == was[j],
            decreases n - i,
        {
            let v: i16 = to_sample(self.leftover[2 * i], self.leftover[2 * i + 1]);
            out[i] = v;
            i += 1;
        }
        let rest = self.leftover.split_off(2 * n);
        self.leftover = rest;
        proof {
            assert(self.leftover@ =~= bytes.skip(2 * n));
            assert(decoded(bytes) =~= out@.take(n as int) + decoded(self.leftover@));
        }
        n
    }
}

proof fn lemma_frames(frames: int, ch: int, bytes: int, room: int)
    requires
        ch > 0,
        bytes >= 0,
        room >= 0,
        0 <= frames <= bytes / (2 * ch),
        frames <= room / ch,
    ensures
        0 <= frames * ch <= room,
        2 * (frames * ch) <= bytes,
{
    assert(0 <= frames * ch <= room) by (nonlinear_arith)
        requires
            ch > 0,
            room >= 0,
            0 <= frames,
            frames <= room / ch,
    ;
    assert(2 * (frames * ch) <= bytes) by (nonlinear_arith)
        requires
            ch > 0,
            bytes >= 0,
            0 <= frames <= bytes / (2 * ch),
    ;
}

/// The output of a capture tool. Nothing is assumed of what it does.
pub trait RawPipe {
    /// Reads bytes into `buf`, and tells how many. None means that the tool has ended.
    fn read(&mut self, buf: &mut [u8]) -> Result<usize, String>;
}

/// A capture that an external tool makes: its output is read as samples.
pub struct CommandCaptureSource<P: RawPipe> {
    pub pipe: P,
    pub sample_rate: u32,
    pub frames: FrameAssembler,
    pub byte_buf: Vec<u8>,
    /// What the pipe was asked for so far: the bytes that came, or why none did.
    pub pulls: Ghost<Seq<Result<Seq<u8>, String>>>,
    /// The reads so far.
    pub log: Ghost<Seq<ReadEvent>>,
}

/// The bytes that some pulls brought.
pub open spec fn bytes_of(pulls: Seq<Result<Seq<u8>, String>>) -> Seq<u8>
    decreases pulls.len(),
{
    if pulls.len() == 0 {
        Seq::empty()
    } else {
        bytes_of(pulls.drop_last()) + (match pulls.last() {
            Ok(b) => b,
            Err(_) => Seq::empty(),
        })
    }
}

/// Whether a pull brought bytes.
pub open spec fn brings(pull: Result<Seq<u8>, String>) -> bool {
    pull matches Ok(b) && b.len() > 0
}

/// Whether a read came of some pulls: the pipe is asked until a whole frame is there, and the whole
/// frames that fit are delivered. Nothing is delivered at the end of the pipe, whatever is left of
/// a frame, nor where not even one frame fits.
pub open spec fn assembled(
    was: FrameAssembler,
    now: FrameAssembler,
    pulls: Seq<Result<Seq<u8>, String>>,
    out: Seq<i16>,
    r: Result<usize, AudioError>,
) -> bool {
    let bytes = was.leftover@ + bytes_of(pulls);
    let frame = was.frame_bytes();
    &&& now.channels == was.channels
    &&& forall|i: int| 0 <= i < pulls.len() - 1 ==> brings(#[trigger] pulls[i])
    &&& forall|i: int|
        0 <= i < pulls.len() ==> was.leftover@.len() + bytes_of(#[trigger] pulls.take(i)).len() < frame
    &&& match r {
        Err(e) => {
            &&& pulls.len() > 0
            &&& e matches AudioError::Failed(why) && pulls.last() == Err::<Seq<u8>, String>(why)
            &&& now.leftover@ == bytes
        },
        Ok(n) => if out.len() < was.channels {
            n == 0 && pulls.len() == 0 && now.leftover@ == bytes
        } else if bytes.len() < frame {
            &&& n == 0
            &&& pulls.len() > 0
            &&& pulls.last() == Ok::<Seq<u8>, String>(Seq::empty())
            &&& now.leftover@ == bytes
        } else {
            &&& pulls.len() > 0 ==> brings(pulls.last())
            &&& n == frames_in(bytes.len(), out.len(), was.channels) * was.channels
            &&& out.take(n as int) == decoded(bytes).take(n as int)
            &&& now.leftover@ == bytes.skip(2 * n)
        },
    }
}

impl<P: RawPipe> CommandCaptureSource<P> {
    /// A capture of which nothing has been read.
    pub fn new(pipe: P, sample_rate: u32, channels: u16) -> (r: Self)
        ensures
            r.pipe == pipe,
            r.rate() == sample_rate,
            r.width() == (if channels == 0 {
                1
            } else {
                channels
            }),
            r.frames.wf(),
            r.frames.leftover@.len() == 0,
            r.pulls@.len() == 0,
            r.reads() == Seq::<ReadEvent>::empty(),
    {
        CommandCaptureSource {
            pipe,
            sample_rate,
            frames: FrameAssembler::new(channels),
            byte_buf: Vec::new(),
            pulls: Ghost(Seq::empty()),
            log: Ghost(Seq::empty()),
        }
    }

    fn pull(&mut self, room: usize) -> (r: Result<usize, String>)
        ensures
            final(self).sample_rate == old(self).sample_rate,
            final(self).frames.channels == old(self).frames.channels,
            final(self).log == old(self).log,
            match r {
                Ok(n) => {
                    &&& final(self).pulls@.len() == old(self).pulls@.len() + 1
                    &&& final(self).pulls@.drop_last() == old(self).pulls@
                    &&& final(self).pulls@.last() matches Ok(b) && b.len() == n
                        && final(self).frames.leftover@ == old(self).frames.leftover@ + b
                },
                Err(e) => {
                    &&& final(self).pulls@ == old(self).pulls@.push(Err(e))
                    &&& final(self).frames == old(self).frames
                },
            },
    {
        self.byte_buf.resize(room, 0);
        let read = self.pipe.read(self.byte_buf.as_mut_slice());
        match read {
            Ok(n) => if n <= self.byte_buf.len() {
                let part = vstd::slice::slice_subrange(self.byte_buf.as_slice(), 0, n);
                let ghost b = part@;
                self.frames.push(part);
                self.pulls = Ghost(self.pulls@.push(Ok(b)));
                proof {
                    assert(self.pulls@.drop_last() =~= old(self).pulls@);
                }
                Ok(n)
            } else {
                let e = "capture gave more than it was asked for".to_owned();
                self.pulls = Ghost(self.pulls@.push(Err(e)));
                Err(e)
            },
            Err(e) => {
                self.pulls = Ghost(self.pulls@.push(Err(e)));
                Err(e)
            },
        }
    }

    fn read_frames(&mut self, out: &mut [i16]) -> (r: Result<usize, AudioError>)
        requires
            old(self).frames.wf(),
        ensures
            final(self).sample_rate == old(self).sample_rate,
            final(self).log == old(self).log,
            final(out)@.len() == old(out)@.len(),
            r matches Ok(n) ==> n <= old(out)@.len() && n as int % old(self).frames.channels as int == 0,
            old(self).pulls@.len() <= final(self).pulls@.len(),
            final(self).pulls@.take(old(self).pulls@.len() as int) == old(self).pulls@,
            assembled(
                old(self).frames,
                final(self).frames,
                final(self).pulls@.skip(old(self).pulls@.len() as int),
                final(out)@,
                r,
            ),
    {
        let ch: usize = self.frames.channels as usize;
        let ghost from = self.pulls@.len() as int;
        let ghost was = self.frames;
        proof {
            assert(self.pulls@.skip(from) =~= Seq::empty());
            assert(was.leftover@ + bytes_of(Seq::empty()) =~= was.leftover@);
            assert(self.pulls@.take(from) =~= self.pulls@);
            assert(0int % ch as int == 0) by (nonlinear_arith)
                requires
                    ch > 0,
            ;
        }
        if out.len() < ch {
            return Ok(0);
        }
        let fit: usize = out.len() / ch;
        proof {
            assert(1 <= fit && fit * ch <= out@.len() && ch <= fit * ch) by (nonlinear_arith)
                requires
                    fit == out@.len() as int / ch as int,
                    ch > 0,
                    out@.len() >= ch,
            ;
        }
        let room: usize = match (fit * ch).checked_mul(2) {
            Some(n) => n,
            None => 2 * ch,
        };
        while !self.frames.ready()
            invariant
                ch == was.channels,
                ch > 0,
                was == old(self).frames,
                from == old(self).pulls@.len(),
                self.frames.channels == was.channels,
                self.sample_rate == old(self).sample_rate,
                self.log == old(self).log,
                from <= self.pulls@.len(),
                self.pulls@.take(from) == old(self).pulls@,
                self.frames.leftover@ == was.leftover@ + bytes_of(self.pulls@.skip(from)),
                forall|i: int|
                    0 <= i < self.pulls@.skip(from).len() ==> brings(#[trigger] self.pulls@.skip(from)[i]),
                forall|i: int|
                    0 <= i < self.pulls@.skip(from).len() ==> was.leftover@.len() + bytes_of(
                        #[trigger] self.pulls@.skip(from).take(i),
                    ).len() < was.frame_bytes(),
                out@ == old(out)@,
                out@.len() >= ch,
            decreases
                    if self.frames.leftover@.len() < was.frame_bytes() {
                        was.frame_bytes() - self.frames.leftover@.len()
                    } else {
                        0
                    },
        {
            let ghost had = self.pulls@;
            let ghost new = had.skip(from);
            let pulled = self.pull(room);
            proof {
                let p = self.pulls@.last();
                assert(self.pulls@ =~= had.push(p));
                assert(self.pulls@.skip(from) =~= new.push(p));
                assert(self.pulls@.take(from) =~= had.take(from));
                assert(new.push(p).drop_last() =~= new);
                assert forall|i: int| 0 <= i < new.push(p).len() implies was.leftover@.len()
                    + bytes_of(#[trigger] new.push(p).take(i)).len() < was.frame_bytes() by {
                    assert(new.push(p).take(i) =~= new.take(i));
                    if i == new.len() {
                        assert(new.take(i) =~= new);
                    }
                }
                assert(self.frames.leftover@ =~= was.leftover@ + bytes_of(new.push(p)));
                assert forall|i: int| 0 <= i < new.len() implies brings(
                    #[trigger] new.push(p)[i],
                ) by {
                    assert(brings(new[i]));
                }
            }
            match pulled {
                Ok(n) => if n == 0 {
                    proof {
                        let b = self.pulls@.last()->Ok_0;
                        assert(b =~= Seq::empty());
                    }
                    return Ok(0);
                },
                Err(e) => {
                    return Err(AudioError::Failed(e));
                },
            }
        }
        let ghost bytes = self.frames.leftover@;
        let ghost room_for = out@.len();
        let n: usize = self.frames.take(out);
        proof {
            assert(out@.take(n as int) =~= decoded(bytes).take(n as int));
            let k = frames_in(bytes.len(), room_for, was.channels);
            assert((k * ch) % ch as int == 0) by (nonlinear_arith)
                requires
                    ch > 0,
            ;
        }
        Ok(n)
    }
}

impl<P: RawPipe> CaptureSource for CommandCaptureSource<P> {
    open spec fn reads(&self) -> Seq<ReadEvent> {
        self.log@
    }

    open spec fn width(&self) -> u16 {
        self.frames.channels
    }

    open spec fn rate(&self) -> u32 {
        self.sample_rate
    }

    /// Reads whole frames. A short read of the pipe is not its end: it is asked again until a
    /// frame is there.
    fn read(&mut self, out: &mut [i16]) -> (r: Result<usize, AudioError>)
        ensures
            old(self).frames.wf() ==> {
                &&& old(self).pulls@.len() <= final(self).pulls@.len()
                &&& final(self).pulls@.take(old(self).pulls@.len() as int) == old(self).pulls@
                &&& assembled(
                    old(self).frames,
                    final(self).frames,
                    final(self).pulls@.skip(old(self).pulls@.len() as int),
                    final(out)@,
                    r,
                )
            },
    {
        let r = if self.frames.channels > 0 {
            self.read_frames(out)
        } else {
            Ok(0)
        };
        self.log = Ghost(self.log@.push(read_event(out@, r)));
        r
    }

    fn sample_rate(&self) -> (r: u32) {
        self.sample_rate
    }

    fn channels(&self) -> (r: u16) {
        self.frames.channels
    }
}

/// Why a capture command cannot be run, if it cannot.
pub fn check_capture(cmd: &CaptureCommand) -> (r: Result<(), String>)
    ensures
        r is Ok <==> cmd.argv@.len() > 0,
        r matches Err(e) ==> e@ == "empty capture argv"@,
{
    if cmd.argv.len() == 0 {
        Err("empty capture argv".to_owned())
    } else {
        Ok(())
    }
}

/// Why a command cannot play a file, if it cannot.
pub fn check_playback(cmd: &PlaybackCommand) -> (r: Result<(), String>)
    ensures
        match r {
            Ok(_) => cmd.argv@.len() > 0 && !cmd.via_stdin,
            Err(e) => if cmd.argv@.len() == 0 {
                e@ == "empty playback argv"@
            } else {
                cmd.via_stdin && e@
                    == "play_file_blocking requires a file-based command, not a stdin template"@
            },
        },
{
    if cmd.argv.len() == 0 {
        return Err("empty playback argv".to_owned());
    }
    if cmd.via_stdin {
        return Err(
            "play_file_blocking requires a file-based command, not a stdin template".to_owned(),
        );
    }
    Ok(())
}

/// What is said of a tool that could not be started. It names the tool.
pub fn spawn_failed(what: &str, tool: &str, error: &str) -> (r: String)
    ensures
        r@ == "spawn "@ + what@ + " tool `"@ + tool@ + "`: "@ + error@,
{
    let mut s = text::cat3("spawn ", what, " tool `");
    s.append(tool);
    s.append("`: ");
    s.append(error);
    s
}

/// What to do with a playback tool after a look at it.
#[derive(Debug, Clone, Copy, PartialEq, Eq, Structural)]
pub enum PlaybackStep {
    /// Stop it; that is no failure.
    Kill,
    Done,
    Failed,
    /// Look again after [`PLAYBACK_POLL_MS`].
    Again,
}

/// Decides what to do with a playback tool: force stops it at once, whatever it does. `exited`
/// tells whether it has ended, and if so, well.
pub fn poll_playback(force: bool, exited: Option<bool>) -> (r: PlaybackStep)
    ensures
        r == (if force {
            PlaybackStep::Kill
        } else {
            match exited {
                Some(true) => PlaybackStep::Done,
                Some(false) => PlaybackStep::Failed,
                None => PlaybackStep::Again,
            }
        }),
{
    if force {
        PlaybackStep::Kill
    } else {
        match exited {
            Some(true) => PlaybackStep::Done,
            Some(false) => PlaybackStep::Failed,
            None => PlaybackStep::Again,
        }
    }
}

/// Samples survive the pipe.
pub proof fn law_pcm_round_trip(pcm: Seq<i16>)
    ensures
        decoded(encoded(pcm)) == pcm,
{
    let bytes = encoded(pcm);
    assert forall|i: int| 0 <= i < pcm.len() implies decoded(bytes)[i] == pcm[i] by {
        assert((2 * i) / 2 == i && (2 * i + 1) / 2 == i);
        assert(bytes[2 * i] == low_byte(pcm[i]));
        assert(bytes[2 * i + 1] == high_byte(pcm[i]));
        let u = unsigned(pcm[i]);
        assert(0 <= u < 65536);
        assert(u % 256 + 256 * (u / 256) == u);
    }
    assert(decoded(bytes) =~= pcm);
}

/// A pipe is read in order: what a read delivers, followed by the samples that are left over, is
/// what was left over, followed by what came, however the pipe split it.
pub proof fn law_a_pipe_is_read_in_order(
    was: FrameAssembler,
    now: FrameAssembler,
    pulls: Seq<Result<Seq<u8>, String>>,
    out: Seq<i16>,
    n: usize,
)
    requires
        was.wf(),
        assembled(was, now, pulls, out, Ok(n)),
    ensures
        decoded(was.leftover@ + bytes_of(pulls)) == out.take(n as int) + decoded(now.leftover@),
        n as int % was.channels as int == 0,
{
    let bytes = was.leftover@ + bytes_of(pulls);
    let ch = was.channels as int;
    assert(0int % ch == 0) by (nonlinear_arith)
        requires
            ch > 0,
    ;
    if n == 0 {
        assert(bytes.skip(0) =~= bytes);
        assert(out.take(0) + decoded(bytes) =~= decoded(bytes));
    } else {
        let k = frames_in(bytes.len(), out.len(), was.channels);
        assert(0 <= k && k <= bytes.len() as int / (2 * ch)) by (nonlinear_arith)
            requires
                ch > 0,
                k <= bytes.len() as int / (2 * ch),
                k * ch > 0,
        ;
        lemma_frames(k, ch, bytes.len() as int, out.len() as int);
        assert((k * ch) % ch == 0) by (nonlinear_arith)
            requires
                ch > 0,
        ;
        assert(decoded(bytes) =~= decoded(bytes).take(n as int) + decoded(bytes.skip(2 * n)));
    }
}

/// Samples stand in bytes with their low byte first, whichever way they go: two bytes weigh one and
/// two hundred and fifty-six, and what is over the largest sample counts down from zero.
pub proof fn law_samples_are_little_endian(pcm: Seq<i16>, bytes: Seq<u8>, i: int)
    ensures
        encoded(pcm).len() == 2 * pcm.len(),
        0 <= i < pcm.len() ==> {
            let u = encoded(pcm)[2 * i] + 256 * encoded(pcm)[2 * i + 1];
            pcm[i] == u || pcm[i] == u - 65536
        },
        decoded(bytes).len() == bytes.len() / 2,
        0 <= i < decoded(bytes).len() ==> {
            let u = bytes[2 * i] + 256 * bytes[2 * i + 1];
            decoded(bytes)[i] == u || decoded(bytes)[i] == u - 65536
        },
{
    if 0 <= i < pcm.len() {
        assert((2 * i) / 2 == i && (2 * i + 1) / 2 == i);
        assert((2 * i) % 2 == 0 && (2 * i + 1) % 2 == 1);
        let u = unsigned(pcm[i]);
        assert(u % 256 + 256 * (u / 256) == u);
    }
}

/// What is read of a pipe is as many whole frames as have come and as there is room for.
pub proof fn law_whole_frames_are_read(bytes: nat, room: nat, channels: u16, k: int)
    requires
        channels > 0,
        k >= 0,
    ensures
        k <= frames_in(bytes, room, channels) <==> k * (2 * channels) <= bytes && k * channels <= room,
{
    let c = channels as int;
    let b = bytes as int;
    let r = room as int;
    let have = b / (2 * c);
    let fit = r / c;
    assert(k <= have <==> k * (2 * c) <= b) by {
        vstd::arithmetic::div_mod::lemma_fundamental_div_mod(b, 2 * c);
        assert(0 <= b % (2 * c) < 2 * c);
        if k <= have {
            assert(k * (2 * c) <= have * (2 * c)) by (nonlinear_arith)
                requires
                    k <= have,
                    c > 0,
            ;
            assert((2 * c) * have == have * (2 * c)) by (nonlinear_arith);
        } else {
            assert(k * (2 * c) >= have * (2 * c) + 2 * c) by (nonlinear_arith)
                requires
                    k >= have + 1,
                    c > 0,
            ;
            assert((2 * c) * have == have * (2 * c)) by (nonlinear_arith);
        }
    }
    assert(k <= fit <==> k * c <= r) by {
        vstd::arithmetic::div_mod::lemma_fundamental_div_mod(r, c);
        assert(0 <= r % c < c);
        if k <= fit {
            assert(k * c <= fit * c) by (nonlinear_arith)
                requires
                    k <= fit,
                    c > 0,
            ;
            assert(c * fit == fit * c) by (nonlinear_arith);
        } else {
            assert(k * c >= fit * c + c) by (nonlinear_arith)
                requires
                    k >= fit + 1,
                    c > 0,
            ;
            assert(c * fit == fit * c) by (nonlinear_arith);
        }
    }
}

} // verus!
