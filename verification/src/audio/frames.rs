//! The channel that a capture thread sends its frames over.

use vstd::prelude::*;

verus! {

/// What comes of the capture's channel.
#[derive(Debug)]
pub enum FrameEvent {
    /// Samples have come.
    Frame(Vec<i16>),
    /// None have come in time.
    Timeout,
    /// The capture has ended.
    Closed,
}

/// `std::sync::mpsc::Receiver`: the receiving end of a channel. Nothing is known of what is in it.
#[verifier::external_type_specification]
#[verifier::external_body]
#[verifier::reject_recursive_types(T)]
pub struct ExReceiver<T>(std::sync::mpsc::Receiver<T>);

/// `Receiver::recv_timeout`: the next item of a channel, or that none has come in time, or that
/// its senders are gone. Which one it is depends on other threads, so nothing is claimed of it.
#[verifier::external_body]
fn next_frame(rx: &mut std::sync::mpsc::Receiver<Vec<i16>>, wait_ms: u64) -> (r: FrameEvent) {
    match rx.recv_timeout(std::time::Duration::from_millis(wait_ms)) {
        Ok(frame) => FrameEvent::Frame(frame),
        Err(std::sync::mpsc::RecvTimeoutError::Timeout) => FrameEvent::Timeout,
        Err(std::sync::mpsc::RecvTimeoutError::Disconnected) => FrameEvent::Closed,
    }
}

/// A [`FrameEvent`] over samples.
#[verifier::ext_equal]
pub enum FrameText {
    Frame(Seq<i16>),
    Timeout,
    Closed,
}

impl View for FrameEvent {
    type V = FrameText;

    open spec fn view(&self) -> FrameText {
        match *self {
            FrameEvent::Frame(v) => FrameText::Frame(v@),
            FrameEvent::Timeout => FrameText::Timeout,
            FrameEvent::Closed => FrameText::Closed,
        }
    }
}

/// The receiving end of a capture's channel, with everything that came of it.
pub struct FrameChannel<'a> {
    rx: &'a mut std::sync::mpsc::Receiver<Vec<i16>>,
    events: Ghost<Seq<(u64, FrameText)>>,
}

impl<'a> FrameChannel<'a> {
    /// What came of the channel, in order, each with the milliseconds that were waited for it at
    /// most.
    pub closed spec fn heard(&self) -> Seq<(u64, FrameText)> {
        self.events@
    }

    /// Nothing was waited for yet.
    pub fn new(rx: &'a mut std::sync::mpsc::Receiver<Vec<i16>>) -> (r: Self)
        ensures
            r.heard() == Seq::<(u64, FrameText)>::empty(),
    {
        FrameChannel { rx, events: Ghost(Seq::empty()) }
    }

    /// Waits for the next frame, for at most so many milliseconds.
    pub fn next(&mut self, wait_ms: u64) -> (r: FrameEvent)
        ensures
            final(self).heard() == old(self).heard().push((wait_ms, r@)),
    {
        let r = next_frame(self.rx, wait_ms);
        self.events = Ghost(self.events@.push((wait_ms, r@)));
        r
    }
}

} // verus!
