//! Chance: what is drawn of the thread's random generator.

use rand::{Rng, RngCore};
use vstd::prelude::*;

verus! {

/// `RngCore::fill_bytes` of the crate `rand`, on the thread's generator: fills a buffer of
/// `n` bytes. Which bytes come is left open.
#[verifier::external_body]
fn random_bytes(n: usize) -> (r: Vec<u8>)
    ensures
        r@.len() == n,
{
    let mut buf = vec![0u8; n];
    rand::thread_rng().fill_bytes(&mut buf);
    buf
}

/// `Rng::gen_range` of the crate `rand`, on the thread's generator: a number below `n`. Which
/// one comes is left open.
#[verifier::external_body]
fn random_below(n: usize) -> (r: usize)
    requires
        n > 0,
    ensures
        r < n,
{
    rand::thread_rng().gen_range(0..n)
}

/// A draw: of a number below a bound, or of bytes.
pub enum Draw {
    Below { bound: usize, got: usize },
    Bytes(Seq<u8>),
}

/// Draws at random, with everything that was drawn.
pub struct Dice {
    draws: Ghost<Seq<Draw>>,
}

impl Dice {
    /// What was drawn, in order.
    pub closed spec fn log(&self) -> Seq<Draw> {
        self.draws@
    }

    /// Nothing was drawn yet.
    pub fn new() -> (r: Self)
        ensures
            r.log() == Seq::<Draw>::empty(),
    {
        Dice { draws: Ghost(Seq::empty()) }
    }

    /// Draws a number below a bound.
    pub fn below(&mut self, bound: usize) -> (r: usize)
        requires
            bound > 0,
        ensures
            r < bound,
            final(self).log() == old(self).log().push(Draw::Below { bound, got: r }),
    {
        let r: usize = random_below(bound);
        self.draws = Ghost(self.draws@.push(Draw::Below { bound, got: r }));
        r
    }

    /// Draws bytes.
    pub fn bytes(&mut self, n: usize) -> (r: Vec<u8>)
        ensures
            r@.len() == n,
            final(self).log() == old(self).log().push(Draw::Bytes(r@)),
    {
        let r = random_bytes(n);
        self.draws = Ghost(self.draws@.push(Draw::Bytes(r@)));
        r
    }
}

} // verus!
