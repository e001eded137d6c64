//! Searching the machine for programs.

use vstd::prelude::*;

#[allow(unused_imports)]
use crate::text::{opt_view, views};

verus! {

/// A name that was searched for, and where it was found.
pub type Find = (Seq<char>, Option<Seq<char>>);

/// Searches for programs, with everything that was searched for and found.
pub struct Search {
    finds: Ghost<Seq<Find>>,
}

/// `which::which`: the path of a program that the search path of the process leads to, if there
/// is one. What it finds depends on the machine, so nothing is claimed of it.
#[verifier::external_body]
fn find_program(name: &str) -> (r: Option<String>) {
    match which::which(name) {
        Ok(path) => Some(path.to_string_lossy().into_owned()),
        Err(_) => None,
    }
}

/// What a later log has besides an earlier one.
pub open spec fn added(before: Seq<Find>, after: Seq<Find>) -> Seq<Find> {
    after.skip(before.len() as int)
}

/// The names that were searched for.
pub open spec fn names(finds: Seq<Find>) -> Seq<Seq<char>> {
    finds.map_values(|f: Find| f.0)
}

/// What the searches found.
pub open spec fn answers(finds: Seq<Find>) -> Seq<Option<Seq<char>>> {
    finds.map_values(|f: Find| f.1)
}

/// Whether the searches found something.
pub open spec fn hits(finds: Seq<Find>) -> Seq<bool> {
    finds.map_values(|f: Find| f.1 is Some)
}

/// Paths over characters.
pub open spec fn path_views(v: Seq<Option<String>>) -> Seq<Option<Seq<char>>> {
    v.map_values(|o: Option<String>| opt_view(o))
}

impl Search {
    /// What was searched for and found, in order.
    pub closed spec fn log(&self) -> Seq<Find> {
        self.finds@
    }

    /// Nothing was searched for yet.
    pub fn new() -> (r: Self)
        ensures
            r.log() == Seq::<Find>::empty(),
    {
        Search { finds: Ghost(Seq::empty()) }
    }

    /// Searches for a program.
    pub fn find(&mut self, name: &str) -> (r: Option<String>)
        ensures
            final(self).log() == old(self).log().push((name@, opt_view(r))),
    {
        let r = find_program(name);
        self.finds = Ghost(self.finds@.push((name@, opt_view(r))));
        r
    }

    /// Searches for several programs, in turn.
    pub fn find_all(&mut self, wanted: &Vec<String>) -> (r: Vec<Option<String>>)
        ensures
            old(self).log().is_prefix_of(final(self).log()),
            names(added(old(self).log(), final(self).log())) == views(wanted@),
            path_views(r@) == answers(added(old(self).log(), final(self).log())),
    {
        let ghost had = self.log();
        let mut out: Vec<Option<String>> = Vec::new();
        let mut i: usize = 0;
        while i < wanted.len()
            invariant
                i <= wanted.len(),
                had == old(self).log(),
                had.is_prefix_of(self.log()),
                out@.len() == i,
                added(had, self.log()).len() == i,
                forall|j: int|
                    0 <= j < i ==> (#[trigger] added(had, self.log())[j]) == (
                        wanted@[j]@,
                        opt_view(out@[j]),
                    ),
            decreases wanted.len() - i,
        {
            let ghost before = added(had, self.log());
            let found = self.find(&wanted[i]);
            out.push(found);
            assert(added(had, self.log()) =~= before.push((wanted@[i as int]@, opt_view(found))));
            i += 1;
        }
        proof {
            let new = added(had, self.log());
            assert(names(new) =~= views(wanted@));
            assert(path_views(out@) =~= answers(new));
        }
        out
    }
}

/// What was searched for is told in order: each search under its name, with what it found.
pub proof fn law_searches_are_told_in_order(before: Seq<Find>, name: Seq<char>, found: Option<Seq<char>>)
    ensures
        ({
            let after = before.push((name, found));
            &&& added(before, after) == seq![(name, found)]
            &&& names(added(before, after)) == seq![name]
            &&& answers(added(before, after)) == seq![found]
            &&& hits(added(before, after)) == seq![found is Some]
        }),
{
    let after = before.push((name, found));
    assert(added(before, after) =~= seq![(name, found)]);
    assert(names(added(before, after)) =~= seq![name]);
    assert(answers(added(before, after)) =~= seq![found]);
    assert(hits(added(before, after)) =~= seq![found is Some]);
}

} // verus!
