//! Walking a folder: in which order its files are found, and which folders are entered.

use vstd::prelude::*;

use super::pack::{walk, Kind, Walk};
#[allow(unused_imports)]
use super::pack::walk_choice;
#[allow(unused_imports)]
use crate::table::{before, in_order, lemma_before_irreflexive};
use crate::table::Table;
use crate::text;
#[allow(unused_imports)]
use crate::text::{opt_view, views};

verus! {

/// An entry of a folder: its path, what it is once links are followed, and its canonical path.
#[derive(Debug)]
pub struct Item {
    pub path: String,
    pub kind: Kind,
    pub resolved: Option<String>,
}

/// An [`Item`] with its texts as characters.
#[verifier::ext_equal]
pub struct ItemText {
    pub path: Seq<char>,
    pub kind: Kind,
    pub resolved: Option<Seq<char>>,
}

impl View for Item {
    type V = ItemText;

    open spec fn view(&self) -> ItemText {
        ItemText { path: self.path@, kind: self.kind, resolved: opt_view(self.resolved) }
    }
}

/// The items of a list, with their texts as characters.
pub open spec fn item_texts(v: Seq<Item>) -> Seq<ItemText> {
    v.map_values(|i: Item| i@)
}

/// A walk through a folder.
#[derive(Debug)]
pub struct FolderWalk {
    /// What is still to be looked at, the next one last.
    pub todo: Vec<Item>,
    /// The canonical paths of the folders that were entered.
    pub seen: Vec<String>,
    /// The files that were found, in order.
    pub files: Vec<String>,
    /// The canonical paths of the folders that are left out.
    pub excluded: Vec<String>,
    /// The file that is left out.
    pub skipped: String,
}

/// A [`FolderWalk`] with its texts as characters.
#[verifier::ext_equal]
pub struct WalkText {
    pub todo: Seq<ItemText>,
    pub seen: Seq<Seq<char>>,
    pub files: Seq<Seq<char>>,
    pub excluded: Seq<Seq<char>>,
    pub skipped: Seq<char>,
}

impl View for FolderWalk {
    type V = WalkText;

    open spec fn view(&self) -> WalkText {
        WalkText {
            todo: item_texts(self.todo@),
            seen: views(self.seen@),
            files: views(self.files@),
            excluded: views(self.excluded@),
            skipped: self.skipped@,
        }
    }
}

/// The folders that were entered, once one more was, whose canonical path may not be known.
pub open spec fn entered(seen: Seq<Seq<char>>, resolved: Option<Seq<char>>) -> Seq<Seq<char>> {
    match resolved {
        Some(c) => seen.push(c),
        None => seen,
    }
}

/// The walk up to the next folder that is to be listed, and that folder; none at the end. Files
/// are found on the way, and a folder that was entered before is not entered again.
pub open spec fn advanced(s: WalkText) -> (WalkText, Option<Seq<char>>)
    decreases s.todo.len(),
{
    if s.todo.len() == 0 {
        (s, None)
    } else {
        let i = s.todo.last();
        let rest = WalkText { todo: s.todo.drop_last(), ..s };
        match walk_choice(i.path, i.kind, i.resolved, s.excluded, s.skipped) {
            Walk::Skip => advanced(rest),
            Walk::Keep => advanced(WalkText { files: s.files.push(i.path), ..rest }),
            Walk::Enter => if i.resolved is Some && s.seen.contains(i.resolved->0) {
                advanced(rest)
            } else {
                (WalkText { seen: entered(s.seen, i.resolved), ..rest }, Some(i.path))
            },
        }
    }
}

/// The paths of some items.
pub open spec fn paths_of(items: Seq<ItemText>) -> Seq<Seq<char>> {
    items.map_values(|i: ItemText| i.path)
}

/// Whether `next` are the items of a listing, by their paths, the first one last. Of two with the
/// same path, one is there.
pub open spec fn lines_up(next: Seq<ItemText>, items: Seq<ItemText>) -> bool {
    &&& in_order(paths_of(next).reverse())
    &&& forall|i: int| 0 <= i < next.len() ==> items.contains(#[trigger] next[i])
    &&& forall|i: int| 0 <= i < items.len() ==> paths_of(next).contains((#[trigger] items[i]).path)
}

impl FolderWalk {
    /// A walk through the folder with a canonical path, which is to be listed.
    pub fn new(resolved: Option<String>, excluded: Vec<String>, skipped: String) -> (r: Self)
        ensures
            r@ == (WalkText {
                todo: Seq::empty(),
                seen: entered(Seq::empty(), opt_view(resolved)),
                files: Seq::empty(),
                excluded: views(excluded@),
                skipped: skipped@,
            }),
    {
        let mut seen: Vec<String> = Vec::new();
        if let Some(c) = resolved {
            seen.push(c);
        }
        let r = FolderWalk { todo: Vec::new(), seen, files: Vec::new(), excluded, skipped };
        assert(r@.todo =~= Seq::empty());
        assert(r@.files =~= Seq::empty());
        assert(r@.seen =~= entered(Seq::empty(), opt_view(resolved)));
        r
    }

    /// Takes in what a folder holds. It is looked at next, in the order of the paths.
    pub fn list(&mut self, items: Vec<Item>)
        ensures
            ({
                let n = old(self)@.todo.len() as int;
                &&& final(self)@.todo.take(n) == old(self)@.todo
                &&& final(self)@.todo.len() >= n
                &&& lines_up(final(self)@.todo.skip(n), item_texts(items@))
                &&& final(self)@ == (WalkText { todo: final(self)@.todo, ..old(self)@ })
            }),
    {
        let ghost all = item_texts(items@);
        let ghost had = self@.todo;
        let mut items = items;
        let ghost given = items@;
        let mut t: Table<Item> = Table::new();
        while items.len() > 0
            invariant
                items@ == given.take(items@.len() as int),
                items@.len() <= given.len(),
                all == item_texts(given),
                forall|k: Seq<char>|
                    t@.dom().contains(k) ==> (#[trigger] t@[k])@.path == k && all.contains(t@[k]@),
                forall|j: int|
                    items@.len() <= j < all.len() ==> t@.dom().contains((#[trigger] all[j]).path),
            decreases items.len(),
        {
            let ghost n = items@.len() as int;
            let item = items.pop().unwrap();
            assert(item == given[n - 1]);
            assert(all[n - 1] == item@);
            let key = item.path.clone();
            t.insert(key, item);
            assert(items@ =~= given.take(n - 1));
        }
        let ghost m = t@;
        let keys = t.sorted_keys();
        let ghost order = views(keys@);
        assert forall|j: int| 0 <= j < order.len() implies t@.dom().contains(#[trigger] order[j]) by {
            assert(order.contains(order[j]));
        }
        let mut k: usize = keys.len();
        while k > 0
            invariant
                k <= keys@.len(),
                order == views(keys@),
                in_order(order),
                forall|x: Seq<char>| order.contains(x) <==> m.dom().contains(x),
                forall|x: Seq<char>|
                    m.dom().contains(x) ==> (#[trigger] m[x])@.path == x && all.contains(m[x]@),
                forall|j: int|
                    0 <= j < k ==> t@.dom().contains(#[trigger] order[j]) && t@[order[j]] == m[order[j]],
                self.seen == old(self).seen,
                self.files == old(self).files,
                self.excluded == old(self).excluded,
                self.skipped == old(self).skipped,
                had == old(self)@.todo,
                self@.todo.len() == had.len() + (order.len() - k),
                forall|j: int| 0 <= j < had.len() ==> #[trigger] self@.todo[j] == had[j],
                forall|j: int|
                    had.len() <= j < self@.todo.len() ==> #[trigger] self@.todo[j] == m[order[order.len()
                        - 1 - (j - had.len())]]@,
            decreases k,
        {
            k -= 1;
            let ghost before_push = self@.todo;
            assert(order[k as int] == keys@[k as int]@);
            let ghost t0 = t@;
            let item = t.remove(&keys[k]);
            assert(item is Some);
            if let Some(item) = item {
                self.todo.push(item);
                assert(self@.todo =~= before_push.push(item@));
                assert(item == m[order[k as int]]);
            }
            assert forall|j: int| 0 <= j < k implies t@.dom().contains(#[trigger] order[j])
                && t@[order[j]] == m[order[j]] by {
                assert(before(order[j], order[k as int]));
                lemma_before_irreflexive(order[j]);
                assert(t0.dom().contains(order[j]));
            }
        }
        proof {
            let n = had.len() as int;
            let next = self@.todo.skip(n);
            assert(self@.todo.take(n) =~= had);
            assert forall|i: int| 0 <= i < order.len() implies m.dom().contains(#[trigger] order[i]) by {
                assert(order.contains(order[i]));
            }
            assert forall|i: int| 0 <= i < next.len() implies #[trigger] next[i]
                == m[order[order.len() - 1 - i]]@ by {
                assert(next[i] == self@.todo[n + i]);
            }
            assert(paths_of(next).reverse() =~= order) by {
                assert forall|i: int| 0 <= i < order.len() implies #[trigger] paths_of(
                    next,
                ).reverse()[i] == order[i] by {
                    assert(next[order.len() - 1 - i] == m[order[i]]@);
                }
            }
            assert forall|i: int| 0 <= i < all.len() implies paths_of(next).contains(
                (#[trigger] all[i]).path,
            ) by {
                let x = all[i].path;
                assert(m.dom().contains(x));
                assert(order.contains(x));
                let j = choose|j: int| 0 <= j < order.len() && order[j] == x;
                assert(paths_of(next)[order.len() - 1 - j] == x);
            }
            assert(lines_up(next, all));
        }
    }

    /// Goes on to the next folder that is to be listed, if there is one.
    pub fn next(&mut self) -> (r: Option<String>)
        ensures
            (final(self)@, opt_view(r)) == advanced(old(self)@),
    {
        while self.todo.len() > 0
            invariant
                advanced(self@) == advanced(old(self)@),
            decreases self.todo.len(),
        {
            let ghost s = self@;
            let item = self.todo.pop().unwrap();
            proof {
                assert(s.todo.last() == item@);
                assert(item_texts(self.todo@) =~= s.todo.drop_last());
            }
            let resolved = match &item.resolved {
                Some(c) => Some(c.as_str()),
                None => None,
            };
            match walk(&item.path, item.kind, resolved, &self.excluded, &self.skipped) {
                Walk::Skip => {},
                Walk::Keep => {
                    proof {
                        text::lemma_views_push(self.files@, item.path);
                    }
                    self.files.push(item.path);
                },
                Walk::Enter => {
                    if let Some(c) = item.resolved {
                        if text::holds(&self.seen, &c) {
                            continue;
                        }
                        proof {
                            text::lemma_views_push(self.seen@, c);
                        }
                        self.seen.push(c);
                    }
                    return Some(item.path);
                },
            }
        }
        assert(self@.todo.len() == 0);
        None
    }
}

/// No folder is entered twice: a folder that is to be listed was not entered before, and is noted,
/// as far as its canonical path is known.
pub proof fn law_no_folder_is_entered_twice(s: WalkText)
    ensures
        ({
            let now = advanced(s).0;
            ||| now.seen == s.seen
            ||| advanced(s).1 is Some && now.seen.len() == s.seen.len() + 1
                && now.seen.drop_last() == s.seen && !s.seen.contains(now.seen.last())
        }),
    decreases s.todo.len(),
{
    if s.todo.len() > 0 {
        let i = s.todo.last();
        let rest = WalkText { todo: s.todo.drop_last(), ..s };
        match walk_choice(i.path, i.kind, i.resolved, s.excluded, s.skipped) {
            Walk::Skip => {
                law_no_folder_is_entered_twice(rest);
            },
            Walk::Keep => {
                law_no_folder_is_entered_twice(WalkText { files: s.files.push(i.path), ..rest });
            },
            Walk::Enter => {
                law_no_folder_is_entered_twice(rest);
                if let Some(c) = i.resolved {
                    assert(s.seen.push(c).drop_last() =~= s.seen);
                }
            },
        }
    }
}

/// A step of a walk looks at what is still to be looked at from the end on, keeps the files among
/// that, passes over what is left out or was entered before, and stops at the first folder to
/// enter; without one it stops when nothing is left.
pub proof fn law_a_walk_keeps_every_file(s: WalkText)
    ensures
        ({
            let (now, at) = advanced(s);
            let n = now.todo.len() as int;
            &&& n <= s.todo.len()
            &&& now.todo == s.todo.take(n)
            &&& at is None ==> n == 0 && now.seen == s.seen
            &&& at matches Some(path) ==> n < s.todo.len() && {
                let i = s.todo[n];
                &&& i.path == path
                &&& walk_choice(i.path, i.kind, i.resolved, s.excluded, s.skipped) is Enter
                &&& i.resolved matches Some(c) ==> !s.seen.contains(c) && now.seen == s.seen.push(c)
                &&& i.resolved is None ==> now.seen == s.seen
            }
            &&& now.excluded == s.excluded
            &&& now.skipped == s.skipped
            &&& forall|f: Seq<char>| #[trigger]
                now.files.contains(f) <==> s.files.contains(f) || exists|j: int|
                    n <= j < s.todo.len() && (#[trigger] s.todo[j]).path == f && walk_choice(
                        s.todo[j].path,
                        s.todo[j].kind,
                        s.todo[j].resolved,
                        s.excluded,
                        s.skipped,
                    ) is Keep
        }),
    decreases s.todo.len(),
{
    let (now, at) = advanced(s);
    let n = now.todo.len() as int;
    if s.todo.len() == 0 {
        assert(now.todo =~= s.todo.take(n));
    } else {
        let k = s.todo.len() - 1;
        let i = s.todo.last();
        assert(s.todo[k] == i);
        let rest = WalkText { todo: s.todo.drop_last(), ..s };
        let choice = walk_choice(i.path, i.kind, i.resolved, s.excluded, s.skipped);
        let enters = choice is Enter && !(i.resolved is Some && s.seen.contains(i.resolved->0));
        if enters {
            assert(now.todo =~= s.todo.take(n));
            assert(now.files == s.files);
        } else {
            let mid = if choice is Keep {
                WalkText { files: s.files.push(i.path), ..rest }
            } else {
                rest
            };
            law_a_walk_keeps_every_file(mid);
            assert(advanced(s) == advanced(mid));
            assert(mid.todo.take(n) =~= s.todo.take(n));
            assert forall|j: int| 0 <= j < mid.todo.len() implies mid.todo[j] == #[trigger] s.todo[j] by {}
            assert forall|f: Seq<char>| #[trigger] now.files.contains(f) <==> s.files.contains(f)
                || exists|j: int|
                n <= j < s.todo.len() && (#[trigger] s.todo[j]).path == f && walk_choice(
                    s.todo[j].path,
                    s.todo[j].kind,
                    s.todo[j].resolved,
                    s.excluded,
                    s.skipped,
                ) is Keep by {
                let was = exists|j: int|
                    n <= j < mid.todo.len() && (#[trigger] mid.todo[j]).path == f && walk_choice(
                        mid.todo[j].path,
                        mid.todo[j].kind,
                        mid.todo[j].resolved,
                        mid.excluded,
                        mid.skipped,
                    ) is Keep;
                assert(now.files.contains(f) <==> mid.files.contains(f) || was);
                if choice is Keep {
                    if s.files.contains(f) {
                        let j = choose|j: int| 0 <= j < s.files.len() && s.files[j] == f;
                        assert(mid.files[j] == f);
                    }
                    if mid.files.contains(f) {
                        let j = choose|j: int| 0 <= j < mid.files.len() && mid.files[j] == f;
                        if j < s.files.len() {
                            assert(s.files[j] == f);
                        } else {
                            assert(s.todo[k].path == f);
                        }
                    }
                    assert(mid.files[s.files.len() as int] == i.path);
                }
                if was {
                    let j = choose|j: int|
                        n <= j < mid.todo.len() && (#[trigger] mid.todo[j]).path == f && walk_choice(
                            mid.todo[j].path,
                            mid.todo[j].kind,
                            mid.todo[j].resolved,
                            mid.excluded,
                            mid.skipped,
                        ) is Keep;
                    assert(s.todo[j].path == f);
                }
                if exists|j: int|
                    n <= j < s.todo.len() && (#[trigger] s.todo[j]).path == f && walk_choice(
                        s.todo[j].path,
                        s.todo[j].kind,
                        s.todo[j].resolved,
                        s.excluded,
                        s.skipped,
                    ) is Keep {
                    let j = choose|j: int|
                        n <= j < s.todo.len() && (#[trigger] s.todo[j]).path == f && walk_choice(
                            s.todo[j].path,
                            s.todo[j].kind,
                            s.todo[j].resolved,
                            s.excluded,
                            s.skipped,
                        ) is Keep;
                    if j < k {
                        assert(mid.todo[j].path == f);
                    }
                }
            }
        }
    }
}

} // verus!
