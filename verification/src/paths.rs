//! File paths as text, worked on lexically: nothing here looks at a file system.

use vstd::prelude::*;

use crate::text;
#[allow(unused_imports)]
use crate::text::{joined, pieces, views};

verus! {

/// Whether a path starts at the root.
pub open spec fn is_rooted(path: Seq<char>) -> bool {
    path.len() > 0 && path[0] == '/'
}

/// The components among the pieces of a path: empty ones are none, nor is `.` but at the very
/// beginning.
pub open spec fn kept_pieces(ps: Seq<Seq<char>>) -> Seq<Seq<char>>
    decreases ps.len(),
{
    if ps.len() == 0 {
        Seq::empty()
    } else {
        let rest = kept_pieces(ps.drop_last());
        if ps.last().len() == 0 || (ps.last() == "."@ && ps.len() > 1) {
            rest
        } else {
            rest.push(ps.last())
        }
    }
}

/// The components of a path below its root.
pub open spec fn components(path: Seq<char>) -> Seq<Seq<char>> {
    kept_pieces(pieces(path, '/'))
}

/// The path made of components.
pub open spec fn path_of(rooted: bool, parts: Seq<Seq<char>>) -> Seq<char> {
    if rooted {
        "/"@ + joined(parts, "/"@)
    } else {
        joined(parts, "/"@)
    }
}

/// A path without repeated separators, trailing separators and interior `.`; `..` stays.
pub open spec fn cleaned(path: Seq<char>) -> Seq<char> {
    path_of(is_rooted(path), components(path))
}

/// A possibly relative path under a base: absolute paths, and paths without a base, stay.
pub open spec fn resolved_under(base: Option<Seq<char>>, path: Seq<char>) -> Seq<char> {
    match base {
        Some(b) => if b.len() > 0 && !is_rooted(path) {
            cleaned(b + "/"@ + path)
        } else {
            cleaned(path)
        },
        None => cleaned(path),
    }
}

/// The directory of a path: none of the root and of the empty path, and the empty path of a mere
/// name.
pub open spec fn parent_of(path: Seq<char>) -> Option<Seq<char>> {
    let parts = components(path);
    if parts.len() == 0 {
        None
    } else {
        Some(path_of(is_rooted(path), parts.drop_last()))
    }
}

/// The name that a path ends with.
pub open spec fn base_name(path: Seq<char>) -> Option<Seq<char>> {
    let parts = components(path);
    if parts.len() > 0 && parts.last() != "."@ && parts.last() != ".."@ {
        Some(parts.last())
    } else {
        None
    }
}

/// Whether a path starts at the root.
pub fn rooted(path: &str) -> (r: bool)
    ensures
        r == is_rooted(path@),
{
    path.unicode_len() > 0 && path.get_char(0) == '/'
}

/// The components of a path below its root.
pub fn split_path(path: &str) -> (r: Vec<String>)
    ensures
        views(r@) == components(path@),
{
    let ps = text::split(path, '/');
    let mut out: Vec<String> = Vec::new();
    let mut i: usize = 0;
    while i < ps.len()
        invariant
            i <= ps.len(),
            views(ps@) == pieces(path@, '/'),
            views(out@) == kept_pieces(views(ps@).take(i as int)),
        decreases ps.len() - i,
    {
        proof {
            let all = views(ps@);
            assert(all.take(i + 1).drop_last() =~= all.take(i as int));
            assert(all.take(i + 1).last() == ps@[i as int]@);
        }
        if !(ps[i].as_str().is_empty() || (text::same(&ps[i], ".") && i > 0)) {
            let s = ps[i].clone();
            proof {
                text::lemma_views_push(out@, s);
            }
            out.push(s);
        }
        i += 1;
    }
    proof {
        assert(views(ps@).take(i as int) =~= views(ps@));
    }
    out
}

/// The path made of components.
pub fn join_path(from_root: bool, parts: &Vec<String>) -> (r: String)
    ensures
        r@ == path_of(from_root, views(parts@)),
{
    let tail = text::join(parts, "/");
    if from_root {
        let mut s = "/".to_owned();
        s.append(&tail);
        s
    } else {
        tail
    }
}

/// A path without repeated separators, trailing separators and interior `.`.
pub fn clean(path: &str) -> (r: String)
    ensures
        r@ == cleaned(path@),
{
    join_path(rooted(path), &split_path(path))
}

/// Resolves a possibly relative path under `base`. Absolute paths, and paths without a base,
/// stay as they are, but for being cleaned.
pub fn resolve_under(base: Option<&str>, path: &str) -> (r: String)
    ensures
        r@ == resolved_under(
            match base {
                Some(b) => Some(b@),
                None => None,
            },
            path@,
        ),
{
    match base {
        Some(b) => if !b.is_empty() && !rooted(path) {
            let mut s = b.to_owned();
            s.append("/");
            s.append(path);
            clean(&s)
        } else {
            clean(path)
        },
        None => clean(path),
    }
}

/// The directory of a path.
pub fn parent(path: &str) -> (r: Option<String>)
    ensures
        text::opt_view(r) == parent_of(path@),
{
    let mut parts = split_path(path);
    proof {
        assert(components(path@).len() == parts@.len());
    }
    if parts.len() == 0 {
        return None;
    }
    let ghost all = views(parts@);
    let _ = parts.pop();
    assert(views(parts@) =~= all.drop_last());
    Some(join_path(rooted(path), &parts))
}

/// The name that a path ends with.
pub fn name_of(path: &str) -> (r: Option<String>)
    ensures
        text::opt_view(r) == base_name(path@),
{
    let parts = split_path(path);
    proof {
        assert(components(path@).len() == parts@.len());
    }
    if parts.len() == 0 {
        return None;
    }
    let last = parts[parts.len() - 1].clone();
    assert(components(path@).last() == last@);
    if text::same(&last, ".") || text::same(&last, "..") {
        None
    } else {
        Some(last)
    }
}

/// An absolute path is the same wherever it is resolved.
pub proof fn law_absolute_paths_ignore_the_base(base: Option<Seq<char>>, path: Seq<char>)
    requires
        is_rooted(path),
    ensures
        resolved_under(base, path) == cleaned(path),
{
}

/// The components among the pieces of a path that follows another one.
pub open spec fn inner_pieces(ps: Seq<Seq<char>>) -> Seq<Seq<char>>
    decreases ps.len(),
{
    if ps.len() == 0 {
        Seq::empty()
    } else {
        let rest = inner_pieces(ps.drop_last());
        if ps.last().len() == 0 || ps.last() == "."@ {
            rest
        } else {
            rest.push(ps.last())
        }
    }
}

/// Whether components can stand in a path: none is empty, holds a separator, or is `.` but the
/// first one, and that only where the path is relative.
pub open spec fn well_placed(rooted: bool, parts: Seq<Seq<char>>) -> bool {
    forall|i: int|
        0 <= i < parts.len() ==> {
            &&& (#[trigger] parts[i]).len() > 0
            &&& !parts[i].contains('/')
            &&& parts[i] == "."@ ==> i == 0 && !rooted
        }
}

proof fn lemma_pieces_hold_no_separator(s: Seq<char>)
    ensures
        forall|i: int| 0 <= i < pieces(s, '/').len() ==> !(#[trigger] pieces(s, '/')[i]).contains('/'),
    decreases s.len(),
{
    let k = text::first_at(s, '/') as int;
    text::lemma_first_at_finds(s, '/');
    if k < s.len() {
        lemma_pieces_hold_no_separator(s.skip(k + 1));
        let rest = pieces(s.skip(k + 1), '/');
        assert forall|i: int| 0 <= i < pieces(s, '/').len() implies !(#[trigger] pieces(
            s,
            '/',
        )[i]).contains('/') by {
            if i > 0 {
                assert(pieces(s, '/')[i] == rest[i - 1]);
            } else {
                assert(pieces(s, '/')[0] == s.take(k));
            }
        }
    }
}

proof fn lemma_kept_are_well_placed(ps: Seq<Seq<char>>, rooted: bool)
    requires
        forall|i: int| 0 <= i < ps.len() ==> !(#[trigger] ps[i]).contains('/'),
        rooted && ps.len() > 0 ==> ps[0].len() == 0,
    ensures
        well_placed(rooted, kept_pieces(ps)),
        kept_pieces(ps).len() <= ps.len(),
    decreases ps.len(),
{
    if ps.len() > 0 {
        let init = ps.drop_last();
        assert forall|i: int| 0 <= i < init.len() implies !(#[trigger] init[i]).contains('/') by {
            assert(init[i] == ps[i]);
        }
        lemma_kept_are_well_placed(init, rooted);
        assert(!ps.last().contains('/')) by {
            assert(ps[ps.len() - 1] == ps.last());
        }
    }
}

proof fn lemma_well_placed_are_kept(parts: Seq<Seq<char>>)
    requires
        well_placed(false, parts),
    ensures
        kept_pieces(parts) == parts,
    decreases parts.len(),
{
    if parts.len() > 0 {
        let init = parts.drop_last();
        assert(well_placed(false, init)) by {
            assert forall|i: int| 0 <= i < init.len() implies {
                &&& (#[trigger] init[i]).len() > 0
                &&& !init[i].contains('/')
                &&& init[i] == "."@ ==> i == 0
            } by {
                assert(init[i] == parts[i]);
            }
        }
        lemma_well_placed_are_kept(init);
        assert(parts[parts.len() - 1] == parts.last());
        assert(init.push(parts.last()) =~= parts);
    }
}

proof fn lemma_pieces_of_joined(parts: Seq<Seq<char>>)
    requires
        parts.len() > 0,
        forall|i: int| 0 <= i < parts.len() ==> !(#[trigger] parts[i]).contains('/'),
    ensures
        pieces(joined(parts, "/"@), '/') == parts,
    decreases parts.len(),
{
    reveal_strlit("/");
    let last = parts.last();
    assert(parts[parts.len() - 1] == last);
    text::lemma_first_at_finds(last, '/');
    assert(pieces(last, '/') =~= seq![last]) by {
        let k = text::first_at(last, '/') as int;
        if k < last.len() {
            assert(last.contains(last[k]));
        }
    }
    if parts.len() > 1 {
        let init = parts.drop_last();
        assert forall|i: int| 0 <= i < init.len() implies !(#[trigger] init[i]).contains('/') by {
            assert(init[i] == parts[i]);
        }
        lemma_pieces_of_joined(init);
        text::lemma_pieces_concat(joined(init, "/"@), last, '/');
        assert("/"@ =~= seq!['/']);
        assert(init + seq![last] =~= parts);
    } else {
        assert(seq![last] =~= parts);
    }
}

proof fn lemma_kept_behind(a: Seq<Seq<char>>, b: Seq<Seq<char>>)
    requires
        a.len() > 0,
    ensures
        kept_pieces(a + b) == kept_pieces(a) + inner_pieces(b),
    decreases b.len(),
{
    if b.len() == 0 {
        assert(a + b =~= a);
        assert(kept_pieces(a) + inner_pieces(b) =~= kept_pieces(a));
    } else {
        lemma_kept_behind(a, b.drop_last());
        assert((a + b).drop_last() =~= a + b.drop_last());
        assert((a + b).last() == b.last());
        assert(kept_pieces(a + b) =~= kept_pieces(a) + inner_pieces(b));
    }
}

/// A path that starts with a name and a separator has that name as its first component.
pub proof fn lemma_behind_a_name(name: Seq<char>, rest: Seq<char>)
    requires
        name.len() > 0,
        !name.contains('/'),
    ensures
        components(name + seq!['/'] + rest) == seq![name] + inner_pieces(pieces(rest, '/')),
{
    text::lemma_pieces_concat(name, rest, '/');
    text::lemma_first_at_finds(name, '/');
    assert(pieces(name, '/') =~= seq![name]) by {
        let k = text::first_at(name, '/') as int;
        if k < name.len() {
            assert(name.contains(name[k]));
        }
    }
    lemma_kept_behind(seq![name], pieces(rest, '/'));
    assert(seq![name].drop_last() =~= Seq::<Seq<char>>::empty());
    assert(seq![name].last() == name);
    reveal_with_fuel(kept_pieces, 2);
    assert(kept_pieces(seq![name]) =~= seq![name]);
}

proof fn lemma_empty_piece()
    ensures
        kept_pieces(seq![Seq::<char>::empty()]) == Seq::<Seq<char>>::empty(),
        inner_pieces(seq![Seq::<char>::empty()]) == Seq::<Seq<char>>::empty(),
{
    let one = seq![Seq::<char>::empty()];
    assert(one.drop_last() =~= Seq::<Seq<char>>::empty());
    assert(one.last().len() == 0);
    reveal_with_fuel(kept_pieces, 2);
    reveal_with_fuel(inner_pieces, 2);
}

proof fn lemma_components_of(rooted: bool, parts: Seq<Seq<char>>)
    requires
        well_placed(rooted, parts),
    ensures
        components(path_of(rooted, parts)) == parts,
        is_rooted(path_of(rooted, parts)) == rooted,
{
    reveal_strlit("/");
    let j = joined(parts, "/"@);
    assert(well_placed(false, parts));
    lemma_well_placed_are_kept(parts);
    if parts.len() > 0 {
        lemma_pieces_of_joined(parts);
    } else {
        assert(pieces(j, '/') =~= seq![Seq::<char>::empty()]);
        lemma_empty_piece();
    }
    if rooted {
        let none = Seq::<char>::empty();
        assert(none + seq!['/'] + j =~= "/"@ + j);
        text::lemma_pieces_concat(none, j, '/');
        assert(pieces(none, '/') =~= seq![none]);
        lemma_kept_behind(seq![none], pieces(j, '/'));
        lemma_empty_piece();
        if parts.len() > 0 {
            lemma_inner_are_all(parts);
        }
        assert(components(path_of(rooted, parts)) =~= parts);
    } else if parts.len() > 0 {
        lemma_joined_starts(parts);
        if j[0] == '/' {
            assert(parts[0].contains(parts[0][0]));
        }
    }
}

proof fn lemma_inner_are_all(parts: Seq<Seq<char>>)
    requires
        well_placed(true, parts),
    ensures
        inner_pieces(parts) == parts,
    decreases parts.len(),
{
    if parts.len() > 0 {
        let init = parts.drop_last();
        assert(well_placed(true, init)) by {
            assert forall|i: int| 0 <= i < init.len() implies {
                &&& (#[trigger] init[i]).len() > 0
                &&& !init[i].contains('/')
                &&& init[i] != "."@
            } by {
                assert(init[i] == parts[i]);
            }
        }
        lemma_inner_are_all(init);
        assert(parts[parts.len() - 1] == parts.last());
        assert(init.push(parts.last()) =~= parts);
    }
}

proof fn lemma_joined_starts(parts: Seq<Seq<char>>)
    requires
        parts.len() > 0,
        parts[0].len() > 0,
    ensures
        joined(parts, "/"@).len() > 0,
        joined(parts, "/"@)[0] == parts[0][0],
    decreases parts.len(),
{
    if parts.len() > 1 {
        lemma_joined_starts(parts.drop_last());
    }
}

proof fn lemma_first_piece(path: Seq<char>)
    ensures
        is_rooted(path) ==> pieces(path, '/')[0].len() == 0,
        pieces(path, '/').len() > 0,
{
    text::lemma_pieces_not_empty(path, '/');
}

/// Cleaning a path keeps its root and its components, so cleaning it again changes nothing.
pub proof fn law_a_clean_path_stays(path: Seq<char>)
    ensures
        components(cleaned(path)) == components(path),
        is_rooted(cleaned(path)) == is_rooted(path),
        cleaned(cleaned(path)) == cleaned(path),
{
    lemma_pieces_hold_no_separator(path);
    lemma_first_piece(path);
    lemma_kept_are_well_placed(pieces(path, '/'), is_rooted(path));
    lemma_components_of(is_rooted(path), components(path));
}

/// A relative path leads below its base: the components of the base come first, and those of the
/// path follow.
pub proof fn law_a_relative_path_stays_below_its_base(base: Seq<char>, path: Seq<char>)
    requires
        base.len() > 0,
        !is_rooted(path),
    ensures
        components(resolved_under(Some(base), path)) == components(base) + inner_pieces(
            pieces(path, '/'),
        ),
        is_rooted(resolved_under(Some(base), path)) == is_rooted(base),
{
    reveal_strlit("/");
    let whole = base + "/"@ + path;
    assert(whole =~= base + seq!['/'] + path);
    text::lemma_pieces_concat(base, path, '/');
    text::lemma_pieces_not_empty(base, '/');
    lemma_kept_behind(pieces(base, '/'), pieces(path, '/'));
    law_a_clean_path_stays(whole);
}

/// The components of a path can stand in a path.
pub proof fn lemma_components_are_well_placed(path: Seq<char>)
    ensures
        well_placed(is_rooted(path), components(path)),
{
    lemma_pieces_hold_no_separator(path);
    lemma_first_piece(path);
    lemma_kept_are_well_placed(pieces(path, '/'), is_rooted(path));
}

/// Components that are joined and resolved under a base follow those of the base.
pub proof fn lemma_joined_below(base: Seq<char>, parts: Seq<Seq<char>>)
    requires
        base.len() > 0,
        well_placed(true, parts),
    ensures
        components(resolved_under(Some(base), joined(parts, "/"@))) == components(base) + parts,
        is_rooted(resolved_under(Some(base), joined(parts, "/"@))) == is_rooted(base),
{
    reveal_strlit("/");
    let j = joined(parts, "/"@);
    if parts.len() > 0 {
        lemma_pieces_of_joined(parts);
        lemma_inner_are_all(parts);
        lemma_joined_starts(parts);
        if j[0] == '/' {
            assert(parts[0].contains(parts[0][0]));
        }
    } else {
        assert(pieces(j, '/') =~= seq![Seq::<char>::empty()]);
        lemma_empty_piece();
        assert(parts =~= Seq::<Seq<char>>::empty());
    }
    law_a_relative_path_stays_below_its_base(base, j);
}

/// A path is its directory and its name: the components of the directory, and the name behind them.
pub proof fn law_a_path_is_its_directory_and_its_name(path: Seq<char>)
    ensures
        base_name(path) is Some ==> parent_of(path) is Some,
        parent_of(path) matches Some(d) ==> {
            &&& is_rooted(d) == is_rooted(path)
            &&& components(d) == components(path).drop_last()
            &&& base_name(path) matches Some(n) ==> components(path) == components(d).push(n)
        },
        parent_of(path) is None <==> components(path).len() == 0,
        base_name(path) matches Some(n) ==> n != "."@ && n != ".."@ && n.len() > 0 && !n.contains('/'),
        base_name(path) is None && components(path).len() > 0 ==> components(path).last() == "."@
            || components(path).last() == ".."@,
{
    let parts = components(path);
    lemma_components_are_well_placed(path);
    if parts.len() > 0 {
        let head = parts.drop_last();
        assert forall|i: int| 0 <= i < head.len() implies {
            &&& (#[trigger] head[i]).len() > 0
            &&& !head[i].contains('/')
            &&& head[i] == "."@ ==> i == 0 && !is_rooted(path)
        } by {
            assert(head[i] == parts[i]);
        }
        lemma_components_of(is_rooted(path), head);
        assert(parts =~= head.push(parts.last()));
        assert(parts[parts.len() - 1] == parts.last());
    }
}

/// A component of a path is a piece of it between two separators, and every piece is one but the
/// empty ones and a dot behind the first.
pub proof fn law_components_are_the_pieces(path: Seq<char>, p: Seq<char>)
    ensures
        components(path).contains(p) ==> pieces(path, '/').contains(p) && p.len() > 0,
        pieces(path, '/').contains(p) && p.len() > 0 && p != "."@ ==> components(path).contains(p),
{
    lemma_kept_are_pieces(pieces(path, '/'), p);
}

proof fn lemma_kept_are_pieces(ps: Seq<Seq<char>>, p: Seq<char>)
    ensures
        kept_pieces(ps).contains(p) ==> ps.contains(p) && p.len() > 0,
        ps.contains(p) && p.len() > 0 && p != "."@ ==> kept_pieces(ps).contains(p),
    decreases ps.len(),
{
    if ps.len() > 0 {
        let init = ps.drop_last();
        lemma_kept_are_pieces(init, p);
        let rest = kept_pieces(init);
        let now = kept_pieces(ps);
        if init.contains(p) {
            let j = choose|j: int| 0 <= j < init.len() && init[j] == p;
            assert(ps[j] == p);
        }
        if ps.contains(p) {
            let j = choose|j: int| 0 <= j < ps.len() && ps[j] == p;
            if j < init.len() {
                assert(init[j] == p);
            }
        }
        assert(ps[ps.len() - 1] == ps.last());
        if now != rest {
            assert(now[rest.len() as int] == ps.last());
            if rest.contains(p) {
                let j = choose|j: int| 0 <= j < rest.len() && rest[j] == p;
                assert(now[j] == p);
            }
            if now.contains(p) {
                let j = choose|j: int| 0 <= j < now.len() && now[j] == p;
                if j < rest.len() {
                    assert(rest[j] == p);
                }
            }
        }
    }
}

} // verus!
