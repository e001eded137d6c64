//! Names of bundle entries: forward-slash paths below the bundle's root.

use vstd::prelude::*;

use crate::paths;
#[allow(unused_imports)]
use crate::paths::{base_name, components, is_rooted};
use crate::text;
#[allow(unused_imports)]
use crate::text::{joined, last_piece, pieces, small, views};

verus! {

// ---------------------------------------------------------------------------
// Paths inside a folder
// ---------------------------------------------------------------------------

/// The components of a path below a folder, if it lies there.
pub open spec fn parts_below(path: Seq<char>, dir: Seq<char>) -> Option<Seq<Seq<char>>> {
    if is_rooted(path) == is_rooted(dir) && components(dir).is_prefix_of(components(path)) {
        Some(components(path).skip(components(dir).len() as int))
    } else {
        None
    }
}

/// Whether a component names something: neither `.` nor `..`.
pub open spec fn is_normal(part: Seq<char>) -> bool {
    part != "."@ && part != ".."@
}

/// The components that name something.
pub open spec fn normal_parts(parts: Seq<Seq<char>>) -> Seq<Seq<char>>
    decreases parts.len(),
{
    if parts.len() == 0 {
        Seq::empty()
    } else {
        let rest = normal_parts(parts.drop_last());
        if is_normal(parts.last()) {
            rest.push(parts.last())
        } else {
            rest
        }
    }
}

/// The entry name of a path inside the exported folder.
pub open spec fn entry_name(path: Seq<char>, dir: Seq<char>) -> Option<Seq<char>> {
    match parts_below(path, dir) {
        Some(parts) => Some(joined(normal_parts(parts), "/"@)),
        None => None,
    }
}

/// Whether some component is hidden.
pub open spec fn holds_hidden(parts: Seq<Seq<char>>) -> bool {
    exists|i: int| 0 <= i < parts.len() && hidden_name(#[trigger] parts[i])
}

/// Whether a name is hidden.
pub open spec fn hidden_name(name: Seq<char>) -> bool {
    name.len() > 0 && name[0] == '.'
}

/// The components of a path below a folder, if it lies there.
pub fn below(path: &str, dir: &str) -> (r: Option<Vec<String>>)
    ensures
        match (r, parts_below(path@, dir@)) {
            (Some(v), Some(parts)) => views(v@) == parts,
            (None, None) => true,
            _ => false,
        },
{
    let parts = paths::split_path(path);
    let base = paths::split_path(dir);
    proof {
        assert(components(path@).len() == parts@.len());
        assert(components(dir@).len() == base@.len());
    }
    if paths::rooted(path) != paths::rooted(dir) || base.len() > parts.len() {
        return None;
    }
    let mut i: usize = 0;
    while i < base.len()
        invariant
            i <= base.len() <= parts.len(),
            views(parts@) == components(path@),
            views(base@) == components(dir@),
            forall|k: int| 0 <= k < i ==> components(path@)[k] == components(dir@)[k],
        decreases base.len() - i,
    {
        assert(views(parts@)[i as int] == parts@[i as int]@);
        assert(views(base@)[i as int] == base@[i as int]@);
        if !text::same(&parts[i], &base[i]) {
            proof {
                if components(dir@).is_prefix_of(components(path@)) {
                    assert(components(path@).subrange(0, components(dir@).len() as int)[i as int]
                        == components(path@)[i as int]);
                }
            }
            return None;
        }
        i += 1;
    }
    proof {
        assert(components(dir@) =~= components(path@).subrange(0, components(dir@).len() as int));
    }
    let mut parts = parts;
    let ghost all = parts@;
    let rest = parts.split_off(i);
    proof {
        assert(rest@ =~= all.skip(i as int));
        assert(views(rest@) =~= components(path@).skip(i as int));
    }
    Some(rest)
}

/// Whether a component names something.
pub fn normal(part: &str) -> (r: bool)
    ensures
        r == is_normal(part@),
{
    !text::same(part, ".") && !text::same(part, "..")
}

/// The components that name something, as an entry name.
pub fn zip_name(parts: &Vec<String>) -> (r: String)
    ensures
        r@ == joined(normal_parts(views(parts@)), "/"@),
{
    let mut kept: Vec<String> = Vec::new();
    let mut i: usize = 0;
    let ghost all = views(parts@);
    while i < parts.len()
        invariant
            i <= parts.len(),
            all == views(parts@),
            views(kept@) == normal_parts(all.take(i as int)),
        decreases parts.len() - i,
    {
        proof {
            assert(all.take(i + 1).drop_last() =~= all.take(i as int));
            assert(all.take(i + 1).last() == parts@[i as int]@);
        }
        if normal(&parts[i]) {
            let s = parts[i].clone();
            proof {
                text::lemma_views_push(kept@, s);
            }
            kept.push(s);
        }
        i += 1;
    }
    assert(all.take(i as int) =~= all);
    text::join(&kept, "/")
}

/// The entry name of a path inside the exported folder.
pub fn name_below(path: &str, dir: &str) -> (r: Option<String>)
    ensures
        text::opt_view(r) == entry_name(path@, dir@),
{
    match below(path, dir) {
        Some(parts) => Some(zip_name(&parts)),
        None => None,
    }
}

/// Whether some component is hidden.
pub fn any_hidden(parts: &Vec<String>) -> (r: bool)
    ensures
        r == holds_hidden(views(parts@)),
{
    let mut i: usize = 0;
    while i < parts.len()
        invariant
            i <= parts.len(),
            forall|k: int| 0 <= k < i ==> !hidden_name(#[trigger] views(parts@)[k]),
        decreases parts.len() - i,
    {
        assert(views(parts@)[i as int] == parts@[i as int]@);
        if text::starts_with_char(&parts[i], '.') {
            return true;
        }
        i += 1;
    }
    false
}

// ---------------------------------------------------------------------------
// Kinds of file
// ---------------------------------------------------------------------------

/// The extension of a path's name: what follows its last dot, unless the name starts there.
pub open spec fn extension_of(path: Seq<char>) -> Option<Seq<char>> {
    match base_name(path) {
        Some(n) => if last_piece(n, '.').len() + 1 < n.len() {
            Some(last_piece(n, '.'))
        } else {
            None
        },
        None => None,
    }
}

/// Whether a path is that of a YAML file.
pub open spec fn names_yaml(path: Seq<char>) -> bool {
    match extension_of(path) {
        Some(e) => small(e) == "yaml"@ || small(e) == "yml"@,
        None => false,
    }
}

/// Whether a path is that of a zip archive.
pub open spec fn names_zip(path: Seq<char>) -> bool {
    match extension_of(path) {
        Some(e) => small(e) == "zip"@,
        None => false,
    }
}

/// Archiver noise, which is no part of a bundle.
pub open spec fn is_junk(name: Seq<char>) -> bool {
    ||| text::after_prefix(name, "__MACOSX/"@) is Some
    ||| last_piece(name, '/') == ".DS_Store"@
    ||| last_piece(name, '/') == "Thumbs.db"@
}

/// The extension of a path's name.
pub fn extension(path: &str) -> (r: Option<String>)
    ensures
        text::opt_view(r) == extension_of(path@),
{
    let name = match paths::name_of(path) {
        Some(n) => n,
        None => {
            return None;
        },
    };
    let last = text::after_last(&name, '.');
    let a: usize = last.as_str().unicode_len();
    let b: usize = name.as_str().unicode_len();
    if a < b && b - a > 1 {
        Some(last)
    } else {
        None
    }
}

/// Whether a path is that of a YAML file.
pub fn is_yaml(path: &str) -> (r: bool)
    ensures
        r == names_yaml(path@),
{
    match extension(path) {
        Some(e) => {
            let e = text::to_small(&e);
            text::same(&e, "yaml") || text::same(&e, "yml")
        },
        None => false,
    }
}

/// Whether a path is that of a zip archive.
pub fn is_zip(path: &str) -> (r: bool)
    ensures
        r == names_zip(path@),
{
    match extension(path) {
        Some(e) => text::same(&text::to_small(&e), "zip"),
        None => false,
    }
}

/// Whether an entry is archiver noise.
pub fn is_zip_junk(name: &str) -> (r: bool)
    ensures
        r == is_junk(name@),
{
    let base = text::after_last(name, '/');
    text::starts_with(name, "__MACOSX/") || text::same(&base, ".DS_Store") || text::same(&base, "Thumbs.db")
}

// ---------------------------------------------------------------------------
// From one entry to another
// ---------------------------------------------------------------------------

/// The directory part of an entry name: empty at the root.
pub open spec fn entry_dir(name: Seq<char>) -> Seq<char> {
    let last = last_piece(name, '/');
    if last.len() < name.len() {
        name.take(name.len() - last.len() - 1)
    } else {
        Seq::empty()
    }
}

/// The pieces that are not empty.
pub open spec fn solid(ps: Seq<Seq<char>>) -> Seq<Seq<char>>
    decreases ps.len(),
{
    if ps.len() == 0 {
        Seq::empty()
    } else {
        let rest = solid(ps.drop_last());
        if ps.last().len() == 0 {
            rest
        } else {
            rest.push(ps.last())
        }
    }
}

/// The names along an entry's path.
pub open spec fn entry_parts(name: Seq<char>) -> Seq<Seq<char>> {
    solid(pieces(name, '/'))
}

/// How many leading names two paths share.
pub open spec fn shared(a: Seq<Seq<char>>, b: Seq<Seq<char>>) -> nat
    decreases a.len(),
{
    if a.len() > 0 && b.len() > 0 && a[0] == b[0] {
        1 + shared(a.skip(1), b.skip(1))
    } else {
        0
    }
}

/// The way from directory `base` to entry `target`, both given from the bundle's root: up to
/// what they share, and down from there.
pub open spec fn relative_parts(base: Seq<char>, target: Seq<char>) -> Seq<Seq<char>> {
    let b = entry_parts(base);
    let t = entry_parts(target);
    let n = shared(b, t);
    Seq::new((b.len() - n) as nat, |i: int| ".."@) + t.skip(n as int)
}

/// Where a way leads that starts in a directory: `..` goes up, all else goes down.
pub open spec fn walked(dir: Seq<Seq<char>>, way: Seq<Seq<char>>) -> Seq<Seq<char>>
    decreases way.len(),
{
    if way.len() == 0 {
        dir
    } else if way[0] == ".."@ {
        walked(
            if dir.len() > 0 {
                dir.drop_last()
            } else {
                dir
            },
            way.skip(1),
        )
    } else {
        walked(dir.push(way[0]), way.skip(1))
    }
}

/// The directory part of an entry name (empty for entries at the root).
pub fn parent_of_zip_name(name: &str) -> (r: String)
    ensures
        r@ == entry_dir(name@),
{
    let last = text::after_last(name, '/');
    let a: usize = last.as_str().unicode_len();
    let b: usize = name.unicode_len();
    if a < b {
        let s = name.substring_char(0, b - a - 1);
        assert(s@ =~= name@.take(b - a - 1));
        s.to_owned()
    } else {
        proof {
            reveal_strlit("");
            assert(""@ =~= Seq::<char>::empty());
        }
        "".to_owned()
    }
}

/// The names along an entry's path.
pub fn split_entry(name: &str) -> (r: Vec<String>)
    ensures
        views(r@) == entry_parts(name@),
{
    let ps = text::split(name, '/');
    let ghost all = views(ps@);
    let mut out: Vec<String> = Vec::new();
    let mut i: usize = 0;
    while i < ps.len()
        invariant
            i <= ps.len(),
            all == views(ps@),
            views(out@) == solid(all.take(i as int)),
        decreases ps.len() - i,
    {
        proof {
            assert(all.take(i + 1).drop_last() =~= all.take(i as int));
            assert(all.take(i + 1).last() == ps@[i as int]@);
        }
        if !ps[i].as_str().is_empty() {
            let s = ps[i].clone();
            proof {
                text::lemma_views_push(out@, s);
            }
            out.push(s);
        }
        i += 1;
    }
    assert(all.take(i as int) =~= all);
    out
}

/// How many leading names two paths share.
fn count_shared(a: &Vec<String>, b: &Vec<String>) -> (r: usize)
    ensures
        r == shared(views(a@), views(b@)),
        r <= a@.len(),
        r <= b@.len(),
{
    let ghost av = views(a@);
    let ghost bv = views(b@);
    let mut i: usize = 0;
    proof {
        assert(av.skip(0) =~= av);
        assert(bv.skip(0) =~= bv);
    }
    while i < a.len() && i < b.len()
        invariant
            i <= a.len(),
            i <= b.len(),
            av == views(a@),
            bv == views(b@),
            shared(av, bv) == i + shared(av.skip(i as int), bv.skip(i as int)),
        decreases a.len() - i,
    {
        proof {
            assert(av.skip(i as int)[0] == a@[i as int]@);
            assert(bv.skip(i as int)[0] == b@[i as int]@);
            assert(av.skip(i as int).skip(1) =~= av.skip(i + 1));
            assert(bv.skip(i as int).skip(1) =~= bv.skip(i + 1));
        }
        if !text::same(&a[i], &b[i]) {
            return i;
        }
        i += 1;
    }
    i
}

/// The relative path from directory `base` to entry `target`, both given from the bundle's root:
/// from `scripts` to `samples/x.wav` it is `../samples/x.wav`.
pub fn relative_zip_path(base: &str, target: &str) -> (r: String)
    ensures
        r@ == joined(relative_parts(base@, target@), "/"@),
{
    let b = split_entry(base);
    let t = split_entry(target);
    let n = count_shared(&b, &t);
    let mut parts: Vec<String> = Vec::new();
    let mut i: usize = n;
    while i < b.len()
        invariant
            n <= i <= b.len(),
            parts@.len() == i - n,
            forall|k: int| 0 <= k < parts@.len() ==> (#[trigger] parts@[k])@ == ".."@,
        decreases b.len() - i,
    {
        parts.push("..".to_owned());
        i += 1;
    }
    let mut t = t;
    let ghost all = t@;
    let ghost ups = views(parts@);
    let mut rest = t.split_off(n);
    proof {
        assert(rest@ =~= all.skip(n as int));
    }
    parts.append(&mut rest);
    proof {
        assert(entry_parts(base@).len() == b@.len());
        assert(views(parts@) =~= relative_parts(base@, target@));
    }
    text::join(&parts, "/")
}

// ---------------------------------------------------------------------------
// Laws
// ---------------------------------------------------------------------------

/// Components that all name something all stay.
pub proof fn lemma_all_normal(parts: Seq<Seq<char>>)
    requires
        forall|i: int| 0 <= i < parts.len() ==> is_normal(#[trigger] parts[i]),
    ensures
        normal_parts(parts) == parts,
    decreases parts.len(),
{
    if parts.len() > 0 {
        let init = parts.drop_last();
        assert forall|i: int| 0 <= i < init.len() implies is_normal(#[trigger] init[i]) by {
            assert(init[i] == parts[i]);
        }
        lemma_all_normal(init);
        assert(is_normal(parts[parts.len() - 1]));
        assert(init.push(parts.last()) =~= parts);
    }
}

proof fn lemma_shared(a: Seq<Seq<char>>, b: Seq<Seq<char>>)
    ensures
        shared(a, b) <= a.len(),
        shared(a, b) <= b.len(),
        a.take(shared(a, b) as int) == b.take(shared(a, b) as int),
    decreases a.len(),
{
    if a.len() > 0 && b.len() > 0 && a[0] == b[0] {
        lemma_shared(a.skip(1), b.skip(1));
        let n = shared(a.skip(1), b.skip(1)) as int;
        assert forall|i: int| 0 <= i < n + 1 implies a[i] == b[i] by {
            if i > 0 {
                assert(a.skip(1).take(n)[i - 1] == b.skip(1).take(n)[i - 1]);
            }
        }
        assert(a.take(n + 1) =~= b.take(n + 1));
    } else {
        assert(a.take(0) =~= b.take(0));
    }
}

proof fn lemma_walk_up(dir: Seq<Seq<char>>, n: nat, rest: Seq<Seq<char>>)
    requires
        n <= dir.len(),
    ensures
        walked(dir, Seq::new(n, |i: int| ".."@) + rest) == walked(dir.take(dir.len() - n), rest),
    decreases n,
{
    let way = Seq::new(n, |i: int| ".."@) + rest;
    if n == 0 {
        assert(way =~= rest);
        assert(dir.take(dir.len() as int) =~= dir);
    } else {
        assert(way.skip(1) =~= Seq::new((n - 1) as nat, |i: int| ".."@) + rest);
        lemma_walk_up(dir.drop_last(), (n - 1) as nat, rest);
        assert(dir.drop_last().take(dir.len() - n) =~= dir.take(dir.len() - n));
    }
}

proof fn lemma_walk_down(dir: Seq<Seq<char>>, rest: Seq<Seq<char>>)
    requires
        forall|i: int| 0 <= i < rest.len() ==> #[trigger] rest[i] != ".."@,
    ensures
        walked(dir, rest) == dir + rest,
    decreases rest.len(),
{
    if rest.len() == 0 {
        assert(dir + rest =~= dir);
    } else {
        assert(rest[0] != ".."@);
        lemma_walk_down(dir.push(rest[0]), rest.skip(1));
        assert(dir.push(rest[0]) + rest.skip(1) =~= dir + rest);
    }
}

/// The relative path that is written into a script leads from the script's directory to the very
/// entry that it stands for.
pub proof fn law_relative_paths_lead_to_their_target(base: Seq<char>, target: Seq<char>)
    requires
        forall|i: int| 0 <= i < entry_parts(target).len() ==> #[trigger] entry_parts(target)[i] != ".."@,
    ensures
        walked(entry_parts(base), relative_parts(base, target)) == entry_parts(target),
{
    let b = entry_parts(base);
    let t = entry_parts(target);
    let n = shared(b, t);
    lemma_shared(b, t);
    lemma_walk_up(b, (b.len() - n) as nat, t.skip(n as int));
    lemma_walk_down(b.take(n as int), t.skip(n as int));
    assert(b.take(n as int) + t.skip(n as int) =~= t);
}

/// Hidden are the names that begin with a dot; a path holds a hidden one where any of its parts is.
pub proof fn law_hidden_names_begin_with_a_dot(name: Seq<char>, parts: Seq<Seq<char>>, i: int)
    ensures
        hidden_name(seq!['.'] + name),
        name.len() > 0 && name[0] != '.' ==> !hidden_name(name),
        !hidden_name(Seq::empty()),
        0 <= i < parts.len() && hidden_name(parts[i]) ==> holds_hidden(parts),
        holds_hidden(parts) ==> exists|k: int| 0 <= k < parts.len() && (#[trigger] parts[k]).len() > 0,
{
}

/// What lies below a folder are the parts behind the folder's own, and only what starts with all of
/// these lies below it.
pub proof fn law_what_lies_below_a_folder(path: Seq<char>, dir: Seq<char>)
    ensures
        parts_below(path, dir) matches Some(parts) ==> components(path) == components(dir) + parts
            && is_rooted(path) == is_rooted(dir),
        parts_below(path, dir) is None ==> is_rooted(path) != is_rooted(dir) || components(dir).len()
            > components(path).len() || components(path).take(components(dir).len() as int)
            != components(dir),
{
    let n = components(dir).len() as int;
    if let Some(parts) = parts_below(path, dir) {
        assert(components(path) =~= components(dir) + parts);
    }
    if n <= components(path).len() {
        assert(components(path).take(n) =~= components(path).subrange(0, n));
    }
}

/// The parts that name something are all but the signs for this folder and the one above, in
/// order.
pub proof fn law_normal_parts_name_something(parts: Seq<Seq<char>>, p: Seq<char>)
    ensures
        normal_parts(parts).contains(p) <==> parts.contains(p) && p != "."@ && p != ".."@,
        (forall|i: int| 0 <= i < parts.len() ==> (#[trigger] parts[i]) != "."@ && parts[i] != ".."@)
            ==> normal_parts(parts) == parts,
    decreases parts.len(),
{
    if parts.len() > 0 {
        let init = parts.drop_last();
        law_normal_parts_name_something(init, p);
        let rest = normal_parts(init);
        let now = normal_parts(parts);
        if init.contains(p) {
            let j = choose|j: int| 0 <= j < init.len() && init[j] == p;
            assert(parts[j] == p);
        }
        if parts.contains(p) {
            let j = choose|j: int| 0 <= j < parts.len() && parts[j] == p;
            if j < init.len() {
                assert(init[j] == p);
            }
        }
        assert(parts[parts.len() - 1] == parts.last());
        if is_normal(parts.last()) {
            assert(now[rest.len() as int] == parts.last());
            if rest.contains(p) {
                let j = choose|j: int| 0 <= j < rest.len() && rest[j] == p;
                assert(now[j] == p);
            }
            if now.contains(p) {
                let j = choose|j: int| 0 <= j < now.len() && now[j] == p;
                if j < rest.len() {
                    assert(rest[j] == p);
                }
            }
        }
        if forall|i: int| 0 <= i < parts.len() ==> (#[trigger] parts[i]) != "."@ && parts[i] != ".."@ {
            assert forall|i: int| 0 <= i < init.len() implies (#[trigger] init[i]) != "."@ && init[i]
                != ".."@ by {
                assert(init[i] == parts[i]);
            }
            assert(now =~= parts);
        }
    } else {
        assert(normal_parts(parts) =~= parts);
    }
}

/// An extension is what follows the last dot of a name that has something before it.
pub proof fn law_an_extension_follows_the_last_dot(path: Seq<char>, stem: Seq<char>, ext: Seq<char>)
    requires
        base_name(path) == Some(stem + seq!['.'] + ext),
        forall|i: int| 0 <= i < ext.len() ==> ext[i] != '.',
    ensures
        stem.len() > 0 ==> extension_of(path) == Some(ext),
        stem.len() == 0 ==> extension_of(path) is None,
        stem.len() > 0 ==> (names_yaml(path) <==> small(ext) == "yaml"@ || small(ext) == "yml"@),
        stem.len() > 0 ==> (names_zip(path) <==> small(ext) == "zip"@),
{
    let n = stem + seq!['.'] + ext;
    text::lemma_pieces_concat(stem, ext, '.');
    text::lemma_first_at(ext, '.', ext.len() as int);
    assert(pieces(ext, '.') =~= seq![ext]);
    text::lemma_pieces_not_empty(stem, '.');
    assert(pieces(n, '.').last() == ext);
}

/// A name without a dot has no extension.
pub proof fn law_no_dot_is_no_extension(path: Seq<char>, name: Seq<char>)
    requires
        base_name(path) == Some(name),
        forall|i: int| 0 <= i < name.len() ==> name[i] != '.',
    ensures
        extension_of(path) is None,
        !names_yaml(path),
        !names_zip(path),
{
    text::lemma_first_at(name, '.', name.len() as int);
    assert(pieces(name, '.') =~= seq![name]);
}

/// What a desktop leaves in archives is no part of a bundle: its metadata folder, and its two files
/// in any folder.
pub proof fn law_desktop_leavings_are_junk(dir: Seq<char>, name: Seq<char>)
    requires
        forall|i: int| 0 <= i < name.len() ==> name[i] != '/',
    ensures
        is_junk("__MACOSX/"@ + dir),
        name == ".DS_Store"@ || name == "Thumbs.db"@ ==> is_junk(name) && is_junk(
            dir + seq!['/'] + name,
        ),
        name != ".DS_Store"@ && name != "Thumbs.db"@ && !"__MACOSX/"@.is_prefix_of(
            dir + seq!['/'] + name,
        ) ==> !is_junk(dir + seq!['/'] + name),
{
    let m = "__MACOSX/"@;
    let all = m + dir;
    assert(m =~= all.take(m.len() as int));
    text::lemma_pieces_concat(dir, name, '/');
    text::lemma_first_at(name, '/', name.len() as int);
    assert(pieces(name, '/') =~= seq![name]);
    text::lemma_pieces_not_empty(dir, '/');
    assert(pieces(dir + seq!['/'] + name, '/').last() == name);
}

/// The folder of an entry is what stands before its last separator.
pub proof fn law_an_entry_lies_in_its_folder(dir: Seq<char>, name: Seq<char>)
    requires
        forall|i: int| 0 <= i < name.len() ==> name[i] != '/',
    ensures
        entry_dir(dir + seq!['/'] + name) == dir,
        entry_dir(name).len() == 0,
{
    let all = dir + seq!['/'] + name;
    text::lemma_pieces_concat(dir, name, '/');
    text::lemma_first_at(name, '/', name.len() as int);
    assert(pieces(name, '/') =~= seq![name]);
    text::lemma_pieces_not_empty(dir, '/');
    assert(pieces(all, '/').last() == name);
    assert(all.take(all.len() - name.len() - 1) =~= dir);
}

} // verus!
