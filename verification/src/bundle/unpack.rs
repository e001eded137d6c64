//! Unpacking an archive: which of its entries are a bundle's, and where they go.

use vstd::prelude::*;

use crate::bundle::names;
#[allow(unused_imports)]
use crate::bundle::names::{is_junk, is_normal, parts_below};
use crate::paths;
#[allow(unused_imports)]
use crate::paths::{components, is_rooted, kept_pieces};
use crate::text;
#[allow(unused_imports)]
use crate::text::{after_prefix, decimal, last_piece, opt_view, pieces, views};

verus! {

/// An entry of an archive, as its directory lists it.
#[derive(Debug, Clone, PartialEq, Eq)]
pub struct ZipEntry {
    pub name: String,
    pub encrypted: bool,
    pub is_dir: bool,
}

/// A listed entry over texts.
pub struct ZipText {
    pub name: Seq<char>,
    pub encrypted: bool,
    pub is_dir: bool,
}

impl View for ZipEntry {
    type V = ZipText;

    open spec fn view(&self) -> ZipText {
        ZipText { name: self.name@, encrypted: self.encrypted, is_dir: self.is_dir }
    }
}

/// The listed entries over texts.
pub open spec fn zip_texts(entries: Seq<ZipEntry>) -> Seq<ZipText> {
    entries.map_values(|e: ZipEntry| e@)
}

/// How many slashes a text holds.
pub open spec fn slashes(s: Seq<char>) -> nat
    decreases s.len(),
{
    if s.len() == 0 {
        0
    } else if s.last() == '/' {
        slashes(s.drop_last()) + 1
    } else {
        slashes(s.drop_last())
    }
}

/// The folder that an entry lies in, with its slash; empty at the root.
pub open spec fn folder_of(name: Seq<char>) -> Seq<char> {
    name.take(name.len() - last_piece(name, '/').len())
}

/// The folder of the config that lies least deep, the first of equals.
pub open spec fn bundle_folder(entries: Seq<ZipText>) -> Option<Seq<char>>
    decreases entries.len(),
{
    if entries.len() == 0 {
        None
    } else {
        let best = bundle_folder(entries.drop_last());
        let name = entries.last().name;
        let closer = match best {
            Some(b) => slashes(folder_of(name)) < slashes(b),
            None => true,
        };
        if !is_junk(name) && last_piece(name, '/') == "config.yaml"@ && closer {
            Some(folder_of(name))
        } else {
            best
        }
    }
}

/// The path below the bundle's folder of an entry that is unpacked: directories, archiver noise
/// and entries outside the folder are not.
pub open spec fn wanted(e: ZipText, folder: Seq<char>) -> Option<Seq<char>> {
    if e.is_dir || is_junk(e.name) {
        None
    } else {
        after_prefix(e.name, folder)
    }
}

/// Whether a path leads strictly downwards.
pub open spec fn is_safe(rel: Seq<char>) -> bool {
    !is_rooted(rel) && forall|i: int|
        0 <= i < components(rel).len() ==> is_normal(#[trigger] components(rel)[i])
}

/// The name of the first entry that would be unpacked elsewhere than below the target folder.
pub open spec fn first_unsafe(entries: Seq<ZipText>, folder: Seq<char>) -> Option<Seq<char>>
    decreases entries.len(),
{
    if entries.len() == 0 {
        None
    } else if wanted(entries[0], folder) is Some && !is_safe(wanted(entries[0], folder)->0) {
        Some(entries[0].name)
    } else {
        first_unsafe(entries.skip(1), folder)
    }
}

/// An entry that is unpacked: its place in the archive, and its path below the target folder.
#[derive(Debug, Clone, PartialEq, Eq)]
pub struct Target {
    pub index: usize,
    pub rel: String,
}

/// An unpacked entry over texts.
pub struct TargetText {
    pub index: nat,
    pub rel: Seq<char>,
}

impl View for Target {
    type V = TargetText;

    open spec fn view(&self) -> TargetText {
        TargetText { index: self.index as nat, rel: self.rel@ }
    }
}

/// The unpacked entries over texts.
pub open spec fn target_texts(targets: Seq<Target>) -> Seq<TargetText> {
    targets.map_values(|t: Target| t@)
}

/// The entries that are unpacked, in the archive's order.
pub open spec fn unpacked(entries: Seq<ZipText>, folder: Seq<char>) -> Seq<TargetText>
    decreases entries.len(),
{
    if entries.len() == 0 {
        Seq::empty()
    } else {
        let rest = unpacked(entries.drop_last(), folder);
        match wanted(entries.last(), folder) {
            Some(rel) => rest.push(TargetText { index: (entries.len() - 1) as nat, rel }),
            None => rest,
        }
    }
}

/// Whether some entry is encrypted.
pub open spec fn any_encrypted(entries: Seq<ZipText>) -> bool {
    exists|i: int| 0 <= i < entries.len() && (#[trigger] entries[i]).encrypted
}

/// Why an archive is not unpacked, if anything stands against it.
pub open spec fn refusal(entries: Seq<ZipText>, zip: Seq<char>) -> Option<Seq<char>> {
    if any_encrypted(entries) {
        Some(
            zip
                + " is password-protected — dialf can't decrypt zips; unzip it yourself, then: dialf import <folder>"@,
        )
    } else {
        match bundle_folder(entries) {
            None => Some("not a dialf bundle: no config.yaml in "@ + zip),
            Some(folder) => match first_unsafe(entries, folder) {
                Some(name) => Some("refusing zip entry with an unsafe path: "@ + name),
                None => None,
            },
        }
    }
}

/// How many slashes a text holds.
fn count_slashes(s: &str) -> (r: usize)
    ensures
        r == slashes(s@),
        r <= s@.len(),
{
    let cs = text::chars_of(s);
    let mut n: usize = 0;
    let mut i: usize = 0;
    while i < cs.len()
        invariant
            i <= cs.len(),
            n <= i,
            cs@ == s@,
            n == slashes(s@.take(i as int)),
        decreases cs.len() - i,
    {
        proof {
            assert(s@.take(i + 1).drop_last() =~= s@.take(i as int));
            assert(s@.take(i + 1).last() == cs@[i as int]);
        }
        if cs[i] == '/' {
            n += 1;
        }
        i += 1;
    }
    assert(s@.take(i as int) =~= s@);
    n
}

/// The folder that an entry lies in, with its slash, and its name there.
fn split_name(name: &str) -> (r: (String, String))
    ensures
        r.0@ == folder_of(name@),
        r.1@ == last_piece(name@, '/'),
{
    let base = text::after_last(name, '/');
    proof {
        text::lemma_last_piece_len(name@, '/');
    }
    let a: usize = base.as_str().unicode_len();
    let b: usize = name.unicode_len();
    let folder = name.substring_char(0, b - a);
    assert(folder@ =~= folder_of(name@));
    (folder.to_owned(), base)
}

/// The folder of the config that lies least deep.
fn find_folder(entries: &Vec<ZipEntry>) -> (r: Option<String>)
    ensures
        opt_view(r) == bundle_folder(zip_texts(entries@)),
{
    let ghost all = zip_texts(entries@);
    let mut best: Option<String> = None;
    let mut i: usize = 0;
    while i < entries.len()
        invariant
            i <= entries.len(),
            all == zip_texts(entries@),
            opt_view(best) == bundle_folder(all.take(i as int)),
        decreases entries.len() - i,
    {
        proof {
            assert(all.take(i + 1).drop_last() =~= all.take(i as int));
            assert(all.take(i + 1).last() == entries@[i as int]@);
        }
        if !names::is_zip_junk(&entries[i].name) {
            let (folder, base) = split_name(&entries[i].name);
            let closer = match &best {
                Some(b) => count_slashes(&folder) < count_slashes(b),
                None => true,
            };
            if text::same(&base, "config.yaml") && closer {
                best = Some(folder);
            }
        }
        i += 1;
    }
    assert(all.take(i as int) =~= all);
    best
}

/// Whether a path leads strictly downwards.
pub fn leads_down(rel: &str) -> (r: bool)
    ensures
        r == is_safe(rel@),
{
    if paths::rooted(rel) {
        return false;
    }
    let parts = paths::split_path(rel);
    let mut i: usize = 0;
    while i < parts.len()
        invariant
            i <= parts.len(),
            views(parts@) == components(rel@),
            forall|k: int| 0 <= k < i ==> is_normal(#[trigger] components(rel@)[k]),
        decreases parts.len() - i,
    {
        assert(views(parts@)[i as int] == parts@[i as int]@);
        if !names::normal(&parts[i]) {
            return false;
        }
        i += 1;
    }
    assert(components(rel@).len() == parts@.len());
    true
}

/// The path below the bundle's folder of an entry that is unpacked.
fn path_of_entry(e: &ZipEntry, folder: &str) -> (r: Option<String>)
    ensures
        opt_view(r) == wanted(e@, folder@),
{
    if e.is_dir || names::is_zip_junk(&e.name) {
        return None;
    }
    match text::strip_prefix(&e.name, folder) {
        Some(rel) => Some(rel.to_owned()),
        None => None,
    }
}

/// The entries that are unpacked, or the name of one that would end up elsewhere than below the
/// target folder.
fn plan_entries(entries: &Vec<ZipEntry>, folder: &str) -> (r: Result<Vec<Target>, String>)
    ensures
        match (r, first_unsafe(zip_texts(entries@), folder@)) {
            (Ok(v), None) => target_texts(v@) == unpacked(zip_texts(entries@), folder@),
            (Err(e), Some(name)) => e@ == name,
            _ => false,
        },
{
    let ghost all = zip_texts(entries@);
    let mut plan: Vec<Target> = Vec::new();
    let mut i: usize = 0;
    proof {
        assert(all.skip(0) =~= all);
        assert(target_texts(plan@) =~= unpacked(all.take(0), folder@));
    }
    while i < entries.len()
        invariant
            i <= entries.len(),
            all == zip_texts(entries@),
            first_unsafe(all, folder@) == first_unsafe(all.skip(i as int), folder@),
            target_texts(plan@) == unpacked(all.take(i as int), folder@),
        decreases entries.len() - i,
    {
        let ghost before = target_texts(plan@);
        proof {
            assert(all.take(i + 1).drop_last() =~= all.take(i as int));
            assert(all.take(i + 1).last() == entries@[i as int]@);
            assert(all.skip(i as int)[0] == entries@[i as int]@);
            assert(all.skip(i as int).skip(1) =~= all.skip(i + 1));
        }
        if let Some(rel) = path_of_entry(&entries[i], folder) {
            if !leads_down(&rel) {
                return Err(entries[i].name.clone());
            }
            let t = Target { index: i, rel };
            plan.push(t);
            assert(target_texts(plan@) =~= before.push(t@));
        }
        i += 1;
    }
    assert(all.take(i as int) =~= all);
    Ok(plan)
}

/// Plans to unpack an archive flat: the folder that its config lies in is stripped from the
/// names. Refuses archives with a password, without a config, and with entries that would end up
/// elsewhere than below the target folder.
pub fn plan_extraction(entries: &Vec<ZipEntry>, zip: &str) -> (r: Result<Vec<Target>, String>)
    ensures
        match (r, refusal(zip_texts(entries@), zip@)) {
            (Ok(v), None) => target_texts(v@) == unpacked(
                zip_texts(entries@),
                bundle_folder(zip_texts(entries@))->0,
            ),
            (Err(e), Some(why)) => e@ == why,
            _ => false,
        },
{
    let mut i: usize = 0;
    while i < entries.len()
        invariant
            i <= entries.len(),
            forall|k: int| 0 <= k < i ==> !(#[trigger] zip_texts(entries@)[k]).encrypted,
        decreases entries.len() - i,
    {
        assert(zip_texts(entries@)[i as int] == entries@[i as int]@);
        if entries[i].encrypted {
            return Err(
                text::cat(
                    zip,
                    " is password-protected — dialf can't decrypt zips; unzip it yourself, then: dialf import <folder>",
                ),
            );
        }
        i += 1;
    }
    let folder = match find_folder(entries) {
        Some(f) => f,
        None => {
            return Err(text::cat("not a dialf bundle: no config.yaml in ", zip));
        },
    };
    match plan_entries(entries, &folder) {
        Ok(v) => Ok(v),
        Err(name) => Err(text::cat("refusing zip entry with an unsafe path: ", &name)),
    }
}

/// The paths among the unpacked ones that are there already.
pub open spec fn conflicts(targets: Seq<TargetText>, there: Seq<bool>) -> Seq<Seq<char>>
    decreases targets.len(),
{
    if targets.len() == 0 {
        Seq::empty()
    } else {
        let rest = conflicts(targets.drop_last(), there);
        let i = targets.len() - 1;
        if i < there.len() && there[i] {
            rest.push(targets.last().rel)
        } else {
            rest
        }
    }
}

/// Refuses to unpack where something would be overwritten. `there` tells of each target whether
/// it exists.
pub fn check_conflicts(targets: &Vec<Target>, there: &Vec<bool>, dest: &str) -> (r: Result<(), String>)
    ensures
        ({
            let taken = conflicts(target_texts(targets@), there@);
            &&& r is Ok == (taken.len() == 0)
            &&& r matches Err(e) ==> e@ == "won't overwrite "@ + decimal(taken.len())
                + " existing file(s) in "@ + dest@ + " (first: "@ + taken[0]
                + ") — extract in an empty folder, or remove them first"@
        }),
{
    let ghost all = target_texts(targets@);
    let mut n: usize = 0;
    let mut first = "".to_owned();
    let mut i: usize = 0;
    while i < targets.len()
        invariant
            i <= targets.len(),
            n <= i,
            all == target_texts(targets@),
            n == conflicts(all.take(i as int), there@).len(),
            n > 0 ==> first@ == conflicts(all.take(i as int), there@)[0],
        decreases targets.len() - i,
    {
        proof {
            assert(all.take(i + 1).drop_last() =~= all.take(i as int));
            assert(all.take(i + 1).last() == targets@[i as int]@);
        }
        if i < there.len() && there[i] {
            if n == 0 {
                first = targets[i].rel.clone();
            }
            n += 1;
        }
        i += 1;
    }
    assert(all.take(i as int) =~= all);
    if n == 0 {
        return Ok(());
    }
    let mut s = text::cat("won't overwrite ", &text::decimal_of(n as u64));
    s.append(" existing file(s) in ");
    s.append(dest);
    s.append(" (first: ");
    s.append(&first);
    s.append(") — extract in an empty folder, or remove them first");
    Err(s)
}

// ---------------------------------------------------------------------------
// Laws
// ---------------------------------------------------------------------------

proof fn lemma_kept_more(ps: Seq<Seq<char>>, qs: Seq<Seq<char>>)
    requires
        ps.len() > 0,
        qs.len() > 0,
        qs[0] != "."@,
    ensures
        kept_pieces(ps + qs) == kept_pieces(ps) + kept_pieces(qs),
    decreases qs.len(),
{
    let all = ps + qs;
    assert(all.last() == qs.last());
    if qs.len() == 1 {
        assert(all.drop_last() =~= ps);
        assert(qs.drop_last() =~= Seq::<Seq<char>>::empty());
        assert(kept_pieces(qs.drop_last()) =~= Seq::<Seq<char>>::empty());
    } else {
        assert(all.drop_last() =~= ps + qs.drop_last());
        lemma_kept_more(ps, qs.drop_last());
    }
    if qs.last().len() == 0 || (qs.last() == "."@ && qs.len() > 1) {
    } else {
        assert((kept_pieces(ps) + kept_pieces(qs.drop_last())).push(qs.last()) =~= kept_pieces(ps)
            + kept_pieces(qs.drop_last()).push(qs.last()));
    }
    assert(kept_pieces(all) =~= kept_pieces(ps) + kept_pieces(qs));
}

proof fn lemma_kept_first(ps: Seq<Seq<char>>)
    requires
        ps.len() > 0,
        ps[0] == "."@,
    ensures
        kept_pieces(ps).len() > 0,
        kept_pieces(ps)[0] == "."@,
    decreases ps.len(),
{
    if ps.len() > 1 {
        lemma_kept_first(ps.drop_last());
    } else {
        reveal_strlit(".");
        assert(ps.drop_last() =~= Seq::<Seq<char>>::empty());
        assert(kept_pieces(ps.drop_last()) =~= Seq::<Seq<char>>::empty());
    }
}

/// Whatever an accepted entry is called, it is unpacked inside the target folder: its path there
/// is the folder's, followed by names.
pub proof fn law_entries_stay_inside(dest: Seq<char>, rel: Seq<char>)
    requires
        dest.len() > 0,
        is_safe(rel),
    ensures
        parts_below(dest + "/"@ + rel, dest) == Some(components(rel)),
        forall|i: int| 0 <= i < components(rel).len() ==> is_normal(#[trigger] components(rel)[i]),
{
    reveal_strlit("/");
    let path = dest + "/"@ + rel;
    assert(path =~= dest + seq!['/'] + rel);
    text::lemma_pieces_concat(dest, rel, '/');
    text::lemma_pieces_not_empty(dest, '/');
    text::lemma_pieces_not_empty(rel, '/');
    let ps = pieces(dest, '/');
    let qs = pieces(rel, '/');
    if qs[0] == "."@ {
        lemma_kept_first(qs);
        assert(is_normal(components(rel)[0]));
    }
    lemma_kept_more(ps, qs);
    assert(components(path) == components(dest) + components(rel));
    assert(components(path).subrange(0, components(dest).len() as int) =~= components(dest));
    assert(components(path).skip(components(dest).len() as int) =~= components(rel));
    assert(path[0] == dest[0]);
}

/// A bundle's folder is that of a `config.yaml` with the fewest folders above it, and none is found
/// exactly where no entry that counts is one.
pub proof fn law_the_uppermost_config_tells_the_folder(entries: Seq<ZipText>, i: int)
    requires
        0 <= i < entries.len(),
        !is_junk(entries[i].name),
        last_piece(entries[i].name, '/') == "config.yaml"@,
    ensures
        bundle_folder(entries) is Some,
        slashes(bundle_folder(entries)->0) <= slashes(folder_of(entries[i].name)),
        exists|k: int|
            0 <= k < entries.len() && !is_junk((#[trigger] entries[k]).name) && last_piece(
                entries[k].name,
                '/',
            ) == "config.yaml"@ && folder_of(entries[k].name) == bundle_folder(entries)->0,
    decreases entries.len(),
{
    let init = entries.drop_last();
    lemma_folder_of_some(entries);
    if i < init.len() {
        assert(init[i] == entries[i]);
        law_the_uppermost_config_tells_the_folder(init, i);
    }
}

proof fn lemma_folder_of_some(entries: Seq<ZipText>)
    ensures
        bundle_folder(entries) is Some ==> exists|k: int|
            0 <= k < entries.len() && !is_junk((#[trigger] entries[k]).name) && last_piece(
                entries[k].name,
                '/',
            ) == "config.yaml"@ && folder_of(entries[k].name) == bundle_folder(entries)->0,
    decreases entries.len(),
{
    if entries.len() > 0 {
        let init = entries.drop_last();
        lemma_folder_of_some(init);
        if bundle_folder(entries) == bundle_folder(init) && bundle_folder(init) is Some {
            let k = choose|k: int|
                0 <= k < init.len() && !is_junk((#[trigger] init[k]).name) && last_piece(
                    init[k].name,
                    '/',
                ) == "config.yaml"@ && folder_of(init[k].name) == bundle_folder(init)->0;
            assert(entries[k] == init[k]);
        } else if bundle_folder(entries) is Some {
            assert(entries[entries.len() - 1] == entries.last());
        }
    }
}

/// An archive is unpacked only where none of its entries is encrypted, it has a `config.yaml`, and
/// every file below that one's folder leads strictly downwards: not from the root, and through no
/// `.` or `..`.
pub proof fn law_only_safe_archives_are_unpacked(entries: Seq<ZipText>, zip: Seq<char>, i: int)
    requires
        refusal(entries, zip) is None,
        0 <= i < entries.len(),
    ensures
        !entries[i].encrypted,
        bundle_folder(entries) is Some,
        ({
            let folder = bundle_folder(entries)->0;
            !entries[i].is_dir && !is_junk(entries[i].name) && folder.is_prefix_of(entries[i].name)
                ==> {
                let rel = entries[i].name.skip(folder.len() as int);
                &&& !(rel.len() > 0 && rel[0] == '/')
                &&& forall|k: int|
                    0 <= k < components(rel).len() ==> (#[trigger] components(rel)[k]) != "."@
                        && components(rel)[k] != ".."@
            }
        }),
{
    lemma_none_unsafe(entries, bundle_folder(entries)->0, i);
}

proof fn lemma_none_unsafe(entries: Seq<ZipText>, folder: Seq<char>, i: int)
    requires
        first_unsafe(entries, folder) is None,
        0 <= i < entries.len(),
    ensures
        wanted(entries[i], folder) matches Some(rel) ==> is_safe(rel),
    decreases entries.len(),
{
    if i > 0 {
        assert(entries.skip(1)[i - 1] == entries[i]);
        lemma_none_unsafe(entries.skip(1), folder, i - 1);
    }
}

/// What is unpacked of an archive are its files below the folder, each once, in their order, under
/// their own names without the folder's: no directory, and nothing that a desktop left.
pub proof fn law_every_file_is_unpacked_once(entries: Seq<ZipText>, folder: Seq<char>)
    ensures
        forall|t: int|
            0 <= t < unpacked(entries, folder).len() ==> {
                let at = #[trigger] unpacked(entries, folder)[t];
                &&& at.index < entries.len()
                &&& entries[at.index as int].name == folder + at.rel
                &&& !entries[at.index as int].is_dir
                &&& !is_junk(entries[at.index as int].name)
            },
        forall|s: int, t: int|
            0 <= s < t < unpacked(entries, folder).len() ==> (#[trigger] unpacked(
                entries,
                folder,
            )[s]).index < (#[trigger] unpacked(entries, folder)[t]).index,
        forall|i: int|
            0 <= i < entries.len() && !(#[trigger] entries[i]).is_dir && !is_junk(entries[i].name)
                && folder.is_prefix_of(entries[i].name) ==> exists|t: int|
                0 <= t < unpacked(entries, folder).len() && (#[trigger] unpacked(
                    entries,
                    folder,
                )[t]).index == i,
    decreases entries.len(),
{
    if entries.len() > 0 {
        let init = entries.drop_last();
        let rest = unpacked(init, folder);
        let all = unpacked(entries, folder);
        let e = entries.last();
        law_every_file_is_unpacked_once(init, folder);
        assert forall|t: int| 0 <= t < all.len() implies {
            let at = #[trigger] all[t];
            &&& at.index < entries.len()
            &&& entries[at.index as int].name == folder + at.rel
            &&& !entries[at.index as int].is_dir
            &&& !is_junk(entries[at.index as int].name)
        } by {
            if t < rest.len() {
                assert(all[t] == rest[t]);
                assert(init[rest[t].index as int] == entries[rest[t].index as int]);
            } else {
                assert(e.name =~= folder + e.name.skip(folder.len() as int));
            }
        }
        assert forall|s: int, t: int| 0 <= s < t < all.len() implies (#[trigger] all[s]).index < (
        #[trigger] all[t]).index by {
            assert(all[s] == rest[s]);
            if t < rest.len() {
                assert(all[t] == rest[t]);
            }
        }
        assert forall|i: int|
            0 <= i < entries.len() && !(#[trigger] entries[i]).is_dir && !is_junk(entries[i].name)
                && folder.is_prefix_of(entries[i].name) implies exists|t: int|
            0 <= t < all.len() && (#[trigger] all[t]).index == i by {
            if i < init.len() {
                assert(init[i] == entries[i]);
                let t = choose|t: int| 0 <= t < rest.len() && (#[trigger] rest[t]).index == i;
                assert(all[t] == rest[t]);
            } else {
                assert(all[rest.len() as int].index == i);
            }
        }
    }
}

/// What is in the way are the files that are there already, and no others.
pub proof fn law_what_is_there_is_in_the_way(targets: Seq<TargetText>, there: Seq<bool>, rel: Seq<char>)
    requires
        there.len() == targets.len(),
    ensures
        conflicts(targets, there).contains(rel) <==> exists|i: int|
            0 <= i < targets.len() && (#[trigger] targets[i]).rel == rel && there[i],
    decreases targets.len(),
{
    lemma_conflicts(targets, there, rel);
}

proof fn lemma_conflicts(targets: Seq<TargetText>, there: Seq<bool>, rel: Seq<char>)
    requires
        there.len() >= targets.len(),
    ensures
        conflicts(targets, there).contains(rel) <==> exists|i: int|
            0 <= i < targets.len() && (#[trigger] targets[i]).rel == rel && there[i],
    decreases targets.len(),
{
    if targets.len() > 0 {
        let init = targets.drop_last();
        lemma_conflicts(init, there, rel);
        let rest = conflicts(init, there);
        let now = conflicts(targets, there);
        let n = targets.len() - 1;
        if there[n] {
            assert(now[rest.len() as int] == targets.last().rel);
            if rest.contains(rel) {
                let j = choose|j: int| 0 <= j < rest.len() && rest[j] == rel;
                assert(now[j] == rel);
            }
            if now.contains(rel) {
                let j = choose|j: int| 0 <= j < now.len() && now[j] == rel;
                if j < rest.len() {
                    assert(rest[j] == rel);
                } else {
                    assert(targets[n].rel == rel);
                }
            }
        }
        if exists|i: int| 0 <= i < init.len() && (#[trigger] init[i]).rel == rel && there[i] {
            let i = choose|i: int| 0 <= i < init.len() && (#[trigger] init[i]).rel == rel && there[i];
            assert(targets[i] == init[i]);
        }
        if exists|i: int| 0 <= i < targets.len() && (#[trigger] targets[i]).rel == rel && there[i] {
            let i = choose|i: int|
                0 <= i < targets.len() && (#[trigger] targets[i]).rel == rel && there[i];
            if i < n {
                assert(init[i] == targets[i]);
            }
        }
    }
}

/// A name is the folder that it lies in, up to its last separator, and what follows that.
pub proof fn law_a_name_is_its_folder_and_the_rest(name: Seq<char>)
    ensures
        folder_of(name) + last_piece(name, '/') == name,
        folder_of(name).len() > 0 ==> folder_of(name).last() == '/',
        !last_piece(name, '/').contains('/'),
    decreases name.len(),
{
    let k = text::first_at(name, '/') as int;
    text::lemma_first_at_finds(name, '/');
    text::lemma_last_piece_len(name, '/');
    if k < name.len() {
        let rest = name.skip(k + 1);
        law_a_name_is_its_folder_and_the_rest(rest);
        text::lemma_pieces_not_empty(rest, '/');
        assert(pieces(name, '/').last() == pieces(rest, '/').last());
        text::lemma_last_piece_len(rest, '/');
        assert(folder_of(name) =~= name.take(k + 1) + folder_of(rest));
        assert(folder_of(name) + last_piece(name, '/') =~= name.take(k + 1) + (folder_of(rest)
            + last_piece(rest, '/')));
        assert(name.take(k + 1) + rest =~= name);
        if folder_of(rest).len() == 0 {
            assert(folder_of(name) =~= name.take(k + 1));
        }
    } else {
        assert(pieces(name, '/').last() == name);
        assert(folder_of(name) =~= Seq::<char>::empty());
        assert(folder_of(name) + name =~= name);
    }
}

/// An archive that is refused is refused by name: as encrypted before anything else, then as no
/// bundle, then for the first entry that would leave the folder.
pub proof fn law_a_refused_archive_is_named(entries: Seq<ZipText>, zip: Seq<char>, i: int)
    ensures
        0 <= i < entries.len() && entries[i].encrypted ==> refusal(entries, zip) == Some(
            zip
                + " is password-protected — dialf can't decrypt zips; unzip it yourself, then: dialf import <folder>"@,
        ),
        (forall|k: int| 0 <= k < entries.len() ==> !(#[trigger] entries[k]).encrypted)
            && bundle_folder(entries) is None ==> refusal(entries, zip) == Some(
            "not a dialf bundle: no config.yaml in "@ + zip,
        ),
        (forall|k: int| 0 <= k < entries.len() ==> !(#[trigger] entries[k]).encrypted)
            && bundle_folder(entries) is Some && first_unsafe(entries, bundle_folder(entries)->0) is Some
            ==> refusal(entries, zip) == Some(
            "refusing zip entry with an unsafe path: "@ + first_unsafe(
                entries,
                bundle_folder(entries)->0,
            )->0,
        ),
{
}

} // verus!
