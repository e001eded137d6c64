//! Exporting: which files go into a bundle, under which names, and what is rewritten on the way.

use vstd::prelude::*;

#[allow(unused_imports)]
use crate::bundle::names::{
    entry_dir, entry_name, hidden_name, holds_hidden, names_yaml, normal_parts, parts_below,
    relative_parts,
};
use crate::bundle::names;
use crate::bundle::rewrite;
#[allow(unused_imports)]
use crate::bundle::rewrite::{edit_views, quoted, EditText};
use crate::bundle::rewrite::Edit;
use crate::jobs::schema::{Step, StepKind};
use crate::paths;
#[allow(unused_imports)]
use crate::paths::{base_name, is_rooted};
#[allow(unused_imports)]
use crate::table::{before, lemma_before_total, lemma_before_transitive, text_table};
use crate::table::{stands_before, Table};
use crate::text;
#[allow(unused_imports)]
use crate::text::{decimal, joined, opt_view, views};

verus! {

// ---------------------------------------------------------------------------
// What is being packed
// ---------------------------------------------------------------------------

/// A step, with the file that it plays as text.
pub enum StepText {
    Play { file: Seq<char>, description: Option<String>, id: Option<String> },
    Other(Step),
}

/// A step over texts.
pub open spec fn step_text(step: Step) -> StepText {
    match step.kind {
        StepKind::AudioPlay { file } => StepText::Play {
            file: file@,
            description: step.description,
            id: step.id,
        },
        _ => StepText::Other(step),
    }
}

/// The steps of a job over texts.
pub open spec fn job_text(job: Seq<Step>) -> Seq<StepText> {
    job.map_values(|s: Step| step_text(s))
}

/// What an entry of the bundle is made of: a file on disk, a rewritten job, or the rewritten
/// config.
#[derive(Debug, Clone, PartialEq, Eq)]
pub enum Src {
    File(String),
    Job(Vec<Step>),
    Config,
}

/// The content of an entry over texts.
#[verifier::ext_equal]
pub enum SrcText {
    File(Seq<char>),
    Job(Seq<StepText>),
    Config,
}

impl View for Src {
    type V = SrcText;

    open spec fn view(&self) -> SrcText {
        match *self {
            Src::File(p) => SrcText::File(p@),
            Src::Job(steps) => SrcText::Job(job_text(steps@)),
            Src::Config => SrcText::Config,
        }
    }
}

/// A bundle in the making: its entries by name, the entry of each file that was pulled in from
/// outside the folder, and what the user is to be told.
pub struct Pack {
    pub entries: Table<Src>,
    pub pulled: Table<String>,
    pub warnings: Vec<String>,
}

/// A bundle in the making over texts.
#[verifier::ext_equal]
pub struct PackText {
    pub entries: Map<Seq<char>, SrcText>,
    pub pulled: Map<Seq<char>, Seq<char>>,
    pub warnings: Seq<Seq<char>>,
}

/// The contents of a table of entries over texts.
pub open spec fn entry_texts(m: Map<Seq<char>, Src>) -> Map<Seq<char>, SrcText> {
    m.map_values(|s: Src| s@)
}

impl View for Pack {
    type V = PackText;

    open spec fn view(&self) -> PackText {
        PackText {
            entries: entry_texts(self.entries@),
            pulled: text_table(self.pulled@),
            warnings: views(self.warnings@),
        }
    }
}

/// The bundle with one more warning.
pub open spec fn warned(p: PackText, warning: Seq<char>) -> PackText {
    PackText { warnings: p.warnings.push(warning), ..p }
}

/// The bundle with an entry put into it.
pub open spec fn holding(p: PackText, name: Seq<char>, src: SrcText) -> PackText {
    PackText { entries: p.entries.insert(name, src), ..p }
}

impl Pack {
    /// An empty bundle.
    pub fn new() -> (r: Self)
        ensures
            r@ == (PackText { entries: Map::empty(), pulled: Map::empty(), warnings: Seq::empty() }),
    {
        let r = Pack { entries: Table::new(), pulled: Table::new(), warnings: Vec::new() };
        proof {
            assert(r@.entries =~= Map::<Seq<char>, SrcText>::empty());
            assert(r@.pulled =~= Map::<Seq<char>, Seq<char>>::empty());
            assert(r@.warnings =~= Seq::<Seq<char>>::empty());
        }
        r
    }

    /// Notes what the user is to be told.
    fn warn(&mut self, warning: String)
        ensures
            final(self)@ == warned(old(self)@, warning@),
    {
        proof {
            text::lemma_views_push(self.warnings@, warning);
        }
        self.warnings.push(warning);
    }

    /// Puts an entry into the bundle.
    fn put(&mut self, name: String, src: Src)
        ensures
            final(self)@ == holding(old(self)@, name@, src@),
    {
        let ghost m = self.entries@;
        let ghost k = name@;
        self.entries.insert(name, src);
        proof {
            assert(entry_texts(m.insert(k, src)) =~= entry_texts(m).insert(k, src@));
        }
    }
}

// ---------------------------------------------------------------------------
// Pulling files in
// ---------------------------------------------------------------------------

/// The names that a file from outside the folder may get, in order of preference.
pub open spec fn pull_name(under: Seq<char>, base: Seq<char>, n: nat) -> Seq<char> {
    if n == 0 {
        under + "/"@ + base
    } else {
        under + "/"@ + decimal(n) + "-"@ + base
    }
}

/// Whether the `n`-th name is the first that no entry has.
pub open spec fn is_first_free(
    entries: Map<Seq<char>, SrcText>,
    under: Seq<char>,
    base: Seq<char>,
    n: nat,
) -> bool {
    &&& !entries.dom().contains(pull_name(under, base, n))
    &&& forall|k: nat| k < n ==> entries.dom().contains(#[trigger] pull_name(under, base, k))
}

/// The first name that no entry has.
pub open spec fn free_name(
    entries: Map<Seq<char>, SrcText>,
    under: Seq<char>,
    base: Seq<char>,
) -> Seq<char> {
    pull_name(under, base, choose|n: nat| is_first_free(entries, under, base, n))
}

/// The name of a file from outside the folder: its own, or a stand-in where it has none.
pub open spec fn pulled_base(src: Seq<char>) -> Seq<char> {
    match base_name(src) {
        Some(n) => n,
        None => "file"@,
    }
}

/// The bundle with the file at `src` in it, and the file's entry: the one that it has, or a new
/// one under `under`, at the first name that no entry has.
pub open spec fn pulled_in(p: PackText, src: Seq<char>, under: Seq<char>) -> (PackText, Seq<char>) {
    if p.pulled.dom().contains(src) {
        (p, p.pulled[src])
    } else {
        let name = free_name(p.entries, under, pulled_base(src));
        (
            PackText {
                entries: p.entries.insert(name, SrcText::File(src)),
                pulled: p.pulled.insert(src, name),
                ..p
            },
            name,
        )
    }
}

proof fn lemma_pull_names_differ(under: Seq<char>, base: Seq<char>, a: nat, b: nat)
    requires
        a < b,
    ensures
        pull_name(under, base, a) != pull_name(under, base, b),
{
    let head = under + "/"@;
    text::lemma_decimal_value(a);
    text::lemma_decimal_value(b);
    reveal_strlit("-");
    let da = decimal(a);
    let db = decimal(b);
    if pull_name(under, base, a) == pull_name(under, base, b) {
        if a == 0 {
            assert((head + base).len() == (head + db + "-"@ + base).len());
        } else {
            let na = head + da + "-"@ + base;
            let nb = head + db + "-"@ + base;
            assert(na.len() == nb.len());
            assert(da =~= na.subrange(head.len() as int, (head.len() + da.len()) as int));
            assert(db =~= nb.subrange(head.len() as int, (head.len() + db.len()) as int));
        }
    }
}

/// The first `n` names, where entries have all of them, are no more than there are entries.
proof fn lemma_taken_names(entries: Map<Seq<char>, SrcText>, under: Seq<char>, base: Seq<char>, n: nat)
    requires
        entries.dom().finite(),
        forall|k: nat| k < n ==> entries.dom().contains(#[trigger] pull_name(under, base, k)),
    ensures
        n <= entries.dom().len(),
{
    let taken = Seq::new(n, |k: int| pull_name(under, base, k as nat));
    assert forall|i: int, j: int| 0 <= i < taken.len() && 0 <= j < taken.len() && i != j implies taken[i]
        != taken[j] by {
        if i < j {
            lemma_pull_names_differ(under, base, i as nat, j as nat);
        } else {
            lemma_pull_names_differ(under, base, j as nat, i as nat);
        }
    }
    taken.unique_seq_to_set();
    assert forall|x: Seq<char>| taken.to_set().contains(x) implies entries.dom().contains(x) by {
        let i = choose|i: int| 0 <= i < taken.len() && taken[i] == x;
        assert(pull_name(under, base, i as nat) == x);
    }
    vstd::set_lib::lemma_len_subset(taken.to_set(), entries.dom());
}

proof fn lemma_first_free(entries: Map<Seq<char>, SrcText>, under: Seq<char>, base: Seq<char>, n: nat)
    requires
        is_first_free(entries, under, base, n),
    ensures
        free_name(entries, under, base) == pull_name(under, base, n),
{
    let m = choose|m: nat| is_first_free(entries, under, base, m);
    if m < n {
        assert(entries.dom().contains(pull_name(under, base, m)));
    } else if n < m {
        assert(entries.dom().contains(pull_name(under, base, n)));
    }
}

/// The `n`-th name that a file may get.
fn nth_pull_name(under: &str, base: &str, n: u64) -> (r: String)
    ensures
        r@ == pull_name(under@, base@, n as nat),
{
    let mut s = text::cat(under, "/");
    if n > 0 {
        s.append(&text::decimal_of(n));
        s.append("-");
    }
    s.append(base);
    s
}

impl Pack {
    /// Adds a file from outside the folder to the bundle, under `under`, unless it is in it
    /// already. Where its name is taken it gets a number in front. Returns the entry's name.
    pub fn pull_external(&mut self, src: &str, under: &str) -> (r: String)
        ensures
            (final(self)@, r@) == pulled_in(old(self)@, src@, under@),
    {
        let ghost p = self@;
        if let Some(name) = self.pulled.get(src) {
            return name.clone();
        }
        let base = match paths::name_of(src) {
            Some(n) => n,
            None => "file".to_owned(),
        };
        let mut n: u64 = 0;
        let mut name = nth_pull_name(under, &base, 0);
        proof {
            self.entries.lemma_finite();
            assert(p.entries.dom() =~= self.entries@.dom());
        }
        while self.entries.contains(&name)
            invariant
                self@ == p,
                *self == *old(self),
                p.entries.dom() == self.entries@.dom(),
                p.entries.dom().finite(),
                p.entries.dom().len() <= usize::MAX,
                name@ == pull_name(under@, base@, n as nat),
                forall|k: nat|
                    k < n ==> p.entries.dom().contains(#[trigger] pull_name(under@, base@, k)),
            decreases p.entries.dom().len() - n,
        {
            proof {
                lemma_taken_names(p.entries, under@, base@, (n + 1) as nat);
            }
            n += 1;
            name = nth_pull_name(under, &base, n);
        }
        proof {
            assert(is_first_free(p.entries, under@, base@, n as nat));
            lemma_first_free(p.entries, under@, base@, n as nat);
        }
        self.put(name.clone(), Src::File(src.to_owned()));
        let ghost m = self.pulled@;
        self.pulled.insert(src.to_owned(), name.clone());
        proof {
            assert(text_table(self.pulled@) =~= text_table(m).insert(src@, name@));
        }
        name
    }
}

// ---------------------------------------------------------------------------
// Scripts
// ---------------------------------------------------------------------------

/// The texts of optional strings.
pub open spec fn opt_views(v: Seq<Option<String>>) -> Seq<Option<Seq<char>>> {
    v.map_values(|o: Option<String>| opt_view(o))
}

/// The file that the `i`-th step plays, where it is there.
pub open spec fn target_at(targets: Seq<Option<Seq<char>>>, i: int) -> Option<Seq<char>> {
    if 0 <= i < targets.len() {
        targets[i]
    } else {
        None
    }
}

/// Where a script stands: on disk, as a directory of the bundle, in the exported folder, and
/// what of that folder is left out.
pub struct PlaceText {
    pub disk: Seq<char>,
    pub zip_dir: Seq<char>,
    pub dir: Seq<char>,
    pub excluded: Seq<Seq<char>>,
}

/// Whether a path lies in one of some folders.
pub open spec fn in_any(path: Seq<char>, dirs: Seq<Seq<char>>) -> bool {
    exists|i: int| 0 <= i < dirs.len() && parts_below(path, #[trigger] dirs[i]) is Some
}

/// The path of an entry as a script in `zip_dir` writes it.
pub open spec fn seen_from(zip_dir: Seq<char>, entry: Seq<char>) -> Seq<char> {
    joined(relative_parts(zip_dir, entry), "/"@)
}

/// The step, playing another file.
pub open spec fn playing(step: StepText, file: Seq<char>) -> StepText {
    match step {
        StepText::Play { file: _, description, id } => StepText::Play { file, description, id },
        StepText::Other(s) => StepText::Other(s),
    }
}

/// One step of a script in the folder: the bundle after it, the step, and whether it changed.
///
/// A file that is not there is left alone, with a warning, and so is one of the folder that the
/// bundle does not carry. A relative path within the folder holds in the bundle too. An absolute
/// one becomes relative, and a file from outside is pulled in.
pub open spec fn packed_step(
    p: PackText,
    step: StepText,
    target: Option<Seq<char>>,
    at: PlaceText,
) -> (PackText, StepText, bool) {
    match step {
        StepText::Other(_) => (p, step, false),
        StepText::Play { file, description: _, id: _ } => match target {
            None => (
                warned(p, at.disk + ": audio.play file not found: "@ + file + " (kept as-is)"@),
                step,
                false,
            ),
            Some(t) => match parts_below(t, at.dir) {
                Some(parts) => if in_any(t, at.excluded) || holds_hidden(parts) {
                    (
                        warned(
                            p,
                            at.disk + ": audio.play file "@ + file
                                + " is under an excluded/hidden path — NOT in the bundle"@,
                        ),
                        step,
                        false,
                    )
                } else if !is_rooted(file) {
                    (p, step, false)
                } else {
                    (p, playing(step, seen_from(at.zip_dir, joined(normal_parts(parts), "/"@))), true)
                },
                None => {
                    let q = warned(
                        p,
                        at.disk + ": pulled out-of-tree sample "@ + t + " into the bundle"@,
                    );
                    let (r, name) = pulled_in(q, t, "samples"@);
                    (r, playing(step, seen_from(at.zip_dir, name)), true)
                },
            },
        },
    }
}

/// One step of an autoanswer job from outside the folder, which moves into the bundle: every file
/// that is there is played from where the bundle has it.
pub open spec fn moved_step(
    p: PackText,
    step: StepText,
    target: Option<Seq<char>>,
    zip_dir: Seq<char>,
    dir: Seq<char>,
) -> (PackText, StepText, bool) {
    match (step, target) {
        (StepText::Play { file: _, description: _, id: _ }, Some(t)) => match entry_name(t, dir) {
            Some(name) => (p, playing(step, seen_from(zip_dir, name)), true),
            None => {
                let (q, name) = pulled_in(p, t, "samples"@);
                (q, playing(step, seen_from(zip_dir, name)), true)
            },
        },
        _ => (p, step, false),
    }
}

/// All steps of a script in the folder, in turn.
pub open spec fn packed_steps(
    p: PackText,
    job: Seq<StepText>,
    targets: Seq<Option<Seq<char>>>,
    at: PlaceText,
) -> (PackText, Seq<StepText>, bool)
    decreases job.len(),
{
    if job.len() == 0 {
        (p, Seq::empty(), false)
    } else {
        let (q, done, some) = packed_steps(p, job.drop_last(), targets, at);
        let (r, step, this) = packed_step(q, job.last(), target_at(targets, job.len() - 1), at);
        (r, done.push(step), some || this)
    }
}

/// All steps of an autoanswer job from outside the folder, in turn.
pub open spec fn moved_steps(
    p: PackText,
    job: Seq<StepText>,
    targets: Seq<Option<Seq<char>>>,
    zip_dir: Seq<char>,
    dir: Seq<char>,
) -> (PackText, Seq<StepText>, bool)
    decreases job.len(),
{
    if job.len() == 0 {
        (p, Seq::empty(), false)
    } else {
        let (q, done, some) = moved_steps(p, job.drop_last(), targets, zip_dir, dir);
        let (r, step, this) = moved_step(
            q,
            job.last(),
            target_at(targets, job.len() - 1),
            zip_dir,
            dir,
        );
        (r, done.push(step), some || this)
    }
}

/// Where a script stands.
pub struct Place {
    pub disk: String,
    pub zip_dir: String,
    pub dir: String,
    pub excluded: Vec<String>,
}

impl View for Place {
    type V = PlaceText;

    open spec fn view(&self) -> PlaceText {
        PlaceText {
            disk: self.disk@,
            zip_dir: self.zip_dir@,
            dir: self.dir@,
            excluded: views(self.excluded@),
        }
    }
}

/// Whether a path lies in one of some folders.
fn lies_in_any(path: &str, dirs: &Vec<String>) -> (r: bool)
    ensures
        r == in_any(path@, views(dirs@)),
{
    let mut i: usize = 0;
    while i < dirs.len()
        invariant
            i <= dirs.len(),
            forall|k: int| 0 <= k < i ==> parts_below(path@, #[trigger] views(dirs@)[k]) is None,
        decreases dirs.len() - i,
    {
        assert(views(dirs@)[i as int] == dirs@[i as int]@);
        if names::below(path, &dirs[i]).is_some() {
            return true;
        }
        i += 1;
    }
    false
}

/// The file that the `i`-th step plays, where it is there.
fn target_of(targets: &Vec<Option<String>>, i: usize) -> (r: Option<&str>)
    ensures
        (match r {
            Some(s) => Some(s@),
            None => None,
        }) == target_at(opt_views(targets@), i as int),
{
    if i < targets.len() {
        assert(opt_views(targets@)[i as int] == opt_view(targets@[i as int]));
        match &targets[i] {
            Some(s) => Some(s.as_str()),
            None => None,
        }
    } else {
        None
    }
}

impl Pack {
    /// Takes one step of a script in the folder into account: the step as the bundle has it, and
    /// whether that differs.
    pub fn pack_step(&mut self, step: Step, target: Option<&str>, at: &Place) -> (r: (Step, bool))
        ensures
            (final(self)@, step_text(r.0), r.1) == packed_step(
                old(self)@,
                step_text(step),
                match target {
                    Some(t) => Some(t@),
                    None => None,
                },
                at@,
            ),
    {
        let file = match &step.kind {
            StepKind::AudioPlay { file } => file.clone(),
            _ => {
                return (step, false);
            },
        };
        let t = match target {
            Some(t) => t,
            None => {
                let mut w = text::cat(&at.disk, ": audio.play file not found: ");
                w.append(&file);
                w.append(" (kept as-is)");
                self.warn(w);
                return (step, false);
            },
        };
        let entry = match names::below(t, &at.dir) {
            Some(parts) => {
                if lies_in_any(t, &at.excluded) || names::any_hidden(&parts) {
                    let mut w = text::cat(&at.disk, ": audio.play file ");
                    w.append(&file);
                    w.append(" is under an excluded/hidden path — NOT in the bundle");
                    self.warn(w);
                    return (step, false);
                }
                if !paths::rooted(&file) {
                    return (step, false);
                }
                names::zip_name(&parts)
            },
            None => {
                let mut w = text::cat(&at.disk, ": pulled out-of-tree sample ");
                w.append(t);
                w.append(" into the bundle");
                self.warn(w);
                self.pull_external(t, "samples")
            },
        };
        let file = names::relative_zip_path(&at.zip_dir, &entry);
        (Step { kind: StepKind::AudioPlay { file }, description: step.description, id: step.id }, true)
    }

    /// Takes one step of an autoanswer job from outside the folder into account.
    pub fn move_step(&mut self, step: Step, target: Option<&str>, zip_dir: &str, dir: &str) -> (r: (
        Step,
        bool,
    ))
        ensures
            (final(self)@, step_text(r.0), r.1) == moved_step(
                old(self)@,
                step_text(step),
                match target {
                    Some(t) => Some(t@),
                    None => None,
                },
                zip_dir@,
                dir@,
            ),
    {
        let plays = match &step.kind {
            StepKind::AudioPlay { .. } => true,
            _ => false,
        };
        let t = match target {
            Some(t) => t,
            None => {
                return (step, false);
            },
        };
        if !plays {
            return (step, false);
        }
        let entry = match names::name_below(t, dir) {
            Some(n) => n,
            None => self.pull_external(t, "samples"),
        };
        let file = names::relative_zip_path(zip_dir, &entry);
        (Step { kind: StepKind::AudioPlay { file }, description: step.description, id: step.id }, true)
    }

    /// Takes a script in the folder into account: its steps as the bundle has them, or none where
    /// the file can be shipped as it is.
    pub fn normalize_script(
        &mut self,
        job: Vec<Step>,
        targets: &Vec<Option<String>>,
        at: &Place,
    ) -> (r: Option<Vec<Step>>)
        ensures
            ({
                let (p, steps, changed) = packed_steps(
                    old(self)@,
                    job_text(job@),
                    opt_views(targets@),
                    at@,
                );
                &&& final(self)@ == p
                &&& r is Some == changed
                &&& r matches Some(v) ==> job_text(v@) == steps
            }),
    {
        let ghost p0 = self@;
        let ghost all = job_text(job@);
        let ghost ts = opt_views(targets@);
        let mut rest = job;
        let mut out: Vec<Step> = Vec::new();
        let mut changed = false;
        let mut i: usize = 0;
        let total: usize = rest.len();
        proof {
            assert(job_text(rest@) =~= all.skip(0));
            assert(all.take(0) =~= Seq::<StepText>::empty());
            assert(job_text(out@) =~= Seq::<StepText>::empty());
        }
        while i < total
            invariant
                i <= total,
                total == all.len(),
                rest@.len() == total - i,
                ts == opt_views(targets@),
                job_text(rest@) == all.skip(i as int),
                (self@, job_text(out@), changed) == packed_steps(p0, all.take(i as int), ts, at@),
            decreases total - i,
        {
            let ghost before = rest@;
            let ghost done = job_text(out@);
            let step = rest.remove(0);
            proof {
                assert(all.take(i + 1).drop_last() =~= all.take(i as int));
                assert(job_text(before)[0] == all.skip(i as int)[0]);
                assert(all.take(i + 1).last() == step_text(step));
                assert(job_text(rest@) =~= all.skip(i + 1)) by {
                    assert(rest@ =~= before.skip(1));
                    assert forall|k: int| 0 <= k < rest@.len() implies job_text(rest@)[k] == all.skip(
                        i + 1,
                    )[k] by {
                        assert(job_text(before)[k + 1] == all.skip(i as int)[k + 1]);
                    }
                }
            }
            let (step, this) = self.pack_step(step, target_of(targets, i), at);
            out.push(step);
            assert(job_text(out@) =~= done.push(step_text(step)));
            if this {
                changed = true;
            }
            i += 1;
        }
        assert(all.take(i as int) =~= all);
        if changed {
            Some(out)
        } else {
            None
        }
    }

    /// Takes an autoanswer job from outside the folder into account: its steps as the bundle has
    /// them, or none where the file can be shipped as it is.
    pub fn normalize_out_of_tree_job(
        &mut self,
        job: Vec<Step>,
        targets: &Vec<Option<String>>,
        zip_dir: &str,
        dir: &str,
    ) -> (r: Option<Vec<Step>>)
        ensures
            ({
                let (p, steps, changed) = moved_steps(
                    old(self)@,
                    job_text(job@),
                    opt_views(targets@),
                    zip_dir@,
                    dir@,
                );
                &&& final(self)@ == p
                &&& r is Some == changed
                &&& r matches Some(v) ==> job_text(v@) == steps
            }),
    {
        let ghost p0 = self@;
        let ghost all = job_text(job@);
        let ghost ts = opt_views(targets@);
        let mut rest = job;
        let mut out: Vec<Step> = Vec::new();
        let mut changed = false;
        let mut i: usize = 0;
        let total: usize = rest.len();
        proof {
            assert(job_text(rest@) =~= all.skip(0));
            assert(all.take(0) =~= Seq::<StepText>::empty());
            assert(job_text(out@) =~= Seq::<StepText>::empty());
        }
        while i < total
            invariant
                i <= total,
                total == all.len(),
                rest@.len() == total - i,
                ts == opt_views(targets@),
                job_text(rest@) == all.skip(i as int),
                (self@, job_text(out@), changed) == moved_steps(
                    p0,
                    all.take(i as int),
                    ts,
                    zip_dir@,
                    dir@,
                ),
            decreases total - i,
        {
            let ghost before = rest@;
            let ghost done = job_text(out@);
            let step = rest.remove(0);
            proof {
                assert(all.take(i + 1).drop_last() =~= all.take(i as int));
                assert(job_text(before)[0] == all.skip(i as int)[0]);
                assert(all.take(i + 1).last() == step_text(step));
                assert(job_text(rest@) =~= all.skip(i + 1)) by {
                    assert(rest@ =~= before.skip(1));
                    assert forall|k: int| 0 <= k < rest@.len() implies job_text(rest@)[k] == all.skip(
                        i + 1,
                    )[k] by {
                        assert(job_text(before)[k + 1] == all.skip(i as int)[k + 1]);
                    }
                }
            }
            let (step, this) = self.move_step(step, target_of(targets, i), zip_dir, dir);
            out.push(step);
            assert(job_text(out@) =~= done.push(step_text(step)));
            if this {
                changed = true;
            }
            i += 1;
        }
        assert(all.take(i as int) =~= all);
        if changed {
            Some(out)
        } else {
            None
        }
    }
}

// ---------------------------------------------------------------------------
// The folder
// ---------------------------------------------------------------------------

/// A file of the folder: its path, and, where it reads as a job, the job with the files that its
/// steps play, as far as they are there.
#[derive(Debug)]
pub struct Found {
    pub path: String,
    pub job: Option<Vec<Step>>,
    pub targets: Vec<Option<String>>,
}

/// What walking the folder does with a directory entry.
#[derive(Debug, PartialEq, Eq, Structural, Clone, Copy)]
pub enum Walk {
    Skip,
    Enter,
    Keep,
}

/// What an entry of the folder is, once links are followed.
#[derive(Debug, PartialEq, Eq, Structural, Clone, Copy)]
pub enum Kind {
    Dir,
    File,
    Other,
}

/// What walking the folder does with the entry at `path`: hidden ones are passed over, and so are
/// directories that are left out and the archive that is being written.
pub open spec fn walk_choice(
    path: Seq<char>,
    kind: Kind,
    resolved: Option<Seq<char>>,
    excluded: Seq<Seq<char>>,
    skipped: Seq<char>,
) -> Walk {
    let hidden = match base_name(path) {
        Some(n) => hidden_name(n),
        None => false,
    };
    if hidden {
        Walk::Skip
    } else {
        match kind {
            Kind::Dir => match resolved {
                Some(c) => if excluded.contains(c) {
                    Walk::Skip
                } else {
                    Walk::Enter
                },
                None => Walk::Enter,
            },
            Kind::File => if path == skipped {
                Walk::Skip
            } else {
                Walk::Keep
            },
            Kind::Other => Walk::Skip,
        }
    }
}

/// What walking the folder does with the entry at `path`, whose canonical path is `resolved`.
pub fn walk(
    path: &str,
    kind: Kind,
    resolved: Option<&str>,
    excluded: &Vec<String>,
    skipped: &str,
) -> (r: Walk)
    ensures
        r == walk_choice(
            path@,
            kind,
            match resolved {
                Some(c) => Some(c@),
                None => None,
            },
            views(excluded@),
            skipped@,
        ),
{
    if let Some(n) = paths::name_of(path) {
        if text::starts_with_char(&n, '.') {
            return Walk::Skip;
        }
    }
    match kind {
        Kind::Dir => match resolved {
            Some(c) => if text::holds(excluded, c) {
                Walk::Skip
            } else {
                Walk::Enter
            },
            None => Walk::Enter,
        },
        Kind::File => if text::same(path, skipped) {
            Walk::Skip
        } else {
            Walk::Keep
        },
        Kind::Other => Walk::Skip,
    }
}

/// The name of the archive where none is given: that of the folder.
pub fn default_zip_name(dir: &str) -> (r: String)
    ensures
        r@ == (match base_name(dir@) {
            Some(n) => n,
            None => "dialf"@,
        }) + ".dialf.zip"@,
{
    let base = match paths::name_of(dir) {
        Some(n) => n,
        None => "dialf".to_owned(),
    };
    text::cat(&base, ".dialf.zip")
}

/// The config that is exported: the one given, else the folder's own, else the user's.
pub fn pick_config(given: Option<String>, local: String, local_is_file: bool, user: String) -> (r: String)
    ensures
        r == (match given {
            Some(p) => p,
            None => if local_is_file {
                local
            } else {
                user
            },
        }),
{
    match given {
        Some(p) => p,
        None => if local_is_file {
            local
        } else {
            user
        },
    }
}

/// The folders that are left out: the one that recordings go to, and the one named for them,
/// each where it is there.
pub fn excluded_dirs(record_dir: Option<String>, recordings: Option<String>) -> (r: Vec<String>)
    ensures
        views(r@) == (match (opt_view(record_dir), opt_view(recordings)) {
            (Some(a), Some(b)) => if a == b {
                seq![a]
            } else {
                seq![a, b]
            },
            (Some(a), None) => seq![a],
            (None, Some(b)) => seq![b],
            (None, None) => Seq::empty(),
        }),
{
    let r: Vec<String> = match (record_dir, recordings) {
        (Some(a), Some(b)) => if text::same(&a, &b) {
            vec![a]
        } else {
            vec![a, b]
        },
        (Some(a), None) => vec![a],
        (None, Some(b)) => vec![b],
        (None, None) => Vec::new(),
    };
    r
}

// ---------------------------------------------------------------------------
// Export
// ---------------------------------------------------------------------------

/// A file of the folder over texts.
pub struct FoundText {
    pub path: Seq<char>,
    pub job: Option<Seq<StepText>>,
    pub targets: Seq<Option<Seq<char>>>,
}

impl View for Found {
    type V = FoundText;

    open spec fn view(&self) -> FoundText {
        FoundText {
            path: self.path@,
            job: match self.job {
                Some(j) => Some(job_text(j@)),
                None => None,
            },
            targets: opt_views(self.targets@),
        }
    }
}

/// The files of the folder over texts.
pub open spec fn found_texts(files: Seq<Found>) -> Seq<FoundText> {
    files.map_values(|f: Found| f@)
}

/// The bundle with every file of the folder in it under its own name, before anything else gets
/// a name.
pub open spec fn with_files(p: PackText, files: Seq<FoundText>, dir: Seq<char>) -> PackText
    decreases files.len(),
{
    if files.len() == 0 {
        p
    } else {
        let q = with_files(p, files.drop_last(), dir);
        holding(q, entry_name(files.last().path, dir)->0, SrcText::File(files.last().path))
    }
}

/// The bundle after one file of the folder was looked into: a script that needs it is rewritten.
pub open spec fn with_script(
    p: PackText,
    f: FoundText,
    dir: Seq<char>,
    excluded: Seq<Seq<char>>,
) -> PackText {
    match f.job {
        Some(job) => if names_yaml(f.path) {
            let name = entry_name(f.path, dir)->0;
            let at = PlaceText { disk: f.path, zip_dir: entry_dir(name), dir, excluded };
            let (q, steps, changed) = packed_steps(p, job, f.targets, at);
            if changed {
                holding(
                    warned(q, f.path + ": rewritten for the bundle (comments dropped)"@),
                    name,
                    SrcText::Job(steps),
                )
            } else {
                q
            }
        } else {
            p
        },
        None => p,
    }
}

/// The bundle after all files of the folder were looked into.
pub open spec fn with_scripts(
    p: PackText,
    files: Seq<FoundText>,
    dir: Seq<char>,
    excluded: Seq<Seq<char>>,
) -> PackText
    decreases files.len(),
{
    if files.len() == 0 {
        p
    } else {
        with_script(with_scripts(p, files.drop_last(), dir, excluded), files.last(), dir, excluded)
    }
}

/// An autoanswer entry of the config: the number, the job's path as it is written (none where
/// calls are only answered), the file that it stands for, where it is there, and, of a file from
/// outside the folder, the job with the files that its steps play.
#[derive(Debug)]
pub struct Route {
    pub number: String,
    pub path: Option<String>,
    pub target: Option<String>,
    pub job: Option<Vec<Step>>,
    pub targets: Vec<Option<String>>,
}

/// An autoanswer entry over texts.
pub struct RouteText {
    pub number: Seq<char>,
    pub path: Option<Seq<char>>,
    pub target: Option<Seq<char>>,
    pub job: Option<Seq<StepText>>,
    pub targets: Seq<Option<Seq<char>>>,
}

impl View for Route {
    type V = RouteText;

    open spec fn view(&self) -> RouteText {
        RouteText {
            number: self.number@,
            path: opt_view(self.path),
            target: opt_view(self.target),
            job: match self.job {
                Some(j) => Some(job_text(j@)),
                None => None,
            },
            targets: opt_views(self.targets@),
        }
    }
}

/// The autoanswer entries over texts.
pub open spec fn route_texts(routes: Seq<Route>) -> Seq<RouteText> {
    routes.map_values(|r: Route| r@)
}

/// The bundle with a job from outside the folder in it, and the job's entry.
pub open spec fn with_job(
    p: PackText,
    target: Seq<char>,
    job: Option<Seq<StepText>>,
    targets: Seq<Option<Seq<char>>>,
    dir: Seq<char>,
) -> (PackText, Seq<char>) {
    let (q, name) = pulled_in(p, target, "scripts"@);
    match job {
        Some(j) => {
            let (r, steps, changed) = moved_steps(q, j, targets, entry_dir(name), dir);
            if changed {
                (holding(r, name, SrcText::Job(steps)), name)
            } else {
                (r, name)
            }
        },
        None => (q, name),
    }
}

/// One autoanswer entry: the bundle after it, and the path that it is written with from now on,
/// where that differs.
pub open spec fn routed(p: PackText, r: RouteText, dir: Seq<char>) -> (PackText, Option<Seq<char>>) {
    match (r.path, r.target) {
        (None, _) => (p, None),
        (Some(path), None) => (
            warned(
                p,
                "config autoanswer "@ + r.number + ": job not found: "@ + path + " (kept as-is)"@,
            ),
            None,
        ),
        (Some(path), Some(t)) => {
            let (q, name) = match entry_name(t, dir) {
                Some(n) => (p, n),
                None => {
                    let (q, n) = with_job(p, t, r.job, r.targets, dir);
                    (
                        warned(
                            q,
                            "config autoanswer "@ + r.number + ": pulled out-of-tree job "@ + t
                                + " into the bundle as "@ + n,
                        ),
                        n,
                    )
                },
            };
            if name != path {
                (q, Some(name))
            } else {
                (q, None)
            }
        },
    }
}

/// The edit that writes a new path into the config.
pub open spec fn path_edit(key: Seq<char>, path: Seq<char>) -> EditText {
    EditText { key, value: quoted(path) }
}

/// All autoanswer entries in turn: the bundle, the new paths and the edits that write them.
pub open spec fn all_routed(p: PackText, routes: Seq<RouteText>, dir: Seq<char>) -> (
    PackText,
    Seq<Option<Seq<char>>>,
    Seq<EditText>,
)
    decreases routes.len(),
{
    if routes.len() == 0 {
        (p, Seq::empty(), Seq::empty())
    } else {
        let (q, paths, edits) = all_routed(p, routes.drop_last(), dir);
        let (r, path) = routed(q, routes.last(), dir);
        (
            r,
            paths.push(path),
            match path {
                Some(n) => edits.push(path_edit(routes.last().number, n)),
                None => edits,
            },
        )
    }
}

/// What an export comes to: the bundle, the new paths of the autoanswer entries, whether
/// recordings are to go elsewhere, and the edits that write all this into the config.
pub struct ExportPlan {
    pub pack: Pack,
    pub routes: Vec<Option<String>>,
    pub new_record_dir: bool,
    pub edits: Vec<Edit>,
}

/// The folder that a bundle's recordings go to.
pub const RECORDINGS: &'static str = "recordings";

impl Pack {
    fn add_files(&mut self, files: &Vec<Found>, dir: &str)
        requires
            forall|i: int| 0 <= i < files@.len() ==> entry_name((#[trigger] files@[i]).path@, dir@) is Some,
        ensures
            final(self)@ == with_files(old(self)@, found_texts(files@), dir@),
    {
        let ghost p0 = self@;
        let ghost all = found_texts(files@);
        let mut i: usize = 0;
        while i < files.len()
            invariant
                i <= files.len(),
                all == found_texts(files@),
                forall|i: int|
                    0 <= i < files@.len() ==> entry_name((#[trigger] files@[i]).path@, dir@) is Some,
                self@ == with_files(p0, all.take(i as int), dir@),
            decreases files.len() - i,
        {
            proof {
                assert(all.take(i + 1).drop_last() =~= all.take(i as int));
                assert(all.take(i + 1).last() == files@[i as int]@);
            }
            if let Some(name) = names::name_below(&files[i].path, dir) {
                self.put(name, Src::File(files[i].path.clone()));
            }
            i += 1;
        }
        assert(all.take(i as int) =~= all);
    }

    fn add_script(&mut self, f: Found, dir: &str, excluded: &Vec<String>)
        requires
            entry_name(f.path@, dir@) is Some,
        ensures
            final(self)@ == with_script(old(self)@, f@, dir@, views(excluded@)),
    {
        let job = match f.job {
            Some(j) => j,
            None => {
                return ;
            },
        };
        if !names::is_yaml(&f.path) {
            return ;
        }
        if let Some(name) = names::name_below(&f.path, dir) {
            let at = Place {
                disk: f.path.clone(),
                zip_dir: names::parent_of_zip_name(&name),
                dir: dir.to_owned(),
                excluded: text::copy_list(excluded),
            };
            if let Some(steps) = self.normalize_script(job, &f.targets, &at) {
                self.warn(text::cat(&f.path, ": rewritten for the bundle (comments dropped)"));
                self.put(name, Src::Job(steps));
            }
        }
    }

    fn add_scripts(&mut self, files: Vec<Found>, dir: &str, excluded: &Vec<String>)
        requires
            forall|i: int| 0 <= i < files@.len() ==> entry_name((#[trigger] files@[i]).path@, dir@) is Some,
        ensures
            final(self)@ == with_scripts(old(self)@, found_texts(files@), dir@, views(excluded@)),
    {
        let ghost p0 = self@;
        let ghost all = found_texts(files@);
        let ghost given = files@;
        let mut rest = files;
        let total: usize = rest.len();
        let mut i: usize = 0;
        while i < total
            invariant
                i <= total,
                total == given.len(),
                all == found_texts(given),
                rest@ == given.skip(i as int),
                forall|i: int|
                    0 <= i < given.len() ==> entry_name((#[trigger] given[i]).path@, dir@) is Some,
                self@ == with_scripts(p0, all.take(i as int), dir@, views(excluded@)),
            decreases total - i,
        {
            let f = rest.remove(0);
            proof {
                assert(f == given[i as int]);
                assert(rest@ =~= given.skip(i + 1));
                assert(all.take(i + 1).drop_last() =~= all.take(i as int));
                assert(all.take(i + 1).last() == f@);
            }
            self.add_script(f, dir, excluded);
            i += 1;
        }
        assert(all.take(i as int) =~= all);
    }

    fn add_job(
        &mut self,
        target: &str,
        job: Option<Vec<Step>>,
        targets: &Vec<Option<String>>,
        dir: &str,
    ) -> (r: String)
        ensures
            (final(self)@, r@) == with_job(
                old(self)@,
                target@,
                match job {
                    Some(j) => Some(job_text(j@)),
                    None => None,
                },
                opt_views(targets@),
                dir@,
            ),
    {
        let name = self.pull_external(target, "scripts");
        if let Some(j) = job {
            let zip_dir = names::parent_of_zip_name(&name);
            if let Some(steps) = self.normalize_out_of_tree_job(j, targets, &zip_dir, dir) {
                self.put(name.clone(), Src::Job(steps));
            }
        }
        name
    }

    /// Takes an autoanswer entry of the config into account: the path that it is written with in
    /// the bundle, where that differs from the one it has.
    pub fn route(&mut self, r: Route, dir: &str) -> (new: Option<String>)
        ensures
            (final(self)@, opt_view(new)) == routed(old(self)@, r@, dir@),
    {
        let path = match r.path {
            Some(p) => p,
            None => {
                return None;
            },
        };
        let target = match r.target {
            Some(t) => t,
            None => {
                let mut w = text::cat("config autoanswer ", &r.number);
                w.append(": job not found: ");
                w.append(&path);
                w.append(" (kept as-is)");
                self.warn(w);
                return None;
            },
        };
        let name = match names::name_below(&target, dir) {
            Some(n) => n,
            None => {
                let n = self.add_job(&target, r.job, &r.targets, dir);
                let mut w = text::cat("config autoanswer ", &r.number);
                w.append(": pulled out-of-tree job ");
                w.append(&target);
                w.append(" into the bundle as ");
                w.append(&n);
                self.warn(w);
                n
            },
        };
        if text::same(&name, &path) {
            None
        } else {
            Some(name)
        }
    }
}

/// The files of a folder that go into the bundle: all but the folder's own config, for the bundle
/// gets the one that is rewritten.
pub open spec fn files_in(files: Seq<FoundText>, dir: Seq<char>) -> Seq<FoundText>
    decreases files.len(),
{
    if files.len() == 0 {
        Seq::empty()
    } else {
        let rest = files_in(files.drop_last(), dir);
        if entry_name(files.last().path, dir) == Some("config.yaml"@) {
            rest
        } else {
            rest.push(files.last())
        }
    }
}

fn without_config(files: Vec<Found>, dir: &str) -> (r: Vec<Found>)
    requires
        forall|i: int| 0 <= i < files@.len() ==> entry_name((#[trigger] files@[i]).path@, dir@) is Some,
    ensures
        found_texts(r@) == files_in(found_texts(files@), dir@),
        forall|i: int| 0 <= i < r@.len() ==> entry_name((#[trigger] r@[i]).path@, dir@) is Some,
{
    let ghost given = files@;
    let ghost all = found_texts(files@);
    let mut rest = files;
    let total: usize = rest.len();
    let mut out: Vec<Found> = Vec::new();
    let mut i: usize = 0;
    assert(found_texts(out@) =~= files_in(all.take(0), dir@));
    while i < total
        invariant
            i <= total,
            total == given.len(),
            all == found_texts(given),
            rest@ == given.skip(i as int),
            forall|i: int|
                0 <= i < given.len() ==> entry_name((#[trigger] given[i]).path@, dir@) is Some,
            forall|i: int|
                0 <= i < out@.len() ==> entry_name((#[trigger] out@[i]).path@, dir@) is Some,
            found_texts(out@) == files_in(all.take(i as int), dir@),
        decreases total - i,
    {
        let ghost had = found_texts(out@);
        let f = rest.remove(0);
        proof {
            assert(f == given[i as int]);
            assert(rest@ =~= given.skip(i + 1));
            assert(all.take(i + 1).drop_last() =~= all.take(i as int));
            assert(all.take(i + 1).last() == f@);
        }
        let own = match names::name_below(&f.path, dir) {
            Some(n) => text::same(&n, "config.yaml"),
            None => false,
        };
        if !own {
            out.push(f);
            assert(found_texts(out@) =~= had.push(f@));
        }
        i += 1;
    }
    assert(all.take(i as int) =~= all);
    out
}

/// The files, scripts and config of a folder as a bundle. `files` are those found in the folder;
/// `routes` are the config's autoanswer entries and `record_dir` is where it has recordings go.
pub fn export(
    dir: &str,
    excluded: &Vec<String>,
    files: Vec<Found>,
    routes: Vec<Route>,
    record_dir: Option<&str>,
) -> (r: ExportPlan)
    requires
        forall|i: int| 0 <= i < files@.len() ==> entry_name((#[trigger] files@[i]).path@, dir@) is Some,
    ensures
        ({
            let fs = files_in(found_texts(files@), dir@);
            let empty = PackText {
                entries: Map::empty(),
                pulled: Map::empty(),
                warnings: Seq::empty(),
            };
            let scripts = with_scripts(
                with_files(empty, fs, dir@),
                fs,
                dir@,
                views(excluded@),
            );
            let (p, new_paths, edits) = all_routed(scripts, route_texts(routes@), dir@);
            let elsewhere = record_dir is Some && record_dir->0@ != "recordings"@;
            &&& r.pack@ == holding(p, "config.yaml"@, SrcText::Config)
            &&& opt_views(r.routes@) == new_paths
            &&& r.new_record_dir == elsewhere
            &&& edit_views(r.edits@) == if elsewhere {
                edits.push(path_edit("record_dir"@, "recordings"@))
            } else {
                edits
            }
        }),
{
    let files = without_config(files, dir);
    let mut pack = Pack::new();
    pack.add_files(&files, dir);
    pack.add_scripts(files, dir, excluded);
    let ghost p0 = pack@;
    let ghost given = routes@;
    let ghost all = route_texts(routes@);
    let mut rest = routes;
    let total: usize = rest.len();
    let mut new_paths: Vec<Option<String>> = Vec::new();
    let mut edits: Vec<Edit> = Vec::new();
    let mut i: usize = 0;
    proof {
        assert(opt_views(new_paths@) =~= Seq::<Option<Seq<char>>>::empty());
        assert(edit_views(edits@) =~= Seq::<EditText>::empty());
    }
    while i < total
        invariant
            i <= total,
            total == given.len(),
            all == route_texts(given),
            rest@ == given.skip(i as int),
            (pack@, opt_views(new_paths@), edit_views(edits@)) == all_routed(
                p0,
                all.take(i as int),
                dir@,
            ),
        decreases total - i,
    {
        let ghost paths_before = opt_views(new_paths@);
        let ghost edits_before = edit_views(edits@);
        let route = rest.remove(0);
        proof {
            assert(route == given[i as int]);
            assert(rest@ =~= given.skip(i + 1));
            assert(all.take(i + 1).drop_last() =~= all.take(i as int));
            assert(all.take(i + 1).last() == route@);
        }
        let number = route.number.clone();
        let new = pack.route(route, dir);
        if let Some(n) = &new {
            let e = Edit { key: number, value: rewrite::yaml_quote(n) };
            edits.push(e);
            assert(edit_views(edits@) =~= edits_before.push(e@));
        }
        new_paths.push(new);
        assert(opt_views(new_paths@) =~= paths_before.push(opt_view(new)));
        i += 1;
    }
    assert(all.take(i as int) =~= all);
    let elsewhere = match record_dir {
        Some(d) => !text::same(d, RECORDINGS),
        None => false,
    };
    if elsewhere {
        let ghost edits_before = edit_views(edits@);
        let e = Edit { key: "record_dir".to_owned(), value: rewrite::yaml_quote(RECORDINGS) };
        edits.push(e);
        assert(edit_views(edits@) =~= edits_before.push(e@));
    }
    pack.put("config.yaml".to_owned(), Src::Config);
    ExportPlan { pack, routes: new_paths, new_record_dir: elsewhere, edits }
}

/// An entry of a written archive: its name, and its size when unpacked.
#[derive(Debug, Clone, PartialEq, Eq)]
pub struct Listed {
    pub name: String,
    pub size: u64,
}

/// What an export produced, for display.
#[derive(Debug)]
pub struct ExportReport {
    pub zip_path: String,
    pub entries: Vec<Listed>,
    pub warnings: Vec<String>,
}

/// Whether an entry may stand before another in a listing: entries go by name, then by size.
pub open spec fn listed_before(a: Listed, b: Listed) -> bool {
    before(a.name@, b.name@) || (a.name@ == b.name@ && a.size <= b.size)
}

/// Whether a listing is in order.
pub open spec fn listing_in_order(v: Seq<Listed>) -> bool {
    forall|i: int, j: int| 0 <= i < j < v.len() ==> listed_before(#[trigger] v[i], #[trigger] v[j])
}

fn goes_before(a: &Listed, b: &Listed) -> (r: bool)
    ensures
        r == listed_before(*a, *b),
{
    stands_before(&a.name, &b.name) || (text::same(&a.name, &b.name) && a.size <= b.size)
}

proof fn lemma_listed_total(a: Listed, b: Listed)
    ensures
        listed_before(a, b) || listed_before(b, a),
{
    if !before(a.name@, b.name@) && !before(b.name@, a.name@) {
        lemma_before_total(a.name@, b.name@);
    }
}

proof fn lemma_listed_transitive(a: Listed, b: Listed, c: Listed)
    requires
        listed_before(a, b),
        listed_before(b, c),
    ensures
        listed_before(a, c),
{
    if before(a.name@, b.name@) && before(b.name@, c.name@) {
        lemma_before_transitive(a.name@, b.name@, c.name@);
    }
}

/// Puts an entry where it belongs in an ordered listing.
fn put_listed(v: &mut Vec<Listed>, e: Listed)
    requires
        listing_in_order(old(v)@),
    ensures
        listing_in_order(final(v)@),
        final(v)@.to_multiset() == old(v)@.to_multiset().insert(e),
{
    let ghost v0 = v@;
    let mut i: usize = 0;
    while i < v.len() && goes_before(&v[i], &e)
        invariant
            i <= v@.len(),
            v@ == v0,
            forall|j: int| 0 <= j < i ==> listed_before(#[trigger] v0[j], e),
        decreases v.len() - i,
    {
        i += 1;
    }
    proof {
        broadcast use vstd::seq_lib::group_to_multiset_ensures;

        let v1 = v0.insert(i as int, e);
        assert(v1.to_multiset() == v0.to_multiset().insert(e));
        assert forall|a: int, b: int| 0 <= a < b < v1.len() implies listed_before(
            #[trigger] v1[a],
            #[trigger] v1[b],
        ) by {
            if b < i {
                assert(v1[a] == v0[a] && v1[b] == v0[b]);
            } else if b == i {
                assert(v1[a] == v0[a]);
            } else if a < i {
                assert(v1[a] == v0[a] && v1[b] == v0[b - 1]);
            } else if a == i {
                assert(v1[b] == v0[b - 1]);
                lemma_listed_total(v0[i as int], e);
                if b - 1 > i {
                    assert(listed_before(v0[i as int], v0[b - 1]));
                    lemma_listed_transitive(e, v0[i as int], v0[b - 1]);
                }
            } else {
                assert(v1[a] == v0[a - 1] && v1[b] == v0[b - 1]);
            }
        }
    }
    v.insert(i, e);
}

/// What an export produced: the archive, what was found in it, in order, and what the user is
/// told.
pub fn export_report(zip_path: &str, found: Vec<Listed>, warnings: Vec<String>) -> (r: ExportReport)
    ensures
        r.zip_path@ == zip_path@,
        r.warnings == warnings,
        listing_in_order(r.entries@),
        r.entries@.to_multiset() == found@.to_multiset(),
{
    let ghost all = found@;
    let mut rest = found;
    let total: usize = rest.len();
    let mut out: Vec<Listed> = Vec::new();
    let mut i: usize = 0;
    proof {
        assert(all.take(0) =~= out@);
    }
    while i < total
        invariant
            i <= total,
            total == all.len(),
            rest@ == all.skip(i as int),
            listing_in_order(out@),
            out@.to_multiset() == all.take(i as int).to_multiset(),
        decreases total - i,
    {
        let e = rest.remove(0);
        proof {
            broadcast use vstd::seq_lib::group_to_multiset_ensures;

            assert(e == all[i as int]);
            assert(rest@ =~= all.skip(i + 1));
            assert(all.take(i + 1) =~= all.take(i as int).push(e));
        }
        put_listed(&mut out, e);
        i += 1;
    }
    assert(all.take(i as int) =~= all);
    ExportReport { zip_path: zip_path.to_owned(), entries: out, warnings }
}

// ---------------------------------------------------------------------------
// Laws
// ---------------------------------------------------------------------------

/// Whether a bundle has every entry of another, with the same content.
pub open spec fn keeps(p: PackText, q: PackText) -> bool {
    forall|name: Seq<char>| #[trigger]
        p.entries.dom().contains(name) ==> q.entries.dom().contains(name) && q.entries[name]
            == p.entries[name]
}

/// Pulling a file in touches no entry that the bundle has: whatever had its name first keeps it.
pub proof fn law_pulling_overwrites_nothing(p: PackText, src: Seq<char>, under: Seq<char>)
    requires
        p.entries.dom().finite(),
    ensures
        keeps(p, pulled_in(p, src, under).0),
        pulled_in(p, src, under).0.entries.dom().finite(),
{
    if !p.pulled.dom().contains(src) {
        let base = pulled_base(src);
        lemma_some_free(p.entries, under, base, 0);
        let n = choose|n: nat| is_first_free(p.entries, under, base, n);
        assert(is_first_free(p.entries, under, base, n));
    }
}

/// A file is pulled in once: pulling it again gives the same entry and changes nothing.
pub proof fn law_pulling_twice_is_pulling_once(p: PackText, src: Seq<char>, a: Seq<char>, b: Seq<char>)
    ensures
        ({
            let (q, name) = pulled_in(p, src, a);
            pulled_in(q, src, b) == (q, name)
        }),
{
}

/// Looking into a script of the folder overwrites no entry, however many files it pulls in.
pub proof fn law_scripts_overwrite_nothing(
    p: PackText,
    job: Seq<StepText>,
    targets: Seq<Option<Seq<char>>>,
    at: PlaceText,
)
    requires
        p.entries.dom().finite(),
    ensures
        keeps(p, packed_steps(p, job, targets, at).0),
        packed_steps(p, job, targets, at).0.entries.dom().finite(),
    decreases job.len(),
{
    if job.len() > 0 {
        law_scripts_overwrite_nothing(p, job.drop_last(), targets, at);
        let q = packed_steps(p, job.drop_last(), targets, at).0;
        if let Some(t) = target_at(targets, job.len() - 1) {
            let w = warned(q, at.disk + ": pulled out-of-tree sample "@ + t + " into the bundle"@);
            law_pulling_overwrites_nothing(w, t, "samples"@);
        }
    }
}

/// Moving an autoanswer job into the bundle overwrites no entry, however many files it pulls in.
pub proof fn law_moved_jobs_overwrite_nothing(
    p: PackText,
    job: Seq<StepText>,
    targets: Seq<Option<Seq<char>>>,
    zip_dir: Seq<char>,
    dir: Seq<char>,
)
    requires
        p.entries.dom().finite(),
    ensures
        keeps(p, moved_steps(p, job, targets, zip_dir, dir).0),
        moved_steps(p, job, targets, zip_dir, dir).0.entries.dom().finite(),
    decreases job.len(),
{
    if job.len() > 0 {
        law_moved_jobs_overwrite_nothing(p, job.drop_last(), targets, zip_dir, dir);
        let q = moved_steps(p, job.drop_last(), targets, zip_dir, dir).0;
        if let Some(t) = target_at(targets, job.len() - 1) {
            law_pulling_overwrites_nothing(q, t, "samples"@);
        }
    }
}

/// A script whose files all stay where they are, by relative paths within the folder, is shipped
/// as it is.
pub proof fn law_self_contained_scripts_stay(
    p: PackText,
    job: Seq<StepText>,
    targets: Seq<Option<Seq<char>>>,
    at: PlaceText,
)
    requires
        forall|i: int|
            0 <= i < job.len() ==> match #[trigger] job[i] {
                StepText::Play { file, description: _, id: _ } => {
                    &&& !is_rooted(file)
                    &&& target_at(targets, i) is Some
                    &&& parts_below(target_at(targets, i)->0, at.dir) matches Some(parts)
                    &&& !in_any(target_at(targets, i)->0, at.excluded)
                    &&& !holds_hidden(parts)
                },
                StepText::Other(_) => true,
            },
    ensures
        packed_steps(p, job, targets, at) == (p, job, false),
    decreases job.len(),
{
    if job.len() > 0 {
        let init = job.drop_last();
        assert forall|i: int| 0 <= i < init.len() implies init[i] == #[trigger] job[i] by {}
        law_self_contained_scripts_stay(p, init, targets, at);
        assert(job[job.len() - 1] == job.last());
        assert(init.push(job.last()) =~= job);
    } else {
        assert(job =~= Seq::<StepText>::empty());
    }
}

proof fn lemma_some_free(entries: Map<Seq<char>, SrcText>, under: Seq<char>, base: Seq<char>, n: nat)
    requires
        entries.dom().finite(),
        forall|k: nat| k < n ==> entries.dom().contains(#[trigger] pull_name(under, base, k)),
    ensures
        exists|m: nat| is_first_free(entries, under, base, m),
    decreases entries.dom().len() - n,
{
    lemma_taken_names(entries, under, base, n);
    if entries.dom().contains(pull_name(under, base, n)) {
        lemma_taken_names(entries, under, base, (n + 1) as nat);
        lemma_some_free(entries, under, base, (n + 1) as nat);
    } else {
        assert(is_first_free(entries, under, base, n));
    }
}

/// Whether an entry is one of the files that are known, or comes from outside the folder, or was
/// written for the bundle.
pub open spec fn is_carried(src: SrcText, known: Set<Seq<char>>, dir: Seq<char>) -> bool {
    src matches SrcText::File(path) ==> known.contains(path) || entry_name(path, dir) is None
}

/// Whether all entries of a bundle are known files, or come from outside the folder, or were
/// written for it.
pub open spec fn carries_only(p: PackText, known: Set<Seq<char>>, dir: Seq<char>) -> bool {
    forall|name: Seq<char>|
        p.entries.dom().contains(name) ==> is_carried(#[trigger] p.entries[name], known, dir)
}

proof fn lemma_pulling_carries(
    p: PackText,
    src: Seq<char>,
    under: Seq<char>,
    known: Set<Seq<char>>,
    dir: Seq<char>,
)
    requires
        carries_only(p, known, dir),
        entry_name(src, dir) is None,
    ensures
        carries_only(pulled_in(p, src, under).0, known, dir),
{
}

proof fn lemma_scripts_carry(
    p: PackText,
    job: Seq<StepText>,
    targets: Seq<Option<Seq<char>>>,
    at: PlaceText,
    known: Set<Seq<char>>,
)
    requires
        carries_only(p, known, at.dir),
    ensures
        carries_only(packed_steps(p, job, targets, at).0, known, at.dir),
    decreases job.len(),
{
    if job.len() > 0 {
        lemma_scripts_carry(p, job.drop_last(), targets, at, known);
        let q = packed_steps(p, job.drop_last(), targets, at).0;
        if let Some(t) = target_at(targets, job.len() - 1) {
            if entry_name(t, at.dir) is None {
                let w = warned(
                    q,
                    at.disk + ": pulled out-of-tree sample "@ + t + " into the bundle"@,
                );
                lemma_pulling_carries(w, t, "samples"@, known, at.dir);
            }
        }
    }
}

proof fn lemma_moved_jobs_carry(
    p: PackText,
    job: Seq<StepText>,
    targets: Seq<Option<Seq<char>>>,
    zip_dir: Seq<char>,
    dir: Seq<char>,
    known: Set<Seq<char>>,
)
    requires
        carries_only(p, known, dir),
    ensures
        carries_only(moved_steps(p, job, targets, zip_dir, dir).0, known, dir),
    decreases job.len(),
{
    if job.len() > 0 {
        lemma_moved_jobs_carry(p, job.drop_last(), targets, zip_dir, dir, known);
        let q = moved_steps(p, job.drop_last(), targets, zip_dir, dir).0;
        if let Some(t) = target_at(targets, job.len() - 1) {
            if entry_name(t, dir) is None {
                lemma_pulling_carries(q, t, "samples"@, known, dir);
            }
        }
    }
}

proof fn lemma_files_carry(p: PackText, files: Seq<FoundText>, dir: Seq<char>, known: Set<Seq<char>>)
    requires
        carries_only(p, known, dir),
        forall|i: int| 0 <= i < files.len() ==> known.contains((#[trigger] files[i]).path),
    ensures
        carries_only(with_files(p, files, dir), known, dir),
    decreases files.len(),
{
    if files.len() > 0 {
        lemma_files_carry(p, files.drop_last(), dir, known);
    }
}

proof fn lemma_all_scripts_carry(
    p: PackText,
    files: Seq<FoundText>,
    dir: Seq<char>,
    excluded: Seq<Seq<char>>,
    known: Set<Seq<char>>,
)
    requires
        carries_only(p, known, dir),
    ensures
        carries_only(with_scripts(p, files, dir, excluded), known, dir),
    decreases files.len(),
{
    if files.len() > 0 {
        lemma_all_scripts_carry(p, files.drop_last(), dir, excluded, known);
        let q = with_scripts(p, files.drop_last(), dir, excluded);
        let f = files.last();
        if let Some(job) = f.job {
            let name = entry_name(f.path, dir)->0;
            let at = PlaceText { disk: f.path, zip_dir: entry_dir(name), dir, excluded };
            lemma_scripts_carry(q, job, f.targets, at, known);
        }
    }
}

proof fn lemma_routes_carry(p: PackText, routes: Seq<RouteText>, dir: Seq<char>, known: Set<Seq<char>>)
    requires
        carries_only(p, known, dir),
    ensures
        carries_only(all_routed(p, routes, dir).0, known, dir),
    decreases routes.len(),
{
    if routes.len() > 0 {
        lemma_routes_carry(p, routes.drop_last(), dir, known);
        let q = all_routed(p, routes.drop_last(), dir).0;
        let r = routes.last();
        if let Some(t) = r.target {
            if entry_name(t, dir) is None {
                lemma_pulling_carries(q, t, "scripts"@, known, dir);
                let (pulled, name) = pulled_in(q, t, "scripts"@);
                if let Some(job) = r.job {
                    lemma_moved_jobs_carry(pulled, job, r.targets, entry_dir(name), dir, known);
                }
            }
        }
    }
}

/// Nothing of the folder gets into a bundle but what walking it found: whatever the scripts and
/// the config refer to, a file of a directory that was left out, or a hidden one, is not carried.
pub proof fn law_a_bundle_carries_what_was_found(
    dir: Seq<char>,
    excluded: Seq<Seq<char>>,
    files: Seq<FoundText>,
    routes: Seq<RouteText>,
)
    ensures
        ({
            let empty = PackText {
                entries: Map::empty(),
                pulled: Map::empty(),
                warnings: Seq::empty(),
            };
            let scripts = with_scripts(with_files(empty, files, dir), files, dir, excluded);
            let p = holding(all_routed(scripts, routes, dir).0, "config.yaml"@, SrcText::Config);
            carries_only(p, files.map_values(|f: FoundText| f.path).to_set(), dir)
        }),
{
    let paths = files.map_values(|f: FoundText| f.path);
    let known = paths.to_set();
    let empty = PackText { entries: Map::empty(), pulled: Map::empty(), warnings: Seq::empty() };
    assert forall|i: int| 0 <= i < files.len() implies known.contains(
        (#[trigger] files[i]).path,
    ) by {
        assert(paths[i] == files[i].path);
        assert(paths.contains(files[i].path));
    }
    lemma_files_carry(empty, files, dir, known);
    let p = with_files(empty, files, dir);
    lemma_all_scripts_carry(p, files, dir, excluded, known);
    lemma_routes_carry(with_scripts(p, files, dir, excluded), routes, dir, known);
}

/// Whether a bundle has an entry for every file that was pulled in.
pub open spec fn pulls_are_there(p: PackText) -> bool {
    forall|src: Seq<char>| #[trigger]
        p.pulled.dom().contains(src) ==> p.entries.dom().contains(p.pulled[src])
}

/// Whether a bundle has every entry that another one has.
pub open spec fn grows(p: PackText, q: PackText) -> bool {
    p.entries.dom().subset_of(q.entries.dom())
}

proof fn lemma_pulling_grows(p: PackText, src: Seq<char>, under: Seq<char>)
    requires
        pulls_are_there(p),
    ensures
        ({
            let (q, name) = pulled_in(p, src, under);
            pulls_are_there(q) && grows(p, q) && q.entries.dom().contains(name)
        }),
{
}

proof fn lemma_moved_steps_grow(
    p: PackText,
    job: Seq<StepText>,
    targets: Seq<Option<Seq<char>>>,
    zip_dir: Seq<char>,
    dir: Seq<char>,
)
    requires
        pulls_are_there(p),
    ensures
        pulls_are_there(moved_steps(p, job, targets, zip_dir, dir).0),
        grows(p, moved_steps(p, job, targets, zip_dir, dir).0),
    decreases job.len(),
{
    if job.len() > 0 {
        lemma_moved_steps_grow(p, job.drop_last(), targets, zip_dir, dir);
        let q = moved_steps(p, job.drop_last(), targets, zip_dir, dir).0;
        if let Some(t) = target_at(targets, job.len() - 1) {
            lemma_pulling_grows(q, t, "samples"@);
        }
    }
}

/// The path that an autoanswer entry has in the bundle's config: the new one, or the one it had.
pub open spec fn bundled_path(new: Option<Seq<char>>, old: Option<Seq<char>>) -> Option<Seq<char>> {
    match new {
        Some(n) => Some(n),
        None => old,
    }
}

/// Whether an autoanswer entry with a job has that job's name as its path: that of a job of the
/// folder by its place there, that of any other as an entry of the bundle.
pub open spec fn names_its_job(
    p: PackText,
    r: RouteText,
    dir: Seq<char>,
    path: Option<Seq<char>>,
) -> bool {
    match (r.path, r.target) {
        (Some(_), Some(t)) => match entry_name(t, dir) {
            Some(n) => path == Some(n),
            None => path matches Some(n) && p.entries.dom().contains(n),
        },
        _ => path == r.path,
    }
}

proof fn lemma_routed_names(p: PackText, r: RouteText, dir: Seq<char>)
    requires
        pulls_are_there(p),
    ensures
        ({
            let (q, new) = routed(p, r, dir);
            &&& pulls_are_there(q)
            &&& grows(p, q)
            &&& names_its_job(q, r, dir, bundled_path(new, r.path))
        }),
{
    if let Some(t) = r.target {
        lemma_pulling_grows(p, t, "scripts"@);
        let (pulled, name) = pulled_in(p, t, "scripts"@);
        if let Some(job) = r.job {
            lemma_moved_steps_grow(pulled, job, r.targets, entry_dir(name), dir);
        }
    }
}

/// In a bundle's config every autoanswer entry with a job has that job's name as its path, and
/// every other entry is as it was.
pub proof fn law_a_bundled_config_names_its_jobs(
    p: PackText,
    routes: Seq<RouteText>,
    dir: Seq<char>,
    i: int,
)
    requires
        pulls_are_there(p),
        0 <= i < routes.len(),
    ensures
        ({
            let (q, new, _) = all_routed(p, routes, dir);
            &&& new.len() == routes.len()
            &&& pulls_are_there(q)
            &&& grows(p, q)
            &&& names_its_job(q, routes[i], dir, bundled_path(new[i], routes[i].path))
        }),
    decreases routes.len(),
{
    let init = routes.drop_last();
    let q = all_routed(p, init, dir).0;
    if init.len() > 0 {
        law_a_bundled_config_names_its_jobs(
            p,
            init,
            dir,
            if i < init.len() {
                i
            } else {
                0
            },
        );
    }
    lemma_routed_names(q, routes.last(), dir);
    if i < init.len() {
        assert(init[i] == routes[i]);
    } else {
        assert(routes[i] == routes.last());
    }
}

/// A file from outside the folder comes into the bundle once, as a file of its own: under the
/// given folder and its own name, with a number before that where the name is taken.
pub proof fn law_a_pulled_file_keeps_its_name(p: PackText, src: Seq<char>, under: Seq<char>)
    requires
        p.entries.dom().finite(),
        !p.pulled.dom().contains(src),
    ensures
        ({
            let (q, name) = pulled_in(p, src, under);
            let base = match base_name(src) {
                Some(n) => n,
                None => "file"@,
            };
            &&& q.entries.dom().contains(name) && q.entries[name] == SrcText::File(src)
            &&& !p.entries.dom().contains(name)
            &&& q.pulled.dom().contains(src) && q.pulled[src] == name
            &&& q.warnings == p.warnings
            &&& !p.entries.dom().contains(under + "/"@ + base) ==> name == under + "/"@ + base
            &&& p.entries.dom().contains(under + "/"@ + base) ==> exists|n: nat|
                n > 0 && name == #[trigger] (under + "/"@ + decimal(n)) + "-"@ + base
        }),
{
    let base = pulled_base(src);
    lemma_some_free(p.entries, under, base, 0);
    let n = choose|n: nat| is_first_free(p.entries, under, base, n);
    assert(is_first_free(p.entries, under, base, n));
    assert(pull_name(under, base, 0) == under + "/"@ + base);
    if !p.entries.dom().contains(under + "/"@ + base) && n > 0 {
        assert(p.entries.dom().contains(pull_name(under, base, 0)));
    }
    if p.entries.dom().contains(under + "/"@ + base) {
        assert(n > 0);
        assert(pull_name(under, base, n) == (under + "/"@ + decimal(n)) + "-"@ + base);
    }
}

/// What packing makes of a step that plays a file. One whose file is not there stays, with a
/// warning; so does one whose file lies in the folder but is left out; one that names a file of
/// the folder from the script's own place stays without one; one that names it from the root
/// names its entry instead; and one from outside brings the file along and names that. A step
/// keeps its description and its id throughout.
pub proof fn law_a_packed_step_plays_its_file(
    p: PackText,
    file: Seq<char>,
    description: Option<String>,
    id: Option<String>,
    target: Option<Seq<char>>,
    at: PlaceText,
)
    ensures
        ({
            let step = StepText::Play { file, description, id };
            let (q, s, changed) = packed_step(p, step, target, at);
            let inside = match target {
                Some(t) => parts_below(t, at.dir),
                None => None,
            };
            let left_out = target is Some && inside is Some && (in_any(target->0, at.excluded)
                || holds_hidden(inside->0));
            &&& s is Play && s->description == description && s->id == id
            &&& !changed <==> target is None || (inside is Some && (left_out || !is_rooted(file)))
            &&& !changed ==> s == step && q.entries == p.entries && q.pulled == p.pulled
            &&& target is None || left_out || inside is None ==> q.warnings.len() == p.warnings.len() + 1
            &&& inside is Some && !left_out ==> q == p
            &&& changed && inside is Some ==> s->file == joined(
                relative_parts(at.zip_dir, joined(normal_parts(inside->0), "/"@)),
                "/"@,
            )
            &&& target is Some && inside is None ==> {
                &&& q.pulled.dom().contains(target->0)
                &&& s->file == joined(relative_parts(at.zip_dir, q.pulled[target->0]), "/"@)
            }
        }),
{
}

/// A path lies in one of some folders where what lies below that folder holds it.
pub proof fn law_a_path_lies_in_a_folder(path: Seq<char>, dirs: Seq<Seq<char>>, i: int)
    ensures
        0 <= i < dirs.len() && parts_below(path, dirs[i]) is Some ==> in_any(path, dirs),
        in_any(path, dirs) ==> exists|k: int|
            0 <= k < dirs.len() && parts_below(path, #[trigger] dirs[k]) is Some,
{
}

/// What moving a job into the bundle makes of a step that plays a file: it names the file's entry,
/// or the file that it brings along, seen from the job's new place. A file that is not there, and
/// every other step, stays.
pub proof fn law_a_moved_step_plays_its_file(
    p: PackText,
    step: StepText,
    target: Option<Seq<char>>,
    zip_dir: Seq<char>,
    dir: Seq<char>,
)
    ensures
        ({
            let (q, s, changed) = moved_step(p, step, target, zip_dir, dir);
            &&& changed <==> step is Play && target is Some
            &&& !changed ==> s == step && q == p
            &&& changed ==> s is Play && s->description == step->description && s->id == step->id
            &&& changed && entry_name(target->0, dir) is Some ==> q == p && s->file == joined(
                relative_parts(zip_dir, entry_name(target->0, dir)->0),
                "/"@,
            )
            &&& changed && entry_name(target->0, dir) is None ==> {
                &&& q.pulled.dom().contains(target->0)
                &&& s->file == joined(relative_parts(zip_dir, q.pulled[target->0]), "/"@)
            }
        }),
{
}

/// Packing a script goes over its steps one by one, in order: each step of the result is what was
/// made of that step, and the script is rewritten exactly where one of them was changed.
pub proof fn law_scripts_are_packed_step_by_step(
    p: PackText,
    job: Seq<StepText>,
    targets: Seq<Option<Seq<char>>>,
    at: PlaceText,
    i: int,
)
    requires
        0 <= i < job.len(),
    ensures
        ({
            let (q, done, changed) = packed_steps(p, job, targets, at);
            let before = packed_steps(p, job.take(i), targets, at).0;
            let one = packed_step(
                before,
                job[i],
                if i < targets.len() {
                    targets[i]
                } else {
                    None
                },
                at,
            );
            &&& done.len() == job.len()
            &&& done[i] == one.1
            &&& one.2 ==> changed
        }),
    decreases job.len(),
{
    let init = job.drop_last();
    lemma_packed_len(p, init, targets, at);
    if i < init.len() {
        law_scripts_are_packed_step_by_step(p, init, targets, at, i);
        assert(init.take(i) =~= job.take(i));
        assert(init[i] == job[i]);
    } else {
        assert(job.take(i) =~= init);
    }
}

proof fn lemma_packed_len(
    p: PackText,
    job: Seq<StepText>,
    targets: Seq<Option<Seq<char>>>,
    at: PlaceText,
)
    ensures
        packed_steps(p, job, targets, at).1.len() == job.len(),
    decreases job.len(),
{
    if job.len() > 0 {
        lemma_packed_len(p, job.drop_last(), targets, at);
    }
}

/// Every file that was found is in the bundle, under its path below the folder.
pub proof fn law_every_found_file_is_in_the_bundle(
    dir: Seq<char>,
    excluded: Seq<Seq<char>>,
    files: Seq<FoundText>,
    i: int,
)
    requires
        0 <= i < files.len(),
    ensures
        ({
            let empty = PackText {
                entries: Map::empty(),
                pulled: Map::empty(),
                warnings: Seq::empty(),
            };
            let p = with_files(empty, files, dir);
            let q = with_scripts(p, files, dir, excluded);
            &&& p.entries.dom().contains(entry_name(files[i].path, dir)->0)
            &&& q.entries.dom().contains(entry_name(files[i].path, dir)->0)
            &&& (forall|k: int|
                0 <= k < files.len() && k != i ==> entry_name((#[trigger] files[k]).path, dir)->0
                    != entry_name(files[i].path, dir)->0) ==> p.entries[entry_name(
                files[i].path,
                dir,
            )->0] == SrcText::File(files[i].path)
        }),
{
    let empty = PackText { entries: Map::empty(), pulled: Map::empty(), warnings: Seq::empty() };
    lemma_file_is_held(empty, files, dir, i);
    lemma_with_scripts_grow(with_files(empty, files, dir), files, dir, excluded);
}

proof fn lemma_file_is_held(p: PackText, files: Seq<FoundText>, dir: Seq<char>, i: int)
    requires
        0 <= i < files.len(),
    ensures
        ({
            let q = with_files(p, files, dir);
            let name = entry_name(files[i].path, dir)->0;
            &&& q.entries.dom().contains(name)
            &&& (forall|k: int|
                0 <= k < files.len() && k != i ==> entry_name((#[trigger] files[k]).path, dir)->0
                    != name) ==> q.entries[name] == SrcText::File(files[i].path)
        }),
    decreases files.len(),
{
    let init = files.drop_last();
    if i < init.len() {
        lemma_file_is_held(p, init, dir, i);
        let name = entry_name(files[i].path, dir)->0;
        if forall|k: int|
            0 <= k < files.len() && k != i ==> entry_name((#[trigger] files[k]).path, dir)->0 != name {
            assert forall|k: int| 0 <= k < init.len() && k != i implies entry_name(
                (#[trigger] init[k]).path,
                dir,
            )->0 != name by {
                assert(init[k] == files[k]);
            }
            assert(entry_name(files[files.len() - 1].path, dir)->0 != name);
        }
    }
}

proof fn lemma_packed_steps_grow(
    p: PackText,
    job: Seq<StepText>,
    targets: Seq<Option<Seq<char>>>,
    at: PlaceText,
)
    ensures
        grows(p, packed_steps(p, job, targets, at).0),
    decreases job.len(),
{
    if job.len() > 0 {
        lemma_packed_steps_grow(p, job.drop_last(), targets, at);
    }
}

proof fn lemma_with_scripts_grow(
    p: PackText,
    files: Seq<FoundText>,
    dir: Seq<char>,
    excluded: Seq<Seq<char>>,
)
    ensures
        grows(p, with_scripts(p, files, dir, excluded)),
    decreases files.len(),
{
    if files.len() > 0 {
        lemma_with_scripts_grow(p, files.drop_last(), dir, excluded);
        let q = with_scripts(p, files.drop_last(), dir, excluded);
        let f = files.last();
        if let Some(job) = f.job {
            let name = entry_name(f.path, dir)->0;
            let at = PlaceText { disk: f.path, zip_dir: entry_dir(name), dir, excluded };
            lemma_packed_steps_grow(q, job, f.targets, at);
        }
    }
}

/// A script is replaced in the bundle exactly where packing has changed it: by its packed steps,
/// under its own name, with a warning that its comments are gone.
pub proof fn law_a_changed_script_is_replaced(
    p: PackText,
    f: FoundText,
    dir: Seq<char>,
    excluded: Seq<Seq<char>>,
)
    requires
        f.job is Some,
        names_yaml(f.path),
    ensures
        ({
            let name = entry_name(f.path, dir)->0;
            let at = PlaceText { disk: f.path, zip_dir: entry_dir(name), dir, excluded };
            let (q, steps, changed) = packed_steps(p, f.job->0, f.targets, at);
            let now = with_script(p, f, dir, excluded);
            &&& changed ==> now.entries == q.entries.insert(name, SrcText::Job(steps))
                && now.warnings == q.warnings.push(
                f.path + ": rewritten for the bundle (comments dropped)"@,
            )
            &&& !changed ==> now == q
        }),
{
}

/// Each route of the configuration whose path changes gets one edit, which puts the new path in
/// quotation marks behind its number, in the order of the routes.
pub proof fn law_each_changed_route_is_edited(p: PackText, routes: Seq<RouteText>, r: RouteText, dir: Seq<char>)
    ensures
        ({
            let (q, paths, edits) = all_routed(p, routes, dir);
            let (_, more, now) = all_routed(p, routes.push(r), dir);
            let path = routed(q, r, dir).1;
            &&& more == paths.push(path)
            &&& path is None ==> now == edits
            &&& path is Some ==> now.len() == edits.len() + 1 && now.drop_last() == edits
                && now.last().key == r.number && now.last().value == quoted(path->0)
        }),
{
    assert(routes.push(r).drop_last() =~= routes);
    assert(routes.push(r).last() == r);
    let (q, paths, edits) = all_routed(p, routes, dir);
    let path = routed(q, r, dir).1;
    if path is Some {
        assert(all_routed(p, routes.push(r), dir).2.drop_last() =~= edits);
    }
}

/// A route to a job of the folder names the job's entry; one to a job from outside brings it
/// along; one to a job that is not there stays, with a warning; and one without a job stays.
pub proof fn law_a_route_names_its_job(p: PackText, r: RouteText, dir: Seq<char>)
    ensures
        r.path is None ==> routed(p, r, dir) == (p, None::<Seq<char>>),
        r.path is Some && r.target is None ==> {
            &&& routed(p, r, dir).1 is None
            &&& routed(p, r, dir).0.entries == p.entries
            &&& routed(p, r, dir).0.warnings == p.warnings.push(
                "config autoanswer "@ + r.number + ": job not found: "@ + r.path->0
                    + " (kept as-is)"@,
            )
        },
        r.path is Some && r.target is Some && entry_name(r.target->0, dir) is Some ==> {
            let name = entry_name(r.target->0, dir)->0;
            &&& routed(p, r, dir).0 == p
            &&& routed(p, r, dir).1 == if name == r.path->0 {
                None
            } else {
                Some(name)
            }
        },
{
}

/// What a walk does with what it comes to: what is hidden is passed over; a folder is entered unless
/// it is left out; a file is kept unless it is the archive itself; anything else is passed over.
pub proof fn law_a_walk_keeps_visible_files(
    path: Seq<char>,
    kind: Kind,
    resolved: Option<Seq<char>>,
    excluded: Seq<Seq<char>>,
    skipped: Seq<char>,
)
    ensures
        ({
            let hidden = base_name(path) matches Some(n) && n.len() > 0 && n[0] == '.';
            let w = walk_choice(path, kind, resolved, excluded, skipped);
            &&& w is Keep <==> !hidden && kind is File && path != skipped
            &&& w is Enter <==> !hidden && kind is Dir && !(resolved is Some && excluded.contains(
                resolved->0,
            ))
        }),
{
}

/// The files of a bundle are all that were found but its own configuration, which is written anew.
pub proof fn law_only_the_config_is_written_anew(files: Seq<FoundText>, dir: Seq<char>, f: FoundText)
    ensures
        files_in(files, dir).contains(f) <==> files.contains(f) && entry_name(f.path, dir) != Some(
            "config.yaml"@,
        ),
    decreases files.len(),
{
    if files.len() > 0 {
        let init = files.drop_last();
        law_only_the_config_is_written_anew(init, dir, f);
        let rest = files_in(init, dir);
        let now = files_in(files, dir);
        if init.contains(f) {
            let j = choose|j: int| 0 <= j < init.len() && init[j] == f;
            assert(files[j] == f);
        }
        if files.contains(f) {
            let j = choose|j: int| 0 <= j < files.len() && files[j] == f;
            if j < init.len() {
                assert(init[j] == f);
            }
        }
        assert(files[files.len() - 1] == files.last());
        if entry_name(files.last().path, dir) != Some("config.yaml"@) {
            assert(now[rest.len() as int] == files.last());
            if rest.contains(f) {
                let j = choose|j: int| 0 <= j < rest.len() && rest[j] == f;
                assert(now[j] == f);
            }
            if now.contains(f) {
                let j = choose|j: int| 0 <= j < now.len() && now[j] == f;
                if j < rest.len() {
                    assert(rest[j] == f);
                }
            }
        }
    }
}

} // verus!
