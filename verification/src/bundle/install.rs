//! Importing: what a bundle's config is turned into on this machine, and what the user is told.

use vstd::prelude::*;

#[allow(unused_imports)]
use crate::bundle::document::{
    answers_in, audio_text, changed, law_changed_paths_are_read_back, path_changes, same_keys,
};
#[allow(unused_imports)]
use crate::bundle::names::extension_of;
#[allow(unused_imports)]
use crate::bundle::names::{is_normal, parts_below};
#[allow(unused_imports)]
use crate::bundle::pack::{
    all_routed, bundled_path, opt_views, path_edit, pulls_are_there, PackText, RouteText,
};
#[allow(unused_imports)]
use crate::bundle::pack::law_a_bundled_config_names_its_jobs;
use crate::bundle::rewrite;
use crate::bundle::rewrite::Edit;
#[allow(unused_imports)]
use crate::bundle::rewrite::{edit_views, rendered, EditText};
#[allow(unused_imports)]
use crate::bundle::tree::{entries, written, yaml_tree, Tree};
#[allow(unused_imports)]
use crate::bundle::document;
use crate::bundle::names;
use crate::config::DEFAULT_WS_BIND;
use crate::jobs::schema::{Step, StepKind};
use crate::paths;
#[allow(unused_imports)]
use crate::paths::{base_name, cleaned, components, is_rooted, parent_of, path_of, resolved_under};
use crate::search::Search;
use crate::text;
#[allow(unused_imports)]
use crate::text::{decimal, joined, opt_view, small, trimmed, views};

verus! {

// ---------------------------------------------------------------------------
// Scripts
// ---------------------------------------------------------------------------

/// The directory that a script's files are looked for in.
pub open spec fn script_dir(script: Seq<char>) -> Seq<char> {
    match parent_of(script) {
        Some(d) => d,
        None => Seq::empty(),
    }
}

/// The files that a script plays, resolved under its own directory.
pub open spec fn played(script: Seq<char>, job: Seq<Step>) -> Seq<Seq<char>>
    decreases job.len(),
{
    if job.len() == 0 {
        Seq::empty()
    } else {
        let rest = played(script, job.drop_last());
        match job.last().kind {
            StepKind::AudioPlay { file } => rest.push(
                resolved_under(Some(script_dir(script)), file@),
            ),
            _ => rest,
        }
    }
}

/// The files that a script plays, resolved under its own directory.
pub fn audio_refs(script: &str, job: &Vec<Step>) -> (r: Vec<String>)
    ensures
        views(r@) == played(script@, job@),
{
    proof {
        reveal_strlit("");
        assert(""@ =~= Seq::<char>::empty());
    }
    let dir = match paths::parent(script) {
        Some(d) => d,
        None => "".to_owned(),
    };
    let mut out: Vec<String> = Vec::new();
    let mut i: usize = 0;
    while i < job.len()
        invariant
            i <= job.len(),
            dir@ == script_dir(script@),
            views(out@) == played(script@, job@.take(i as int)),
        decreases job.len() - i,
    {
        proof {
            assert(job@.take(i + 1).drop_last() =~= job@.take(i as int));
            assert(job@.take(i + 1).last() == job@[i as int]);
        }
        if let StepKind::AudioPlay { file } = &job[i].kind {
            let p = paths::resolve_under(Some(dir.as_str()), file);
            proof {
                text::lemma_views_push(out@, p);
            }
            out.push(p);
        }
        i += 1;
    }
    assert(job@.take(i as int) =~= job@);
    out
}

/// A job script of the bundle, with the files that it plays and whether each is there.
#[derive(Debug)]
pub struct Script {
    pub path: String,
    pub refs: Vec<String>,
    pub there: Vec<bool>,
}

/// What is said of the files of one script that are missing.
pub open spec fn missing(script: Seq<char>, refs: Seq<Seq<char>>, there: Seq<bool>) -> Seq<Seq<char>>
    decreases refs.len(),
{
    if refs.len() == 0 {
        Seq::empty()
    } else {
        let rest = missing(script, refs.drop_last(), there);
        let i = refs.len() - 1;
        if i < there.len() && there[i] {
            rest
        } else {
            rest.push(script + ": audio.play file missing: "@ + refs.last())
        }
    }
}

/// What is said of the files of all scripts that are missing.
pub open spec fn all_missing(scripts: Seq<Script>) -> Seq<Seq<char>>
    decreases scripts.len(),
{
    if scripts.len() == 0 {
        Seq::empty()
    } else {
        let s = scripts.last();
        all_missing(scripts.drop_last()) + missing(s.path@, views(s.refs@), s.there@)
    }
}

/// The paths of the scripts.
pub open spec fn script_paths(scripts: Seq<Script>) -> Seq<Seq<char>> {
    scripts.map_values(|s: Script| s.path@)
}

fn warn_missing(s: &Script, warnings: &mut Vec<String>)
    ensures
        views(final(warnings)@) == views(old(warnings)@) + missing(s.path@, views(s.refs@), s.there@),
{
    let ghost all = views(s.refs@);
    let ghost w0 = views(warnings@);
    let mut i: usize = 0;
    proof {
        assert(w0 + missing(s.path@, all.take(0), s.there@) =~= w0);
    }
    while i < s.refs.len()
        invariant
            i <= s.refs.len(),
            all == views(s.refs@),
            views(warnings@) == w0 + missing(s.path@, all.take(i as int), s.there@),
        decreases s.refs.len() - i,
    {
        let ghost before = views(warnings@);
        proof {
            assert(all.take(i + 1).drop_last() =~= all.take(i as int));
            assert(all.take(i + 1).last() == s.refs@[i as int]@);
        }
        if !(i < s.there.len() && s.there[i]) {
            let w = text::cat3(&s.path, ": audio.play file missing: ", &s.refs[i]);
            proof {
                text::lemma_views_push(warnings@, w);
            }
            warnings.push(w);
            assert(before.push(w@) =~= w0 + missing(s.path@, all.take(i as int), s.there@).push(w@));
        }
        i += 1;
    }
    assert(all.take(i as int) =~= all);
}

// ---------------------------------------------------------------------------
// The config's paths
// ---------------------------------------------------------------------------

/// An autoanswer entry of the bundle's config: its number, its path (none where calls are only
/// answered), and whether there is a file at that path under the bundle's folder.
#[derive(Debug)]
pub struct Answer {
    pub number: String,
    pub path: Option<String>,
    pub there: bool,
}

/// The path that a path of the bundle's config is installed with, where that differs.
pub open spec fn installed(folder: Seq<char>, path: Seq<char>) -> Option<Seq<char>> {
    let abs = resolved_under(Some(folder), path);
    if abs != path {
        Some(abs)
    } else {
        None
    }
}

/// The new paths of the autoanswer entries.
pub open spec fn answer_paths(folder: Seq<char>, answers: Seq<Answer>) -> Seq<Option<Seq<char>>> {
    answers.map_values(
        |a: Answer|
            match a.path {
                Some(p) => installed(folder, p@),
                None => None,
            },
    )
}

/// The edits that write the new paths of the autoanswer entries.
pub open spec fn answer_edits(folder: Seq<char>, answers: Seq<Answer>) -> Seq<EditText>
    decreases answers.len(),
{
    if answers.len() == 0 {
        Seq::empty()
    } else {
        let rest = answer_edits(folder, answers.drop_last());
        let a = answers.last();
        match a.path {
            Some(p) => match installed(folder, p@) {
                Some(new) => rest.push(path_edit(a.number@, new)),
                None => rest,
            },
            None => rest,
        }
    }
}

/// What is said of autoanswer jobs that are not there.
pub open spec fn answer_warnings(folder: Seq<char>, answers: Seq<Answer>) -> Seq<Seq<char>>
    decreases answers.len(),
{
    if answers.len() == 0 {
        Seq::empty()
    } else {
        let rest = answer_warnings(folder, answers.drop_last());
        let a = answers.last();
        match a.path {
            Some(p) => if a.there {
                rest
            } else {
                rest.push(
                    "config autoanswer "@ + a.number@ + ": job not found at "@ + resolved_under(
                        Some(folder),
                        p@,
                    ),
                )
            },
            None => rest,
        }
    }
}

/// The path that a path of the bundle's config stands for on this machine.
pub fn install_path(folder: &str, path: &str) -> (r: Option<String>)
    ensures
        opt_view(r) == installed(folder@, path@),
{
    let abs = paths::resolve_under(Some(folder), path);
    if text::same(&abs, path) {
        None
    } else {
        Some(abs)
    }
}

// ---------------------------------------------------------------------------
// The host
// ---------------------------------------------------------------------------

/// What a config says of the machine, for a warning where nobody can be asked: the program of
/// each pinned command and whether it was found, and the pinned devices.
#[derive(Debug)]
pub struct HostNotes {
    pub capture_tool: Option<String>,
    pub capture_found: bool,
    pub playback_tool: Option<String>,
    pub playback_found: bool,
    pub capture_device: Option<String>,
    pub playback_device: Option<String>,
}

/// What is said of a pinned program.
pub open spec fn tool_warning(label: Seq<char>, tool: Option<String>, found: bool) -> Seq<Seq<char>> {
    match tool {
        Some(t) => if found {
            Seq::empty()
        } else {
            seq![
                "audio."@ + label + " tool not found on this machine: "@ + t@
                    + " — install it or edit the config"@,
            ]
        },
        None => Seq::empty(),
    }
}

/// What is said of a pinned device.
pub open spec fn device_warning(label: Seq<char>, device: Option<String>) -> Seq<Seq<char>> {
    match device {
        Some(d) => seq![
            "audio."@ + label + " is \""@ + d@ + "\" — verify that device exists on this machine"@,
        ],
        None => Seq::empty(),
    }
}

/// What is said of the machine.
pub open spec fn host_warnings(h: HostNotes) -> Seq<Seq<char>> {
    tool_warning("capture_cmd"@, h.capture_tool, h.capture_found) + tool_warning(
        "playback_cmd"@,
        h.playback_tool,
        h.playback_found,
    ) + device_warning("capture_device"@, h.capture_device) + device_warning(
        "playback_device"@,
        h.playback_device,
    )
}

/// What is said of settings that can keep the daemon from starting on another machine.
pub open spec fn start_warnings(pins_socket: bool, ws_bind: Seq<char>) -> Seq<Seq<char>> {
    (if pins_socket {
        seq![
            "config pins control_socket settings from the exporting machine (control_socket/control_socket_group/control_socket_mode) — remove them unless this machine uses the same shared-socket setup"@,
        ]
    } else {
        Seq::empty()
    }) + (if ws_bind != DEFAULT_WS_BIND@ {
        seq!["config ws_bind is \""@ + ws_bind + "\" — verify it's bindable on this machine"@]
    } else {
        Seq::empty()
    })
}

fn warn_tool(label: &str, tool: &Option<String>, found: bool, warnings: &mut Vec<String>)
    ensures
        views(final(warnings)@) == views(old(warnings)@) + tool_warning(label@, *tool, found),
{
    let ghost w0 = views(warnings@);
    proof {
        assert(w0 + Seq::<Seq<char>>::empty() =~= w0);
    }
    if let Some(t) = tool {
        if !found {
            let mut w = text::cat3("audio.", label, " tool not found on this machine: ");
            w.append(t);
            w.append(" — install it or edit the config");
            proof {
                text::lemma_views_push(warnings@, w);
                assert(w0.push(w@) =~= w0 + seq![w@]);
            }
            warnings.push(w);
        }
    }
}

fn warn_device(label: &str, device: &Option<String>, warnings: &mut Vec<String>)
    ensures
        views(final(warnings)@) == views(old(warnings)@) + device_warning(label@, *device),
{
    let ghost w0 = views(warnings@);
    proof {
        assert(w0 + Seq::<Seq<char>>::empty() =~= w0);
    }
    if let Some(d) = device {
        let mut w = text::cat3("audio.", label, " is \"");
        w.append(d);
        w.append("\" — verify that device exists on this machine");
        proof {
            text::lemma_views_push(warnings@, w);
            assert(w0.push(w@) =~= w0 + seq![w@]);
        }
        warnings.push(w);
    }
}

fn warn_host(h: &HostNotes, warnings: &mut Vec<String>)
    ensures
        views(final(warnings)@) == views(old(warnings)@) + host_warnings(*h),
{
    let ghost w0 = views(warnings@);
    warn_tool("capture_cmd", &h.capture_tool, h.capture_found, warnings);
    warn_tool("playback_cmd", &h.playback_tool, h.playback_found, warnings);
    warn_device("capture_device", &h.capture_device, warnings);
    warn_device("playback_device", &h.playback_device, warnings);
    assert(views(warnings@) =~= w0 + host_warnings(*h));
}

fn warn_start(pins_socket: bool, ws_bind: &str, warnings: &mut Vec<String>)
    ensures
        views(final(warnings)@) == views(old(warnings)@) + start_warnings(pins_socket, ws_bind@),
{
    let ghost w0 = views(warnings@);
    if pins_socket {
        let w = "config pins control_socket settings from the exporting machine (control_socket/control_socket_group/control_socket_mode) — remove them unless this machine uses the same shared-socket setup".to_owned();
        proof {
            text::lemma_views_push(warnings@, w);
        }
        warnings.push(w);
    }
    if !text::same(ws_bind, DEFAULT_WS_BIND) {
        let w = text::cat3("config ws_bind is \"", ws_bind, "\" — verify it's bindable on this machine");
        proof {
            text::lemma_views_push(warnings@, w);
        }
        warnings.push(w);
    }
    assert(views(warnings@) =~= w0 + start_warnings(pins_socket, ws_bind@));
}

/// Whether a command's program is there: at its path where that is absolute, which `at_path` tells
/// of, else where it is found on the search path.
pub fn tool_there(argv0: &str, at_path: bool, search: &mut Search) -> (r: bool)
    ensures
        if is_rooted(argv0@) {
            r == at_path && final(search).log() == old(search).log()
        } else {
            let log = final(search).log();
            &&& log.len() == old(search).log().len() + 1
            &&& old(search).log().is_prefix_of(log)
            &&& log.last().0 == argv0@
            &&& r == (log.last().1 is Some)
        },
{
    if paths::rooted(argv0) {
        at_path
    } else {
        search.find(argv0).is_some()
    }
}

// ---------------------------------------------------------------------------
// Import
// ---------------------------------------------------------------------------

/// What an import comes to: the scripts of the bundle, the new paths of the config, the edits that
/// write them, and what the user is told.
#[derive(Debug)]
pub struct ImportPlan {
    pub scripts: Vec<String>,
    pub answers: Vec<Option<String>>,
    pub record_dir: Option<String>,
    pub edits: Vec<Edit>,
    pub warnings: Vec<String>,
}

/// What an import did, for display and for the restart of the daemon that follows.
#[derive(Debug)]
pub struct ImportReport {
    /// Where the config was installed.
    pub config_path: String,
    /// The backup of the config that was replaced.
    pub backup_path: Option<String>,
    /// The bundle's folder, which the config now points at.
    pub folder: String,
    pub scripts: Vec<String>,
    pub warnings: Vec<String>,
}

/// What an import did, once its config is in place.
pub fn import_report(
    plan: ImportPlan,
    config_path: &str,
    backup_path: Option<String>,
    folder: &str,
) -> (r: ImportReport)
    ensures
        r.config_path@ == config_path@,
        r.backup_path == backup_path,
        r.folder@ == folder@,
        r.scripts == plan.scripts,
        r.warnings == plan.warnings,
{
    ImportReport {
        config_path: config_path.to_owned(),
        backup_path,
        folder: folder.to_owned(),
        scripts: plan.scripts,
        warnings: plan.warnings,
    }
}

/// The edits of an import.
pub open spec fn import_edits(
    folder: Seq<char>,
    answers: Seq<Answer>,
    record_dir: Option<Seq<char>>,
) -> Seq<EditText> {
    let edits = answer_edits(folder, answers);
    match record_dir {
        Some(d) => match installed(folder, d) {
            Some(new) => edits.push(path_edit("record_dir"@, new)),
            None => edits,
        },
        None => edits,
    }
}

/// Why a folder without a config is no bundle.
pub fn no_config(folder: &str) -> (r: String)
    ensures
        r@ == "not a dialf bundle: "@ + folder@ + " has no config.yaml"@,
{
    text::cat3("not a dialf bundle: ", folder, " has no config.yaml")
}

/// Turns a bundle's config into one of this machine: paths become absolute ones in the bundle's
/// folder, which stays where it is. `host` is given where nobody can be asked. A folder without a
/// job script is no bundle.
pub fn import_to(
    folder: &str,
    scripts: &Vec<Script>,
    answers: &Vec<Answer>,
    record_dir: Option<&str>,
    host: Option<HostNotes>,
    pins_socket: bool,
    ws_bind: &str,
) -> (r: Result<ImportPlan, String>)
    ensures
        match r {
            Err(e) => scripts@.len() == 0 && e@ == "not a dialf bundle: "@ + folder@
                + " has no job script (no YAML parsed as a job)"@,
            Ok(p) => {
                let rd = match record_dir {
                    Some(d) => Some(d@),
                    None => None,
                };
                &&& scripts@.len() > 0
                &&& views(p.scripts@) == script_paths(scripts@)
                &&& opt_views(p.answers@) == answer_paths(folder@, answers@)
                &&& opt_view(p.record_dir) == (match rd {
                    Some(d) => installed(folder@, d),
                    None => None,
                })
                &&& edit_views(p.edits@) == import_edits(folder@, answers@, rd)
                &&& views(p.warnings@) == all_missing(scripts@) + answer_warnings(folder@, answers@)
                    + (match host {
                    Some(h) => host_warnings(h),
                    None => Seq::empty(),
                }) + start_warnings(pins_socket, ws_bind@)
            },
        },
{
    if scripts.len() == 0 {
        return Err(
            text::cat3(
                "not a dialf bundle: ",
                folder,
                " has no job script (no YAML parsed as a job)",
            ),
        );
    }
    let mut warnings: Vec<String> = Vec::new();
    let mut found: Vec<String> = Vec::new();
    let mut i: usize = 0;
    assert(views(warnings@) =~= all_missing(scripts@.take(0)));
    while i < scripts.len()
        invariant
            i <= scripts.len(),
            found@.len() == i,
            forall|k: int| 0 <= k < i ==> (#[trigger] found@[k])@ == scripts@[k].path@,
            views(warnings@) == all_missing(scripts@.take(i as int)),
        decreases scripts.len() - i,
    {
        proof {
            assert(scripts@.take(i + 1).drop_last() =~= scripts@.take(i as int));
            assert(scripts@.take(i + 1).last() == scripts@[i as int]);
        }
        warn_missing(&scripts[i], &mut warnings);
        found.push(scripts[i].path.clone());
        i += 1;
    }
    proof {
        assert(scripts@.take(i as int) =~= scripts@);
        assert(views(found@) =~= script_paths(scripts@));
    }
    let ghost w1 = views(warnings@);
    let mut new_paths: Vec<Option<String>> = Vec::new();
    let mut edits: Vec<Edit> = Vec::new();
    let mut j: usize = 0;
    proof {
        assert(edit_views(edits@) =~= answer_edits(folder@, answers@.take(0)));
        assert(w1 + answer_warnings(folder@, answers@.take(0)) =~= w1);
    }
    while j < answers.len()
        invariant
            j <= answers.len(),
            new_paths@.len() == j,
            forall|k: int|
                0 <= k < j ==> opt_view(#[trigger] new_paths@[k]) == answer_paths(
                    folder@,
                    answers@,
                )[k],
            edit_views(edits@) == answer_edits(folder@, answers@.take(j as int)),
            views(warnings@) == w1 + answer_warnings(folder@, answers@.take(j as int)),
        decreases answers.len() - j,
    {
        let ghost e0 = edit_views(edits@);
        let ghost w0 = views(warnings@);
        proof {
            assert(answers@.take(j + 1).drop_last() =~= answers@.take(j as int));
            assert(answers@.take(j + 1).last() == answers@[j as int]);
        }
        let new = match &answers[j].path {
            Some(p) => {
                if !answers[j].there {
                    let mut w = text::cat3("config autoanswer ", &answers[j].number, ": job not found at ");
                    w.append(&paths::resolve_under(Some(folder), p));
                    proof {
                        text::lemma_views_push(warnings@, w);
                        assert(w0.push(w@) =~= w1 + answer_warnings(
                            folder@,
                            answers@.take(j as int),
                        ).push(w@));
                    }
                    warnings.push(w);
                }
                install_path(folder, p)
            },
            None => None,
        };
        if let Some(n) = &new {
            let e = Edit { key: answers[j].number.clone(), value: rewrite::yaml_quote(n) };
            edits.push(e);
            assert(edit_views(edits@) =~= e0.push(e@));
        }
        new_paths.push(new);
        j += 1;
    }
    proof {
        assert(answers@.take(j as int) =~= answers@);
        assert(opt_views(new_paths@) =~= answer_paths(folder@, answers@));
    }
    let new_dir = match record_dir {
        Some(d) => install_path(folder, d),
        None => None,
    };
    if let Some(n) = &new_dir {
        let ghost e0 = edit_views(edits@);
        let e = Edit { key: "record_dir".to_owned(), value: rewrite::yaml_quote(n) };
        edits.push(e);
        assert(edit_views(edits@) =~= e0.push(e@));
    }
    let ghost w2 = views(warnings@);
    if let Some(h) = &host {
        warn_host(h, &mut warnings);
    } else {
        assert(w2 + Seq::<Seq<char>>::empty() =~= w2);
    }
    warn_start(pins_socket, ws_bind, &mut warnings);
    Ok(ImportPlan { scripts: found, answers: new_paths, record_dir: new_dir, edits, warnings })
}

// ---------------------------------------------------------------------------
// Replacing a config
// ---------------------------------------------------------------------------

/// A name up to its extension.
pub open spec fn stem_of(path: Seq<char>) -> Seq<char> {
    let n = base_name(path)->0;
    match extension_of(path) {
        Some(e) => n.take(n.len() - e.len() - 1),
        None => n,
    }
}

/// The path with another extension.
pub open spec fn with_extension(path: Seq<char>, ext: Seq<char>) -> Seq<char> {
    match base_name(path) {
        Some(_) => path_of(
            is_rooted(path),
            components(path).drop_last().push(stem_of(path) + "."@ + ext),
        ),
        None => cleaned(path),
    }
}

/// The extension of the `n`-th backup made at `stamp`.
pub open spec fn backup_extension(stamp: Seq<char>, n: nat) -> Seq<char> {
    if n == 0 {
        "yaml.bak."@ + stamp
    } else {
        "yaml.bak."@ + stamp + "-"@ + decimal(n)
    }
}

/// The path with another extension.
pub fn replace_extension(path: &str, ext: &str) -> (r: String)
    ensures
        r@ == with_extension(path@, ext@),
{
    let name = match paths::name_of(path) {
        Some(n) => n,
        None => {
            return paths::clean(path);
        },
    };
    let stem = match names::extension(path) {
        Some(e) => {
            let a: usize = e.as_str().unicode_len();
            let b: usize = name.as_str().unicode_len();
            let s = name.as_str().substring_char(0, b - a - 1);
            assert(s@ =~= stem_of(path@));
            s.to_owned()
        },
        None => name,
    };
    let mut parts = paths::split_path(path);
    let ghost all = views(parts@);
    proof {
        assert(components(path@).len() == parts@.len());
    }
    let _ = parts.pop();
    assert(views(parts@) =~= all.drop_last());
    let last = text::cat3(&stem, ".", ext);
    proof {
        text::lemma_views_push(parts@, last);
    }
    parts.push(last);
    paths::join_path(paths::rooted(path), &parts)
}

/// The path of the `n`-th backup of the config at `dest` made at `stamp`: the stamp makes backups
/// sort by age, and the number tells those of one second apart.
pub fn backup_path(dest: &str, stamp: &str, n: u64) -> (r: String)
    ensures
        r@ == with_extension(dest@, backup_extension(stamp@, n as nat)),
{
    let mut ext = text::cat("yaml.bak.", stamp);
    if n > 0 {
        ext.append("-");
        ext.append(&text::decimal_of(n));
    }
    replace_extension(dest, &ext)
}

/// The path of the `n`-th backup of the config at `dest` made at `stamp`.
pub open spec fn backup_name(dest: Seq<char>, stamp: Seq<char>, n: nat) -> Seq<char> {
    with_extension(dest, backup_extension(stamp, n))
}

/// Whether the `n`-th backup is the first that is not there.
pub open spec fn is_first_backup(
    there: Set<Seq<char>>,
    dest: Seq<char>,
    stamp: Seq<char>,
    n: nat,
) -> bool {
    &&& !there.contains(backup_name(dest, stamp, n))
    &&& forall|m: nat| m < n ==> there.contains(#[trigger] backup_name(dest, stamp, m))
}

/// Where files lie. Nothing is assumed of what it says.
pub trait RawDisk {
    /// Whether there is something at a path.
    fn is_there(&mut self, path: &str) -> bool;
}

/// A [`RawDisk`] with everything that was asked of it.
pub struct Disk<R: RawDisk> {
    pub device: R,
    /// The paths that were looked at, and whether something was there.
    pub looks: Ghost<Seq<(Seq<char>, bool)>>,
}

impl<R: RawDisk> Disk<R> {
    /// Nothing was asked yet.
    pub fn new(device: R) -> (r: Self)
        ensures
            r.device == device,
            r.looks@ == Seq::<(Seq<char>, bool)>::empty(),
    {
        Disk { device, looks: Ghost(Seq::empty()) }
    }

    fn is_there(&mut self, path: &str) -> (r: bool)
        ensures
            final(self).looks@ == old(self).looks@.push((path@, r)),
    {
        let r = self.device.is_there(path);
        self.looks = Ghost(self.looks@.push((path@, r)));
        r
    }
}

/// The looks at the first `n` backups, all of which are there.
pub open spec fn taken_looks(dest: Seq<char>, stamp: Seq<char>, n: nat) -> Seq<(Seq<char>, bool)> {
    Seq::new(n, |i: int| (backup_name(dest, stamp, i as nat), true))
}

/// Looks for the backup of the config at `dest` to be made at `stamp`: the first one that is not
/// there. None where all are, as many as there are numbers.
pub fn free_backup<R: RawDisk>(dest: &str, stamp: &str, disk: &mut Disk<R>) -> (r: Option<String>)
    ensures
        match r {
            Some(p) => exists|n: nat|
                {
                    &&& p@ == #[trigger] backup_name(dest@, stamp@, n)
                    &&& final(disk).looks@ == (old(disk).looks@ + taken_looks(dest@, stamp@, n)).push(
                        (p@, false),
                    )
                },
            None => final(disk).looks@ == old(disk).looks@ + taken_looks(
                dest@,
                stamp@,
                u64::MAX as nat + 1,
            ),
        },
{
    let mut n: u64 = 0;
    let ghost had = disk.looks@;
    assert(had + taken_looks(dest@, stamp@, 0) =~= had);
    loop
        invariant
            had == old(disk).looks@,
            disk.looks@ == had + taken_looks(dest@, stamp@, n as nat),
        decreases u64::MAX - n,
    {
        let path = backup_path(dest, stamp, n);
        if !disk.is_there(&path) {
            proof {
                assert(path@ == backup_name(dest@, stamp@, n as nat));
            }
            return Some(path);
        }
        proof {
            assert(had + taken_looks(dest@, stamp@, n as nat + 1) =~= (had + taken_looks(
                dest@,
                stamp@,
                n as nat,
            )).push((path@, true)));
        }
        if n == u64::MAX {
            return None;
        }
        n = n + 1;
    }
}

/// Whether an answer is a yes.
pub open spec fn says_yes(answer: Seq<char>) -> bool {
    small(trimmed(answer)) == "y"@ || small(trimmed(answer)) == "yes"@
}

/// Whether an answer is a yes.
pub fn is_yes(answer: &str) -> (r: bool)
    ensures
        r == says_yes(answer@),
{
    let s = text::to_small(text::trim(answer));
    text::same(&s, "y") || text::same(&s, "yes")
}

/// The question before an existing config is replaced.
pub fn override_prompt(dest: &str) -> (r: String)
    ensures
        r@ == "warning: "@ + dest@ + " already exists — replace it? (a .bak backup is kept) [y/N]: "@,
{
    text::cat3("warning: ", dest, " already exists — replace it? (a .bak backup is kept) [y/N]: ")
}

/// Whether an existing config may be replaced: `answer` is what the user said, none where nobody
/// can be asked.
pub fn confirm_override(dest: &str, answer: Option<&str>) -> (r: Result<(), String>)
    ensures
        match answer {
            None => r matches Err(e) && e@ == dest@
                + " already exists — re-run with --override to replace it"@,
            Some(a) => {
                &&& r is Ok == says_yes(a@)
                &&& r matches Err(e) ==> e@ == "aborted — existing config left untouched"@
            },
        },
{
    match answer {
        None => Err(text::cat(dest, " already exists — re-run with --override to replace it")),
        Some(a) => if is_yes(a) {
            Ok(())
        } else {
            Err("aborted — existing config left untouched".to_owned())
        },
    }
}

// ---------------------------------------------------------------------------
// Laws
// ---------------------------------------------------------------------------

proof fn lemma_paths_differ(rooted: bool, dir: Seq<Seq<char>>, a: Seq<char>, b: Seq<char>)
    requires
        a != b,
    ensures
        path_of(rooted, dir.push(a)) != path_of(rooted, dir.push(b)),
{
    let ja = joined(dir.push(a), "/"@);
    let jb = joined(dir.push(b), "/"@);
    if ja == jb {
        if dir.len() == 0 {
            assert(dir.push(a).drop_last() =~= Seq::<Seq<char>>::empty());
            assert(dir.push(b).drop_last() =~= Seq::<Seq<char>>::empty());
            assert(ja =~= a);
            assert(jb =~= b);
        } else {
            text::lemma_joined_push(dir, "/"@, a);
            text::lemma_joined_push(dir, "/"@, b);
            let head = joined(dir, "/"@) + "/"@;
            assert(a =~= ja.skip(head.len() as int));
            assert(b =~= jb.skip(head.len() as int));
        }
    }
    if rooted {
        assert(ja =~= ("/"@ + ja).skip("/"@.len() as int));
        assert(jb =~= ("/"@ + jb).skip("/"@.len() as int));
    }
}

/// No two backups made in one second have the same path, so none ever overwrites another.
pub proof fn law_backups_do_not_clash(dest: Seq<char>, stamp: Seq<char>, a: nat, b: nat)
    requires
        base_name(dest) is Some,
        a != b,
    ensures
        with_extension(dest, backup_extension(stamp, a)) != with_extension(
            dest,
            backup_extension(stamp, b),
        ),
{
    let head = "yaml.bak."@ + stamp;
    text::lemma_decimal_value(a);
    text::lemma_decimal_value(b);
    reveal_strlit("-");
    let ea = backup_extension(stamp, a);
    let eb = backup_extension(stamp, b);
    if ea == eb {
        if a == 0 {
            assert(head.len() == (head + "-"@ + decimal(b)).len());
        } else if b == 0 {
            assert(head.len() == (head + "-"@ + decimal(a)).len());
        } else {
            assert(decimal(a) =~= ea.skip((head.len() + 1) as int));
            assert(decimal(b) =~= eb.skip((head.len() + 1) as int));
        }
    }
    let s = stem_of(dest) + "."@;
    assert(ea =~= (s + ea).skip(s.len() as int));
    assert(eb =~= (s + eb).skip(s.len() as int));
    lemma_paths_differ(is_rooted(dest), components(dest).drop_last(), s + ea, s + eb);
}

/// The files after the config at `dest` was replaced: its old content is kept as the `n`-th backup
/// made at `stamp`.
pub open spec fn replaced(
    files: Map<Seq<char>, Seq<u8>>,
    dest: Seq<char>,
    stamp: Seq<char>,
    n: nat,
    new: Seq<u8>,
) -> Map<Seq<char>, Seq<u8>> {
    files.insert(backup_name(dest, stamp, n), files[dest]).insert(dest, new)
}

/// Every replaced config gets a backup of its own. A config is replaced, then written anew by
/// somebody, then replaced again, be it within the same second: each time the first backup that is
/// not there is made. In the end both backups are there under different names and hold what was
/// replaced, and nothing else but the config has changed.
pub proof fn law_every_replaced_config_is_kept(
    files: Map<Seq<char>, Seq<u8>>,
    dest: Seq<char>,
    first: (Seq<char>, nat),
    second: (Seq<char>, nat),
    installed_first: Seq<u8>,
    written: Seq<u8>,
    installed_second: Seq<u8>,
)
    requires
        files.dom().contains(dest),
        is_first_backup(files.dom(), dest, first.0, first.1),
        ({
            let between = replaced(files, dest, first.0, first.1, installed_first).insert(
                dest,
                written,
            );
            is_first_backup(between.dom(), dest, second.0, second.1)
        }),
    ensures
        ({
            let between = replaced(files, dest, first.0, first.1, installed_first).insert(
                dest,
                written,
            );
            let end = replaced(between, dest, second.0, second.1, installed_second);
            let a = backup_name(dest, first.0, first.1);
            let b = backup_name(dest, second.0, second.1);
            &&& a != b
            &&& end.dom().contains(a) && end[a] == files[dest]
            &&& end.dom().contains(b) && end[b] == written
            &&& end[dest] == installed_second
            &&& forall|p: Seq<char>|
                p != a && p != b && p != dest ==> #[trigger] end.dom().contains(p)
                    == files.dom().contains(p) && end[p] == files[p]
        }),
{
}

/// What looking for a backup finds is the first one that is not there, wherever the looks tell what
/// is there.
pub proof fn law_the_first_free_backup_is_taken(
    there: Set<Seq<char>>,
    dest: Seq<char>,
    stamp: Seq<char>,
    n: nat,
)
    requires
        forall|i: int|
            0 <= i <= n ==> {
                let look = #[trigger] taken_looks(dest, stamp, n).push(
                    (backup_name(dest, stamp, n), false),
                )[i];
                look.1 == there.contains(look.0)
            },
    ensures
        is_first_backup(there, dest, stamp, n),
{
    let looks = taken_looks(dest, stamp, n).push((backup_name(dest, stamp, n), false));
    assert(looks[n as int].1 == there.contains(looks[n as int].0));
    assert forall|m: nat| m < n implies there.contains(#[trigger] backup_name(dest, stamp, m)) by {
        assert(looks[m as int].1 == there.contains(looks[m as int].0));
    }
}

/// A path that is absolute and clean is installed as it is.
pub proof fn law_absolute_paths_stay(folder: Seq<char>, path: Seq<char>)
    requires
        is_rooted(path),
        cleaned(path) == path,
    ensures
        installed(folder, path) is None,
{
}

/// A relative path is installed as one that leads into the folder from anywhere: absolute, the
/// folder's components first, then those of the path.
pub proof fn law_relative_paths_lead_into_the_folder(folder: Seq<char>, path: Seq<char>)
    requires
        is_rooted(folder),
        !is_rooted(path),
    ensures
        installed(folder, path) matches Some(abs) && is_rooted(abs) && components(abs) == components(
            folder,
        ) + paths::inner_pieces(text::pieces(path, '/')),
{
    paths::law_a_relative_path_stays_below_its_base(folder, path);
}

/// Whether an import leads an autoanswer entry to the job that an export had for it: a job of the
/// exported folder stands in the new folder where it stood in the old one, any other at the entry
/// that it has in the bundle, and an entry without a job has none.
pub open spec fn leads_back(
    p: PackText,
    r: RouteText,
    dir: Seq<char>,
    folder: Seq<char>,
    now: Option<Seq<char>>,
) -> bool {
    match (r.path, r.target) {
        (None, _) => now is None,
        (Some(path), None) => now == Some(resolved_under(Some(folder), path)),
        (Some(_), Some(t)) => match parts_below(t, dir) {
            Some(parts) => now matches Some(path) && is_rooted(path) && parts_below(path, folder)
                == Some(parts),
            None => exists|n: Seq<char>|
                p.entries.dom().contains(n) && now == Some(
                    #[trigger] resolved_under(Some(folder), n),
                ),
        },
    }
}

/// An import of an export gives back the setup. The bundle's config has the paths that the export
/// gave it; once it is imported into a folder, every autoanswer entry leads to its job there, and
/// recordings go to a folder of their own below it, where they went anywhere at all. The files
/// that jobs are found at are written without `.` and `..`.
pub proof fn law_an_import_of_an_export_gives_back_the_setup(
    p: PackText,
    routes: Seq<RouteText>,
    dir: Seq<char>,
    record_dir: Option<Seq<char>>,
    folder: Seq<char>,
    answers: Seq<Answer>,
)
    requires
        pulls_are_there(p),
        is_rooted(folder),
        answers.len() == routes.len(),
        forall|i: int|
            0 <= i < routes.len() ==> opt_view((#[trigger] answers[i]).path) == bundled_path(
                all_routed(p, routes, dir).1[i],
                routes[i].path,
            ),
        forall|i: int, k: int|
            0 <= i < routes.len() && routes[i].target is Some && 0 <= k < components(
                routes[i].target->0,
            ).len() ==> is_normal(#[trigger] components(routes[i].target->0)[k]),
    ensures
        forall|i: int|
            0 <= i < routes.len() ==> leads_back(
                all_routed(p, routes, dir).0,
                #[trigger] routes[i],
                dir,
                folder,
                bundled_path(answer_paths(folder, answers)[i], opt_view(answers[i].path)),
            ),
        ({
            let bundled = match record_dir {
                Some(d) => Some(
                    if d != "recordings"@ {
                        "recordings"@
                    } else {
                        d
                    },
                ),
                None => None,
            };
            let now = bundled_path(
                match bundled {
                    Some(d) => installed(folder, d),
                    None => None,
                },
                bundled,
            );
            match record_dir {
                Some(_) => now matches Some(d) && is_rooted(d) && components(d) == components(
                    folder,
                ).push("recordings"@),
                None => now is None,
            }
        }),
{
    let (q, new, _) = all_routed(p, routes, dir);
    assert forall|i: int| 0 <= i < routes.len() implies leads_back(
        q,
        #[trigger] routes[i],
        dir,
        folder,
        bundled_path(answer_paths(folder, answers)[i], opt_view(answers[i].path)),
    ) by {
        law_a_bundled_config_names_its_jobs(p, routes, dir, i);
        let r = routes[i];
        let path = opt_view(answers[i].path);
        assert(path == bundled_path(new[i], r.path));
        let now = bundled_path(answer_paths(folder, answers)[i], path);
        assert(path matches Some(n) ==> now == Some(resolved_under(Some(folder), n)));
        if r.path is Some && r.target is Some {
            let t = r.target->0;
            if let Some(parts) = parts_below(t, dir) {
                let from = components(dir).len() as int;
                paths::lemma_components_are_well_placed(t);
                assert forall|k: int| 0 <= k < parts.len() implies {
                    &&& (#[trigger] parts[k]).len() > 0
                    &&& !parts[k].contains('/')
                    &&& is_normal(parts[k])
                } by {
                    assert(parts[k] == components(t)[from + k]);
                    assert(is_normal(components(routes[i].target->0)[from + k]));
                }
                names::lemma_all_normal(parts);
                assert(paths::well_placed(true, parts));
                paths::lemma_joined_below(folder, parts);
                let abs = now->0;
                assert(components(abs) == components(folder) + parts);
                assert(components(folder) =~= components(abs).subrange(
                    0,
                    components(folder).len() as int,
                ));
                assert(components(abs).skip(components(folder).len() as int) =~= parts);
            }
        }
    }
    if record_dir is Some {
        reveal_strlit("recordings");
        let parts = seq!["recordings"@];
        assert(joined(parts, "/"@) == "recordings"@);
        assert(paths::well_placed(true, parts)) by {
            reveal_strlit(".");
            assert("recordings"@.len() == 10);
            assert(!"recordings"@.contains('/'));
        }
        paths::lemma_joined_below(folder, parts);
        assert(components(folder) + parts =~= components(folder).push("recordings"@));
    }
}

/// The folder that recordings are to go to in a bundle, where that is another one.
pub open spec fn bundled_dir(record_dir: Option<Seq<char>>) -> Option<Seq<char>> {
    match record_dir {
        Some(d) => if d != "recordings"@ {
            Some("recordings"@)
        } else {
            None
        },
        None => None,
    }
}

/// The folder that recordings are to go to once imported, where that is another one.
pub open spec fn imported_dir(folder: Seq<char>, record_dir: Option<Seq<char>>) -> Option<
    Seq<char>,
> {
    match record_dir {
        Some(d) => installed(folder, d),
        None => None,
    }
}

/// The document of a bundled config.
pub open spec fn bundled_doc(doc: Tree, p: PackText, routes: Seq<RouteText>, dir: Seq<char>) -> Tree {
    changed(
        doc,
        path_changes(
            all_routed(p, routes, dir).1,
            bundled_dir(audio_text(doc, "record_dir"@)),
        ),
    )
}

/// The document of an imported config.
pub open spec fn imported_doc(doc: Tree, folder: Seq<char>, answers: Seq<Answer>) -> Tree {
    changed(
        doc,
        path_changes(
            answer_paths(folder, answers),
            imported_dir(folder, audio_text(doc, "record_dir"@)),
        ),
    )
}

/// A config that was exported and imported is the one that it was, but for its paths. The fields
/// are those of the exporting machine's config, in their order, and none is added; every field
/// but the two sections with paths is as it was; every number leads to its job in the new folder;
/// and recordings go to a folder of their own below it, where they went anywhere at all. What is
/// installed holds that document, or is that document written out. The bundled config is read as
/// the document that was bundled, and the files that jobs are found at are written without `.` and
/// `..`.
pub proof fn law_an_imported_config_is_the_exported_one(
    config: Seq<char>,
    doc: Tree,
    p: PackText,
    routes: Seq<RouteText>,
    dir: Seq<char>,
    bundle_edits: Seq<EditText>,
    bundled: Seq<char>,
    folder: Seq<char>,
    answers: Seq<Answer>,
    edits: Seq<EditText>,
    result: Seq<char>,
)
    requires
        yaml_tree(config) == Ok::<Tree, Seq<char>>(doc),
        entries(doc) is Some,
        pulls_are_there(p),
        routes.len() == answers_in(doc).len(),
        forall|i: int| 0 <= i < routes.len() ==> (#[trigger] routes[i]).path == answers_in(doc)[i].1,
        forall|i: int, k: int|
            0 <= i < routes.len() && routes[i].target is Some && 0 <= k < components(
                routes[i].target->0,
            ).len() ==> is_normal(#[trigger] components(routes[i].target->0)[k]),
        rendered(config, bundle_edits, bundled_doc(doc, p, routes, dir)) == Ok::<
            Seq<char>,
            Seq<char>,
        >(bundled),
        yaml_tree(bundled) == Ok::<Tree, Seq<char>>(bundled_doc(doc, p, routes, dir)),
        is_rooted(folder),
        answers.len() == routes.len(),
        forall|i: int|
            0 <= i < answers.len() ==> opt_view((#[trigger] answers[i]).path) == answers_in(
                bundled_doc(doc, p, routes, dir),
            )[i].1,
        rendered(
            bundled,
            edits,
            imported_doc(bundled_doc(doc, p, routes, dir), folder, answers),
        ) == Ok::<Seq<char>, Seq<char>>(result),
    ensures
        ({
            let now = imported_doc(bundled_doc(doc, p, routes, dir), folder, answers);
            let es = entries(doc)->0;
            &&& yaml_tree(result) == Ok::<Tree, Seq<char>>(now) || written(now) == Ok::<
                Seq<char>,
                Seq<char>,
            >(result)
            &&& entries(now) matches Some(fs) && same_keys(es, fs)
            &&& forall|i: int|
                0 <= i < es.len() && es[i].0 != Tree::Text("autoanswer"@) && es[i].0 != Tree::Text(
                    "audio"@,
                ) ==> #[trigger] entries(now)->0[i] == es[i]
            &&& answers_in(now).len() == routes.len()
            &&& forall|i: int|
                0 <= i < routes.len() ==> {
                    &&& (#[trigger] answers_in(now)[i]).0 == answers_in(doc)[i].0
                    &&& leads_back(
                        all_routed(p, routes, dir).0,
                        routes[i],
                        dir,
                        folder,
                        answers_in(now)[i].1,
                    )
                }
            &&& match audio_text(doc, "record_dir"@) {
                Some(_) => audio_text(now, "record_dir"@) matches Some(d) && is_rooted(d)
                    && components(d) == components(folder).push("recordings"@),
                None => audio_text(now, "record_dir"@) is None,
            }
        }),
{
    let record_dir = audio_text(doc, "record_dir"@);
    let new = all_routed(p, routes, dir).1;
    let mid = bundled_doc(doc, p, routes, dir);
    let now = imported_doc(mid, folder, answers);
    let there = answer_paths(folder, answers);
    lemma_routed_len(p, routes, dir);
    law_changed_paths_are_read_back(doc, new, bundled_dir(record_dir));
    law_changed_paths_are_read_back(mid, there, imported_dir(folder, audio_text(mid, "record_dir"@)));
    assert forall|i: int| 0 <= i < routes.len() implies opt_view((#[trigger] answers[i]).path)
        == bundled_path(new[i], routes[i].path) by {
        assert(answers_in(mid)[i].1 == bundled_path(new[i], answers_in(doc)[i].1));
    }
    law_an_import_of_an_export_gives_back_the_setup(p, routes, dir, record_dir, folder, answers);
    assert forall|i: int| 0 <= i < routes.len() implies {
        &&& (#[trigger] answers_in(now)[i]).0 == answers_in(doc)[i].0
        &&& leads_back(all_routed(p, routes, dir).0, routes[i], dir, folder, answers_in(now)[i].1)
    } by {
        assert(answers_in(mid)[i].0 == answers_in(doc)[i].0);
        assert(answers_in(now)[i].1 == bundled_path(there[i], opt_view(answers[i].path)));
        assert(routes[i] == routes[i]);
    }
    document::law_a_config_travels_whole(
        doc,
        new,
        bundled_dir(record_dir),
        there,
        imported_dir(folder, audio_text(mid, "record_dir"@)),
    );
}

proof fn lemma_routed_len(p: PackText, routes: Seq<RouteText>, dir: Seq<char>)
    ensures
        all_routed(p, routes, dir).1.len() == routes.len(),
    decreases routes.len(),
{
    if routes.len() > 0 {
        lemma_routed_len(p, routes.drop_last(), dir);
    }
}

/// The files that a script plays are those of its steps, in order, each resolved under the script's
/// own directory.
pub proof fn law_a_script_plays_its_files(script: Seq<char>, job: Seq<Step>, step: Step)
    ensures
        ({
            let more = played(script, job.push(step));
            let base = match parent_of(script) {
                Some(d) => d,
                None => Seq::empty(),
            };
            match step.kind {
                StepKind::AudioPlay { file } => {
                    &&& more.len() == played(script, job).len() + 1
                    &&& more.drop_last() == played(script, job)
                    &&& more.last() == resolved_under(Some(base), file@)
                },
                _ => more == played(script, job),
            }
        }),
        played(script, Seq::empty()).len() == 0,
{
    assert(job.push(step).drop_last() =~= job);
    assert(job.push(step).last() == step);
    if step.kind is AudioPlay {
        assert(played(script, job.push(step)).drop_last() =~= played(script, job));
    }
}

/// A file that a script plays is warned of exactly where it is not there, by the script's name and
/// its own.
pub proof fn law_each_missing_file_is_warned_of(
    script: Seq<char>,
    refs: Seq<Seq<char>>,
    there: Seq<bool>,
    said: Seq<char>,
)
    requires
        there.len() == refs.len(),
    ensures
        missing(script, refs, there).contains(said) <==> exists|i: int|
            0 <= i < refs.len() && !there[i] && said == script + ": audio.play file missing: "@
                + #[trigger] refs[i],
{
    lemma_missing(script, refs, there, said);
}

proof fn lemma_missing(
    script: Seq<char>,
    refs: Seq<Seq<char>>,
    there: Seq<bool>,
    said: Seq<char>,
)
    requires
        there.len() >= refs.len(),
    ensures
        missing(script, refs, there).contains(said) <==> exists|i: int|
            0 <= i < refs.len() && !there[i] && said == script + ": audio.play file missing: "@
                + #[trigger] refs[i],
    decreases refs.len(),
{
    if refs.len() > 0 {
        let init = refs.drop_last();
        lemma_missing(script, init, there, said);
        let rest = missing(script, init, there);
        let now = missing(script, refs, there);
        let n = refs.len() - 1;
        assert(refs[n] == refs.last());
        if !there[n] {
            assert(now[rest.len() as int] == script + ": audio.play file missing: "@ + refs.last());
            if rest.contains(said) {
                let j = choose|j: int| 0 <= j < rest.len() && rest[j] == said;
                assert(now[j] == said);
            }
            if now.contains(said) {
                let j = choose|j: int| 0 <= j < now.len() && now[j] == said;
                if j < rest.len() {
                    assert(rest[j] == said);
                }
            }
        }
        if exists|i: int|
            0 <= i < init.len() && !there[i] && said == script + ": audio.play file missing: "@
                + #[trigger] init[i] {
            let i = choose|i: int|
                0 <= i < init.len() && !there[i] && said == script + ": audio.play file missing: "@
                    + #[trigger] init[i];
            assert(refs[i] == init[i]);
        }
        if exists|i: int|
            0 <= i < refs.len() && !there[i] && said == script + ": audio.play file missing: "@
                + #[trigger] refs[i] {
            let i = choose|i: int|
                0 <= i < refs.len() && !there[i] && said == script + ": audio.play file missing: "@
                    + #[trigger] refs[i];
            if i < n {
                assert(init[i] == refs[i]);
            }
        }
    }
}

/// The paths of the configuration are edited one by one: a path that is installed elsewhere gets
/// the new one, in quotation marks, behind its number, and a path that stays gets none.
pub proof fn law_installed_paths_are_edited(folder: Seq<char>, answers: Seq<Answer>, a: Answer)
    ensures
        ({
            let was = answer_edits(folder, answers);
            let now = answer_edits(folder, answers.push(a));
            let moved = match a.path {
                Some(p) => resolved_under(Some(folder), p@) != p@,
                None => false,
            };
            &&& !moved ==> now == was
            &&& moved ==> {
                &&& now.len() == was.len() + 1
                &&& now.drop_last() == was
                &&& now.last().key == a.number@
                &&& now.last().value == rewrite::quoted(resolved_under(Some(folder), a.path->0@))
            }
        }),
        ({
            let was = answer_warnings(folder, answers);
            let now = answer_warnings(folder, answers.push(a));
            &&& a.path is None || a.there ==> now == was
            &&& a.path is Some && !a.there ==> now == was.push(
                "config autoanswer "@ + a.number@ + ": job not found at "@ + resolved_under(
                    Some(folder),
                    a.path->0@,
                ),
            )
        }),
        ({
            let was = answer_paths(folder, answers);
            let now = answer_paths(folder, answers.push(a));
            &&& now.len() == was.len() + 1
            &&& now.drop_last() == was
            &&& now.last() == match a.path {
                Some(p) => if resolved_under(Some(folder), p@) != p@ {
                    Some(resolved_under(Some(folder), p@))
                } else {
                    None
                },
                None => None,
            }
        }),
{
    let more = answers.push(a);
    assert(more.drop_last() =~= answers);
    assert(more.last() == a);
    if a.path is Some && installed(folder, a.path->0@) is Some {
        assert(answer_edits(folder, more).drop_last() =~= answer_edits(folder, answers));
    }
    assert(answer_paths(folder, more).drop_last() =~= answer_paths(folder, answers));
}

/// Where recordings go is edited too, behind the routes, where that changes.
pub proof fn law_the_recording_folder_is_edited_last(
    folder: Seq<char>,
    answers: Seq<Answer>,
    d: Seq<char>,
)
    ensures
        import_edits(folder, answers, None) == answer_edits(folder, answers),
        resolved_under(Some(folder), d) == d ==> import_edits(folder, answers, Some(d))
            == answer_edits(folder, answers),
        resolved_under(Some(folder), d) != d ==> {
            let now = import_edits(folder, answers, Some(d));
            &&& now.drop_last() == answer_edits(folder, answers)
            &&& now.last().key == "record_dir"@
            &&& now.last().value == rewrite::quoted(resolved_under(Some(folder), d))
        },
{
    let now = import_edits(folder, answers, Some(d));
    if resolved_under(Some(folder), d) != d {
        assert(now.drop_last() =~= answer_edits(folder, answers));
    }
}

/// A program that the configuration pins is warned of where it is not found, by the setting that
/// pins it; a device that it names always is, by the setting that names it.
pub proof fn law_pinned_programs_and_devices_are_warned_of(h: HostNotes, said: Seq<char>)
    ensures
        host_warnings(h).contains(said) <==> {
            ||| h.capture_tool is Some && !h.capture_found && said == "audio."@ + "capture_cmd"@
                + " tool not found on this machine: "@ + h.capture_tool->0@
                + " — install it or edit the config"@
            ||| h.playback_tool is Some && !h.playback_found && said == "audio."@ + "playback_cmd"@
                + " tool not found on this machine: "@ + h.playback_tool->0@
                + " — install it or edit the config"@
            ||| h.capture_device is Some && said == "audio."@ + "capture_device"@ + " is \""@
                + h.capture_device->0@ + "\" — verify that device exists on this machine"@
            ||| h.playback_device is Some && said == "audio."@ + "playback_device"@ + " is \""@
                + h.playback_device->0@ + "\" — verify that device exists on this machine"@
        },
{
    let a = tool_warning("capture_cmd"@, h.capture_tool, h.capture_found);
    let b = tool_warning("playback_cmd"@, h.playback_tool, h.playback_found);
    let c = device_warning("capture_device"@, h.capture_device);
    let d = device_warning("playback_device"@, h.playback_device);
    let all = host_warnings(h);
    assert(all == a + b + c + d);
    let x = a.len() as int;
    let y = b.len() as int;
    let z = c.len() as int;
    if x > 0 {
        assert(all[0] == a[0]);
    }
    if y > 0 {
        assert(all[x] == b[0]);
    }
    if z > 0 {
        assert(all[x + y] == c[0]);
    }
    if d.len() > 0 {
        assert(all[x + y + z] == d[0]);
    }
}

/// Settings of the exporting machine that may not fit are warned of: a pinned control socket, and a
/// bind address that is not the default.
pub proof fn law_settings_of_the_other_machine_are_warned_of(pins_socket: bool, ws_bind: Seq<char>)
    ensures
        start_warnings(pins_socket, ws_bind).len() == (if pins_socket {
            1int
        } else {
            0
        }) + (if ws_bind != DEFAULT_WS_BIND@ {
            1int
        } else {
            0
        }),
        ws_bind != DEFAULT_WS_BIND@ ==> start_warnings(pins_socket, ws_bind).last()
            == "config ws_bind is \""@ + ws_bind + "\" — verify it's bindable on this machine"@,
{
}

/// Only a plain yes is one: a `y` or the word, in small letters or capitals, with white space round
/// it.
pub proof fn law_only_a_yes_is_a_yes(answer: Seq<char>)
    ensures
        says_yes(answer) <==> small(trimmed(answer)) == "y"@ || small(trimmed(answer)) == "yes"@,
        says_yes("y"@),
        !says_yes(""@),
        !says_yes("n"@),
{
    reveal_strlit("y");
    reveal_strlit("yes");
    reveal_strlit("");
    reveal_strlit("n");
    assert(!text::is_space('y') && !text::is_space('n'));
    assert(text::trimmed_start("y"@) == "y"@ && text::trimmed_end("y"@) == "y"@);
    assert(text::trimmed_start("n"@) == "n"@ && text::trimmed_end("n"@) == "n"@);
    assert(small("y"@) =~= "y"@);
    assert(small("n"@)[0] == 'n');
    assert(small(trimmed(""@)).len() == 0);
}

/// A copy of a replaced configuration stands beside it, under its name without the extension, with
/// the time and, where that is taken, a number.
pub proof fn law_a_backup_stands_beside_its_file(
    dest: Seq<char>,
    stem: Seq<char>,
    stamp: Seq<char>,
    n: nat,
)
    requires
        base_name(dest) == Some(stem + seq!['.'] + "yaml"@),
        stem.len() > 0,
    ensures
        backup_name(dest, stamp, 0) == path_of(
            is_rooted(dest),
            components(dest).drop_last().push(stem + "."@ + ("yaml.bak."@ + stamp)),
        ),
        n > 0 ==> backup_name(dest, stamp, n) == path_of(
            is_rooted(dest),
            components(dest).drop_last().push(
                stem + "."@ + ("yaml.bak."@ + stamp + "-"@ + decimal(n)),
            ),
        ),
{
    reveal_strlit("yaml");
    names::law_an_extension_follows_the_last_dot(dest, stem, "yaml"@);
    let name = stem + seq!['.'] + "yaml"@;
    assert(name.take(name.len() - 5) =~= stem);
}

} // verus!
