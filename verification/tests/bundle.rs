use std::collections::HashMap;

use dialf::bundle::document::{
    answers_of, audio_command_of, audio_text_of, change_document, list_path_changes, read_document,
    record_dir_of, Change,
};
use dialf::bundle::install::{
    audio_refs, backup_path, confirm_override, free_backup, import_report, import_to, install_path,
    is_yes, no_config, override_prompt, replace_extension, tool_there, Answer, Disk, HostNotes,
    ImportPlan, RawDisk, Script,
};
use dialf::bundle::names::{
    any_hidden, extension, is_yaml, is_zip, is_zip_junk, name_below, parent_of_zip_name,
    relative_zip_path, split_entry, zip_name,
};
use dialf::bundle::pack::{
    default_zip_name, excluded_dirs, export, export_report, pick_config, walk, ExportPlan, Found,
    Kind, Listed, Pack, Place, Route, Src, Walk,
};
use dialf::bundle::rewrite::{
    apply_line_edits, line_value_span, pick_rendering, render_config, rewrite_config, yaml_flow,
    yaml_quote, Edit,
};
use dialf::bundle::tree::{same_tree, write_tree, Node};
use dialf::bundle::unpack::{check_conflicts, leads_down, plan_extraction, Target, ZipEntry};
use dialf::bundle::walk::{FolderWalk, Item};
use dialf::config::DEFAULT_WS_BIND;
use dialf::daemon::resolve_job_paths;
use dialf::jobs::schema::{Step, StepKind};
use dialf::search::Search;

fn s(t: &str) -> String {
    t.to_string()
}

fn play(file: &str) -> Step {
    Step { kind: StepKind::AudioPlay { file: s(file) }, description: None, id: None }
}

fn wait(ms: u64) -> Step {
    Step { kind: StepKind::Wait { ms }, description: None, id: None }
}

fn file_of(step: &Step) -> &str {
    match &step.kind {
        StepKind::AudioPlay { file } => file,
        other => panic!("unexpected step {other:?}"),
    }
}

fn plain(path: &str) -> Found {
    Found { path: s(path), job: None, targets: Vec::new() }
}

fn script(path: &str, job: Vec<Step>, targets: &[Option<&str>]) -> Found {
    Found { path: s(path), job: Some(job), targets: targets.iter().map(|t| t.map(s)).collect() }
}

/// The files of a folder with a script, a sample and recordings, without the latter.
fn project() -> Vec<Found> {
    vec![
        script(
            "/p/myEval/job.yaml",
            vec![play("samples/prompt.wav"), wait(100)],
            &[Some("/p/myEval/samples/prompt.wav"), None],
        ),
        plain("/p/myEval/samples/prompt.wav"),
    ]
}

fn excluded() -> Vec<String> {
    excluded_dirs(None, Some(s("/p/myEval/recordings")))
}

fn route(number: &str, path: Option<&str>, target: Option<&str>) -> Route {
    Route {
        number: s(number),
        path: path.map(s),
        target: target.map(s),
        job: None,
        targets: Vec::new(),
    }
}

fn names(plan: &ExportPlan) -> Vec<String> {
    plan.pack.entries.sorted_keys()
}

fn edit(key: &str, value: &str) -> Edit {
    Edit { key: s(key), value: s(value) }
}

// --- export --------------------------------------------------------------------

#[test]
fn export_excludes_recordings_and_rewrites_config() {
    let left_out = excluded_dirs(Some(s("/p/myEval/recordings")), Some(s("/p/myEval/recordings")));
    assert_eq!(left_out, vec![s("/p/myEval/recordings")]);
    assert_eq!(
        walk("/p/myEval/recordings", Kind::Dir, Some("/p/myEval/recordings"), &left_out, ""),
        Walk::Skip
    );
    let plan = export(
        "/p/myEval",
        &left_out,
        project(),
        vec![route("+15551234", Some("/p/myEval/job.yaml"), Some("/p/myEval/job.yaml"))],
        Some("/p/myEval/recordings"),
    );
    assert_eq!(names(&plan), vec!["config.yaml", "job.yaml", "samples/prompt.wav"]);
    // The bundled config points at bundle-relative paths.
    assert_eq!(plan.routes, vec![Some(s("job.yaml"))]);
    assert!(plan.new_record_dir);
    let text = rewrite_config(
        "shared_key: k\nautoanswer:\n  \"+15551234\": /p/myEval/job.yaml\naudio:\n  record_dir: /p/myEval/recordings\n",
        &plan.edits,
        &list_path_changes(&plan.routes, Some("recordings")),
    )
    .unwrap();
    assert_eq!(
        text,
        "shared_key: k\nautoanswer:\n  \"+15551234\": \"job.yaml\"\naudio:\n  record_dir: \"recordings\"\n"
    );
}

#[test]
fn export_pulls_out_of_tree_job_and_samples() {
    // An autoanswer job outside the project folder, referencing its own sample by `..`.
    let mut r = route(
        "+15551234",
        Some("/p/elsewhere/jobs/inbound.yaml"),
        Some("/p/elsewhere/jobs/inbound.yaml"),
    );
    r.job = Some(vec![play("../voice/hello.wav")]);
    r.targets = vec![Some(s("/p/elsewhere/voice/hello.wav"))];
    let plan = export("/p/myEval", &excluded(), project(), vec![r], None);
    let n = names(&plan);
    assert!(n.contains(&s("scripts/inbound.yaml")));
    assert!(n.contains(&s("samples/hello.wav")));
    assert_eq!(plan.routes, vec![Some(s("scripts/inbound.yaml"))]);
    assert_eq!(plan.edits, vec![edit("+15551234", "\"scripts/inbound.yaml\"")]);
    // The pulled job's ref was rewritten to reach the pulled sample from scripts/.
    match plan.pack.entries.get("scripts/inbound.yaml") {
        Some(Src::Job(job)) => assert_eq!(file_of(&job[0]), "../samples/hello.wav"),
        other => panic!("{other:?}"),
    }
    assert_eq!(
        plan.pack.entries.get("samples/hello.wav"),
        Some(&Src::File(s("/p/elsewhere/voice/hello.wav")))
    );
}

#[test]
fn export_intree_file_wins_name_over_pulled_external() {
    // a.yaml (sorts before samples/) plays an out-of-tree file whose basename collides
    // with the in-tree samples/prompt.wav — the external must get a distinct zip name,
    // not clobber (or be clobbered by) the in-tree file.
    let mut files = vec![script(
        "/p/myEval/a.yaml",
        vec![play("/p/shared/prompt.wav")],
        &[Some("/p/shared/prompt.wav")],
    )];
    files.extend(project());
    let plan = export("/p/myEval", &excluded(), files, Vec::new(), None);
    assert_eq!(
        plan.pack.entries.get("samples/prompt.wav"),
        Some(&Src::File(s("/p/myEval/samples/prompt.wav")))
    );
    let file = match plan.pack.entries.get("a.yaml") {
        Some(Src::Job(job)) => s(file_of(&job[0])),
        other => panic!("{other:?}"),
    };
    assert_ne!(file, "samples/prompt.wav", "external clobbered the in-tree name");
    assert_eq!(file, "samples/1-prompt.wav");
    assert_eq!(plan.pack.entries.get(&file), Some(&Src::File(s("/p/shared/prompt.wav"))));
}

#[test]
fn export_warns_on_refs_into_excluded_dirs() {
    // A script replaying a recording: the ref resolves in-tree, but recordings/ is
    // excluded from the bundle — that must produce a loud warning, not silence.
    let mut files = project();
    files.push(script(
        "/p/myEval/replay.yaml",
        vec![play("recordings/dialf-job-1-rx.wav")],
        &[Some("/p/myEval/recordings/dialf-job-1-rx.wav")],
    ));
    let plan = export("/p/myEval", &excluded(), files, Vec::new(), None);
    assert_eq!(plan.pack.warnings.len(), 1);
    assert!(plan.pack.warnings[0].contains("NOT in the bundle"), "{:?}", plan.pack.warnings);
}

#[test]
fn export_follows_symlinked_sample_dirs() {
    // samples/ is a symlink to a shared library elsewhere — its files must ship.
    assert_eq!(
        walk("/p/proj/samples", Kind::Dir, Some("/p/library"), &Vec::new(), "/p/out.zip"),
        Walk::Enter
    );
    assert_eq!(
        walk("/p/proj/samples/prompt.wav", Kind::File, None, &Vec::new(), "/p/out.zip"),
        Walk::Keep
    );
    let files = vec![
        script(
            "/p/proj/job.yaml",
            vec![play("samples/prompt.wav")],
            &[Some("/p/library/prompt.wav")],
        ),
        plain("/p/proj/samples/prompt.wav"),
    ];
    let plan = export("/p/proj", &Vec::new(), files, Vec::new(), None);
    assert!(names(&plan).contains(&s("samples/prompt.wav")), "{:?}", names(&plan));
}

#[test]
fn export_prefers_folder_config_and_skips_stale_zip_inside_dir() {
    // The folder carries its own config (answer-only entry included) — it wins over the
    // default config path, and the generated bundle config replaces the folder's copy.
    assert_eq!(
        pick_config(None, s("/p/myEval/config.yaml"), true, s("/home/.config/dialf/config.yaml")),
        "/p/myEval/config.yaml"
    );
    // A stale zip from a previous export sits inside the folder being exported.
    let zip = "/p/myEval/myEval.dialf.zip";
    assert_eq!(walk(zip, Kind::File, None, &Vec::new(), zip), Walk::Skip);
    let plan = export(
        "/p/myEval",
        &excluded(),
        project(),
        vec![
            route("+15551234", Some("job.yaml"), Some("/p/myEval/job.yaml")),
            route("+15559876", None, None),
        ],
        None,
    );
    assert_eq!(names(&plan).iter().filter(|n| *n == "config.yaml").count(), 1);
    // The path is already bundle-relative, and answer-only entries survive untouched.
    assert_eq!(plan.routes, vec![None, None]);
    let own = "shared_key: local\nautoanswer:\n  \"+15551234\": job.yaml\n  \"+15559876\":\n";
    let changes = list_path_changes(&plan.routes, None);
    assert!(changes.is_empty());
    assert_eq!(rewrite_config(own, &plan.edits, &changes).as_deref(), Ok(own));
    // The folder's own config is left out: the bundle has the one that is written for it.
    let mut files = project();
    files.push(plain("/p/myEval/config.yaml"));
    files.push(plain("/p/myEval/sub/config.yaml"));
    let plan = export("/p/myEval", &excluded(), files, Vec::new(), None);
    assert_eq!(plan.pack.entries.get("config.yaml"), Some(&Src::Config));
    assert!(names(&plan).contains(&s("sub/config.yaml")));
}

#[test]
fn export_preserves_intree_relative_refs_and_comments() {
    // A nested script escaping its dir with `..` but staying inside the folder: the same
    // relative relationship holds in the zip, so the file ships byte-identical.
    let mut files = project();
    files.push(script(
        "/p/myEval/scripts/greet.yaml",
        vec![play("../samples/prompt.wav")],
        &[Some("/p/myEval/samples/prompt.wav")],
    ));
    let plan = export("/p/myEval", &excluded(), files, Vec::new(), None);
    assert_eq!(
        plan.pack.entries.get("scripts/greet.yaml"),
        Some(&Src::File(s("/p/myEval/scripts/greet.yaml")))
    );
}

#[test]
fn export_rewrites_absolute_intree_ref_to_relative() {
    // A script pinned to an absolute path inside the folder would break on another
    // machine — it gets rewritten relative (comments dropped for that file).
    let mut files = project();
    files.push(script(
        "/p/myEval/pinned.yaml",
        vec![play("/p/myEval/samples/prompt.wav")],
        &[Some("/p/myEval/samples/prompt.wav")],
    ));
    let plan = export("/p/myEval", &excluded(), files, Vec::new(), None);
    match plan.pack.entries.get("pinned.yaml") {
        Some(Src::Job(job)) => assert_eq!(file_of(&job[0]), "samples/prompt.wav"),
        other => panic!("{other:?}"),
    }
    assert!(
        plan.pack.warnings.iter().any(|w| w.contains("rewritten")),
        "{:?}",
        plan.pack.warnings
    );
}

#[test]
fn a_file_that_is_not_there_is_kept_as_written() {
    let mut pack = Pack::new();
    let at = Place {
        disk: s("/p/a.yaml"),
        zip_dir: s(""),
        dir: s("/p"),
        excluded: Vec::new(),
    };
    let (step, rewritten) = pack.pack_step(play("gone.wav"), None, &at);
    assert_eq!((file_of(&step), rewritten), ("gone.wav", false));
    assert_eq!(pack.warnings, vec![s("/p/a.yaml: audio.play file not found: gone.wav (kept as-is)")]);
    let (step, rewritten) = pack.move_step(play("gone.wav"), None, "scripts", "/p");
    assert_eq!((file_of(&step), rewritten), ("gone.wav", false));
    let (step, rewritten) = pack.move_step(play("x/a.wav"), Some("/p/x/a.wav"), "scripts", "/p");
    assert_eq!((file_of(&step), rewritten), ("../x/a.wav", true));
    let plan = export("/p", &Vec::new(), Vec::new(), vec![route("+1", Some("no.yaml"), None)], None);
    assert_eq!(
        plan.pack.warnings,
        vec![s("config autoanswer +1: job not found: no.yaml (kept as-is)")]
    );
}

#[test]
fn pulling_overwrites_nothing_and_repeats_itself() {
    let mut pack = Pack::new();
    assert_eq!(pack.pull_external("/a/x.wav", "samples"), "samples/x.wav");
    assert_eq!(pack.pull_external("/b/x.wav", "samples"), "samples/1-x.wav");
    assert_eq!(pack.pull_external("/c/x.wav", "samples"), "samples/2-x.wav");
    assert_eq!(pack.pull_external("/b/x.wav", "samples"), "samples/1-x.wav");
    assert_eq!(pack.entries.get("samples/x.wav"), Some(&Src::File(s("/a/x.wav"))));
    assert_eq!(pack.pull_external("/", "samples"), "samples/file");
}

#[test]
fn the_walk_skips_hidden_and_excluded_entries() {
    let ex = vec![s("/p/rec")];
    assert_eq!(walk("/p/.git", Kind::Dir, Some("/p/.git"), &ex, ""), Walk::Skip);
    assert_eq!(walk("/p/rec", Kind::Dir, Some("/p/rec"), &ex, ""), Walk::Skip);
    assert_eq!(walk("/p/sub", Kind::Dir, None, &ex, ""), Walk::Enter);
    assert_eq!(walk("/p/fifo", Kind::Other, None, &ex, ""), Walk::Skip);
    assert_eq!(default_zip_name("/p/myEval"), "myEval.dialf.zip");
    assert_eq!(default_zip_name("/"), "dialf.dialf.zip");
    assert_eq!(pick_config(Some(s("g")), s("l"), true, s("u")), "g");
    assert_eq!(pick_config(None, s("l"), false, s("u")), "u");
}

#[test]
fn the_listing_is_sorted() {
    let l = |n: &str, size| Listed { name: s(n), size };
    let r = export_report("o.zip", vec![l("b", 1), l("a", 9), l("b", 0)], vec![s("w")]);
    assert_eq!(r.entries, vec![l("a", 9), l("b", 0), l("b", 1)]);
    assert_eq!((r.zip_path.as_str(), r.warnings.len()), ("o.zip", 1));
}

// --- the config's text ---------------------------------------------------------

#[test]
fn config_round_trip_keeps_only_the_users_fields() {
    // The bundled + installed configs must stay recognizable as the user's own file:
    // only the fields they wrote (in their order), with just the path values rewritten —
    // no injected defaults like ws_bind / instance_name / autoanswer: {}.
    let own = "shared_key: change-me\naudio:\n  # my sound card\n  capture_device: \"BlackHole 2ch\"\n  record_dir: /p/myEval/recordings\n  mix_recording: true\n";
    let plan = export("/p/myEval", &excluded(), project(), Vec::new(), Some("/p/myEval/recordings"));
    let text =
        rewrite_config(own, &plan.edits, &list_path_changes(&plan.routes, Some("recordings")))
            .unwrap();
    for absent in ["ws_bind", "instance_name", "autoanswer", "sample_rate", "playback_cmd"] {
        assert!(!text.contains(absent), "injected `{absent}` into:\n{text}");
    }
    assert!(text.contains(r#"record_dir: "recordings""#), "{text}");
    assert!(text.starts_with("shared_key:"), "field order changed:\n{text}");
    // Untouched lines keep their exact original formatting — quotes and comments included.
    assert!(text.contains(r#"capture_device: "BlackHole 2ch""#), "{text}");
    assert!(text.contains("# my sound card"), "comments dropped:\n{text}");

    // Same fidelity after import: only the bundle's fields, paths made absolute.
    let plan = import_to(
        "/m2",
        &one_script("/m2/job.yaml"),
        &Vec::new(),
        Some("recordings"),
        None,
        false,
        DEFAULT_WS_BIND,
    )
    .unwrap();
    let changes = list_path_changes(&plan.answers, plan.record_dir.as_deref());
    let installed = rewrite_config(&text, &plan.edits, &changes).unwrap();
    for absent in ["ws_bind", "instance_name", "autoanswer", "sample_rate"] {
        assert!(!installed.contains(absent), "injected `{absent}` into:\n{installed}");
    }
    assert!(installed.contains("record_dir: \"/m2/recordings\""), "{installed}");
}

#[test]
fn a_config_that_cannot_be_edited_is_written_anew() {
    let render = |original: &str, key: &str, value: &str, expected: &str| {
        render_config(original, &vec![edit(key, value)], &read_document(expected).unwrap()).unwrap()
    };
    // The edited text means something else than it should.
    assert_eq!(render("a: 1\n", "a", "2", "a: 3"), "a: 3\n");
    // It means the same in other words.
    assert_eq!(render("a: 1 # one\n", "a", "\"x\"", "a: x"), "a: \"x\"\n");
    // The key stands on two lines, or on none.
    assert_eq!(render("a: 1\nb:\n  a: 1\n", "a", "2", "c: 1"), "c: 1\n");
    assert_eq!(render("b: 1\n", "a", "2", "c: 1"), "c: 1\n");
    // The edited text does not parse.
    assert_eq!(render("a: 1\n", "a", "[", "a: 3"), "a: 3\n");
    let doc = read_document("a: 1").unwrap();
    let same = || read_document("{a: 1}").ok();
    assert_eq!(pick_rendering(Some((s("e"), same())), &doc), Ok(s("e")));
    assert_eq!(pick_rendering(Some((s("e"), read_document("a: 2").ok())), &doc), Ok(s("a: 1\n")));
    assert_eq!(pick_rendering(Some((s("e"), None)), &doc), Ok(s("a: 1\n")));
    assert_eq!(pick_rendering(None, &doc), Ok(s("a: 1\n")));
    // The document that is wanted is the config's own with the changes made to it.
    let own = "autoanswer:\n  \"+1\": a.yaml\n  \"+2\": a.yaml\n# \"+1\": x\n\"+1\": y\n";
    let changes = list_path_changes(&vec![Some(s("b.yaml")), None], Some("recordings"));
    let text = rewrite_config(own, &vec![edit("+1", "\"b.yaml\"")], &changes).unwrap();
    assert_eq!(text, "autoanswer:\n  '+1': b.yaml\n  '+2': a.yaml\n'+1': y\n");
    assert!(rewrite_config("a: [", &Vec::new(), &Vec::new()).is_err());
}

// --- the config's document -------------------------------------------------------

const CONFIG: &str = "shared_key: k\nautoanswer:\n  \"+15551234\": job.yaml\n  \"+15559876\":\n  15550000: n.yaml\naudio:\n  record_dir: rec\n  capture_device: BlackHole 2ch\n  capture_cmd: [sox, -q, 3]\n  playback_cmd: []\n";

fn doc(text: &str) -> Node {
    read_document(text).unwrap()
}

#[test]
fn a_config_is_read_as_a_document() {
    let config = doc(CONFIG);
    assert_eq!(
        answers_of(&config),
        vec![
            (s("+15551234"), Some(s("job.yaml"))),
            (s("+15559876"), None),
            (s("?"), Some(s("n.yaml"))),
        ]
    );
    assert_eq!(record_dir_of(&config).as_deref(), Some("rec"));
    assert_eq!(audio_text_of(&config, "capture_device").as_deref(), Some("BlackHole 2ch"));
    assert_eq!(audio_text_of(&config, "capture_cmd"), None);
    assert_eq!(audio_command_of(&config, "capture_cmd"), Some(vec![s("sox"), s("-q")]));
    assert_eq!(audio_command_of(&config, "playback_cmd"), None);
    assert_eq!(audio_command_of(&config, "record_dir"), None);
    for none in ["a: 1\n", "autoanswer: 3\naudio: 4\n", ""] {
        assert!(answers_of(&doc(none)).is_empty(), "{none}");
        assert_eq!(record_dir_of(&doc(none)), None, "{none}");
    }
    assert!(read_document("a: [").is_err());
    // A tag changes nothing of what is read.
    let tagged = doc("!x\nautoanswer: !y\n  \"+1\": !z a.yaml\naudio: {record_dir: !w rec}\n");
    assert_eq!(answers_of(&tagged), vec![(s("+1"), Some(s("a.yaml")))]);
    assert_eq!(record_dir_of(&tagged).as_deref(), Some("rec"));
}

#[test]
fn a_document_holds_every_kind_of_value() {
    let n = doc("[null, true, -1.50, text, [], {k: v}, !t x]");
    let items = match &n {
        Node::List(v) => v,
        other => panic!("no list: {other:?}"),
    };
    assert!(matches!(&items[0], Node::Null));
    assert!(matches!(&items[1], Node::Bool(true)));
    assert!(matches!(&items[2], Node::Number(t) if t == "-1.5"));
    assert!(matches!(&items[3], Node::Text(t) if t == "text"));
    assert!(matches!(&items[4], Node::List(v) if v.is_empty()));
    assert!(matches!(&items[5], Node::Table(v) if v.len() == 1));
    assert!(matches!(&items[6], Node::Tagged(t, b) if t == "!t" && matches!(&**b, Node::Text(_))));
    let text = write_tree(&n).unwrap();
    assert_eq!(text, "- null\n- true\n- -1.5\n- text\n- []\n- k: v\n- !t x\n");
    assert!(same_tree(&n, &doc(&text)));
    for other in ["[]", "[null, true, -1.5, text, [], {k: w}, !t x]", "[null, true, -1.5, text, [], {k: v}, !u x]"] {
        assert!(!same_tree(&n, &doc(other)), "{other}");
    }
    // The order of fields counts.
    assert!(!same_tree(&doc("{a: 1, b: 2}"), &doc("{b: 2, a: 1}")));
    // What cannot be written is told.
    let told = Err(s("not a YAML number, or an empty YAML tag"));
    assert_eq!(write_tree(&Node::Tagged(s(""), Box::new(Node::Null))), told);
    assert_eq!(write_tree(&Node::List(vec![Node::Number(s("no number"))])), told);
    assert_eq!(write_tree(&Node::Number(s("0x10"))), Ok(s("16\n")));
}

#[test]
fn changes_replace_what_a_config_has() {
    let mut changes = list_path_changes(&vec![Some(s("/m2/job.yaml")), None], Some("/m2/rec"));
    changes.push(Change::AudioCommand { key: s("capture_cmd"), items: vec![s("arecord"), s("1")] });
    // What is not there is not changed.
    changes.push(Change::AudioText { key: s("playback_device"), value: s("x") });
    changes.push(Change::Answer { index: 7, path: s("x") });
    let now = change_document(doc(CONFIG), &changes);
    assert_eq!(
        write_tree(&now).unwrap(),
        "shared_key: k\nautoanswer:\n  '+15551234': /m2/job.yaml\n  '+15559876': null\n  15550000: n.yaml\naudio:\n  record_dir: /m2/rec\n  capture_device: BlackHole 2ch\n  capture_cmd:\n  - arecord\n  - '1'\n  playback_cmd: []\n"
    );
    assert_eq!(answers_of(&now)[0], (s("+15551234"), Some(s("/m2/job.yaml"))));
    assert_eq!(record_dir_of(&now).as_deref(), Some("/m2/rec"));
    // Changes add up.
    let (a, b) = changes.split_at(2);
    let half = change_document(doc(CONFIG), &a.to_vec());
    assert!(same_tree(&change_document(half, &b.to_vec()), &now));
    // Nothing to change, nothing changed.
    for whole in ["3", "audio: 4", "autoanswer: [a]", ""] {
        assert!(same_tree(&change_document(doc(whole), &changes), &doc(whole)), "{whole}");
    }
    // A tag stays where it is.
    let tagged = "!x {audio: !y {record_dir: !z a, k: 1}}";
    let moved = change_document(doc(tagged), &list_path_changes(&Vec::new(), Some("b")));
    assert!(same_tree(&moved, &doc("!x {audio: !y {record_dir: b, k: 1}}")));
}

#[test]
fn a_config_keeps_all_its_other_fields() {
    // Whole numbers, nested lists and line breaks survive a bundle and an import.
    let own = "zeta: [1, {a: 2.5}]\nautoanswer:\n  \"+1\": /p/a.yaml\n  \"+2\":\naudio:\n  x: \"a\\r\\nb\"\n  record_dir: /p/rec\nalpha: true\n";
    let bundled = change_document(doc(own), &list_path_changes(&vec![Some(s("a.yaml")), None], Some("recordings")));
    let now = change_document(
        bundled,
        &list_path_changes(&vec![Some(s("/m2/a.yaml")), None], Some("/m2/recordings")),
    );
    let want = own.replace("/p/a.yaml", "/m2/a.yaml").replace("/p/rec", "/m2/recordings");
    assert!(same_tree(&now, &doc(&want)));
}

// --- walking a folder ---------------------------------------------------------------

fn item(path: &str, kind: Kind, resolved: &str) -> Item {
    Item { path: s(path), kind, resolved: Some(s(resolved)) }
}

#[test]
fn a_folder_is_walked_in_order_and_once() {
    let mut w = FolderWalk::new(Some(s("/d")), vec![s("/d/recordings")], s("/d/out.zip"));
    w.list(vec![
        item("/d/z.yaml", Kind::File, "/d/z.yaml"),
        item("/d/sub", Kind::Dir, "/d/sub"),
        item("/d/recordings", Kind::Dir, "/d/recordings"),
        item("/d/loop", Kind::Dir, "/d"),
        item("/d/.git", Kind::Dir, "/d/.git"),
        item("/d/a.yaml", Kind::File, "/d/a.yaml"),
        item("/d/out.zip", Kind::File, "/d/out.zip"),
        item("/d/pipe", Kind::Other, "/d/pipe"),
    ]);
    assert_eq!(w.next().as_deref(), Some("/d/sub"));
    w.list(vec![item("/d/sub/again", Kind::Dir, "/d/sub"), item("/d/sub/b.wav", Kind::File, "/d/sub/b.wav")]);
    assert_eq!(w.next(), None);
    assert_eq!(w.files, ["/d/a.yaml", "/d/sub/b.wav", "/d/z.yaml"]);
}

// --- backups ---------------------------------------------------------------------

struct Shelf(HashMap<String, &'static str>);

impl RawDisk for &Shelf {
    fn is_there(&mut self, path: &str) -> bool {
        self.0.contains_key(path)
    }
}

#[test]
fn every_replaced_config_gets_a_backup_of_its_own() {
    let dest = "/c/config.yaml";
    let mut shelf = Shelf(HashMap::new());
    shelf.0.insert(s(dest), "B0");
    let mut made = Vec::new();
    for written in ["B1", "B2", "B3"] {
        let bak = free_backup(dest, "20260102-030405", &mut Disk::new(&shelf)).unwrap();
        let was = shelf.0[dest];
        shelf.0.insert(bak.clone(), was);
        shelf.0.insert(s(dest), written);
        made.push(bak);
    }
    assert_eq!(
        made,
        vec![
            s("/c/config.yaml.bak.20260102-030405"),
            s("/c/config.yaml.bak.20260102-030405-1"),
            s("/c/config.yaml.bak.20260102-030405-2"),
        ]
    );
    let kept: Vec<&str> = made.iter().map(|b| shelf.0[b]).collect();
    assert_eq!(kept, vec!["B0", "B1", "B2"]);
}

#[test]
fn edits_replace_one_value_and_no_other_line() {
    let text = "# top\nk: old # gone\n  \"+1\": a.yaml\nl: k: x\n";
    let out = apply_line_edits(text, &vec![edit("k", "new"), edit("+1", "\"b\"")]).unwrap();
    assert_eq!(out, "# top\nk: new\n  \"+1\": \"b\"\nl: k: x\n");
    assert_eq!(apply_line_edits("a: 1", &Vec::new()), Some(s("a: 1\n")));
    assert_eq!(apply_line_edits("a: 1\r\nb: 2", &vec![edit("b", "3")]), Some(s("a: 1\nb: 3\n")));
    assert_eq!(line_value_span("  key : v", "key"), Some(8));
    assert_eq!(line_value_span("'key': v", "key"), Some(7));
    assert_eq!(line_value_span("key:", "key"), None);
    assert_eq!(line_value_span("key: # c", "key"), None);
    assert_eq!(line_value_span("keys: v", "key"), None);
}

#[test]
fn strings_are_quoted_for_yaml() {
    assert_eq!(yaml_quote("a\"b\\c"), "\"a\\\"b\\\\c\"");
    assert_eq!(yaml_flow(&vec![s("sox"), s("-q")]), "[\"sox\", \"-q\"]");
    assert_eq!(yaml_flow(&Vec::new()), "[]");
}

// --- import --------------------------------------------------------------------

fn one_script(path: &str) -> Vec<Script> {
    vec![Script { path: s(path), refs: Vec::new(), there: Vec::new() }]
}

fn answer(number: &str, path: Option<&str>, there: bool) -> Answer {
    Answer { number: s(number), path: path.map(s), there }
}

fn import(scripts: &Vec<Script>, answers: &Vec<Answer>) -> Result<ImportPlan, String> {
    import_to("/m2", scripts, answers, None, None, false, DEFAULT_WS_BIND)
}

#[test]
fn export_import_round_trip() {
    let plan = export(
        "/p/myEval",
        &excluded(),
        project(),
        vec![route("+15551234", Some("/p/myEval/job.yaml"), Some("/p/myEval/job.yaml"))],
        Some("/p/myEval/recordings"),
    );
    // "Move to the other machine": the entries lie in a fresh folder.
    let job = plan.routes[0].clone().unwrap();
    let refs = audio_refs("/m2/job.yaml", &vec![play("samples/prompt.wav"), wait(100)]);
    assert_eq!(refs, vec![s("/m2/samples/prompt.wav")]);
    assert!(plan.pack.entries.contains("samples/prompt.wav"));
    let scripts = vec![Script { path: s("/m2/job.yaml"), refs, there: vec![true] }];
    let plan = import_to(
        "/m2",
        &scripts,
        &vec![answer("+15551234", Some(&job), true)],
        Some("recordings"),
        None,
        false,
        DEFAULT_WS_BIND,
    )
    .unwrap();
    assert_eq!(plan.answers, vec![Some(s("/m2/job.yaml"))]);
    assert_eq!(plan.record_dir, Some(s("/m2/recordings")));
    // The whole way through the config's text.
    let own = "shared_key: k\nautoanswer:\n  \"+15551234\": /p/myEval/job.yaml\naudio:\n  record_dir: /p/myEval/recordings\n";
    let bundled = rewrite_config(
        own,
        &vec![edit("+15551234", "\"job.yaml\""), edit("record_dir", "\"recordings\"")],
        &list_path_changes(&vec![Some(job)], Some("recordings")),
    )
    .unwrap();
    let changes = list_path_changes(&plan.answers, plan.record_dir.as_deref());
    let installed = rewrite_config(&bundled, &plan.edits, &changes).unwrap();
    assert_eq!(answers_of(&doc(&installed)), vec![(s("+15551234"), Some(s("/m2/job.yaml")))]);
    assert_eq!(record_dir_of(&doc(&installed)).as_deref(), Some("/m2/recordings"));
    assert_eq!(
        installed,
        "shared_key: k\nautoanswer:\n  \"+15551234\": \"/m2/job.yaml\"\naudio:\n  record_dir: \"/m2/recordings\"\n"
    );
    let report = import_report(plan, "/dest/config.yaml", None, "/m2");
    assert_eq!(report.scripts.len(), 1);
    assert!(report.backup_path.is_none());
    assert!(report.warnings.is_empty(), "{:?}", report.warnings);
    assert_eq!((report.config_path.as_str(), report.folder.as_str()), ("/dest/config.yaml", "/m2"));
}

#[test]
fn import_refuses_invalid_bundles() {
    // No config.yaml.
    let err = no_config("/m2");
    assert!(err.contains("no config.yaml"), "{err}");
    // Config but no job script.
    let err = import(&Vec::new(), &Vec::new()).unwrap_err();
    assert!(err.contains("no job script"), "{err}");
}

#[test]
fn import_override_backs_up_existing_config() {
    let dest = "/home/.config/dialf/config.yaml";
    // Without --override and with nobody to ask, it refuses.
    let err = confirm_override(dest, None).unwrap_err();
    assert!(err.contains("--override"), "{err}");
    // A further import must NOT clobber the original backup — it gets its own name
    // (same-second imports are disambiguated with a counter suffix).
    let bak = backup_path(dest, "20260102-030405", 0);
    assert_eq!(bak, "/home/.config/dialf/config.yaml.bak.20260102-030405");
    assert_ne!(bak, backup_path(dest, "20260102-030405", 1));
}

#[test]
fn import_override_accumulates_backups() {
    // Every replaced config gets its own backup: nothing is pruned or overwritten.
    let dest = "/c/config.yaml";
    let mut shelf = Shelf(HashMap::new());
    for was in ["v0", "v1", "v2", "v3", "v4", "v5", "v6"] {
        shelf.0.insert(s(dest), was);
        assert!(import(&one_script("/m2/job.yaml"), &Vec::new()).is_ok());
        let bak = free_backup(dest, "20260102-030405", &mut Disk::new(&shelf)).unwrap();
        shelf.0.insert(bak, was);
        shelf.0.insert(s(dest), "bundle");
    }
    let baks: Vec<&String> = shelf.0.keys().filter(|n| n.starts_with("/c/config.yaml.bak")).collect();
    assert_eq!(baks.len(), 7, "{baks:?}");
    // Names of one second do not clash.
    let names: Vec<String> = (0..7).map(|i| backup_path(dest, "s", i)).collect();
    for (i, a) in names.iter().enumerate() {
        assert!(!names[i + 1..].contains(a), "{names:?}");
    }
}

#[test]
fn replacing_a_config_takes_a_yes() {
    for yes in ["y", "Y\n", " yes ", "YES"] {
        assert!(is_yes(yes), "{yes}");
        assert_eq!(confirm_override("d", Some(yes)), Ok(()));
    }
    for no in ["", "n", "yep", "ye s"] {
        assert!(!is_yes(no), "{no}");
        assert_eq!(
            confirm_override("d", Some(no)),
            Err(s("aborted — existing config left untouched"))
        );
    }
    assert!(override_prompt("/d").contains("/d already exists"));
    assert_eq!(replace_extension("/a/b.c.txt", "md"), "/a/b.c.md");
    assert_eq!(replace_extension("/a/b", "md"), "/a/b.md");
}

#[test]
fn import_warns_on_pinned_socket_and_ws_bind() {
    let plan = import_to(
        "/m2",
        &one_script("/m2/job.yaml"),
        &Vec::new(),
        None,
        None,
        true,
        "192.168.1.50:8765",
    )
    .unwrap();
    assert!(plan.warnings.iter().any(|w| w.contains("control_socket")), "{:?}", plan.warnings);
    assert!(plan.warnings.iter().any(|w| w.contains("ws_bind")), "{:?}", plan.warnings);
}

#[test]
fn import_accepts_nested_scripts_and_warns_on_missing_refs() {
    // Config points at an absolute job that doesn't exist on "this machine", plus a
    // pinned capture tool that isn't installed. The only script lives in a subfolder and
    // references a sample that's missing.
    let refs = audio_refs("/m2/scripts/inbound.yaml", &vec![play("../samples/missing.wav")]);
    let scripts = vec![Script { path: s("/m2/scripts/inbound.yaml"), refs, there: vec![false] }];
    let host = HostNotes {
        capture_tool: Some(s("/opt/nowhere/sox")),
        capture_found: tool_there("/opt/nowhere/sox", false, &mut Search::new()),
        playback_tool: None,
        playback_found: false,
        capture_device: None,
        playback_device: None,
    };
    let plan = import_to(
        "/m2",
        &scripts,
        &vec![answer("+15551234", Some("/gone/machine1/job.yaml"), false)],
        None,
        Some(host),
        false,
        DEFAULT_WS_BIND,
    )
    .unwrap();
    assert_eq!(plan.scripts.len(), 1);
    for w in ["missing.wav", "/gone/machine1/job.yaml", "/opt/nowhere/sox"] {
        assert!(plan.warnings.iter().any(|x| x.contains(w)), "{:?}", plan.warnings);
    }
    // The absolute (already machine-specific) autoanswer path is left as-is.
    assert_eq!(plan.answers, vec![None]);
    assert!(plan.edits.is_empty());
}

#[test]
fn imported_bundle_jobs_load_and_resolve() {
    // The practical end state: after export -> unzip -> import, the daemon must be able
    // to load the job via the installed config's path and find its samples.
    let plan = export(
        "/p/myEval",
        &excluded(),
        project(),
        vec![route("+15551234", Some("/p/myEval/job.yaml"), Some("/p/myEval/job.yaml"))],
        None,
    );
    let job = plan.routes[0].clone().unwrap();
    let installed =
        import(&one_script("/m2/job.yaml"), &vec![answer("+15551234", Some(&job), true)]).unwrap();
    let path = installed.answers[0].clone().unwrap();
    let steps = resolve_job_paths(&path, vec![play("samples/prompt.wav"), wait(100)]);
    let file = file_of(&steps[0]).strip_prefix("/m2/").unwrap();
    assert!(plan.pack.entries.contains(file), "sample not resolvable: {file}");
}

#[test]
fn devices_are_to_be_verified_where_nobody_is_asked() {
    let host = HostNotes {
        capture_tool: Some(s("sox")),
        capture_found: true,
        playback_tool: Some(s("play")),
        playback_found: false,
        capture_device: Some(s("A")),
        playback_device: Some(s("B")),
    };
    let plan = import_to(
        "/m2",
        &one_script("/m2/job.yaml"),
        &Vec::new(),
        None,
        Some(host),
        false,
        DEFAULT_WS_BIND,
    )
    .unwrap();
    assert_eq!(
        plan.warnings,
        vec![
            s("audio.playback_cmd tool not found on this machine: play — install it or edit the config"),
            s("audio.capture_device is \"A\" — verify that device exists on this machine"),
            s("audio.playback_device is \"B\" — verify that device exists on this machine"),
        ]
    );
    assert_eq!(install_path("/m2", "jobs/a.yaml"), Some(s("/m2/jobs/a.yaml")));
    assert_eq!(install_path("/m2", "/jobs/a.yaml"), None);
    // A tool that is on no search path is looked up by the search path, not by its name.
    let mut search = Search::new();
    assert!(tool_there("/x/sox", true, &mut search));
    assert!(!tool_there("/bin/sh", false, &mut search));
    assert!(!tool_there("no-such-tool-anywhere", true, &mut search));
    assert!(tool_there("sh", false, &mut search));
}

// --- unpacking -----------------------------------------------------------------

fn entry(name: &str) -> ZipEntry {
    ZipEntry { name: s(name), encrypted: false, is_dir: false }
}

fn rels(targets: &[Target]) -> Vec<&str> {
    targets.iter().map(|t| t.rel.as_str()).collect()
}

#[test]
fn zip_extracts_flat_stripping_config_parent() {
    // A zip of a folder (`zip -r myEval.zip myEval/` / Finder compress): the config's
    // parent prefix is stripped so the files land flat, junk skipped.
    let entries = vec![
        entry("myEval/config.yaml"),
        entry("myEval/job.yaml"),
        entry("myEval/samples/p.wav"),
        entry("__MACOSX/myEval/._config.yaml"),
        entry("myEval/.DS_Store"),
    ];
    let plan = plan_extraction(&entries, "/p/myEval.dialf.zip").unwrap();
    assert_eq!(plan.len(), 3);
    assert_eq!(rels(&plan), vec!["config.yaml", "job.yaml", "samples/p.wav"]);
    assert_eq!(plan[2].index, 2);
}

#[test]
fn zip_with_root_config_extracts_as_is() {
    // Bundles have config.yaml at the root — nothing to strip.
    let plan = plan_extraction(&vec![entry("config.yaml"), entry("job.yaml")], "b.zip").unwrap();
    assert_eq!(rels(&plan), vec!["config.yaml", "job.yaml"]);
}

#[test]
fn zip_extraction_rejects_escapes_and_conflicts() {
    // Zip-slip: an entry escaping the workspace is refused outright.
    let err =
        plan_extraction(&vec![entry("config.yaml"), entry("../outside.txt")], "evil.zip").unwrap_err();
    assert!(err.contains("unsafe path"), "{err}");

    // Existing files are never overwritten — abort before writing anything.
    let plan = plan_extraction(&vec![entry("config.yaml"), entry("job.yaml")], "b.zip").unwrap();
    let err = check_conflicts(&plan, &vec![false, true], "/ws2").unwrap_err();
    assert!(err.contains("won't overwrite"), "{err}");
    assert!(err.contains("1 existing file(s) in /ws2 (first: job.yaml)"), "{err}");
    assert_eq!(check_conflicts(&plan, &vec![false, false], "/ws2"), Ok(()));

    // No config.yaml anywhere in the zip -> not a bundle.
    let err = plan_extraction(&vec![entry("job.yaml")], "nocfg.zip").unwrap_err();
    assert!(err.contains("no config.yaml"), "{err}");
}

#[test]
fn locked_zips_and_other_escapes_are_refused() {
    let mut locked = entry("config.yaml");
    locked.encrypted = true;
    let err = plan_extraction(&vec![locked], "b.zip").unwrap_err();
    assert!(err.contains("b.zip is password-protected"), "{err}");
    for bad in ["/etc/passwd", "a/../../b"] {
        let err = plan_extraction(&vec![entry("config.yaml"), entry(bad)], "b.zip").unwrap_err();
        assert_eq!(err, format!("refusing zip entry with an unsafe path: {bad}"));
    }
    // The shallowest config counts, and what lies beside its folder is left alone.
    let entries =
        vec![entry("a/b/config.yaml"), entry("a/config.yaml"), entry("a/x"), entry("../y")];
    assert_eq!(rels(&plan_extraction(&entries, "b.zip").unwrap()), vec!["b/config.yaml", "config.yaml", "x"]);
    let mut dir = entry("d/");
    dir.is_dir = true;
    assert_eq!(plan_extraction(&vec![entry("config.yaml"), dir], "b.zip").unwrap().len(), 1);
    assert!(leads_down("a/b"));
    assert!(!leads_down("/a"));
}

// --- names ---------------------------------------------------------------------

#[test]
fn relative_zip_paths() {
    assert_eq!(relative_zip_path("", "samples/x.wav"), "samples/x.wav");
    assert_eq!(relative_zip_path("scripts", "samples/x.wav"), "../samples/x.wav");
    assert_eq!(relative_zip_path("a/b", "a/c/x.wav"), "../c/x.wav");
    assert_eq!(relative_zip_path("scripts", "scripts/x.yaml"), "x.yaml");
}

#[test]
fn names_are_taken_apart() {
    assert_eq!(name_below("/p/a/b.wav", "/p"), Some(s("a/b.wav")));
    assert_eq!(name_below("/q/a", "/p"), None);
    assert_eq!(name_below("/pa/b", "/p"), None);
    assert_eq!(zip_name(&vec![s("a"), s("b")]), "a/b");
    assert_eq!(parent_of_zip_name("a/b/c"), "a/b");
    assert_eq!(parent_of_zip_name("c"), "");
    assert_eq!(split_entry("a//b/"), vec![s("a"), s("b")]);
    assert!(any_hidden(&vec![s("a"), s(".b")]));
    assert!(!any_hidden(&vec![s("a"), s("b.c")]));
    assert_eq!(extension("a/b.tar.gz"), Some(s("gz")));
    assert_eq!(extension(".hidden"), None);
    assert!(is_yaml("a.YML") && is_yaml("b.yaml") && !is_yaml("yaml"));
    assert!(is_zip("b.ZIP") && !is_zip("b.zip.txt"));
    assert!(is_zip_junk("__MACOSX/x") && is_zip_junk("a/Thumbs.db") && is_zip_junk(".DS_Store"));
    assert!(!is_zip_junk("a/__MACOSX/x"));
}
