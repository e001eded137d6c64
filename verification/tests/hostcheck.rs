use dialf::audio::tool_detect::Os;
use dialf::bundle::document::{read_document, Change};
use dialf::hostcheck::{
    asound_device, detect_devices, finds_from, install_command, list_settings_changes, list_to_find,
    look_around, package_for, parse_card, parse_cards, parse_system_profiler, pick, profiled_devices,
    settings_of, AudioDevice, AudioSettings, Card, CardListing, Finds, Move, Next, Precheck,
    ProfilerItem, Side, ToolFinds, PICK,
};
use dialf::search::Search;

fn s(t: &str) -> String {
    t.to_string()
}

fn item(name: &str, input: Option<i64>, output: Option<i64>) -> ProfilerItem {
    ProfilerItem { name: Some(s(name)), input, output }
}

#[test]
fn parses_system_profiler_devices() {
    let json = r#"{"SPAudioDataType":[{"_items":[
        {"_name":"MiniFuse 2","coreaudio_device_input":4,"coreaudio_device_output":4},
        {"_name":"MacBook Pro Microphone","coreaudio_device_input":1},
        {"_name":"MacBook Pro Speakers","coreaudio_device_output":2}
    ]}]}"#;
    let devs = parse_system_profiler(json);
    assert_eq!(devs.len(), 3);
    assert!(devs[0].input && devs[0].output);
    assert!(devs[1].input && !devs[1].output);
    assert!(!devs[2].input && devs[2].output);
    assert_eq!(devs[1].value, "MacBook Pro Microphone");
    assert_eq!(detect_devices(true, json, &Vec::new()), devs);
}

#[test]
fn a_profile_may_hold_no_devices() {
    // An item without a name is none, and no channel is no direction.
    let odd = vec![ProfilerItem { name: None, input: Some(1), output: None }, item("x", Some(0), Some(-1))];
    let x = AudioDevice { value: s("x"), label: s("x"), input: false, output: false };
    assert_eq!(profiled_devices(&odd), vec![x.clone()]);
    let json = r#"{"SPAudioDataType":[{"_items":[
        {"coreaudio_device_input":1},
        {"_name":7},
        {"_name":"x","coreaudio_device_input":0,"coreaudio_device_output":"2"}
    ]}]}"#;
    assert_eq!(parse_system_profiler(json), vec![x]);
    for none in ["", "{", "{}", r#"{"SPAudioDataType":[]}"#, r#"{"SPAudioDataType":[{"_items":{}}]}"#] {
        assert!(parse_system_profiler(none).is_empty(), "{none}");
    }
}

#[test]
fn settings_are_read_and_changed() {
    let config = "audio:\n  record_dir: rec\n  capture_device: A\n  capture_cmd: [sox, A]\n";
    let doc = read_document(config).unwrap();
    let was = settings_of(&doc);
    assert_eq!(was.record_dir.as_deref(), Some("rec"));
    assert_eq!(was.capture_device.as_deref(), Some("A"));
    assert_eq!(was.playback_device, None);
    assert_eq!(was.capture_cmd, Some(vec![s("sox"), s("A")]));
    let mut now = settings_of(&doc);
    assert!(list_settings_changes(&was, &now).is_empty());
    now.capture_device = Some(s("B"));
    now.capture_cmd = Some(vec![s("sox"), s("B")]);
    now.record_dir = None;
    assert_eq!(
        list_settings_changes(&was, &now),
        vec![
            Change::AudioText { key: s("capture_device"), value: s("B") },
            Change::AudioCommand { key: s("capture_cmd"), items: vec![s("sox"), s("B")] },
        ]
    );
}

#[test]
fn parses_proc_asound_tree() {
    let cards = parse_cards(
        " 0 [PCH            ]: HDA-Intel - HDA Intel PCH\n\
         \x20                     HDA Intel PCH at 0xf7f10000 irq 31\n\
         \x201 [Device         ]: USB-Audio - USB Audio Device\n\
         \x20                     USB Audio Device at usb-0000:00:14.0-2\n",
    );
    let files = [vec![s("pcm0p")], vec![s("pcm0c"), s("pcm0p")]];
    let listings: Vec<CardListing> = cards
        .into_iter()
        .zip(files)
        .map(|(card, files)| CardListing { card, files })
        .collect();
    let devs = detect_devices(false, "", &listings);
    assert_eq!(devs.len(), 2);
    assert_eq!(devs[0].value, "plughw:0,0");
    assert!(!devs[0].input && devs[0].output);
    assert_eq!(devs[1].value, "plughw:1,0");
    assert_eq!(devs[1].label, "USB Audio Device (card 1)");
    assert!(devs[1].input && devs[1].output);
}

#[test]
fn cards_are_read_line_by_line() {
    assert_eq!(parse_card(" 2 plain"), Some(Card { number: 2, name: s("plain") }));
    assert_eq!(parse_card("2"), None);
    assert_eq!(parse_card(" x y"), None);
    assert_eq!(parse_card(" 4294967296 y"), None);
    let d = asound_device(&Card { number: 7, name: s("n") }, &vec![s("midi0"), s("id")]);
    assert_eq!(d, AudioDevice { value: s("plughw:7,0"), label: s("n (card 7)"), input: false, output: false });
}

#[test]
fn package_for_maps_tools_to_their_packages() {
    for macos in [false, true] {
        assert_eq!(package_for("sox", macos), Some("sox"));
        assert_eq!(package_for("play", macos), Some("sox"));
        assert_eq!(package_for("ffmpeg", macos), Some("ffmpeg"));
        assert_eq!(package_for("ffplay", macos), Some("ffmpeg"));
        assert_eq!(package_for("afplay", macos), None); // macOS builtin — not installable
        assert_eq!(package_for("my-custom-capture.sh", macos), None);
    }
    assert_eq!(package_for("arecord", true), None);
    assert_eq!(package_for("arecord", false), Some("alsa-utils"));
}

fn no_tool() -> ToolFinds {
    ToolFinds { at_path: false, on_path: false, base: None }
}

fn finds() -> Finds {
    Finds {
        capture: no_tool(),
        playback: no_tool(),
        brew: false,
        apt: true,
        dnf: true,
        pacman: false,
        zypper: false,
        any_capture: true,
        any_playback: true,
    }
}

fn minifuse() -> Vec<AudioDevice> {
    vec![AudioDevice { value: s("MiniFuse 2"), label: s("MiniFuse 2"), input: true, output: true }]
}

fn settings() -> AudioSettings {
    AudioSettings {
        record_dir: None,
        capture_device: None,
        playback_device: None,
        capture_cmd: None,
        playback_cmd: None,
    }
}

/// Answers questions with the lines, then with nothing, to the end; what was printed.
fn drive(p: &mut Precheck, f: &Finds, answers: &[&str]) -> String {
    let mut said = String::new();
    let mut answers = answers.iter();
    let mut m: Move = p.start(f);
    loop {
        for l in &m.lines {
            said.push_str(l);
            said.push('\n');
        }
        m = match m.next {
            Next::Done => return said,
            Next::Ask(q) => {
                said.push_str(&q);
                p.answer(answers.next().unwrap_or(&""), f)
            }
            Next::Run(cmd) => {
                said.push_str(&cmd.join(" "));
                p.ran(false, "exit status: 1", f)
            }
        };
    }
}

#[test]
fn precheck_picks_devices_and_patches_pinned_cmd() {
    // Config pins BlackHole devices + a sox path that don't exist "here"; the user picks
    // detected devices — the cmd argv literals must follow the rename.
    let mut audio = settings();
    audio.capture_device = Some(s("BlackHole 2ch"));
    audio.playback_device = Some(s("BlackHole 16ch"));
    audio.capture_cmd = Some(
        ["/opt/homebrew/bin/sox", "-q", "-t", "coreaudio", "BlackHole 16ch", "-"].map(s).to_vec(),
    );
    let mut p = Precheck::new(audio, Vec::new(), "/tmp", minifuse(), false, true);
    // Answers: capture pick 1, playback pick 1, then decline whatever tool prompts come.
    let said = drive(&mut p, &finds(), &["1\n", "1\n", "n\n", "n\n"]);
    assert!(said.contains(PICK), "{said}");
    assert_eq!(p.audio.capture_device.as_deref(), Some("MiniFuse 2"));
    assert_eq!(p.audio.playback_device.as_deref(), Some("MiniFuse 2"));
    let argv = p.audio.capture_cmd.unwrap();
    assert!(argv.contains(&s("MiniFuse 2")), "{argv:?}"); // "BlackHole 16ch" literal renamed
    assert!(!argv.contains(&s("BlackHole 16ch")));
    assert!(p.edits.iter().any(|e| e.key == "capture_cmd"));
}

#[test]
fn precheck_keeps_everything_on_enter() {
    let mut audio = settings();
    audio.record_dir = Some(s("/x/recordings"));
    audio.capture_device = Some(s("MiniFuse 2"));
    let mut p = Precheck::new(audio, Vec::new(), "/tmp", minifuse(), false, true);
    let said = drive(&mut p, &finds(), &["\n", "\n", "\n", "\n"]);
    assert_eq!(p.audio.record_dir.as_deref(), Some("/x/recordings"));
    assert_eq!(p.audio.capture_device.as_deref(), Some("MiniFuse 2"));
    assert!(p.audio.playback_device.is_none() && p.audio.capture_cmd.is_none());
    assert!(p.edits.is_empty());
    assert!(said.contains("\"MiniFuse 2\" ✓"), "{said}");
}

#[test]
fn a_new_record_dir_lies_in_the_folder() {
    let mut audio = settings();
    audio.record_dir = Some(s("/x/recordings"));
    let mut p = Precheck::new(audio, Vec::new(), "/m2", minifuse(), false, true);
    drive(&mut p, &finds(), &["rec\n"]);
    assert_eq!(p.audio.record_dir.as_deref(), Some("/m2/rec"));
    assert_eq!((p.edits[0].key.as_str(), p.edits[0].value.as_str()), ("record_dir", "\"/m2/rec\""));
}

#[test]
fn a_tool_found_elsewhere_is_offered() {
    let mut audio = settings();
    audio.capture_cmd = Some(vec![s("/opt/homebrew/bin/sox"), s("-q")]);
    let mut f = finds();
    f.capture.base = Some(s("/usr/bin/sox"));
    let mut p = Precheck::new(audio, Vec::new(), "/m2", minifuse(), false, true);
    let said = drive(&mut p, &f, &["y\n"]);
    assert!(said.contains("but /usr/bin/sox exists — use it? [y/N]: "), "{said}");
    assert_eq!(p.audio.capture_cmd, Some(vec![s("/usr/bin/sox"), s("-q")]));
    assert_eq!(p.edits[0].value, "[\"/usr/bin/sox\", \"-q\"]");
}

#[test]
fn a_missing_tool_is_installed_when_wanted() {
    let mut audio = settings();
    audio.capture_cmd = Some(vec![s("sox")]);
    let mut p = Precheck::new(audio, Vec::new(), "/m2", minifuse(), false, false);
    let said = drive(&mut p, &finds(), &["y\n"]);
    assert!(said.contains("install now with `sudo apt-get install -y sox`? [y/N]: "), "{said}");
    assert!(said.contains("install failed (exit status: 1)"), "{said}");
    assert!(p.edits.is_empty());
}

#[test]
fn the_package_manager_that_is_there_installs() {
    let f = finds();
    let sox = |l: &[&str]| Some(l.iter().map(|x| s(x)).collect::<Vec<String>>());
    assert_eq!(install_command(false, true, &f, "sox"), sox(&["apt-get", "install", "-y", "sox"]));
    assert_eq!(install_command(true, true, &f, "sox"), None);
    let mut f = finds();
    f.apt = false;
    f.dnf = false;
    assert_eq!(install_command(false, true, &f, "sox"), None);
    f.pacman = true;
    assert_eq!(
        install_command(false, false, &f, "sox"),
        sox(&["sudo", "pacman", "-S", "--noconfirm", "sox"])
    );
    f.brew = true;
    assert_eq!(install_command(true, false, &f, "sox"), sox(&["brew", "install", "sox"]));
}

#[test]
fn a_pick_is_a_number_or_a_name() {
    let d = |v: &str, input| AudioDevice { value: s(v), label: s(v), input, output: !input };
    let devices = vec![d("out", false), d("in", true)];
    assert_eq!(pick("", &devices, Side::Capture), None);
    assert_eq!(pick("1", &devices, Side::Capture), Some(s("in")));
    assert_eq!(pick("1", &devices, Side::Playback), Some(s("out")));
    assert_eq!(pick("2", &devices, Side::Capture), Some(s("2")));
    assert_eq!(pick("My Card", &devices, Side::Capture), Some(s("My Card")));
}

#[test]
fn without_devices_nothing_is_picked() {
    let mut audio = settings();
    audio.capture_device = Some(s("Card"));
    let mut p = Precheck::new(audio, Vec::new(), "/m2", Vec::new(), false, true);
    let said = drive(&mut p, &finds(), &[]);
    assert!(said.contains("no audio devices detected"), "{said}");
    assert!(said.contains("\"Card\" not found (no usable device detected — kept)"), "{said}");
    assert!(p.edits.is_empty());
}

#[test]
fn looking_around_takes_what_is_at_the_paths() {
    let mut search = Search::new();
    let p = Precheck::new(settings(), Vec::new(), "/m2", minifuse(), false, true);
    let f = look_around(&p, Os::Linux, true, false, &mut search);
    assert!(f.capture.at_path && !f.playback.at_path);
    assert!(f.capture.base.is_none() && !f.capture.on_path);
    let mut audio = settings();
    audio.capture_cmd = Some(vec![s("/nowhere/no-such-tool-anywhere")]);
    audio.playback_cmd = Some(vec![s("/nowhere/sh"), s("-c")]);
    let p = Precheck::new(audio, Vec::new(), "/m2", minifuse(), false, true);
    let f = look_around(&p, Os::Linux, false, false, &mut search);
    assert!(f.capture.base.is_none() && !f.capture.on_path);
    // A program that every machine has is found by its last part, and not where it was.
    assert!(f.playback.base.is_some_and(|b| b.ends_with("/sh")));
    assert!(!f.playback.on_path);
    let mut audio = settings();
    audio.capture_cmd = Some(vec![s("sh")]);
    let p = Precheck::new(audio, Vec::new(), "/m2", minifuse(), false, true);
    assert!(look_around(&p, Os::Linux, false, false, &mut search).capture.on_path);
}

#[test]
fn what_was_found_is_told_by_its_place() {
    let mut audio = settings();
    audio.capture_cmd = Some(vec![s("/opt/rec"), s("-q")]);
    audio.playback_cmd = Some(vec![s("/")]);
    let p = Precheck::new(audio, Vec::new(), "/m2", minifuse(), false, true);
    let names = list_to_find(&p, Os::Linux);
    assert_eq!(
        names,
        [
            "brew", "apt-get", "dnf", "pacman", "zypper", "arecord", "ffmpeg", "rec", "aplay",
            "ffplay", "play", "/opt/rec", "rec", "/",
        ]
    );
    let only = |i: usize| {
        let found = (0..names.len()).map(|k| (k == i).then(|| s("/p"))).collect();
        finds_from(&p, Os::Linux, false, true, &found)
    };
    assert!(only(0).brew && !only(0).apt);
    assert!(only(1).apt && !only(1).brew);
    assert!(only(2).dnf && only(3).pacman && only(4).zypper && !only(4).dnf);
    assert!(only(5).any_capture && only(7).any_capture && !only(7).any_playback);
    assert!(only(8).any_playback && only(10).any_playback && !only(10).any_capture);
    assert!(only(11).capture.on_path && only(11).capture.base.is_none());
    assert_eq!(only(12).capture.base.as_deref(), Some("/p"));
    assert!(only(13).playback.on_path && only(13).playback.base.is_none());
    assert!(!only(13).capture.at_path && only(13).playback.at_path);
    // Without answers nothing was found.
    let none = finds_from(&p, Os::Linux, true, true, &Vec::new());
    assert!(!none.brew && !none.any_capture && !none.capture.on_path && none.capture.at_path);
}
