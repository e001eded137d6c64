//! The check of an imported config against this machine: its devices, its capture and playback
//! programs and the folder that recordings go to, with what the user is asked on the way.

use vstd::prelude::*;

use crate::audio::tool_detect;
use crate::audio::tool_detect::{Candidate, Os};
#[allow(unused_imports)]
use crate::audio::tool_detect::{bins, candidate_models, capture_tools, playback_tools};
use crate::bundle::document;
use crate::bundle::document::Change;
#[allow(unused_imports)]
use crate::bundle::document::{audio_command, audio_text, change_views, ChangeText};
use crate::bundle::tree::Node;
#[allow(unused_imports)]
use crate::bundle::tree::Tree;
use crate::bundle::install;
#[allow(unused_imports)]
use crate::bundle::install::says_yes;
use crate::bundle::rewrite;
use crate::bundle::rewrite::Edit;
#[allow(unused_imports)]
use crate::bundle::rewrite::{all_quoted, edit_views, quoted, EditText};
use crate::paths;
#[allow(unused_imports)]
use crate::paths::{base_name, is_rooted, resolved_under};
use crate::search::Search;
#[allow(unused_imports)]
use crate::search::{added, answers, names, path_views};
use crate::text;
#[allow(unused_imports)]
use crate::text::{
    contains_text, decimal, first_at, joined, lines, occurs_at, opt_view, parsed_up_to, trimmed,
    trimmed_start, views,
};

verus! {

// ---------------------------------------------------------------------------
// Devices
// ---------------------------------------------------------------------------

/// One audio endpoint of this machine. `value` is what goes into the config, `label` is shown.
#[derive(Debug, Clone, PartialEq, Eq)]
pub struct AudioDevice {
    pub value: String,
    pub label: String,
    pub input: bool,
    pub output: bool,
}

/// An audio endpoint over texts.
pub struct DeviceText {
    pub value: Seq<char>,
    pub label: Seq<char>,
    pub input: bool,
    pub output: bool,
}

impl View for AudioDevice {
    type V = DeviceText;

    open spec fn view(&self) -> DeviceText {
        DeviceText {
            value: self.value@,
            label: self.label@,
            input: self.input,
            output: self.output,
        }
    }
}

/// Audio endpoints over texts.
pub open spec fn device_texts(devices: Seq<AudioDevice>) -> Seq<DeviceText> {
    devices.map_values(|d: AudioDevice| d@)
}

/// An item of the macOS system profile, as far as it is there.
#[derive(Debug, Clone)]
pub struct ProfilerItem {
    pub name: Option<String>,
    pub input: Option<i64>,
    pub output: Option<i64>,
}

/// An item of the macOS system profile over texts.
pub struct ItemText {
    pub name: Option<Seq<char>>,
    pub input: Option<i64>,
    pub output: Option<i64>,
}

impl View for ProfilerItem {
    type V = ItemText;

    open spec fn view(&self) -> ItemText {
        ItemText { name: opt_view(self.name), input: self.input, output: self.output }
    }
}

/// Items of the macOS system profile over texts.
pub open spec fn profile_texts(items: Seq<ProfilerItem>) -> Seq<ItemText> {
    items.map_values(|it: ProfilerItem| it@)
}

/// Whether a channel count is one of channels.
pub open spec fn has_channels(n: Option<i64>) -> bool {
    n is Some && n->0 > 0
}

/// The devices among the items of the system profile: those that have a name.
pub open spec fn profiled(items: Seq<ItemText>) -> Seq<DeviceText>
    decreases items.len(),
{
    if items.len() == 0 {
        Seq::empty()
    } else {
        let rest = profiled(items.drop_last());
        let it = items.last();
        match it.name {
            Some(n) => rest.push(
                DeviceText {
                    value: n,
                    label: n,
                    input: has_channels(it.input),
                    output: has_channels(it.output),
                },
            ),
            None => rest,
        }
    }
}

fn some_channels(n: &Option<i64>) -> (r: bool)
    ensures
        r == has_channels(*n),
{
    match n {
        Some(k) => *k > 0,
        None => false,
    }
}

/// The devices among the items of the system profile.
pub fn profiled_devices(items: &Vec<ProfilerItem>) -> (r: Vec<AudioDevice>)
    ensures
        device_texts(r@) == profiled(profile_texts(items@)),
{
    let ghost all = profile_texts(items@);
    let mut out: Vec<AudioDevice> = Vec::new();
    let mut i: usize = 0;
    assert(device_texts(out@) =~= profiled(all.take(0)));
    while i < items.len()
        invariant
            i <= items.len(),
            all == profile_texts(items@),
            device_texts(out@) == profiled(all.take(i as int)),
        decreases items.len() - i,
    {
        let ghost before = device_texts(out@);
        proof {
            assert(all.take(i + 1).drop_last() =~= all.take(i as int));
            assert(all.take(i + 1).last() == items@[i as int]@);
        }
        if let Some(n) = &items[i].name {
            let d = AudioDevice {
                value: n.clone(),
                label: n.clone(),
                input: some_channels(&items[i].input),
                output: some_channels(&items[i].output),
            };
            out.push(d);
            assert(device_texts(out@) =~= before.push(d@));
        }
        i += 1;
    }
    assert(all.take(i as int) =~= all);
    out
}

/// The items of a list in a JSON document, each with a text and two whole numbers, as far as it has
/// them. The list stands under `list` in the first of the objects under `section`. None where the
/// text is no JSON, or there is no such list.
pub uninterp spec fn json_items(
    text: Seq<char>,
    section: Seq<char>,
    list: Seq<char>,
    name: Seq<char>,
    input: Seq<char>,
    output: Seq<char>,
) -> Option<Seq<ItemText>>;

/// `serde_json::from_str` into `serde_json::Value`, `Value::get` along `section`, the index 0 and
/// `list`, and of each item of that array `Value::as_str` under `name` and `Value::as_i64` under
/// `input` and `output`. That is a function of the text and the keys, named `json_items`.
#[verifier::external_body]
fn read_items(
    text: &str,
    section: &str,
    list: &str,
    name: &str,
    input: &str,
    output: &str,
) -> (r: Option<Vec<ProfilerItem>>)
    ensures
        (match r {
            Some(v) => Some(profile_texts(v@)),
            None => None,
        }) == json_items(text@, section@, list@, name@, input@, output@),
{
    let doc: serde_json::Value = serde_json::from_str(text).ok()?;
    let items = doc.get(section)?.get(0)?.get(list)?.as_array()?.iter();
    let read = |it: &serde_json::Value| ProfilerItem {
        name: it.get(name).and_then(|v| v.as_str()).map(str::to_string),
        input: it.get(input).and_then(|v| v.as_i64()),
        output: it.get(output).and_then(|v| v.as_i64()),
    };
    Some(items.map(read).collect())
}

/// The devices of a macOS system profile: none where it is no profile.
pub open spec fn profile_devices(text: Seq<char>) -> Seq<DeviceText> {
    match json_items(
        text,
        "SPAudioDataType"@,
        "_items"@,
        "_name"@,
        "coreaudio_device_input"@,
        "coreaudio_device_output"@,
    ) {
        Some(items) => profiled(items),
        None => Seq::empty(),
    }
}

/// The devices of a macOS system profile, as `system_profiler SPAudioDataType -json` writes it.
pub fn parse_system_profiler(json: &str) -> (r: Vec<AudioDevice>)
    ensures
        device_texts(r@) == profile_devices(json@),
{
    match read_items(
        json,
        "SPAudioDataType",
        "_items",
        "_name",
        "coreaudio_device_input",
        "coreaudio_device_output",
    ) {
        Some(items) => profiled_devices(&items),
        None => {
            let none: Vec<AudioDevice> = Vec::new();
            assert(device_texts(none@) =~= Seq::<DeviceText>::empty());
            none
        },
    }
}

/// A sound card: its number and its name.
#[derive(Debug, Clone, PartialEq, Eq)]
pub struct Card {
    pub number: u32,
    pub name: String,
}

/// A sound card over texts.
pub struct CardText {
    pub number: nat,
    pub name: Seq<char>,
}

impl View for Card {
    type V = CardText;

    open spec fn view(&self) -> CardText {
        CardText { number: self.number as nat, name: self.name@ }
    }
}

/// Sound cards over texts.
pub open spec fn card_texts(cards: Seq<Card>) -> Seq<CardText> {
    cards.map_values(|c: Card| c@)
}

/// Where a text occurs last in the first `n` places of another.
pub open spec fn last_text_at(s: Seq<char>, sub: Seq<char>, n: nat) -> Option<nat>
    decreases n,
{
    if occurs_at(s, sub, n as int) {
        Some(n)
    } else if n == 0 {
        None
    } else {
        last_text_at(s, sub, (n - 1) as nat)
    }
}

/// The name of a card: what follows the last dash of its line.
pub open spec fn card_name(rest: Seq<char>) -> Seq<char> {
    match last_text_at(rest, " - "@, rest.len()) {
        Some(k) => trimmed(rest.skip(k as int + 3)),
        None => rest,
    }
}

/// The card that a line of the cards file names, if it names one: such a line starts with the
/// card's number.
pub open spec fn card_of(line: Seq<char>) -> Option<CardText> {
    let t = trimmed_start(line);
    let k = first_at(t, ' ') as int;
    if k >= t.len() {
        None
    } else {
        match parsed_up_to(t.take(k), u32::MAX as nat) {
            Some(n) => Some(CardText { number: n, name: card_name(t.skip(k + 1)) }),
            None => None,
        }
    }
}

/// The cards that the lines of the cards file name.
pub open spec fn cards_of(ls: Seq<Seq<char>>) -> Seq<CardText>
    decreases ls.len(),
{
    if ls.len() == 0 {
        Seq::empty()
    } else {
        let rest = cards_of(ls.drop_last());
        match card_of(ls.last()) {
            Some(c) => rest.push(c),
            None => rest,
        }
    }
}

fn name_in(rest: &str) -> (r: String)
    ensures
        r@ == card_name(rest@),
{
    let cs = text::chars_of(rest);
    let mut k: usize = cs.len();
    proof {
        reveal_strlit(" - ");
        assert(" - "@.len() == 3);
    }
    loop
        invariant
            k <= cs.len(),
            cs@ == rest@,
            " - "@ == seq![' ', '-', ' '],
            last_text_at(rest@, " - "@, rest@.len()) == last_text_at(rest@, " - "@, k as nat),
        decreases k,
    {
        let here = k <= cs.len() && cs.len() - k >= 3 && cs[k] == ' ' && cs[k + 1] == '-' && cs[k + 2]
            == ' ';
        proof {
            if here {
                assert(rest@.subrange(k as int, k + 3) =~= " - "@);
            } else if occurs_at(rest@, " - "@, k as int) {
                let m = rest@.subrange(k as int, k + 3);
                assert(m[0] == rest@[k as int] && m[1] == rest@[k + 1] && m[2] == rest@[k + 2]);
            }
        }
        if here {
            let tail = rest.substring_char(k + 3, cs.len());
            assert(tail@ =~= rest@.skip(k + 3));
            return text::trim(tail).to_owned();
        }
        if k == 0 {
            return rest.to_owned();
        }
        k -= 1;
    }
}

/// The card that a line of the cards file names.
pub fn parse_card(line: &str) -> (r: Option<Card>)
    ensures
        match (r, card_of(line@)) {
            (Some(c), Some(t)) => c@ == t,
            (None, None) => true,
            _ => false,
        },
{
    let t = text::trim_start(line);
    match text::split_once(t, ' ') {
        Some((index, rest)) => match text::parse_u64(index) {
            Some(n) => if n <= u32::MAX as u64 {
                Some(Card { number: n as u32, name: name_in(rest) })
            } else {
                None
            },
            None => None,
        },
        None => None,
    }
}

/// The cards that the text of `/proc/asound/cards` names.
pub fn parse_cards(cards: &str) -> (r: Vec<Card>)
    ensures
        card_texts(r@) == cards_of(lines(cards@)),
{
    let ls = text::split_lines(cards);
    let ghost all = views(ls@);
    let mut out: Vec<Card> = Vec::new();
    let mut i: usize = 0;
    assert(card_texts(out@) =~= cards_of(all.take(0)));
    while i < ls.len()
        invariant
            i <= ls.len(),
            all == views(ls@),
            card_texts(out@) == cards_of(all.take(i as int)),
        decreases ls.len() - i,
    {
        let ghost before = card_texts(out@);
        proof {
            assert(all.take(i + 1).drop_last() =~= all.take(i as int));
            assert(all.take(i + 1).last() == ls@[i as int]@);
        }
        if let Some(c) = parse_card(&ls[i]) {
            out.push(c);
            assert(card_texts(out@) =~= before.push(c@));
        }
        i += 1;
    }
    assert(all.take(i as int) =~= all);
    out
}

/// Whether a card's directory lists a stream that ends with `c`.
pub open spec fn lists_stream(files: Seq<Seq<char>>, c: char) -> bool {
    exists|i: int|
        0 <= i < files.len() && text::after_prefix(#[trigger] files[i], "pcm"@) is Some && files[i].last()
            == c
}

/// Whether a card's directory lists a stream that ends with `c`.
fn any_stream(files: &Vec<String>, c: char) -> (r: bool)
    ensures
        r == lists_stream(views(files@), c),
{
    proof {
        reveal_strlit("pcm");
    }
    let mut i: usize = 0;
    while i < files.len()
        invariant
            i <= files.len(),
            "pcm"@.len() == 3,
            forall|k: int|
                0 <= k < i ==> !(text::after_prefix(#[trigger] views(files@)[k], "pcm"@) is Some && views(
                    files@,
                )[k].last() == c),
        decreases files.len() - i,
    {
        assert(views(files@)[i as int] == files@[i as int]@);
        if text::starts_with(&files[i], "pcm") {
            let n: usize = files[i].as_str().unicode_len();
            if files[i].as_str().get_char(n - 1) == c {
                return true;
            }
        }
        i += 1;
    }
    false
}

/// A card as a device: its directory lists streams ending with `c` where it captures, and with
/// `p` where it plays.
pub fn asound_device(card: &Card, files: &Vec<String>) -> (r: AudioDevice)
    ensures
        r.value@ == "plughw:"@ + decimal(card.number as nat) + ",0"@,
        r.label@ == card.name@ + " (card "@ + decimal(card.number as nat) + ")"@,
        r.input == lists_stream(views(files@), 'c'),
        r.output == lists_stream(views(files@), 'p'),
{
    let n = text::decimal_of(card.number as u64);
    let mut label = text::cat3(&card.name, " (card ", &n);
    label.append(")");
    AudioDevice {
        value: text::cat3("plughw:", &n, ",0"),
        label,
        input: any_stream(files, 'c'),
        output: any_stream(files, 'p'),
    }
}

/// A sound card, with what its directory lists.
#[derive(Debug)]
pub struct CardListing {
    pub card: Card,
    pub files: Vec<String>,
}

/// A sound card as a device.
pub open spec fn listed_device(c: CardListing) -> DeviceText {
    DeviceText {
        value: "plughw:"@ + decimal(c.card.number as nat) + ",0"@,
        label: c.card.name@ + " (card "@ + decimal(c.card.number as nat) + ")"@,
        input: lists_stream(views(c.files@), 'c'),
        output: lists_stream(views(c.files@), 'p'),
    }
}

/// The audio devices of this machine: those of the system profile on macOS, its sound cards
/// elsewhere.
pub fn detect_devices(macos: bool, profile: &str, cards: &Vec<CardListing>) -> (r: Vec<
    AudioDevice,
>)
    ensures
        device_texts(r@) == if macos {
            profile_devices(profile@)
        } else {
            cards@.map_values(|c: CardListing| listed_device(c))
        },
{
    if macos {
        return parse_system_profiler(profile);
    }
    let mut out: Vec<AudioDevice> = Vec::new();
    let mut i: usize = 0;
    while i < cards.len()
        invariant
            i <= cards.len(),
            out@.len() == i,
            forall|k: int| 0 <= k < i ==> (#[trigger] out@[k])@ == listed_device(cards@[k]),
        decreases cards.len() - i,
    {
        out.push(asound_device(&cards[i].card, &cards[i].files));
        i += 1;
    }
    assert(device_texts(out@) =~= cards@.map_values(|c: CardListing| listed_device(c)));
    out
}

// ---------------------------------------------------------------------------
// What is checked
// ---------------------------------------------------------------------------

/// A direction of audio.
#[derive(Debug, PartialEq, Eq, Structural, Clone, Copy)]
pub enum Side {
    Capture,
    Playback,
}

impl Side {
    /// The config key of the device.
    pub open spec fn device_key(self) -> Seq<char> {
        match self {
            Side::Capture => "capture_device"@,
            Side::Playback => "playback_device"@,
        }
    }

    /// The config key of the command.
    pub open spec fn cmd_key(self) -> Seq<char> {
        match self {
            Side::Capture => "capture_cmd"@,
            Side::Playback => "playback_cmd"@,
        }
    }

    fn device_name(self) -> (r: &'static str)
        ensures
            r@ == self.device_key(),
    {
        match self {
            Side::Capture => "capture_device",
            Side::Playback => "playback_device",
        }
    }

    fn cmd_name(self) -> (r: &'static str)
        ensures
            r@ == self.cmd_key(),
    {
        match self {
            Side::Capture => "capture_cmd",
            Side::Playback => "playback_cmd",
        }
    }
}

/// The text of an optional list.
pub open spec fn list_view(o: Option<Vec<String>>) -> Option<Seq<Seq<char>>> {
    match o {
        Some(v) => Some(views(v@)),
        None => None,
    }
}

/// The audio settings of the imported config, as far as it has them.
#[derive(Debug)]
pub struct AudioSettings {
    pub record_dir: Option<String>,
    pub capture_device: Option<String>,
    pub playback_device: Option<String>,
    pub capture_cmd: Option<Vec<String>>,
    pub playback_cmd: Option<Vec<String>>,
}

/// The audio settings over texts.
#[verifier::ext_equal]
pub struct AudioText {
    pub record_dir: Option<Seq<char>>,
    pub capture_device: Option<Seq<char>>,
    pub playback_device: Option<Seq<char>>,
    pub capture_cmd: Option<Seq<Seq<char>>>,
    pub playback_cmd: Option<Seq<Seq<char>>>,
}

impl View for AudioSettings {
    type V = AudioText;

    open spec fn view(&self) -> AudioText {
        AudioText {
            record_dir: opt_view(self.record_dir),
            capture_device: opt_view(self.capture_device),
            playback_device: opt_view(self.playback_device),
            capture_cmd: list_view(self.capture_cmd),
            playback_cmd: list_view(self.playback_cmd),
        }
    }
}

/// The audio settings of a config.
pub open spec fn settings_in(doc: Tree) -> AudioText {
    AudioText {
        record_dir: audio_text(doc, "record_dir"@),
        capture_device: audio_text(doc, "capture_device"@),
        playback_device: audio_text(doc, "playback_device"@),
        capture_cmd: audio_command(doc, "capture_cmd"@),
        playback_cmd: audio_command(doc, "playback_cmd"@),
    }
}

/// The audio settings of a config.
pub fn settings_of(doc: &Node) -> (r: AudioSettings)
    ensures
        r@ == settings_in(doc@),
{
    AudioSettings {
        record_dir: document::record_dir_of(doc),
        capture_device: document::audio_text_of(doc, "capture_device"),
        playback_device: document::audio_text_of(doc, "playback_device"),
        capture_cmd: document::audio_command_of(doc, "capture_cmd"),
        playback_cmd: document::audio_command_of(doc, "playback_cmd"),
    }
}

/// The change of a text that differs from the one before.
pub open spec fn text_change(key: Seq<char>, was: Option<Seq<char>>, now: Option<Seq<char>>) -> Seq<
    ChangeText,
> {
    match now {
        Some(value) => if was != now {
            seq![ChangeText::AudioText { key, value }]
        } else {
            Seq::empty()
        },
        None => Seq::empty(),
    }
}

/// The change of a command that differs from the one before.
pub open spec fn command_change(
    key: Seq<char>,
    was: Option<Seq<Seq<char>>>,
    now: Option<Seq<Seq<char>>>,
) -> Seq<ChangeText> {
    match now {
        Some(items) => if was != now {
            seq![ChangeText::AudioCommand { key, items }]
        } else {
            Seq::empty()
        },
        None => Seq::empty(),
    }
}

/// The changes that make other audio settings of some.
pub open spec fn settings_changes(was: AudioText, now: AudioText) -> Seq<ChangeText> {
    text_change("record_dir"@, was.record_dir, now.record_dir) + text_change(
        "capture_device"@,
        was.capture_device,
        now.capture_device,
    ) + text_change("playback_device"@, was.playback_device, now.playback_device) + command_change(
        "capture_cmd"@,
        was.capture_cmd,
        now.capture_cmd,
    ) + command_change("playback_cmd"@, was.playback_cmd, now.playback_cmd)
}

fn same_commands(a: &Vec<String>, b: &Vec<String>) -> (r: bool)
    ensures
        r == (views(a@) == views(b@)),
{
    proof {
        assert(views(a@).len() == a@.len());
        assert(views(b@).len() == b@.len());
    }
    if a.len() != b.len() {
        return false;
    }
    let mut i: usize = 0;
    while i < a.len()
        invariant
            i <= a.len() == b.len(),
            forall|k: int| 0 <= k < i ==> #[trigger] views(a@)[k] == views(b@)[k],
        decreases a.len() - i,
    {
        proof {
            assert(views(a@)[i as int] == a@[i as int]@);
            assert(views(b@)[i as int] == b@[i as int]@);
        }
        if !text::same(&a[i], &b[i]) {
            return false;
        }
        i += 1;
    }
    assert(views(a@) =~= views(b@));
    true
}

fn put_text(key: &str, was: &Option<String>, now: &Option<String>, out: &mut Vec<Change>)
    ensures
        change_views(final(out)@) == change_views(old(out)@) + text_change(
            key@,
            opt_view(*was),
            opt_view(*now),
        ),
{
    let ghost had = change_views(out@);
    proof {
        assert(had + Seq::<ChangeText>::empty() =~= had);
    }
    if let Some(n) = now {
        let same = match was {
            Some(w) => text::same(w, n),
            None => false,
        };
        if !same {
            let c = Change::AudioText { key: key.to_owned(), value: n.clone() };
            out.push(c);
            assert(change_views(out@) =~= had + seq![c@]);
        }
    }
}

fn put_command(key: &str, was: &Option<Vec<String>>, now: &Option<Vec<String>>, out: &mut Vec<Change>)
    ensures
        change_views(final(out)@) == change_views(old(out)@) + command_change(
            key@,
            list_view(*was),
            list_view(*now),
        ),
{
    let ghost had = change_views(out@);
    proof {
        assert(had + Seq::<ChangeText>::empty() =~= had);
    }
    if let Some(n) = now {
        let same = match was {
            Some(w) => same_commands(w, n),
            None => false,
        };
        if !same {
            let c = Change::AudioCommand { key: key.to_owned(), items: text::copy_list(n) };
            out.push(c);
            assert(change_views(out@) =~= had + seq![c@]);
        }
    }
}

/// The changes that make other audio settings of some.
pub fn list_settings_changes(was: &AudioSettings, now: &AudioSettings) -> (r: Vec<Change>)
    ensures
        change_views(r@) == settings_changes(was@, now@),
{
    let mut out: Vec<Change> = Vec::new();
    assert(change_views(out@) =~= Seq::<ChangeText>::empty());
    put_text("record_dir", &was.record_dir, &now.record_dir, &mut out);
    put_text("capture_device", &was.capture_device, &now.capture_device, &mut out);
    put_text("playback_device", &was.playback_device, &now.playback_device, &mut out);
    put_command("capture_cmd", &was.capture_cmd, &now.capture_cmd, &mut out);
    put_command("playback_cmd", &was.playback_cmd, &now.playback_cmd, &mut out);
    assert(change_views(out@) =~= settings_changes(was@, now@));
    out
}

/// A device that was replaced by another.
#[derive(Debug)]
pub struct Rename {
    pub from: String,
    pub to: String,
}

/// A replaced device over texts.
pub struct RenameText {
    pub from: Seq<char>,
    pub to: Seq<char>,
}

impl View for Rename {
    type V = RenameText;

    open spec fn view(&self) -> RenameText {
        RenameText { from: self.from@, to: self.to@ }
    }
}

/// Replaced devices over texts.
pub open spec fn rename_texts(renames: Seq<Rename>) -> Seq<RenameText> {
    renames.map_values(|r: Rename| r@)
}

/// What the check waits for: the folder for recordings, a device from the menu, whether the
/// program found elsewhere is to be used, whether a command may install the missing one, or how
/// that command ended.
#[derive(Debug)]
pub enum Stage {
    RecordDir,
    Device(Side),
    Use(Side, String),
    Offer(Option<Side>, Vec<String>),
    Install(Option<Side>),
    Over,
}

/// What the check waits for, over texts.
#[verifier::ext_equal]
pub enum StageText {
    RecordDir,
    Device(Side),
    Use(Side, Seq<char>),
    Offer(Option<Side>, Seq<Seq<char>>),
    Install(Option<Side>),
    Over,
}

impl View for Stage {
    type V = StageText;

    open spec fn view(&self) -> StageText {
        match *self {
            Stage::RecordDir => StageText::RecordDir,
            Stage::Device(s) => StageText::Device(s),
            Stage::Use(s, p) => StageText::Use(s, p@),
            Stage::Offer(s, cmd) => StageText::Offer(s, views(cmd@)),
            Stage::Install(s) => StageText::Install(s),
            Stage::Over => StageText::Over,
        }
    }
}

/// The check under way: the settings, the edits that write what changed of them, and what it
/// goes by.
#[derive(Debug)]
pub struct Precheck {
    pub audio: AudioSettings,
    pub edits: Vec<Edit>,
    pub renames: Vec<Rename>,
    pub folder: String,
    pub devices: Vec<AudioDevice>,
    pub macos: bool,
    pub root: bool,
    pub stage: Stage,
}

/// The check under way over texts.
#[verifier::ext_equal]
pub struct HostText {
    pub audio: AudioText,
    pub edits: Seq<EditText>,
    pub renames: Seq<RenameText>,
    pub folder: Seq<char>,
    pub devices: Seq<DeviceText>,
    pub macos: bool,
    pub root: bool,
    pub stage: StageText,
}

impl View for Precheck {
    type V = HostText;

    open spec fn view(&self) -> HostText {
        HostText {
            audio: self.audio@,
            edits: edit_views(self.edits@),
            renames: rename_texts(self.renames@),
            folder: self.folder@,
            devices: device_texts(self.devices@),
            macos: self.macos,
            root: self.root,
            stage: self.stage@,
        }
    }
}

/// What is to be done next: ask a question, run a command, or nothing more.
#[derive(Debug)]
pub enum Next {
    Ask(String),
    Run(Vec<String>),
    Done,
}

/// What is to be done next, over texts.
#[verifier::ext_equal]
pub enum NextText {
    Ask(Seq<char>),
    Run(Seq<Seq<char>>),
    Done,
}

impl View for Next {
    type V = NextText;

    open spec fn view(&self) -> NextText {
        match *self {
            Next::Ask(q) => NextText::Ask(q@),
            Next::Run(cmd) => NextText::Run(views(cmd@)),
            Next::Done => NextText::Done,
        }
    }
}

/// One move of the check: the lines to print, and what is to be done after them.
#[derive(Debug)]
pub struct Move {
    pub lines: Vec<String>,
    pub next: Next,
}

/// One move of the check over texts.
#[verifier::ext_equal]
pub struct MoveText {
    pub lines: Seq<Seq<char>>,
    pub next: NextText,
}

impl View for Move {
    type V = MoveText;

    open spec fn view(&self) -> MoveText {
        MoveText { lines: views(self.lines@), next: self.next@ }
    }
}

/// What was found of a pinned command's program: whether something is at its path, whether the
/// search path leads to it, and where the search path leads from its bare name.
#[derive(Debug)]
pub struct ToolFinds {
    pub at_path: bool,
    pub on_path: bool,
    pub base: Option<String>,
}

/// What was found on the machine: the programs of the pinned commands, the package managers, and
/// whether there is any program for each direction.
#[derive(Debug)]
pub struct Finds {
    pub capture: ToolFinds,
    pub playback: ToolFinds,
    pub brew: bool,
    pub apt: bool,
    pub dnf: bool,
    pub pacman: bool,
    pub zypper: bool,
    pub any_capture: bool,
    pub any_playback: bool,
}

/// What was found of the program of one direction.
pub open spec fn finds_of(f: Finds, side: Side) -> ToolFinds {
    match side {
        Side::Capture => f.capture,
        Side::Playback => f.playback,
    }
}

/// The device that the settings name.
pub open spec fn device_of(a: AudioText, side: Side) -> Option<Seq<char>> {
    match side {
        Side::Capture => a.capture_device,
        Side::Playback => a.playback_device,
    }
}

/// The command that the settings pin.
pub open spec fn cmd_of(a: AudioText, side: Side) -> Option<Seq<Seq<char>>> {
    let c = match side {
        Side::Capture => a.capture_cmd,
        Side::Playback => a.playback_cmd,
    };
    match c {
        Some(argv) => if argv.len() > 0 {
            Some(argv)
        } else {
            None
        },
        None => None,
    }
}

// ---------------------------------------------------------------------------
// Changing a setting
// ---------------------------------------------------------------------------

/// The edits without those of one key.
pub open spec fn without_edits(edits: Seq<EditText>, key: Seq<char>) -> Seq<EditText>
    decreases edits.len(),
{
    if edits.len() == 0 {
        Seq::empty()
    } else {
        let rest = without_edits(edits.drop_last(), key);
        if edits.last().key == key {
            rest
        } else {
            rest.push(edits.last())
        }
    }
}

/// The edits with the one of a key put in place of any earlier one.
pub open spec fn with_edit(edits: Seq<EditText>, key: Seq<char>, value: Seq<char>) -> Seq<EditText> {
    without_edits(edits, key).push(EditText { key, value })
}

/// The check with recordings going elsewhere.
pub open spec fn with_record_dir(h: HostText, dir: Seq<char>) -> HostText {
    HostText {
        audio: AudioText { record_dir: Some(dir), ..h.audio },
        edits: with_edit(h.edits, "record_dir"@, quoted(dir)),
        ..h
    }
}

/// The check with another device.
pub open spec fn with_device(h: HostText, side: Side, device: Seq<char>) -> HostText {
    HostText {
        audio: match side {
            Side::Capture => AudioText { capture_device: Some(device), ..h.audio },
            Side::Playback => AudioText { playback_device: Some(device), ..h.audio },
        },
        edits: with_edit(h.edits, side.device_key(), quoted(device)),
        ..h
    }
}

/// The check with another command.
pub open spec fn with_cmd(h: HostText, side: Side, argv: Seq<Seq<char>>) -> HostText {
    HostText {
        audio: match side {
            Side::Capture => AudioText { capture_cmd: Some(argv), ..h.audio },
            Side::Playback => AudioText { playback_cmd: Some(argv), ..h.audio },
        },
        edits: with_edit(
            h.edits,
            side.cmd_key(),
            "["@ + joined(all_quoted(argv), ", "@) + "]"@,
        ),
        ..h
    }
}

/// The arguments with one device replaced.
pub open spec fn renamed_once(argv: Seq<Seq<char>>, r: RenameText) -> Seq<Seq<char>> {
    argv.map_values(
        |a: Seq<char>|
            if a == r.from {
                r.to
            } else {
                a
            },
    )
}

/// The arguments with all devices replaced, in turn, and whether any was among them.
pub open spec fn renamed(argv: Seq<Seq<char>>, renames: Seq<RenameText>) -> (Seq<Seq<char>>, bool)
    decreases renames.len(),
{
    if renames.len() == 0 {
        (argv, false)
    } else {
        let (now, some) = renamed(argv, renames.drop_last());
        (renamed_once(now, renames.last()), some || now.contains(renames.last().from))
    }
}

// ---------------------------------------------------------------------------
// Devices
// ---------------------------------------------------------------------------

/// The devices of one direction.
pub open spec fn usable(devices: Seq<DeviceText>, side: Side) -> Seq<DeviceText>
    decreases devices.len(),
{
    if devices.len() == 0 {
        Seq::empty()
    } else {
        let rest = usable(devices.drop_last(), side);
        let d = devices.last();
        if (side is Capture && d.input) || (side is Playback && d.output) {
            rest.push(d)
        } else {
            rest
        }
    }
}

/// Whether one of the devices has a value.
pub open spec fn offers(devices: Seq<DeviceText>, value: Seq<char>) -> bool {
    exists|i: int| 0 <= i < devices.len() && (#[trigger] devices[i]).value == value
}

/// The lines of a menu.
pub open spec fn menu(devices: Seq<DeviceText>) -> Seq<Seq<char>> {
    Seq::new(
        devices.len(),
        |i: int| "  "@ + decimal((i + 1) as nat) + ") "@ + devices[i].label,
    )
}

/// What an answer picks from a menu: nothing where it is empty, the device of a number on the
/// menu, and otherwise what was typed.
pub open spec fn picked(answer: Seq<char>, devices: Seq<DeviceText>) -> Option<Seq<char>> {
    if answer.len() == 0 {
        None
    } else {
        match parsed_up_to(answer, u64::MAX as nat) {
            Some(n) => if 1 <= n <= devices.len() {
                Some(devices[n - 1].value)
            } else {
                Some(answer)
            },
            None => Some(answer),
        }
    }
}

/// The hint for a virtual device that is not there.
pub open spec fn blackhole_hint(macos: bool, current: Seq<char>) -> Seq<Seq<char>> {
    if macos && contains_text(current, "BlackHole"@) {
        seq![
            "\""@ + current + "\" is a BlackHole virtual device — install with: brew install "@ + (
            if contains_text(current, "16ch"@) {
                "blackhole-16ch"@
            } else {
                "blackhole-2ch"@
            }),
        ]
    } else {
        Seq::empty()
    }
}

/// One device of the settings: what is printed, and whether the user picks from a menu.
pub open spec fn device_result(h: HostText, side: Side) -> (Seq<Seq<char>>, bool) {
    let key = side.device_key();
    match device_of(h.audio, side) {
        None => (Seq::empty(), false),
        Some(current) => {
            let here = usable(h.devices, side);
            if offers(here, current) {
                (seq![key + " \""@ + current + "\" ✓"@], false)
            } else {
                let hint = blackhole_hint(h.macos, current);
                if here.len() == 0 {
                    (
                        hint.push(
                            key + " \""@ + current
                                + "\" not found (no usable device detected — kept)"@,
                        ),
                        false,
                    )
                } else {
                    (
                        hint.push(
                            key + " \""@ + current + "\" not found on this machine. Detected "@ + (
                            match side {
                                Side::Capture => "input devices"@,
                                Side::Playback => "output devices"@,
                            }) + ":"@,
                        ) + menu(here),
                        true,
                    )
                }
            }
        },
    }
}

/// The check after a pick from the menu.
pub open spec fn with_pick(h: HostText, side: Side, answer: Seq<char>) -> HostText {
    match (picked(answer, usable(h.devices, side)), device_of(h.audio, side)) {
        (Some(new), Some(current)) => if new != current {
            HostText {
                renames: h.renames.push(RenameText { from: current, to: new }),
                ..with_device(h, side, new)
            }
        } else {
            h
        },
        _ => h,
    }
}

// ---------------------------------------------------------------------------
// Programs
// ---------------------------------------------------------------------------

/// The package that provides a program, where a package manager has it.
pub open spec fn package_of(tool: Seq<char>, macos: bool) -> Option<Seq<char>> {
    if tool == "sox"@ || tool == "play"@ || tool == "rec"@ {
        Some("sox"@)
    } else if tool == "ffmpeg"@ || tool == "ffplay"@ {
        Some("ffmpeg"@)
    } else if (tool == "arecord"@ || tool == "aplay"@) && !macos {
        Some("alsa-utils"@)
    } else {
        None
    }
}

/// The command that installs a package, where a package manager is there: most of them are run
/// through `sudo` by those who are not root.
pub open spec fn install_cmd(macos: bool, root: bool, f: Finds, pkg: Seq<char>) -> Option<Seq<Seq<char>>> {
    if macos {
        if f.brew {
            Some(seq!["brew"@, "install"@, pkg])
        } else {
            None
        }
    } else {
        let cmd = if f.apt {
            Some(seq!["apt-get"@, "install"@, "-y"@, pkg])
        } else if f.dnf {
            Some(seq!["dnf"@, "install"@, "-y"@, pkg])
        } else if f.pacman {
            Some(seq!["pacman"@, "-S"@, "--noconfirm"@, pkg])
        } else if f.zypper {
            Some(seq!["zypper"@, "install"@, "-y"@, pkg])
        } else {
            None
        };
        match cmd {
            Some(c) => if root {
                Some(c)
            } else {
                Some(seq!["sudo"@] + c)
            },
            None => None,
        }
    }
}

/// What is said where no package manager is there.
pub open spec fn by_hand(macos: bool, pkg: Seq<char>) -> Seq<char> {
    if macos {
        "install it manually (e.g. install Homebrew, then: brew install "@ + pkg + ")"@
    } else {
        "install it manually with your distro's package manager (package: "@ + pkg + ")"@
    }
}

/// The question before a command installs something.
pub open spec fn install_question(cmd: Seq<Seq<char>>) -> Seq<char> {
    "install now with `"@ + joined(cmd, " "@) + "`? [y/N]: "@
}

/// Whether the program of a command is there.
pub open spec fn is_there(argv0: Seq<char>, t: ToolFinds) -> bool {
    if is_rooted(argv0) {
        t.at_path
    } else {
        t.on_path
    }
}

/// The package that provides the program of a command.
pub open spec fn package_for_cmd(argv0: Seq<char>, macos: bool) -> Option<Seq<char>> {
    match base_name(argv0) {
        Some(b) => package_of(b, macos),
        None => None,
    }
}

/// The program of one pinned command: what is printed, and what is asked, with what the answer
/// is then for.
pub open spec fn program_result(h: HostText, side: Side, argv0: Seq<char>, f: Finds) -> (
    Seq<Seq<char>>,
    Option<(StageText, Seq<char>)>,
) {
    let key = side.cmd_key();
    let t = finds_of(f, side);
    if is_there(argv0, t) {
        (seq![key + " tool "@ + argv0 + " ✓"@], None)
    } else if t.base is Some {
        let found = t.base->0@;
        (
            Seq::empty(),
            Some(
                (
                    StageText::Use(side, found),
                    key + " tool "@ + argv0 + " not found, but "@ + found
                        + " exists — use it? [y/N]: "@,
                ),
            ),
        )
    } else {
        let said = seq![key + " tool "@ + argv0 + " not found on this machine"@];
        match package_for_cmd(argv0, h.macos) {
            None => (
                said.push("no known package provides `"@ + argv0 + "` — install it manually"@),
                None,
            ),
            Some(pkg) => match install_cmd(h.macos, h.root, f, pkg) {
                None => (said.push(by_hand(h.macos, pkg)), None),
                Some(cmd) => (
                    said,
                    Some((StageText::Offer(Some(side), cmd), install_question(cmd))),
                ),
            },
        }
    }
}

/// One pinned command: devices that were replaced are replaced in it, and its program is looked
/// for. The check, what is printed, and what is asked.
pub open spec fn tool_result(h: HostText, side: Side, f: Finds) -> (
    HostText,
    Seq<Seq<char>>,
    Option<(StageText, Seq<char>)>,
) {
    match cmd_of(h.audio, side) {
        None => (h, Seq::empty(), None),
        Some(argv) => {
            let (now, changed) = renamed(argv, h.renames);
            let g = if changed {
                with_cmd(h, side, now)
            } else {
                h
            };
            let (said, ask) = program_result(g, side, now[0], f);
            (g, said, ask)
        },
    }
}

/// The check with the program of a pinned command at another path.
pub open spec fn with_program(h: HostText, side: Side, path: Seq<char>) -> HostText {
    match cmd_of(h.audio, side) {
        Some(argv) => with_cmd(h, side, argv.update(0, path)),
        None => h,
    }
}

/// The directions for which no command is pinned and no program is there.
pub open spec fn lacking(h: HostText, f: Finds) -> Seq<Seq<char>> {
    (if cmd_of(h.audio, Side::Capture) is None && !f.any_capture {
        seq![
            if h.macos {
                "capture (sox/ffmpeg)"@
            } else {
                "capture (arecord/ffmpeg/sox)"@
            },
        ]
    } else {
        Seq::empty()
    }) + (if cmd_of(h.audio, Side::Playback) is None && !f.any_playback {
        seq![
            if h.macos {
                "playback (afplay/ffplay/play)"@
            } else {
                "playback (aplay/ffplay/play)"@
            },
        ]
    } else {
        Seq::empty()
    })
}

// ---------------------------------------------------------------------------
// The course of the check
// ---------------------------------------------------------------------------

/// The check waits for an answer.
pub open spec fn asked(h: HostText, stage: StageText, lines: Seq<Seq<char>>, q: Seq<char>) -> (
    HostText,
    MoveText,
) {
    (HostText { stage, ..h }, MoveText { lines, next: NextText::Ask(q) })
}

/// The check is over.
pub open spec fn over(h: HostText, lines: Seq<Seq<char>>) -> (HostText, MoveText) {
    (HostText { stage: StageText::Over, ..h }, MoveText { lines, next: NextText::Done })
}

/// From the programs that the daemon will look for itself.
pub open spec fn from_unpinned(h: HostText, f: Finds, lines: Seq<Seq<char>>) -> (HostText, MoveText) {
    let missing = lacking(h, f);
    if missing.len() == 0 {
        over(h, lines)
    } else {
        let said = lines.push(
            "no audio "@ + joined(missing, " or "@) + " tool found on this machine"@,
        );
        let pkg = if h.macos {
            "sox"@
        } else {
            "alsa-utils"@
        };
        match install_cmd(h.macos, h.root, f, pkg) {
            None => over(h, said.push(by_hand(h.macos, pkg))),
            Some(cmd) => asked(h, StageText::Offer(None, cmd), said, install_question(cmd)),
        }
    }
}

/// From the playback command.
pub open spec fn from_playback_cmd(h: HostText, f: Finds, lines: Seq<Seq<char>>) -> (
    HostText,
    MoveText,
) {
    let (g, said, ask) = tool_result(h, Side::Playback, f);
    match ask {
        Some((stage, q)) => asked(g, stage, lines + said, q),
        None => from_unpinned(g, f, lines + said),
    }
}

/// From the capture command.
pub open spec fn from_capture_cmd(h: HostText, f: Finds, lines: Seq<Seq<char>>) -> (
    HostText,
    MoveText,
) {
    let (g, said, ask) = tool_result(h, Side::Capture, f);
    match ask {
        Some((stage, q)) => asked(g, stage, lines + said, q),
        None => from_playback_cmd(g, f, lines + said),
    }
}

/// What follows the command of one direction.
pub open spec fn past_cmd(h: HostText, side: Side, f: Finds, lines: Seq<Seq<char>>) -> (
    HostText,
    MoveText,
) {
    match side {
        Side::Capture => from_playback_cmd(h, f, lines),
        Side::Playback => from_unpinned(h, f, lines),
    }
}

/// From the playback device.
pub open spec fn from_playback_device(h: HostText, f: Finds, lines: Seq<Seq<char>>) -> (
    HostText,
    MoveText,
) {
    let (said, ask) = device_result(h, Side::Playback);
    if ask {
        asked(h, StageText::Device(Side::Playback), lines + said, PICK@)
    } else {
        from_capture_cmd(h, f, lines + said)
    }
}

/// From the capture device.
pub open spec fn from_capture_device(h: HostText, f: Finds, lines: Seq<Seq<char>>) -> (
    HostText,
    MoveText,
) {
    let (said, ask) = device_result(h, Side::Capture);
    if ask {
        asked(h, StageText::Device(Side::Capture), lines + said, PICK@)
    } else {
        from_playback_device(h, f, lines + said)
    }
}

/// What follows the device of one direction.
pub open spec fn past_device(h: HostText, side: Side, f: Finds) -> (HostText, MoveText) {
    match side {
        Side::Capture => from_playback_device(h, f, Seq::empty()),
        Side::Playback => from_capture_cmd(h, f, Seq::empty()),
    }
}

/// What is said where no device is there at all.
pub open spec fn no_devices(macos: bool) -> Seq<char> {
    "no audio devices detected — plug in the USB sound card"@ + (if macos {
        ", or for virtual audio: brew install blackhole-2ch blackhole-16ch"@
    } else {
        "; check `cat /proc/asound/cards`, load snd-usb-audio, and make sure your user is in the `audio` group"@
    })
}

/// From the devices.
pub open spec fn from_devices(h: HostText, f: Finds, lines: Seq<Seq<char>>) -> (HostText, MoveText) {
    from_capture_device(
        h,
        f,
        if h.devices.len() == 0 {
            lines.push(no_devices(h.macos))
        } else {
            lines
        },
    )
}

/// The check begins.
pub open spec fn begun(h: HostText, f: Finds) -> (HostText, MoveText) {
    let lines = seq!["\nchecking this machine against the imported config…"@];
    match h.audio.record_dir {
        Some(current) => asked(
            h,
            StageText::RecordDir,
            lines,
            "record_dir ["@ + current + "] (Enter to keep, or type a new path): "@,
        ),
        None => from_devices(h, f, lines),
    }
}

/// The check after an answer on the folder for recordings.
pub open spec fn redirected(h: HostText, answer: Seq<char>) -> HostText {
    if answer.len() > 0 && Some(answer) != h.audio.record_dir {
        with_record_dir(h, resolved_under(Some(h.folder), answer))
    } else {
        h
    }
}

/// The check goes on with an answer.
pub open spec fn answered(h: HostText, answer: Seq<char>, f: Finds) -> (HostText, MoveText) {
    match h.stage {
        StageText::RecordDir => from_devices(redirected(h, answer), f, Seq::empty()),
        StageText::Device(side) => past_device(with_pick(h, side, answer), side, f),
        StageText::Use(side, found) => past_cmd(
            if says_yes(answer) {
                with_program(h, side, found)
            } else {
                h
            },
            side,
            f,
            Seq::empty(),
        ),
        StageText::Offer(tool, cmd) => if says_yes(answer) {
            (
                HostText { stage: StageText::Install(tool), ..h },
                MoveText { lines: Seq::empty(), next: NextText::Run(cmd) },
            )
        } else {
            match tool {
                Some(side) => past_cmd(h, side, f, Seq::empty()),
                None => over(h, Seq::empty()),
            }
        },
        _ => over(h, Seq::empty()),
    }
}

/// The check after the program of a command was installed: the command as it is from now on, and
/// what is printed.
pub open spec fn installed_program(h: HostText, side: Side, f: Finds) -> (HostText, Seq<char>) {
    let key = side.cmd_key();
    let argv0 = match cmd_of(h.audio, side) {
        Some(argv) => argv[0],
        None => Seq::empty(),
    };
    let t = finds_of(f, side);
    if is_rooted(argv0) && t.at_path {
        (h, key + " tool "@ + argv0 + " ✓ (installed)"@)
    } else if t.base is Some {
        (with_program(h, side, t.base->0@), key + " tool installed at "@ + t.base->0@ + " ✓"@)
    } else {
        (h, key + " tool still not found after the install — fix the config manually"@)
    }
}

/// The check goes on after a command ended, `status` telling how.
pub open spec fn ended(h: HostText, success: bool, status: Seq<char>, f: Finds) -> (HostText, MoveText) {
    let said = if success {
        Seq::empty()
    } else {
        seq!["install failed ("@ + status + ") — continuing; fix the config later"@]
    };
    match h.stage {
        StageText::Install(Some(side)) => if success {
            let (g, line) = installed_program(h, side, f);
            past_cmd(g, side, f, seq![line])
        } else {
            past_cmd(h, side, f, said)
        },
        StageText::Install(None) => over(h, said),
        _ => over(h, Seq::empty()),
    }
}

/// The question of a menu.
pub const PICK: &'static str = "pick a number, type a device name, or Enter to keep as-is: ";

// ---------------------------------------------------------------------------
// Running the check
// ---------------------------------------------------------------------------

/// The edits with the one of a key put in place of any earlier one.
fn put_edit(edits: &mut Vec<Edit>, key: &str, value: String)
    ensures
        edit_views(final(edits)@) == with_edit(edit_views(old(edits)@), key@, value@),
{
    let ghost all = edit_views(edits@);
    let ghost given = edits@;
    let mut rest: Vec<Edit> = Vec::new();
    std::mem::swap(&mut rest, edits);
    let total: usize = rest.len();
    let mut i: usize = 0;
    assert(edit_views(edits@) =~= without_edits(all.take(0), key@));
    while i < total
        invariant
            i <= total,
            total == given.len(),
            all == edit_views(given),
            rest@ == given.skip(i as int),
            edit_views(edits@) == without_edits(all.take(i as int), key@),
        decreases total - i,
    {
        let ghost before = edit_views(edits@);
        let e = rest.remove(0);
        proof {
            assert(e == given[i as int]);
            assert(rest@ =~= given.skip(i + 1));
            assert(all.take(i + 1).drop_last() =~= all.take(i as int));
            assert(all.take(i + 1).last() == e@);
        }
        if !text::same(&e.key, key) {
            edits.push(e);
            assert(edit_views(edits@) =~= before.push(e@));
        }
        i += 1;
    }
    assert(all.take(i as int) =~= all);
    let ghost before = edit_views(edits@);
    let e = Edit { key: key.to_owned(), value };
    edits.push(e);
    assert(edit_views(edits@) =~= before.push(e@));
}

/// Replaces one device in the arguments; whether it was among them.
fn rename_once(argv: &mut Vec<String>, r: &Rename) -> (some: bool)
    ensures
        views(final(argv)@) == renamed_once(views(old(argv)@), r@),
        some == views(old(argv)@).contains(r.from@),
{
    let ghost all = views(argv@);
    let mut some = false;
    let mut i: usize = 0;
    let total: usize = argv.len();
    while i < total
        invariant
            i <= total,
            total == argv@.len(),
            all.len() == argv@.len(),
            forall|k: int| i <= k < total ==> (#[trigger] argv@[k])@ == all[k],
            forall|k: int| 0 <= k < i ==> (#[trigger] argv@[k])@ == renamed_once(all, r@)[k],
            some == all.take(i as int).contains(r.from@),
        decreases total - i,
    {
        proof {
            let a = all.take(i as int);
            let b = all.take(i + 1);
            assert(b =~= a.push(all[i as int]));
            if a.contains(r.from@) {
                let k = choose|k: int| 0 <= k < a.len() && a[k] == r.from@;
                assert(b[k] == r.from@);
            }
            if b.contains(r.from@) && all[i as int] != r.from@ {
                let k = choose|k: int| 0 <= k < b.len() && b[k] == r.from@;
                assert(a[k] == r.from@);
            }
            assert(b[i as int] == all[i as int]);
            assert(argv@[i as int]@ == all[i as int]);
        }
        if text::same(&argv[i], &r.from) {
            argv.set(i, r.to.clone());
            some = true;
        }
        i += 1;
    }
    proof {
        assert(all.take(i as int) =~= all);
        assert(views(argv@) =~= renamed_once(all, r@));
    }
    some
}

/// Replaces all devices in the arguments, in turn; whether any was among them.
fn rename_all(argv: &mut Vec<String>, renames: &Vec<Rename>) -> (some: bool)
    ensures
        (views(final(argv)@), some) == renamed(views(old(argv)@), rename_texts(renames@)),
{
    let ghost all = rename_texts(renames@);
    let ghost a0 = views(argv@);
    let mut some = false;
    let mut i: usize = 0;
    while i < renames.len()
        invariant
            i <= renames.len(),
            all == rename_texts(renames@),
            (views(argv@), some) == renamed(a0, all.take(i as int)),
        decreases renames.len() - i,
    {
        proof {
            assert(all.take(i + 1).drop_last() =~= all.take(i as int));
            assert(all.take(i + 1).last() == renames@[i as int]@);
        }
        if rename_once(argv, &renames[i]) {
            some = true;
        }
        i += 1;
    }
    assert(all.take(i as int) =~= all);
    some
}

/// The devices of one direction, by their places.
fn usable_at(devices: &Vec<AudioDevice>, side: Side) -> (r: Vec<usize>)
    ensures
        r@.len() == usable(device_texts(devices@), side).len(),
        forall|k: int| 0 <= k < r@.len() ==> (#[trigger] r@[k]) < devices@.len(),
        forall|k: int|
            0 <= k < r@.len() ==> devices@[(#[trigger] r@[k]) as int]@ == usable(
                device_texts(devices@),
                side,
            )[k],
{
    let ghost all = device_texts(devices@);
    let mut out: Vec<usize> = Vec::new();
    let mut i: usize = 0;
    while i < devices.len()
        invariant
            i <= devices.len(),
            all == device_texts(devices@),
            out@.len() == usable(all.take(i as int), side).len(),
            forall|k: int| 0 <= k < out@.len() ==> (#[trigger] out@[k]) < devices@.len(),
            forall|k: int|
                0 <= k < out@.len() ==> devices@[(#[trigger] out@[k]) as int]@ == usable(
                    all.take(i as int),
                    side,
                )[k],
        decreases devices.len() - i,
    {
        proof {
            assert(all.take(i + 1).drop_last() =~= all.take(i as int));
            assert(all.take(i + 1).last() == devices@[i as int]@);
        }
        let fits = match side {
            Side::Capture => devices[i].input,
            Side::Playback => devices[i].output,
        };
        if fits {
            out.push(i);
        }
        i += 1;
    }
    assert(all.take(i as int) =~= all);
    out
}

/// What an answer picks from the devices of one direction.
pub fn pick(answer: &str, devices: &Vec<AudioDevice>, side: Side) -> (r: Option<String>)
    ensures
        opt_view(r) == picked(answer@, usable(device_texts(devices@), side)),
{
    if answer.is_empty() {
        return None;
    }
    let at = usable_at(devices, side);
    if let Some(n) = text::parse_u64(answer) {
        if 1 <= n && n <= at.len() as u64 {
            let k: usize = (n - 1) as usize;
            let j: usize = at[k];
            return Some(devices[j].value.clone());
        }
    }
    Some(answer.to_owned())
}

/// The package that provides a program, where a package manager has it.
pub fn package_for(tool: &str, macos: bool) -> (r: Option<&'static str>)
    ensures
        (match r {
            Some(p) => Some(p@),
            None => None,
        }) == package_of(tool@, macos),
{
    if text::same(tool, "sox") || text::same(tool, "play") || text::same(tool, "rec") {
        Some("sox")
    } else if text::same(tool, "ffmpeg") || text::same(tool, "ffplay") {
        Some("ffmpeg")
    } else if (text::same(tool, "arecord") || text::same(tool, "aplay")) && !macos {
        Some("alsa-utils")
    } else {
        None
    }
}

fn four(a: &str, b: &str, c: &str, d: &str) -> (r: Vec<String>)
    ensures
        views(r@) == seq![a@, b@, c@, d@],
{
    let r = vec![a.to_owned(), b.to_owned(), c.to_owned(), d.to_owned()];
    assert(views(r@) =~= seq![a@, b@, c@, d@]);
    r
}

/// The command that installs a package, where a package manager is there.
pub fn install_command(macos: bool, root: bool, f: &Finds, pkg: &str) -> (r: Option<Vec<String>>)
    ensures
        list_view(r) == install_cmd(macos, root, *f, pkg@),
{
    if macos {
        if !f.brew {
            return None;
        }
        let r = vec!["brew".to_owned(), "install".to_owned(), pkg.to_owned()];
        assert(views(r@) =~= seq!["brew"@, "install"@, pkg@]);
        return Some(r);
    }
    let mut cmd = if f.apt {
        four("apt-get", "install", "-y", pkg)
    } else if f.dnf {
        four("dnf", "install", "-y", pkg)
    } else if f.pacman {
        four("pacman", "-S", "--noconfirm", pkg)
    } else if f.zypper {
        four("zypper", "install", "-y", pkg)
    } else {
        return None;
    };
    if !root {
        let ghost c = views(cmd@);
        cmd.insert(0, "sudo".to_owned());
        assert(views(cmd@) =~= seq!["sudo"@] + c);
    }
    Some(cmd)
}

fn say_by_hand(macos: bool, pkg: &str) -> (r: String)
    ensures
        r@ == by_hand(macos, pkg@),
{
    if macos {
        text::cat3("install it manually (e.g. install Homebrew, then: brew install ", pkg, ")")
    } else {
        text::cat3("install it manually with your distro's package manager (package: ", pkg, ")")
    }
}

fn ask_install(cmd: &Vec<String>) -> (r: String)
    ensures
        r@ == install_question(views(cmd@)),
{
    text::cat3("install now with `", &text::join(cmd, " "), "`? [y/N]: ")
}

/// Adds a line to what is printed.
fn say(lines: &mut Vec<String>, line: String)
    ensures
        views(final(lines)@) == views(old(lines)@).push(line@),
{
    proof {
        text::lemma_views_push(lines@, line);
    }
    lines.push(line);
}

impl Precheck {
    /// A check of imported settings. `edits` are those that the import made already.
    pub fn new(
        audio: AudioSettings,
        edits: Vec<Edit>,
        folder: &str,
        devices: Vec<AudioDevice>,
        macos: bool,
        root: bool,
    ) -> (r: Self)
        ensures
            r@ == (HostText {
                audio: audio@,
                edits: edit_views(edits@),
                renames: Seq::empty(),
                folder: folder@,
                devices: device_texts(devices@),
                macos,
                root,
                stage: StageText::Over,
            }),
    {
        let r = Precheck {
            audio,
            edits,
            renames: Vec::new(),
            folder: folder.to_owned(),
            devices,
            macos,
            root,
            stage: Stage::Over,
        };
        assert(rename_texts(r.renames@) =~= Seq::<RenameText>::empty());
        r
    }

    fn ask(&mut self, stage: Stage, lines: Vec<String>, q: String) -> (r: Move)
        ensures
            (final(self)@, r@) == asked(old(self)@, stage@, views(lines@), q@),
    {
        self.stage = stage;
        Move { lines, next: Next::Ask(q) }
    }

    fn finish(&mut self, lines: Vec<String>) -> (r: Move)
        ensures
            (final(self)@, r@) == over(old(self)@, views(lines@)),
    {
        self.stage = Stage::Over;
        Move { lines, next: Next::Done }
    }

    fn device(&self, side: Side) -> (r: Option<String>)
        ensures
            opt_view(r) == device_of(self@.audio, side),
    {
        match side {
            Side::Capture => text::copy_opt(&self.audio.capture_device),
            Side::Playback => text::copy_opt(&self.audio.playback_device),
        }
    }

    fn cmd(&self, side: Side) -> (r: Option<Vec<String>>)
        ensures
            list_view(r) == cmd_of(self@.audio, side),
            r matches Some(v) ==> v@.len() > 0,
    {
        let c = match side {
            Side::Capture => &self.audio.capture_cmd,
            Side::Playback => &self.audio.playback_cmd,
        };
        match c {
            Some(argv) => if argv.len() > 0 {
                let v = text::copy_list(argv);
                assert(views(v@).len() == views(argv@).len());
                Some(v)
            } else {
                None
            },
            None => None,
        }
    }

    fn set_device(&mut self, side: Side, device: &str)
        ensures
            final(self)@ == with_device(old(self)@, side, device@),
    {
        match side {
            Side::Capture => {
                self.audio.capture_device = Some(device.to_owned());
            },
            Side::Playback => {
                self.audio.playback_device = Some(device.to_owned());
            },
        }
        put_edit(&mut self.edits, side.device_name(), rewrite::yaml_quote(device));
    }

    fn set_cmd(&mut self, side: Side, argv: Vec<String>)
        ensures
            final(self)@ == with_cmd(old(self)@, side, views(argv@)),
    {
        let value = rewrite::yaml_flow(&argv);
        match side {
            Side::Capture => {
                self.audio.capture_cmd = Some(argv);
            },
            Side::Playback => {
                self.audio.playback_cmd = Some(argv);
            },
        }
        put_edit(&mut self.edits, side.cmd_name(), value);
    }

    fn set_program(&mut self, side: Side, path: &str)
        ensures
            final(self)@ == with_program(old(self)@, side, path@),
    {
        if let Some(mut argv) = self.cmd(side) {
            let ghost before = views(argv@);
            argv.set(0, path.to_owned());
            assert(views(argv@) =~= before.update(0, path@));
            self.set_cmd(side, argv);
        }
    }

    fn offers_device(&self, at: &Vec<usize>, side: Side, current: &str) -> (r: bool)
        requires
            at@.len() == usable(self@.devices, side).len(),
            forall|k: int| 0 <= k < at@.len() ==> (#[trigger] at@[k]) < self.devices@.len(),
            forall|k: int|
                0 <= k < at@.len() ==> self.devices@[(#[trigger] at@[k]) as int]@ == usable(
                    self@.devices,
                    side,
                )[k],
        ensures
            r == offers(usable(self@.devices, side), current@),
    {
        let ghost here = usable(self@.devices, side);
        let mut i: usize = 0;
        while i < at.len()
            invariant
                i <= at.len(),
                at@.len() == here.len(),
                forall|k: int| 0 <= k < at@.len() ==> (#[trigger] at@[k]) < self.devices@.len(),
                forall|k: int|
                    0 <= k < at@.len() ==> self.devices@[(#[trigger] at@[k]) as int]@ == here[k],
                forall|k: int| 0 <= k < i ==> (#[trigger] here[k]).value != current@,
                here == usable(self@.devices, side),
            decreases at.len() - i,
        {
            let j: usize = at[i];
            if text::same(&self.devices[j].value, current) {
                assert(here[i as int].value == current@);
                return true;
            }
            i += 1;
        }
        false
    }

    /// Looks at one device of the settings: what is printed, and whether the user picks from a
    /// menu.
    fn check_device(&self, side: Side) -> (r: (Vec<String>, bool))
        ensures
            (views(r.0@), r.1) == device_result(self@, side),
    {
        let mut lines: Vec<String> = Vec::new();
        assert(views(lines@) =~= Seq::<Seq<char>>::empty());
        let key = side.device_name();
        let current = match self.device(side) {
            Some(c) => c,
            None => {
                return (lines, false);
            },
        };
        let at = usable_at(&self.devices, side);
        let ghost here = usable(self@.devices, side);
        if self.offers_device(&at, side, &current) {
            let mut s = text::cat3(key, " \"", &current);
            s.append("\" ✓");
            say(&mut lines, s);
            assert(views(lines@) =~= seq![key@ + " \""@ + current@ + "\" ✓"@]);
            return (lines, false);
        }
        if self.macos && text::contains(&current, "BlackHole") {
            let mut s = text::cat3(
                "\"",
                &current,
                "\" is a BlackHole virtual device — install with: brew install ",
            );
            if text::contains(&current, "16ch") {
                s.append("blackhole-16ch");
            } else {
                s.append("blackhole-2ch");
            }
            say(&mut lines, s);
        }
        assert(views(lines@) =~= blackhole_hint(self.macos, current@));
        if at.len() == 0 {
            let mut s = text::cat3(key, " \"", &current);
            s.append("\" not found (no usable device detected — kept)");
            say(&mut lines, s);
            return (lines, false);
        }
        let mut s = text::cat3(key, " \"", &current);
        s.append("\" not found on this machine. Detected ");
        match side {
            Side::Capture => {
                s.append("input devices");
            },
            Side::Playback => {
                s.append("output devices");
            },
        }
        s.append(":");
        say(&mut lines, s);
        let ghost head = views(lines@);
        let mut i: usize = 0;
        assert(head + menu(here).take(0) =~= head);
        while i < at.len()
            invariant
                i <= at.len(),
                at@.len() == here.len(),
                forall|k: int| 0 <= k < at@.len() ==> (#[trigger] at@[k]) < self.devices@.len(),
                forall|k: int|
                    0 <= k < at@.len() ==> self.devices@[(#[trigger] at@[k]) as int]@ == here[k],
                views(lines@) == head + menu(here).take(i as int),
            decreases at.len() - i,
        {
            let j: usize = at[i];
            let mut s = text::cat3("  ", &text::decimal_of(i as u64 + 1), ") ");
            s.append(&self.devices[j].label);
            say(&mut lines, s);
            proof {
                assert(menu(here)[i as int] == s@);
                assert(menu(here).take(i + 1) =~= menu(here).take(i as int).push(s@));
                assert((head + menu(here).take(i as int)).push(s@) =~= head + menu(here).take(i + 1));
            }
            i += 1;
        }
        assert(menu(here).take(i as int) =~= menu(here));
        (lines, true)
    }

    /// Looks at the program of one pinned command: what is printed, and what is asked.
    fn check_program(&self, side: Side, argv0: &str, f: &Finds) -> (r: (
        Vec<String>,
        Option<(Stage, String)>,
    ))
        ensures
            views(r.0@) == program_result(self@, side, argv0@, *f).0,
            match (r.1, program_result(self@, side, argv0@, *f).1) {
                (Some((stage, q)), Some((st, qt))) => stage@ == st && q@ == qt,
                (None, None) => true,
                _ => false,
            },
    {
        let mut lines: Vec<String> = Vec::new();
        assert(views(lines@) =~= Seq::<Seq<char>>::empty());
        let key = side.cmd_name();
        let t = match side {
            Side::Capture => &f.capture,
            Side::Playback => &f.playback,
        };
        let there = if paths::rooted(argv0) {
            t.at_path
        } else {
            t.on_path
        };
        if there {
            let mut s = text::cat3(key, " tool ", argv0);
            s.append(" ✓");
            say(&mut lines, s);
            assert(views(lines@) =~= seq![key@ + " tool "@ + argv0@ + " ✓"@]);
            return (lines, None);
        }
        if let Some(found) = &t.base {
            let mut q = text::cat3(key, " tool ", argv0);
            q.append(" not found, but ");
            q.append(found);
            q.append(" exists — use it? [y/N]: ");
            return (lines, Some((Stage::Use(side, found.clone()), q)));
        }
        let mut s = text::cat3(key, " tool ", argv0);
        s.append(" not found on this machine");
        say(&mut lines, s);
        assert(views(lines@) =~= seq![key@ + " tool "@ + argv0@ + " not found on this machine"@]);
        let pkg = match paths::name_of(argv0) {
            Some(b) => package_for(&b, self.macos),
            None => None,
        };
        match pkg {
            None => {
                say(
                    &mut lines,
                    text::cat3("no known package provides `", argv0, "` — install it manually"),
                );
                (lines, None)
            },
            Some(pkg) => match install_command(self.macos, self.root, f, pkg) {
                None => {
                    say(&mut lines, say_by_hand(self.macos, pkg));
                    (lines, None)
                },
                Some(cmd) => {
                    let q = ask_install(&cmd);
                    (lines, Some((Stage::Offer(Some(side), cmd), q)))
                },
            },
        }
    }

    /// Looks at one pinned command: what is printed, and what is asked.
    fn check_cmd(&mut self, side: Side, f: &Finds) -> (r: (Vec<String>, Option<(Stage, String)>))
        ensures
            ({
                let (g, said, ask) = tool_result(old(self)@, side, *f);
                &&& final(self)@ == g
                &&& views(r.0@) == said
                &&& match (r.1, ask) {
                    (Some((stage, q)), Some((st, qt))) => stage@ == st && q@ == qt,
                    (None, None) => true,
                    _ => false,
                }
            }),
    {
        let mut argv = match self.cmd(side) {
            Some(v) => v,
            None => {
                let lines: Vec<String> = Vec::new();
                assert(views(lines@) =~= Seq::<Seq<char>>::empty());
                return (lines, None);
            },
        };
        let ghost before = views(argv@);
        let changed = rename_all(&mut argv, &self.renames);
        proof {
            lemma_renamed_len(before, self@.renames);
            assert(views(argv@).len() == before.len());
            assert(before.len() > 0);
            assert(argv@.len() > 0);
            assert(views(argv@)[0] == argv@[0]@);
        }
        let argv0 = argv[0].clone();
        if changed {
            self.set_cmd(side, argv);
        }
        self.check_program(side, &argv0, f)
    }

    fn go_unpinned(&mut self, f: &Finds, lines: Vec<String>) -> (r: Move)
        ensures
            (final(self)@, r@) == from_unpinned(old(self)@, *f, views(lines@)),
    {
        let mut missing: Vec<String> = Vec::new();
        if self.cmd(Side::Capture).is_none() && !f.any_capture {
            missing.push(
                if self.macos {
                    "capture (sox/ffmpeg)".to_owned()
                } else {
                    "capture (arecord/ffmpeg/sox)".to_owned()
                },
            );
        }
        if self.cmd(Side::Playback).is_none() && !f.any_playback {
            missing.push(
                if self.macos {
                    "playback (afplay/ffplay/play)".to_owned()
                } else {
                    "playback (aplay/ffplay/play)".to_owned()
                },
            );
        }
        proof {
            assert(views(missing@) =~= lacking(self@, *f));
            assert(views(missing@).len() == missing@.len());
        }
        if missing.len() == 0 {
            return self.finish(lines);
        }
        let mut lines = lines;
        say(
            &mut lines,
            text::cat3("no audio ", &text::join(&missing, " or "), " tool found on this machine"),
        );
        let pkg = if self.macos {
            "sox"
        } else {
            "alsa-utils"
        };
        match install_command(self.macos, self.root, f, pkg) {
            None => {
                say(&mut lines, say_by_hand(self.macos, pkg));
                self.finish(lines)
            },
            Some(cmd) => {
                let q = ask_install(&cmd);
                self.ask(Stage::Offer(None, cmd), lines, q)
            },
        }
    }

    fn go_playback_cmd(&mut self, f: &Finds, lines: Vec<String>) -> (r: Move)
        ensures
            (final(self)@, r@) == from_playback_cmd(old(self)@, *f, views(lines@)),
    {
        let (said, ask) = self.check_cmd(Side::Playback, f);
        let lines = append_lines(lines, said);
        match ask {
            Some((stage, q)) => self.ask(stage, lines, q),
            None => self.go_unpinned(f, lines),
        }
    }

    fn go_capture_cmd(&mut self, f: &Finds, lines: Vec<String>) -> (r: Move)
        ensures
            (final(self)@, r@) == from_capture_cmd(old(self)@, *f, views(lines@)),
    {
        let (said, ask) = self.check_cmd(Side::Capture, f);
        let lines = append_lines(lines, said);
        match ask {
            Some((stage, q)) => self.ask(stage, lines, q),
            None => self.go_playback_cmd(f, lines),
        }
    }

    fn go_past_cmd(&mut self, side: Side, f: &Finds, lines: Vec<String>) -> (r: Move)
        ensures
            (final(self)@, r@) == past_cmd(old(self)@, side, *f, views(lines@)),
    {
        match side {
            Side::Capture => self.go_playback_cmd(f, lines),
            Side::Playback => self.go_unpinned(f, lines),
        }
    }

    fn go_playback_device(&mut self, f: &Finds, lines: Vec<String>) -> (r: Move)
        ensures
            (final(self)@, r@) == from_playback_device(old(self)@, *f, views(lines@)),
    {
        let (said, ask) = self.check_device(Side::Playback);
        let lines = append_lines(lines, said);
        if ask {
            self.ask(Stage::Device(Side::Playback), lines, PICK.to_owned())
        } else {
            self.go_capture_cmd(f, lines)
        }
    }

    fn go_capture_device(&mut self, f: &Finds, lines: Vec<String>) -> (r: Move)
        ensures
            (final(self)@, r@) == from_capture_device(old(self)@, *f, views(lines@)),
    {
        let (said, ask) = self.check_device(Side::Capture);
        let lines = append_lines(lines, said);
        if ask {
            self.ask(Stage::Device(Side::Capture), lines, PICK.to_owned())
        } else {
            self.go_playback_device(f, lines)
        }
    }

    fn go_devices(&mut self, f: &Finds, lines: Vec<String>) -> (r: Move)
        ensures
            (final(self)@, r@) == from_devices(old(self)@, *f, views(lines@)),
    {
        let mut lines = lines;
        if self.devices.len() == 0 {
            let mut s = "no audio devices detected — plug in the USB sound card".to_owned();
            if self.macos {
                s.append(", or for virtual audio: brew install blackhole-2ch blackhole-16ch");
            } else {
                s.append(
                    "; check `cat /proc/asound/cards`, load snd-usb-audio, and make sure your user is in the `audio` group",
                );
            }
            say(&mut lines, s);
        }
        self.go_capture_device(f, lines)
    }

    /// Begins the check.
    pub fn start(&mut self, f: &Finds) -> (r: Move)
        ensures
            (final(self)@, r@) == begun(old(self)@, *f),
    {
        let mut lines: Vec<String> = Vec::new();
        say(&mut lines, "\nchecking this machine against the imported config…".to_owned());
        assert(views(lines@) =~= seq!["\nchecking this machine against the imported config…"@]);
        match text::copy_opt(&self.audio.record_dir) {
            Some(current) => {
                let q = text::cat3("record_dir [", &current, "] (Enter to keep, or type a new path): ");
                self.ask(Stage::RecordDir, lines, q)
            },
            None => self.go_devices(f, lines),
        }
    }

    fn stage_copy(&self) -> (r: Stage)
        ensures
            r@ == self@.stage,
    {
        match &self.stage {
            Stage::RecordDir => Stage::RecordDir,
            Stage::Device(s) => Stage::Device(*s),
            Stage::Use(s, p) => Stage::Use(*s, p.clone()),
            Stage::Offer(s, cmd) => Stage::Offer(*s, text::copy_list(cmd)),
            Stage::Install(s) => Stage::Install(*s),
            Stage::Over => Stage::Over,
        }
    }

    fn redirect(&mut self, answer: &str)
        ensures
            final(self)@ == redirected(old(self)@, answer@),
    {
        let fresh = match &self.audio.record_dir {
            Some(current) => !text::same(answer, current),
            None => true,
        };
        if !answer.is_empty() && fresh {
            let dir = paths::resolve_under(Some(self.folder.as_str()), answer);
            put_edit(&mut self.edits, "record_dir", rewrite::yaml_quote(&dir));
            self.audio.record_dir = Some(dir);
        }
    }

    fn take_pick(&mut self, side: Side, answer: &str)
        ensures
            final(self)@ == with_pick(old(self)@, side, answer@),
    {
        let current = match self.device(side) {
            Some(c) => c,
            None => {
                return ;
            },
        };
        if let Some(new) = pick(answer, &self.devices, side) {
            if !text::same(&new, &current) {
                self.set_device(side, &new);
                let ghost before = rename_texts(self.renames@);
                let r = Rename { from: current, to: new };
                self.renames.push(r);
                assert(rename_texts(self.renames@) =~= before.push(r@));
            }
        }
    }

    /// Goes on with the line that the user typed in answer to a question.
    pub fn answer(&mut self, line: &str, f: &Finds) -> (r: Move)
        ensures
            (final(self)@, r@) == answered(old(self)@, trimmed(line@), *f),
    {
        let answer = text::trim(line);
        let none: Vec<String> = Vec::new();
        assert(views(none@) =~= Seq::<Seq<char>>::empty());
        match self.stage_copy() {
            Stage::RecordDir => {
                self.redirect(answer);
                self.go_devices(f, none)
            },
            Stage::Device(side) => {
                self.take_pick(side, answer);
                match side {
                    Side::Capture => self.go_playback_device(f, none),
                    Side::Playback => self.go_capture_cmd(f, none),
                }
            },
            Stage::Use(side, found) => {
                if install::is_yes(answer) {
                    self.set_program(side, &found);
                }
                self.go_past_cmd(side, f, none)
            },
            Stage::Offer(tool, cmd) => {
                if install::is_yes(answer) {
                    self.stage = Stage::Install(tool);
                    return Move { lines: none, next: Next::Run(cmd) };
                }
                match tool {
                    Some(side) => self.go_past_cmd(side, f, none),
                    None => self.finish(none),
                }
            },
            _ => self.finish(none),
        }
    }

    /// Goes on after a command ended, `status` telling how.
    pub fn ran(&mut self, success: bool, status: &str, f: &Finds) -> (r: Move)
        ensures
            (final(self)@, r@) == ended(old(self)@, success, status@, *f),
    {
        let mut lines: Vec<String> = Vec::new();
        assert(views(lines@) =~= Seq::<Seq<char>>::empty());
        let tool = match &self.stage {
            Stage::Install(t) => *t,
            _ => {
                return self.finish(lines);
            },
        };
        if !success {
            say(
                &mut lines,
                text::cat3("install failed (", status, ") — continuing; fix the config later"),
            );
            assert(views(lines@) =~= seq![
                "install failed ("@ + status@ + ") — continuing; fix the config later"@,
            ]);
            return match tool {
                Some(side) => self.go_past_cmd(side, f, lines),
                None => self.finish(lines),
            };
        }
        let side = match tool {
            Some(s) => s,
            None => {
                return self.finish(lines);
            },
        };
        let key = side.cmd_name();
        proof {
            reveal_strlit("");
            assert(""@ =~= Seq::<char>::empty());
        }
        let argv0 = match self.cmd(side) {
            Some(argv) => {
                assert(views(argv@)[0] == argv@[0]@);
                argv[0].clone()
            },
            None => "".to_owned(),
        };
        let t = match side {
            Side::Capture => &f.capture,
            Side::Playback => &f.playback,
        };
        if paths::rooted(&argv0) && t.at_path {
            let mut s = text::cat3(key, " tool ", &argv0);
            s.append(" ✓ (installed)");
            say(&mut lines, s);
        } else if let Some(found) = &t.base {
            self.set_program(side, found);
            let mut s = text::cat3(key, " tool installed at ", found);
            s.append(" ✓");
            say(&mut lines, s);
        } else {
            say(
                &mut lines,
                text::cat(key, " tool still not found after the install — fix the config manually"),
            );
        }
        assert(views(lines@) =~= seq![installed_program(old(self)@, side, *f).1]);
        self.go_past_cmd(side, f, lines)
    }
}

/// Lines followed by others.
fn append_lines(lines: Vec<String>, more: Vec<String>) -> (r: Vec<String>)
    ensures
        views(r@) == views(lines@) + views(more@),
{
    let mut r = lines;
    let mut more = more;
    let ghost a = r@;
    let ghost b = more@;
    r.append(&mut more);
    assert(views(r@) =~= views(a) + views(b));
    r
}

proof fn lemma_renamed_len(argv: Seq<Seq<char>>, renames: Seq<RenameText>)
    ensures
        renamed(argv, renames).0.len() == argv.len(),
    decreases renames.len(),
{
    if renames.len() > 0 {
        lemma_renamed_len(argv, renames.drop_last());
    }
}

/// The package managers that are known.
pub open spec fn managers() -> Seq<Seq<char>> {
    seq!["brew"@, "apt-get"@, "dnf"@, "pacman"@, "zypper"@]
}

/// The names that the program of a pinned command may be found under: as it is written, and by its
/// last part.
pub open spec fn pinned_names(cmd: Option<Seq<Seq<char>>>) -> Seq<Seq<char>> {
    match cmd {
        Some(argv) => match base_name(argv[0]) {
            Some(b) => seq![argv[0], b],
            None => seq![argv[0]],
        },
        None => Seq::empty(),
    }
}

/// Everything that is searched for: the package managers, the tools of the system, and the programs
/// of the pinned commands.
pub open spec fn to_find(a: AudioText, os: Os) -> Seq<Seq<char>> {
    managers() + bins(capture_tools(os)) + bins(playback_tools(os)) + pinned_names(
        cmd_of(a, Side::Capture),
    ) + pinned_names(cmd_of(a, Side::Playback))
}

/// What a search found, where there was one.
pub open spec fn found_at(found: Seq<Option<Seq<char>>>, i: int) -> Option<Seq<char>> {
    if 0 <= i < found.len() {
        found[i]
    } else {
        None
    }
}

/// Whether one of `n` searches, the first of which is that at `from`, found something.
pub open spec fn found_among(found: Seq<Option<Seq<char>>>, from: nat, n: nat) -> bool {
    exists|i: int| from <= i < from + n && #[trigger] found_at(found, i) is Some
}

/// Whether `t` is what the searches for a pinned program, the first of which is that at `from`,
/// found.
pub open spec fn tells_of_tool(
    t: ToolFinds,
    names: Seq<Seq<char>>,
    at_path: bool,
    found: Seq<Option<Seq<char>>>,
    from: nat,
) -> bool {
    &&& t.at_path == at_path
    &&& t.on_path == (names.len() > 0 && found_at(found, from as int) is Some)
    &&& opt_view(t.base) == if names.len() > 1 {
        found_at(found, from as int + 1)
    } else {
        None
    }
}

/// Whether `f` is what the searches for [`to_find`] found, in that order.
pub open spec fn tells_of(
    f: Finds,
    a: AudioText,
    os: Os,
    capture_at_path: bool,
    playback_at_path: bool,
    found: Seq<Option<Seq<char>>>,
) -> bool {
    let n = capture_tools(os).len();
    let m = playback_tools(os).len();
    let c = pinned_names(cmd_of(a, Side::Capture));
    let p = pinned_names(cmd_of(a, Side::Playback));
    &&& f.brew == (found_at(found, 0) is Some)
    &&& f.apt == (found_at(found, 1) is Some)
    &&& f.dnf == (found_at(found, 2) is Some)
    &&& f.pacman == (found_at(found, 3) is Some)
    &&& f.zypper == (found_at(found, 4) is Some)
    &&& f.any_capture == found_among(found, 5, n)
    &&& f.any_playback == found_among(found, 5 + n, m)
    &&& tells_of_tool(f.capture, c, capture_at_path, found, 5 + n + m)
    &&& tells_of_tool(f.playback, p, playback_at_path, found, 5 + n + m + c.len())
}

/// Adds the programs of some tools to a list.
fn add_bins(mut names: Vec<String>, cands: &Vec<Candidate>) -> (r: Vec<String>)
    ensures
        views(r@) == views(names@) + bins(candidate_models(cands@)),
{
    let ghost had = views(names@);
    let ghost all = bins(candidate_models(cands@));
    let mut i: usize = 0;
    assert(had + all.take(0) =~= had);
    while i < cands.len()
        invariant
            i <= cands.len(),
            all == bins(candidate_models(cands@)),
            views(names@) == had + all.take(i as int),
        decreases cands.len() - i,
    {
        let name = cands[i].bin.to_owned();
        proof {
            text::lemma_views_push(names@, name);
            assert(all[i as int] == cands@[i as int]@.bin);
            assert(had + all.take(i + 1) =~= (had + all.take(i as int)).push(all[i as int]));
        }
        names.push(name);
        i += 1;
    }
    assert(all.take(i as int) =~= all);
    names
}

/// The names that the program of a pinned command may be found under.
fn list_pinned(cmd: &Option<Vec<String>>) -> (r: Vec<String>)
    requires
        *cmd matches Some(v) ==> v@.len() > 0,
    ensures
        views(r@) == pinned_names(list_view(*cmd)),
{
    let mut out: Vec<String> = Vec::new();
    if let Some(argv) = cmd {
        assert(views(argv@)[0] == argv@[0]@);
        out.push(argv[0].clone());
        if let Some(base) = paths::name_of(&argv[0]) {
            out.push(base);
        }
    }
    assert(views(out@) =~= pinned_names(list_view(*cmd)));
    out
}

/// Everything that is searched for.
pub fn list_to_find(p: &Precheck, os: Os) -> (r: Vec<String>)
    ensures
        views(r@) == to_find(p@.audio, os),
{
    let mut names: Vec<String> = Vec::new();
    names.push("brew".to_owned());
    names.push("apt-get".to_owned());
    names.push("dnf".to_owned());
    names.push("pacman".to_owned());
    names.push("zypper".to_owned());
    assert(views(names@) =~= managers());
    let names = add_bins(names, &tool_detect::capture_candidates(os));
    let names = add_bins(names, &tool_detect::playback_candidates(os));
    let names = append_lines(names, list_pinned(&p.cmd(Side::Capture)));
    append_lines(names, list_pinned(&p.cmd(Side::Playback)))
}

/// What a search found, where there was one.
fn get_found(found: &Vec<Option<String>>, i: usize) -> (r: Option<String>)
    ensures
        opt_view(r) == found_at(path_views(found@), i as int),
{
    if i < found.len() {
        assert(path_views(found@)[i as int] == opt_view(found@[i as int]));
        text::copy_opt(&found[i])
    } else {
        None
    }
}

fn any_among(found: &Vec<Option<String>>, from: usize, n: usize) -> (r: bool)
    requires
        from + n <= usize::MAX,
    ensures
        r == found_among(path_views(found@), from as nat, n as nat),
{
    let mut i: usize = 0;
    while i < n
        invariant
            i <= n,
            from + n <= usize::MAX,
            forall|j: int|
                from <= j < from + i ==> !(#[trigger] found_at(path_views(found@), j) is Some),
        decreases n - i,
    {
        if get_found(found, from + i).is_some() {
            assert(found_at(path_views(found@), from + i) is Some);
            return true;
        }
        i += 1;
    }
    false
}

fn tool_found(
    names: &Vec<String>,
    at_path: bool,
    found: &Vec<Option<String>>,
    from: usize,
) -> (r: ToolFinds)
    requires
        from < usize::MAX,
    ensures
        tells_of_tool(r, views(names@), at_path, path_views(found@), from as nat),
{
    let on_path = names.len() > 0 && get_found(found, from).is_some();
    let base = if names.len() > 1 {
        get_found(found, from + 1)
    } else {
        None
    };
    ToolFinds { at_path, on_path, base }
}

/// What the check goes by, given what the searches for [`list_to_find`] found, in that order.
/// Whether something is at the path of each pinned command is given.
pub fn finds_from(
    p: &Precheck,
    os: Os,
    capture_at_path: bool,
    playback_at_path: bool,
    found: &Vec<Option<String>>,
) -> (r: Finds)
    ensures
        tells_of(r, p@.audio, os, capture_at_path, playback_at_path, path_views(found@)),
{
    let recorders = tool_detect::capture_candidates(os);
    let players = tool_detect::playback_candidates(os);
    proof {
        assert(candidate_models(recorders@).len() == recorders@.len());
        assert(candidate_models(players@).len() == players@.len());
    }
    let n: usize = recorders.len();
    let m: usize = players.len();
    let pinned_capture = list_pinned(&p.cmd(Side::Capture));
    let pinned_playback = list_pinned(&p.cmd(Side::Playback));
    proof {
        assert(views(pinned_capture@).len() == pinned_capture@.len());
    }
    let k: usize = 5 + n + m;
    Finds {
        capture: tool_found(&pinned_capture, capture_at_path, found, k),
        playback: tool_found(&pinned_playback, playback_at_path, found, k + pinned_capture.len()),
        brew: get_found(found, 0).is_some(),
        apt: get_found(found, 1).is_some(),
        dnf: get_found(found, 2).is_some(),
        pacman: get_found(found, 3).is_some(),
        zypper: get_found(found, 4).is_some(),
        any_capture: any_among(found, 5, n),
        any_playback: any_among(found, 5 + n, m),
    }
}

/// Looks around on the machine for what the check goes by: searches for everything in
/// [`to_find`], in turn. Whether something is at the path of each pinned command is given.
pub fn look_around(
    p: &Precheck,
    os: Os,
    capture_at_path: bool,
    playback_at_path: bool,
    search: &mut Search,
) -> (r: Finds)
    ensures
        old(search).log().is_prefix_of(final(search).log()),
        names(added(old(search).log(), final(search).log())) == to_find(p@.audio, os),
        tells_of(
            r,
            p@.audio,
            os,
            capture_at_path,
            playback_at_path,
            answers(added(old(search).log(), final(search).log())),
        ),
{
    let found = search.find_all(&list_to_find(p, os));
    finds_from(p, os, capture_at_path, playback_at_path, &found)
}

// ---------------------------------------------------------------------------
// Laws
// ---------------------------------------------------------------------------

/// Whether nothing was changed between two states of the check.
pub open spec fn untouched(h: HostText, g: HostText) -> bool {
    g.audio == h.audio && g.edits == h.edits && g.renames == h.renames
}

proof fn lemma_cmds_untouched(h: HostText, f: Finds, lines: Seq<Seq<char>>)
    requires
        h.renames.len() == 0,
    ensures
        untouched(h, from_playback_cmd(h, f, lines).0),
        untouched(h, from_capture_cmd(h, f, lines).0),
        untouched(h, from_unpinned(h, f, lines).0),
{
}

/// Enter keeps everything as it is: where no device was replaced, neither the start of the check
/// nor an empty answer to any of its questions changes a setting or makes an edit.
pub proof fn law_enter_keeps_everything(h: HostText, f: Finds)
    requires
        h.renames.len() == 0,
    ensures
        untouched(h, begun(h, f).0),
        untouched(h, answered(h, Seq::empty(), f).0),
{
    let empty = Seq::<char>::empty();
    reveal_strlit("y");
    reveal_strlit("yes");
    assert(trimmed(empty) =~= empty);
    assert(text::small(empty) =~= empty);
    assert(!says_yes(empty));
    assert forall|g: HostText, lines: Seq<Seq<char>>| untouched(h, g) implies untouched(
        h,
        #[trigger] from_capture_cmd(g, f, lines).0,
    ) && untouched(h, from_playback_cmd(g, f, lines).0) && untouched(h, from_unpinned(g, f, lines).0) by {
        lemma_cmds_untouched(g, f, lines);
    }
    lemma_cmds_untouched(h, f, Seq::empty());
}

/// A device that this machine has is neither asked about nor replaced.
pub proof fn law_devices_that_are_there_stay(h: HostText, side: Side)
    requires
        device_of(h.audio, side) is Some,
        offers(usable(h.devices, side), device_of(h.audio, side)->0),
    ensures
        !device_result(h, side).1,
{
}

/// Each item of the profile that has a name is a device under that name, which can be heard where
/// it has input channels and spoken to where it has output channels.
pub proof fn law_a_profiled_item_is_a_device(items: Seq<ItemText>, it: ItemText)
    ensures
        it.name is None ==> profiled(items.push(it)) == profiled(items),
        it.name is Some ==> {
            let now = profiled(items.push(it));
            &&& now.len() == profiled(items).len() + 1
            &&& now.drop_last() == profiled(items)
            &&& now.last().value == it.name->0
            &&& now.last().label == it.name->0
            &&& now.last().input <==> it.input is Some && it.input->0 > 0
            &&& now.last().output <==> it.output is Some && it.output->0 > 0
        },
        profiled(Seq::empty()).len() == 0,
{
    assert(items.push(it).drop_last() =~= items);
    if it.name is Some {
        assert(profiled(items.push(it)).drop_last() =~= profiled(items));
    }
}

/// A card of the listing is its number and what follows it; a line that does not begin with a
/// number is no card.
pub proof fn law_a_card_is_read_off_its_line(n: u32, rest: Seq<char>, line: Seq<char>)
    requires
        trimmed_start(line) == decimal(n as nat) + seq![' '] + rest,
    ensures
        card_of(line) == Some(CardText { number: n as nat, name: card_name(rest) }),
{
    let d = decimal(n as nat);
    let t = trimmed_start(line);
    text::law_numbers_read_back(n as nat, 0, u32::MAX as nat, 0, 0);
    text::lemma_decimal_value(n as nat);
    let k = d.len() as int;
    assert forall|j: int| 0 <= j < k implies t[j] != ' ' by {
        assert(t[j] == d[j]);
        assert(text::is_digit(d[j]));
    }
    text::lemma_first_at(t, ' ', k);
    assert(t.take(k) =~= d);
    assert(t.skip(k + 1) =~= rest);
}

/// A card's name is what stands behind the last dash between spaces, or all of it without one.
pub proof fn law_a_cards_name_follows_the_last_dash(rest: Seq<char>, k: int)
    requires
        0 <= k,
        occurs_at(rest, " - "@, k),
        forall|j: int| k < j <= rest.len() ==> !occurs_at(rest, " - "@, j),
    ensures
        card_name(rest) == trimmed(rest.skip(k + 3)),
{
    reveal_strlit(" - ");
    lemma_last_text_at(rest, " - "@, rest.len(), k);
}

proof fn lemma_last_text_at(s: Seq<char>, sub: Seq<char>, n: nat, k: int)
    requires
        0 <= k <= n,
        occurs_at(s, sub, k),
        forall|j: int| k < j <= n ==> !occurs_at(s, sub, j),
    ensures
        last_text_at(s, sub, n) == Some(k as nat),
    decreases n,
{
    if n > k {
        assert(!occurs_at(s, sub, n as int));
        lemma_last_text_at(s, sub, (n - 1) as nat, k);
    }
}

/// A card is a device under its number: it can be heard where it has a stream for capture, and
/// spoken to where it has one for playback.
pub proof fn law_a_listed_card_is_a_device(c: CardListing, i: int)
    ensures
        listed_device(c).value == "plughw:"@ + decimal(c.card.number as nat) + ",0"@,
        listed_device(c).label == c.card.name@ + " (card "@ + decimal(c.card.number as nat) + ")"@,
        0 <= i < c.files@.len() && "pcm"@.is_prefix_of(c.files@[i]@) && c.files@[i]@.last() == 'c'
            ==> listed_device(c).input,
        0 <= i < c.files@.len() && "pcm"@.is_prefix_of(c.files@[i]@) && c.files@[i]@.last() == 'p'
            ==> listed_device(c).output,
        listed_device(c).input ==> exists|k: int|
            0 <= k < c.files@.len() && "pcm"@.is_prefix_of((#[trigger] c.files@[k])@)
                && c.files@[k]@.last() == 'c',
        listed_device(c).output ==> exists|k: int|
            0 <= k < c.files@.len() && "pcm"@.is_prefix_of((#[trigger] c.files@[k])@)
                && c.files@[k]@.last() == 'p',
{
    let files = views(c.files@);
    if 0 <= i < c.files@.len() {
        assert(files[i] == c.files@[i]@);
    }
    if lists_stream(files, 'c') {
        let k = choose|k: int|
            0 <= k < files.len() && text::after_prefix(#[trigger] files[k], "pcm"@) is Some
                && files[k].last() == 'c';
        assert(c.files@[k]@ == files[k]);
    }
    if lists_stream(files, 'p') {
        let k = choose|k: int|
            0 <= k < files.len() && text::after_prefix(#[trigger] files[k], "pcm"@) is Some
                && files[k].last() == 'p';
        assert(c.files@[k]@ == files[k]);
    }
}

/// Capture and playback have settings of their own.
pub proof fn law_each_side_has_its_settings(a: AudioText)
    ensures
        Side::Capture.device_key() == "capture_device"@,
        Side::Playback.device_key() == "playback_device"@,
        Side::Capture.cmd_key() == "capture_cmd"@,
        Side::Playback.cmd_key() == "playback_cmd"@,
        device_of(a, Side::Capture) == a.capture_device,
        device_of(a, Side::Playback) == a.playback_device,
        a.capture_cmd is Some && a.capture_cmd->0.len() > 0 ==> cmd_of(a, Side::Capture)
            == a.capture_cmd,
        a.playback_cmd is Some && a.playback_cmd->0.len() > 0 ==> cmd_of(a, Side::Playback)
            == a.playback_cmd,
{
}

/// The settings of a configuration are read under their own names.
pub proof fn law_settings_are_read_under_their_names(doc: Tree)
    ensures
        settings_in(doc).record_dir == audio_text(doc, "record_dir"@),
        settings_in(doc).capture_device == audio_text(doc, "capture_device"@),
        settings_in(doc).playback_device == audio_text(doc, "playback_device"@),
        settings_in(doc).capture_cmd == audio_command(doc, "capture_cmd"@),
        settings_in(doc).playback_cmd == audio_command(doc, "playback_cmd"@),
{
}

/// A setting is changed in the configuration exactly where it is another than before, and to what
/// it is now, under its own name.
pub proof fn law_changed_settings_are_written(was: AudioText, now: AudioText, c: ChangeText)
    ensures
        settings_changes(was, now).contains(c) <==> {
            ||| now.record_dir is Some && now.record_dir != was.record_dir && c == (
            ChangeText::AudioText { key: "record_dir"@, value: now.record_dir->0 })
            ||| now.capture_device is Some && now.capture_device != was.capture_device && c == (
            ChangeText::AudioText { key: "capture_device"@, value: now.capture_device->0 })
            ||| now.playback_device is Some && now.playback_device != was.playback_device && c == (
            ChangeText::AudioText { key: "playback_device"@, value: now.playback_device->0 })
            ||| now.capture_cmd is Some && now.capture_cmd != was.capture_cmd && c == (
            ChangeText::AudioCommand { key: "capture_cmd"@, items: now.capture_cmd->0 })
            ||| now.playback_cmd is Some && now.playback_cmd != was.playback_cmd && c == (
            ChangeText::AudioCommand { key: "playback_cmd"@, items: now.playback_cmd->0 })
        },
{
    let a = text_change("record_dir"@, was.record_dir, now.record_dir);
    let b = text_change("capture_device"@, was.capture_device, now.capture_device);
    let d = text_change("playback_device"@, was.playback_device, now.playback_device);
    let e = command_change("capture_cmd"@, was.capture_cmd, now.capture_cmd);
    let f = command_change("playback_cmd"@, was.playback_cmd, now.playback_cmd);
    let all = settings_changes(was, now);
    assert(all == a + b + d + e + f);
    let x = a.len() as int;
    let y = x + b.len();
    let z = y + d.len();
    let w = z + e.len();
    if a.len() > 0 {
        assert(all[0] == a[0]);
    }
    if b.len() > 0 {
        assert(all[x] == b[0]);
    }
    if d.len() > 0 {
        assert(all[y] == d[0]);
    }
    if e.len() > 0 {
        assert(all[z] == e[0]);
    }
    if f.len() > 0 {
        assert(all[w] == f[0]);
    }
}

/// A setting is edited once, the last time that it is set, and the edits of the others stay.
pub proof fn law_a_setting_is_edited_once(
    edits: Seq<EditText>,
    key: Seq<char>,
    value: Seq<char>,
    e: EditText,
)
    ensures
        with_edit(edits, key, value).last() == (EditText { key, value }),
        e.key != key ==> (with_edit(edits, key, value).contains(e) <==> edits.contains(e)),
        e.key == key ==> (with_edit(edits, key, value).contains(e) <==> e.value == value),
{
    lemma_without_edits(edits, key, e);
    let rest = without_edits(edits, key);
    let now = with_edit(edits, key, value);
    assert(now[rest.len() as int] == (EditText { key, value }));
    if rest.contains(e) {
        let j = choose|j: int| 0 <= j < rest.len() && rest[j] == e;
        assert(now[j] == e);
    }
    if now.contains(e) {
        let j = choose|j: int| 0 <= j < now.len() && now[j] == e;
        if j < rest.len() {
            assert(rest[j] == e);
        }
    }
    if e.key == key && e.value == value {
        assert(now[rest.len() as int] == e);
    }
}

proof fn lemma_without_edits(edits: Seq<EditText>, key: Seq<char>, e: EditText)
    ensures
        without_edits(edits, key).contains(e) <==> edits.contains(e) && e.key != key,
    decreases edits.len(),
{
    if edits.len() > 0 {
        let init = edits.drop_last();
        lemma_without_edits(init, key, e);
        let rest = without_edits(init, key);
        let now = without_edits(edits, key);
        if init.contains(e) {
            let j = choose|j: int| 0 <= j < init.len() && init[j] == e;
            assert(edits[j] == e);
        }
        if edits.contains(e) {
            let j = choose|j: int| 0 <= j < edits.len() && edits[j] == e;
            if j < init.len() {
                assert(init[j] == e);
            }
        }
        assert(edits[edits.len() - 1] == edits.last());
        if edits.last().key != key {
            assert(now[rest.len() as int] == edits.last());
            if rest.contains(e) {
                let j = choose|j: int| 0 <= j < rest.len() && rest[j] == e;
                assert(now[j] == e);
            }
            if now.contains(e) {
                let j = choose|j: int| 0 <= j < now.len() && now[j] == e;
                if j < rest.len() {
                    assert(rest[j] == e);
                }
            }
        }
    }
}

/// Where a recording folder, a device or a command is set, that setting is what was given, the
/// others stay, and the configuration is edited accordingly.
pub proof fn law_what_is_set_is_what_was_given(
    h: HostText,
    dir: Seq<char>,
    device: Seq<char>,
    argv: Seq<Seq<char>>,
)
    ensures
        with_record_dir(h, dir).audio.record_dir == Some(dir),
        with_record_dir(h, dir).audio.capture_device == h.audio.capture_device,
        with_record_dir(h, dir).audio.playback_device == h.audio.playback_device,
        with_record_dir(h, dir).edits.last().key == "record_dir"@,
        with_record_dir(h, dir).edits.last().value == quoted(dir),
        with_device(h, Side::Capture, device).audio.capture_device == Some(device),
        with_device(h, Side::Capture, device).audio.playback_device == h.audio.playback_device,
        with_device(h, Side::Capture, device).edits.last().key == "capture_device"@,
        with_device(h, Side::Capture, device).edits.last().value == quoted(device),
        with_device(h, Side::Playback, device).audio.playback_device == Some(device),
        with_device(h, Side::Playback, device).audio.capture_device == h.audio.capture_device,
        with_device(h, Side::Playback, device).edits.last().key == "playback_device"@,
        with_device(h, Side::Playback, device).edits.last().value == quoted(device),
        with_cmd(h, Side::Capture, argv).audio.capture_cmd == Some(argv),
        with_cmd(h, Side::Capture, argv).audio.playback_cmd == h.audio.playback_cmd,
        with_cmd(h, Side::Capture, argv).edits.last().key == "capture_cmd"@,
        with_cmd(h, Side::Playback, argv).audio.playback_cmd == Some(argv),
        with_cmd(h, Side::Playback, argv).audio.capture_cmd == h.audio.capture_cmd,
        with_cmd(h, Side::Playback, argv).edits.last().key == "playback_cmd"@,
        with_cmd(h, Side::Playback, argv).edits.last().value == "["@ + joined(all_quoted(argv), ", "@)
            + "]"@,
        with_cmd(h, Side::Capture, argv).edits.last().value == "["@ + joined(all_quoted(argv), ", "@)
            + "]"@,
{
}

/// A command follows its devices: wherever it names one that was replaced, it names the new one,
/// and every other word stays.
pub proof fn law_commands_follow_their_devices(argv: Seq<Seq<char>>, r: RenameText, i: int)
    requires
        0 <= i < argv.len(),
    ensures
        renamed(argv, seq![r]).0.len() == argv.len(),
        argv[i] == r.from ==> renamed(argv, seq![r]).0[i] == r.to && renamed(argv, seq![r]).1,
        argv[i] != r.from ==> renamed(argv, seq![r]).0[i] == argv[i],
        renamed(argv, Seq::empty()) == (argv, false),
{
    assert(seq![r].drop_last() =~= Seq::<RenameText>::empty());
    assert(seq![r].last() == r);
    assert(renamed(argv, Seq::<RenameText>::empty()) == (argv, false));
    if argv[i] == r.from {
        assert(argv.contains(argv[i]));
    }
}

/// The devices that can be used are those that can be heard, for capture, or spoken to, for
/// playback.
pub proof fn law_usable_devices_fit_their_side(devices: Seq<DeviceText>, d: DeviceText)
    ensures
        usable(devices.push(d), Side::Capture) == if d.input {
            usable(devices, Side::Capture).push(d)
        } else {
            usable(devices, Side::Capture)
        },
        usable(devices.push(d), Side::Playback) == if d.output {
            usable(devices, Side::Playback).push(d)
        } else {
            usable(devices, Side::Playback)
        },
        usable(Seq::empty(), Side::Capture).len() == 0,
        usable(Seq::empty(), Side::Playback).len() == 0,
{
    assert(devices.push(d).drop_last() =~= devices);
}

/// A number picks the device that the menu shows under it; nothing keeps the setting; and any other
/// answer is taken for a device's name.
pub proof fn law_a_number_picks_its_device(devices: Seq<DeviceText>, n: u64, answer: Seq<char>)
    ensures
        picked(Seq::empty(), devices) is None,
        1 <= n <= devices.len() ==> {
            &&& picked(decimal(n as nat), devices) == Some(devices[n - 1].value)
            &&& menu(devices)[n - 1] == "  "@ + decimal(n as nat) + ") "@ + devices[n - 1].label
        },
        n == 0 || n > devices.len() ==> picked(decimal(n as nat), devices) == Some(
            decimal(n as nat),
        ),
        answer.len() > 0 && parsed_up_to(answer, u64::MAX as nat) is None ==> picked(answer, devices)
            == Some(answer),
        menu(devices).len() == devices.len(),
{
    text::law_numbers_read_back(n as nat, 0, u64::MAX as nat, 0, 0);
    text::lemma_decimal_value(n as nat);
}

/// A device that is set is asked about exactly where it is not among the usable ones and there are
/// some to choose from.
pub proof fn law_a_missing_device_is_asked_about(h: HostText, side: Side)
    ensures
        device_result(h, side).1 <==> {
            &&& device_of(h.audio, side) is Some
            &&& usable(h.devices, side).len() > 0
            &&& forall|i: int|
                0 <= i < usable(h.devices, side).len() ==> (#[trigger] usable(h.devices, side)[i]).value
                    != device_of(h.audio, side)->0
        },
        device_of(h.audio, side) is None ==> device_result(h, side).0.len() == 0,
{
    if device_of(h.audio, side) is Some {
        let here = usable(h.devices, side);
        assert(offers(here, device_of(h.audio, side)->0) <==> exists|i: int|
            0 <= i < here.len() && (#[trigger] here[i]).value == device_of(h.audio, side)->0);
    }
}

/// A device that is picked in place of another is set, and the commands are told of the change; one
/// that is kept changes nothing.
pub proof fn law_a_picked_device_is_set(h: HostText, side: Side, answer: Seq<char>)
    requires
        device_of(h.audio, side) is Some,
    ensures
        answer.len() == 0 ==> with_pick(h, side, answer) == h,
        ({
            let pick = picked(answer, usable(h.devices, side));
            let now = with_pick(h, side, answer);
            pick is Some && pick != device_of(h.audio, side) ==> {
                &&& device_of(now.audio, side) == pick
                &&& now.renames == h.renames.push(
                    RenameText { from: device_of(h.audio, side)->0, to: pick->0 },
                )
            }
        }),
{
}

/// Which package has a tool.
pub proof fn law_tools_come_in_their_packages(macos: bool)
    ensures
        package_of("sox"@, macos) == Some("sox"@),
        package_of("play"@, macos) == Some("sox"@),
        package_of("rec"@, macos) == Some("sox"@),
        package_of("ffmpeg"@, macos) == Some("ffmpeg"@),
        package_of("ffplay"@, macos) == Some("ffmpeg"@),
        package_of("arecord"@, false) == Some("alsa-utils"@),
        package_of("aplay"@, false) == Some("alsa-utils"@),
        package_of("arecord"@, true) is None,
        package_of("aplay"@, true) is None,
{
    reveal_strlit("sox");
    reveal_strlit("play");
    reveal_strlit("rec");
    reveal_strlit("ffmpeg");
    reveal_strlit("ffplay");
    reveal_strlit("arecord");
    reveal_strlit("aplay");
    assert("sox"@.len() == 3 && "rec"@.len() == 3 && "play"@.len() == 4 && "ffmpeg"@.len() == 6);
    assert("ffplay"@.len() == 6 && "arecord"@.len() == 7 && "aplay"@.len() == 5);
    assert("ffmpeg"@[2] == 'm' && "ffplay"@[2] == 'p');
}

/// A package is installed with the manager that is there: the one of macOS there, and elsewhere the
/// first of the known ones, with the rights of root where they are not held.
pub proof fn law_a_package_is_installed_by_its_manager(root: bool, f: Finds, pkg: Seq<char>)
    ensures
        install_cmd(true, root, f, pkg) == if f.brew {
            Some(seq!["brew"@, "install"@, pkg])
        } else {
            None
        },
        ({
            let sudo = if root {
                Seq::<Seq<char>>::empty()
            } else {
                seq!["sudo"@]
            };
            let cmd = install_cmd(false, root, f, pkg);
            &&& f.apt ==> cmd is Some && cmd->0 =~= sudo + seq!["apt-get"@, "install"@, "-y"@, pkg]
            &&& !f.apt && f.dnf ==> cmd is Some && cmd->0 =~= sudo + seq![
                "dnf"@,
                "install"@,
                "-y"@,
                pkg,
            ]
            &&& !f.apt && !f.dnf && f.pacman ==> cmd is Some && cmd->0 =~= sudo + seq![
                "pacman"@,
                "-S"@,
                "--noconfirm"@,
                pkg,
            ]
            &&& !f.apt && !f.dnf && !f.pacman && f.zypper ==> cmd is Some && cmd->0 =~= sudo + seq![
                "zypper"@,
                "install"@,
                "-y"@,
                pkg,
            ]
            &&& !f.apt && !f.dnf && !f.pacman && !f.zypper ==> cmd is None
        }),
{
}

/// A program that is there is left alone. One that is elsewhere is offered from there. One that is
/// nowhere is offered for installation where a package has it and a manager is there.
pub proof fn law_a_missing_program_is_offered(h: HostText, side: Side, argv0: Seq<char>, f: Finds)
    ensures
        ({
            let t = match side {
                Side::Capture => f.capture,
                Side::Playback => f.playback,
            };
            let there = if is_rooted(argv0) {
                t.at_path
            } else {
                t.on_path
            };
            let (said, ask) = program_result(h, side, argv0, f);
            let stage = match ask {
                Some((stage, _)) => stage,
                None => StageText::Over,
            };
            &&& there ==> ask is None && said.len() == 1
            &&& !there && t.base is Some ==> ask is Some && stage == StageText::Use(
                side,
                t.base->0@,
            )
            &&& !there && t.base is None && ask is Some ==> exists|pkg: Seq<char>|
                package_for_cmd(argv0, h.macos) == Some(pkg) && #[trigger] install_cmd(
                    h.macos,
                    h.root,
                    f,
                    pkg,
                ) == Some(stage->Offer_1) && stage->Offer_0 == Some(side)
            &&& !there && t.base is None ==> (ask is Some <==> package_for_cmd(argv0, h.macos) is Some
                && install_cmd(h.macos, h.root, f, package_for_cmd(argv0, h.macos)->0) is Some)
        }),
{
}

/// A yes does what was asked for: it runs the very installation that was offered, or has the command
/// use the program that was found. Anything else leaves the settings as they are.
pub proof fn law_a_yes_does_what_was_offered(
    h: HostText,
    answer: Seq<char>,
    f: Finds,
    side: Side,
    found: Seq<char>,
    tool: Option<Side>,
    cmd: Seq<Seq<char>>,
)
    ensures
        h.stage == StageText::Offer(tool, cmd) && says_yes(answer) ==> answered(h, answer, f).1.next
            == NextText::Run(cmd) && answered(h, answer, f).0.audio == h.audio && answered(h, answer, f).0.stage
            == StageText::Install(tool),
        h.stage == StageText::Offer(tool, cmd) && !says_yes(answer) ==> !(answered(
            h,
            answer,
            f,
        ).1.next is Run),
        h.stage == StageText::Use(side, found) ==> answered(h, answer, f) == past_cmd(
            if says_yes(answer) {
                with_program(h, side, found)
            } else {
                h
            },
            side,
            f,
            Seq::empty(),
        ),
        cmd_of(h.audio, side) is Some ==> {
            let now = cmd_of(with_program(h, side, found).audio, side);
            &&& now is Some
            &&& now->0 == cmd_of(h.audio, side)->0.update(0, found)
        },
{
}

/// What a recording folder is set to is resolved under the folder of the bundle; an empty answer, or
/// the same one, keeps it.
pub proof fn law_a_recording_folder_is_resolved(h: HostText, answer: Seq<char>)
    ensures
        redirected(h, Seq::empty()) == h,
        Some(answer) == h.audio.record_dir ==> redirected(h, answer) == h,
        answer.len() > 0 && Some(answer) != h.audio.record_dir ==> redirected(h, answer).audio.record_dir
            == Some(resolved_under(Some(h.folder), answer)),
{
}

/// After an installation a program that stands where the command names it is kept; one that is found
/// elsewhere is used from there; otherwise the command stays.
pub proof fn law_an_installed_program_is_used(h: HostText, side: Side, f: Finds)
    requires
        cmd_of(h.audio, side) is Some,
    ensures
        ({
            let argv = cmd_of(h.audio, side)->0;
            let t = match side {
                Side::Capture => f.capture,
                Side::Playback => f.playback,
            };
            let g = installed_program(h, side, f).0;
            &&& is_rooted(argv[0]) && t.at_path ==> g == h
            &&& !(is_rooted(argv[0]) && t.at_path) && t.base is Some ==> cmd_of(g.audio, side) == Some(
                argv.update(0, t.base->0@),
            )
            &&& !(is_rooted(argv[0]) && t.at_path) && t.base is None ==> g == h
        }),
{
}

/// What is looked for, and where its find is told: the managers, then the tools for capture and for
/// playback, then each pinned command as it is named and by its mere name.
pub proof fn law_each_find_is_told_under_its_name(
    f: Finds,
    a: AudioText,
    os: Os,
    capture_at_path: bool,
    playback_at_path: bool,
    found: Seq<Option<Seq<char>>>,
)
    requires
        tells_of(f, a, os, capture_at_path, playback_at_path, found),
        found.len() == to_find(a, os).len(),
    ensures
        to_find(a, os)[0] == "brew"@ && f.brew == (found[0] is Some),
        to_find(a, os)[1] == "apt-get"@ && f.apt == (found[1] is Some),
        to_find(a, os)[2] == "dnf"@ && f.dnf == (found[2] is Some),
        to_find(a, os)[3] == "pacman"@ && f.pacman == (found[3] is Some),
        to_find(a, os)[4] == "zypper"@ && f.zypper == (found[4] is Some),
        f.capture.at_path == capture_at_path,
        f.playback.at_path == playback_at_path,
        ({
            let n = capture_tools(os).len() as int;
            let m = playback_tools(os).len() as int;
            let at = 5 + n + m;
            &&& forall|i: int|
                0 <= i < n ==> #[trigger] to_find(a, os)[5 + i] == capture_tools(os)[i].bin
            &&& forall|i: int|
                0 <= i < m ==> #[trigger] to_find(a, os)[5 + n + i] == playback_tools(os)[i].bin
            &&& cmd_of(a, Side::Capture) matches Some(argv) ==> {
                &&& to_find(a, os)[at] == argv[0]
                &&& f.capture.on_path == (found[at] is Some)
                &&& base_name(argv[0]) matches Some(b) ==> to_find(a, os)[at + 1] == b && opt_view(
                    f.capture.base,
                ) == found[at + 1]
            }
        }),
{
    let n = capture_tools(os).len() as int;
    let m = playback_tools(os).len() as int;
    let all = to_find(a, os);
    let c = pinned_names(cmd_of(a, Side::Capture));
    let p = pinned_names(cmd_of(a, Side::Playback));
    assert(bins(capture_tools(os)).len() == n && bins(playback_tools(os)).len() == m);
    assert(all.len() == 5 + n + m + c.len() + p.len());
    assert(found_at(found, 0) == found[0] && found_at(found, 1) == found[1] && found_at(found, 2)
        == found[2] && found_at(found, 3) == found[3] && found_at(found, 4) == found[4]);
    assert forall|i: int| 0 <= i < n implies #[trigger] all[5 + i] == capture_tools(os)[i].bin by {
        assert(all[5 + i] == bins(capture_tools(os))[i]);
    }
    assert forall|i: int| 0 <= i < m implies #[trigger] all[5 + n + i] == playback_tools(os)[i].bin by {
        assert(all[5 + n + i] == bins(playback_tools(os))[i]);
    }
    if cmd_of(a, Side::Capture) is Some {
        assert(all[5 + n + m] == c[0]);
        if c.len() > 1 {
            assert(all[5 + n + m + 1] == c[1]);
        }
    }
}

/// Where a direction has neither a command nor any tool, the machine is said to lack one, and the
/// system's own package is offered for it where a manager is there.
pub proof fn law_a_lacking_tool_is_offered(h: HostText, f: Finds, lines: Seq<Seq<char>>)
    ensures
        ({
            let lacks = (cmd_of(h.audio, Side::Capture) is None && !f.any_capture) || (cmd_of(
                h.audio,
                Side::Playback,
            ) is None && !f.any_playback);
            let pkg = if h.macos {
                "sox"@
            } else {
                "alsa-utils"@
            };
            let (g, m) = from_unpinned(h, f, lines);
            &&& !lacks ==> m.next is Done && m.lines == lines
            &&& lacks ==> (m.next is Ask <==> install_cmd(h.macos, h.root, f, pkg) is Some)
            &&& lacks && m.next is Ask ==> g.stage == StageText::Offer(
                None,
                install_cmd(h.macos, h.root, f, pkg)->0,
            )
            &&& g.audio == h.audio
            &&& g.edits == h.edits
        }),
{
    let a = if cmd_of(h.audio, Side::Capture) is None && !f.any_capture {
        1int
    } else {
        0
    };
    assert(lacking(h, f).len() >= a);
}

/// The devices are gone through one after the other, capture before playback: one that is missing
/// is asked about, with a menu, before anything behind it is looked at, and the answer leads on to
/// what follows.
pub proof fn law_a_missing_device_is_asked_about_in_its_turn(
    h: HostText,
    f: Finds,
    lines: Seq<Seq<char>>,
    answer: Seq<char>,
)
    ensures
        ({
            let (g, m) = from_capture_device(h, f, lines);
            let (said, ask) = device_result(h, Side::Capture);
            &&& ask ==> g == (HostText { stage: StageText::Device(Side::Capture), ..h }) && m.next
                == NextText::Ask(PICK@) && m.lines == lines + said
            &&& !ask ==> (g, m) == from_playback_device(h, f, lines + said)
        }),
        ({
            let (g, m) = from_playback_device(h, f, lines);
            let (said, ask) = device_result(h, Side::Playback);
            &&& ask ==> g == (HostText { stage: StageText::Device(Side::Playback), ..h }) && m.next
                == NextText::Ask(PICK@) && m.lines == lines + said
            &&& !ask ==> (g, m) == from_capture_cmd(h, f, lines + said)
        }),
        h.stage == StageText::Device(Side::Capture) ==> answered(h, answer, f)
            == from_playback_device(with_pick(h, Side::Capture, answer), f, Seq::empty()),
        h.stage == StageText::Device(Side::Playback) ==> answered(h, answer, f) == from_capture_cmd(
            with_pick(h, Side::Playback, answer),
            f,
            Seq::empty(),
        ),
{
}

/// The commands are gone through behind the devices, capture before playback, and what no command
/// pins last of all.
pub proof fn law_commands_are_checked_in_their_turn(h: HostText, f: Finds, lines: Seq<Seq<char>>)
    ensures
        past_cmd(h, Side::Capture, f, lines) == from_playback_cmd(h, f, lines),
        past_cmd(h, Side::Playback, f, lines) == from_unpinned(h, f, lines),
        ({
            let (g, said, ask) = tool_result(h, Side::Capture, f);
            &&& ask is None ==> from_capture_cmd(h, f, lines) == from_playback_cmd(g, f, lines + said)
            &&& ask matches Some((stage, q)) ==> from_capture_cmd(h, f, lines).0 == (HostText {
                stage,
                ..g
            }) && from_capture_cmd(h, f, lines).1.next == NextText::Ask(q)
        }),
        ({
            let (g, said, ask) = tool_result(h, Side::Playback, f);
            &&& ask is None ==> from_playback_cmd(h, f, lines) == from_unpinned(g, f, lines + said)
            &&& ask matches Some((stage, q)) ==> from_playback_cmd(h, f, lines).0 == (HostText {
                stage,
                ..g
            }) && from_playback_cmd(h, f, lines).1.next == NextText::Ask(q)
        }),
{
}

} // verus!
