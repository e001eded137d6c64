//! The config as a YAML document: what a bundle reads of it, and the changes that are made to it.

use vstd::prelude::*;

use super::tree::{self, Node};
#[allow(unused_imports)]
use super::tree::{
    bare, entries, items, lemma_children, lemma_place, pairs, place, text_in, trees, under,
    yaml_tree, Tree,
};
use crate::text;
#[allow(unused_imports)]
use crate::text::{opt_view, views};

verus! {

/// The section of a config that routes calls to jobs.
pub const AUTOANSWER: &'static str = "autoanswer";

/// The section of a config that holds the audio settings.
pub const AUDIO: &'static str = "audio";

/// The key of the folder that recordings go to.
pub const RECORD_DIR: &'static str = "record_dir";

/// The document of a config, or why its text holds none.
pub fn read_document(config: &str) -> (r: Result<Node, String>)
    ensures
        match r {
            Ok(n) => yaml_tree(config@) == Ok::<Tree, Seq<char>>(n@),
            Err(e) => yaml_tree(config@) == Err::<Tree, Seq<char>>(e@),
        },
{
    tree::read_tree(config)
}

// ---------------------------------------------------------------------------
// What is read
// ---------------------------------------------------------------------------

/// Items over texts.
pub open spec fn item_views(v: Seq<Option<String>>) -> Seq<Option<Seq<char>>> {
    v.map_values(|o: Option<String>| opt_view(o))
}

/// An autoanswer entry as it is shown and routed: a number that is no text is a question mark.
pub open spec fn answer_of(e: (Tree, Tree)) -> (Seq<char>, Option<Seq<char>>) {
    (
        match text_in(e.0) {
            Some(n) => n,
            None => "?"@,
        },
        text_in(e.1),
    )
}

/// The autoanswer entries of a config: each number, and its job's path as it is written; none
/// where calls are only answered.
pub open spec fn answers_in(doc: Tree) -> Seq<(Seq<char>, Option<Seq<char>>)> {
    match under(doc, "autoanswer"@) {
        Some(t) => match entries(t) {
            Some(es) => es.map_values(|e: (Tree, Tree)| answer_of(e)),
            None => Seq::empty(),
        },
        None => Seq::empty(),
    }
}

/// Numbers and paths over texts.
pub open spec fn answer_views(v: Seq<(String, Option<String>)>) -> Seq<
    (Seq<char>, Option<Seq<char>>),
> {
    v.map_values(|a: (String, Option<String>)| (a.0@, opt_view(a.1)))
}

/// The autoanswer entries of a config: each number, and its job's path as it is written; none
/// where calls are only answered.
pub fn answers_of(doc: &Node) -> (r: Vec<(String, Option<String>)>)
    ensures
        answer_views(r@) == answers_in(doc@),
{
    let mut out: Vec<(String, Option<String>)> = Vec::new();
    assert(answer_views(out@) =~= Seq::empty());
    let section = match tree::value_under(doc, AUTOANSWER) {
        Some(n) => tree::bare_of(n),
        None => {
            return out;
        },
    };
    proof {
        lemma_children(*section);
    }
    let es = match section {
        Node::Table(es) => es,
        _ => {
            return out;
        },
    };
    let ghost all = pairs(es@);
    let ghost want = answers_in(doc@);
    let mut i: usize = 0;
    while i < es.len()
        invariant
            i <= es.len(),
            all == pairs(es@),
            want == all.map_values(|e: (Tree, Tree)| answer_of(e)),
            want == answers_in(doc@),
            out@.len() == i,
            answer_views(out@) =~= want.take(i as int),
        decreases es.len() - i,
    {
        let number = match tree::text_of(&es[i].0) {
            Some(n) => n,
            None => "?".to_owned(),
        };
        let path = tree::text_of(&es[i].1);
        let ghost had = answer_views(out@);
        out.push((number, path));
        proof {
            assert(all[i as int] == (es@[i as int].0@, es@[i as int].1@));
            assert(want[i as int] == (number@, opt_view(path)));
            assert(answer_views(out@) =~= had.push((number@, opt_view(path))));
            assert(want.take(i + 1) =~= want.take(i as int).push(want[i as int]));
        }
        i += 1;
    }
    assert(want.take(i as int) =~= want);
    out
}

/// The value under a key of the audio settings of a config.
pub open spec fn audio_value(doc: Tree, key: Seq<char>) -> Option<Tree> {
    match under(doc, "audio"@) {
        Some(t) => under(t, key),
        None => None,
    }
}

fn audio_node<'a>(doc: &'a Node, key: &str) -> (r: Option<&'a Node>)
    ensures
        (match r {
            Some(v) => Some(v@),
            None => None,
        }) == audio_value(doc@, key@),
{
    match tree::value_under(doc, AUDIO) {
        Some(n) => tree::value_under(n, key),
        None => None,
    }
}

/// The text under a key of the audio settings of a config.
pub open spec fn audio_text(doc: Tree, key: Seq<char>) -> Option<Seq<char>> {
    match audio_value(doc, key) {
        Some(t) => text_in(t),
        None => None,
    }
}

/// The text under a key of the audio settings of a config.
pub fn audio_text_of(doc: &Node, key: &str) -> (r: Option<String>)
    ensures
        opt_view(r) == audio_text(doc@, key@),
{
    match audio_node(doc, key) {
        Some(n) => tree::text_of(n),
        None => None,
    }
}

/// Where a config has recordings go, if it says so.
pub fn record_dir_of(doc: &Node) -> (r: Option<String>)
    ensures
        opt_view(r) == audio_text(doc@, "record_dir"@),
{
    audio_text_of(doc, RECORD_DIR)
}

/// The texts among some items.
pub open spec fn texts_among(list: Seq<Tree>) -> Seq<Seq<char>>
    decreases list.len(),
{
    if list.len() == 0 {
        Seq::empty()
    } else {
        let rest = texts_among(list.drop_last());
        match text_in(list.last()) {
            Some(t) => rest.push(t),
            None => rest,
        }
    }
}

/// The command under a key of the audio settings of a config: the texts of its list, if there are
/// any.
pub open spec fn audio_command(doc: Tree, key: Seq<char>) -> Option<Seq<Seq<char>>> {
    match audio_value(doc, key) {
        Some(t) => match items(t) {
            Some(v) => if texts_among(v).len() > 0 {
                Some(texts_among(v))
            } else {
                None
            },
            None => None,
        },
        None => None,
    }
}

/// Texts over characters, where there are any.
pub open spec fn list_views(o: Option<Vec<String>>) -> Option<Seq<Seq<char>>> {
    match o {
        Some(v) => Some(views(v@)),
        None => None,
    }
}

/// The command under a key of the audio settings of a config.
pub fn audio_command_of(doc: &Node, key: &str) -> (r: Option<Vec<String>>)
    ensures
        list_views(r) == audio_command(doc@, key@),
{
    let value = match audio_node(doc, key) {
        Some(n) => tree::bare_of(n),
        None => {
            return None;
        },
    };
    proof {
        lemma_children(*value);
    }
    let list = match value {
        Node::List(v) => v,
        _ => {
            return None;
        },
    };
    let ghost all = trees(list@);
    let mut out: Vec<String> = Vec::new();
    let mut i: usize = 0;
    assert(views(out@) =~= texts_among(all.take(0)));
    while i < list.len()
        invariant
            i <= list.len(),
            all == trees(list@),
            views(out@) == texts_among(all.take(i as int)),
        decreases list.len() - i,
    {
        proof {
            assert(all.take(i + 1).drop_last() =~= all.take(i as int));
            assert(all.take(i + 1).last() == list@[i as int]@);
        }
        if let Some(t) = tree::text_of(&list[i]) {
            proof {
                text::lemma_views_push(out@, t);
            }
            out.push(t);
        }
        i += 1;
    }
    proof {
        assert(all.take(i as int) =~= all);
        assert(views(out@).len() == out@.len());
    }
    if out.len() > 0 {
        Some(out)
    } else {
        None
    }
}

// ---------------------------------------------------------------------------
// What is changed
// ---------------------------------------------------------------------------

/// A change of a config: another path for an autoanswer entry, or another value for a key that the
/// audio settings have.
#[derive(Debug, Clone, PartialEq, Eq)]
pub enum Change {
    Answer { index: usize, path: String },
    AudioText { key: String, value: String },
    AudioCommand { key: String, items: Vec<String> },
}

/// A change over texts.
#[verifier::ext_equal]
pub enum ChangeText {
    Answer { index: nat, path: Seq<char> },
    AudioText { key: Seq<char>, value: Seq<char> },
    AudioCommand { key: Seq<char>, items: Seq<Seq<char>> },
}

impl View for Change {
    type V = ChangeText;

    open spec fn view(&self) -> ChangeText {
        match *self {
            Change::Answer { index, path } => ChangeText::Answer {
                index: index as nat,
                path: path@,
            },
            Change::AudioText { key, value } => ChangeText::AudioText { key: key@, value: value@ },
            Change::AudioCommand { key, items } => ChangeText::AudioCommand {
                key: key@,
                items: views(items@),
            },
        }
    }
}

/// The changes of a list, over texts.
pub open spec fn change_views(v: Seq<Change>) -> Seq<ChangeText> {
    v.map_values(|c: Change| c@)
}

/// The section that a change is made in.
pub open spec fn section_of(c: ChangeText) -> Seq<char> {
    match c {
        ChangeText::Answer { .. } => "autoanswer"@,
        _ => "audio"@,
    }
}

/// The index of the entry that a change gives another value, or one behind the last.
pub open spec fn changes_at(es: Seq<(Tree, Tree)>, c: ChangeText) -> nat {
    match c {
        ChangeText::Answer { index, path } => index,
        ChangeText::AudioText { key, value } => place(es, key),
        ChangeText::AudioCommand { key, items } => place(es, key),
    }
}

/// The value that a change brings.
pub open spec fn brought_by(c: ChangeText) -> Tree {
    match c {
        ChangeText::Answer { index, path } => Tree::Text(path),
        ChangeText::AudioText { key, value } => Tree::Text(value),
        ChangeText::AudioCommand { key, items } => Tree::List(
            items.map_values(|s: Seq<char>| Tree::Text(s)),
        ),
    }
}

/// Entries one of which has another value. Where there is no such entry they stay.
pub open spec fn with_value(es: Seq<(Tree, Tree)>, k: nat, v: Tree) -> Seq<(Tree, Tree)> {
    if k < es.len() {
        es.update(k as int, (es[k as int].0, v))
    } else {
        es
    }
}

/// A section after a change. What is not there is not changed.
pub open spec fn changed_section(t: Tree, c: ChangeText) -> Tree
    decreases t,
{
    match t {
        Tree::Tagged(g, b) => Tree::Tagged(g, Box::new(changed_section(*b, c))),
        Tree::Table(es) => Tree::Table(with_value(es, changes_at(es, c), brought_by(c))),
        _ => t,
    }
}

/// A document after a change.
pub open spec fn changed_once(t: Tree, c: ChangeText) -> Tree
    decreases t,
{
    match t {
        Tree::Tagged(g, b) => Tree::Tagged(g, Box::new(changed_once(*b, c))),
        Tree::Table(es) => {
            let k = place(es, section_of(c));
            Tree::Table(with_value(es, k, changed_section(es[k as int].1, c)))
        },
        _ => t,
    }
}

/// A document after all changes, in turn.
pub open spec fn changed(doc: Tree, changes: Seq<ChangeText>) -> Tree
    decreases changes.len(),
{
    if changes.len() == 0 {
        doc
    } else {
        changed_once(changed(doc, changes.drop_last()), changes.last())
    }
}

/// Puts a value in place of that of an entry.
fn put_value(es: Vec<(Node, Node)>, k: usize, v: Node) -> (r: Vec<(Node, Node)>)
    ensures
        pairs(r@) == with_value(pairs(es@), k as nat, v@),
{
    let mut es = es;
    let ghost had = es@;
    if k < es.len() {
        let (key, _) = es.remove(k);
        es.insert(k, (key, v));
    }
    assert(pairs(es@) =~= with_value(pairs(had), k as nat, v@));
    es
}

/// The value that a change brings.
fn bring(c: &Change) -> (r: Node)
    ensures
        r@ == brought_by(c@),
{
    match c {
        Change::Answer { index: _, path } => Node::Text(path.clone()),
        Change::AudioText { key: _, value } => Node::Text(value.clone()),
        Change::AudioCommand { key: _, items } => {
            let mut out: Vec<Node> = Vec::new();
            let mut i: usize = 0;
            while i < items.len()
                invariant
                    i <= items.len(),
                    out@.len() == i,
                    forall|j: int| 0 <= j < i ==> (#[trigger] out@[j])@ == Tree::Text(items@[j]@),
                decreases items.len() - i,
            {
                out.push(Node::Text(items[i].clone()));
                i += 1;
            }
            let r = Node::List(out);
            proof {
                lemma_children(r);
                assert(trees(out@) =~= views(items@).map_values(|s: Seq<char>| Tree::Text(s)));
            }
            r
        },
    }
}

fn change_section(n: Node, c: &Change) -> (r: Node)
    ensures
        r@ == changed_section(n@, c@),
    decreases n,
{
    proof {
        lemma_children(n);
    }
    match n {
        Node::Tagged(g, b) => Node::Tagged(g, Box::new(change_section(*b, c))),
        Node::Table(es) => {
            let k: usize = match c {
                Change::Answer { index, path: _ } => *index,
                Change::AudioText { key, value: _ } => tree::place_of(&es, key),
                Change::AudioCommand { key, items: _ } => tree::place_of(&es, key),
            };
            let r = Node::Table(put_value(es, k, bring(c)));
            proof {
                lemma_children(r);
            }
            r
        },
        _ => n,
    }
}

/// Makes a change to a document. What is not there is not changed.
pub fn change_once(n: Node, c: &Change) -> (r: Node)
    ensures
        r@ == changed_once(n@, c@),
    decreases n,
{
    proof {
        lemma_children(n);
    }
    match n {
        Node::Tagged(g, b) => Node::Tagged(g, Box::new(change_once(*b, c))),
        Node::Table(es) => {
            let name = match c {
                Change::Answer { .. } => AUTOANSWER,
                _ => AUDIO,
            };
            let mut es = es;
            let ghost had = pairs(es@);
            let k: usize = tree::place_of(&es, name);
            if k < es.len() {
                let ghost was = es@;
                let (key, section) = es.remove(k);
                let new = change_section(section, c);
                es.insert(k, (key, new));
                assert(had[k as int] == (was[k as int].0@, was[k as int].1@));
            }
            let r = Node::Table(es);
            proof {
                lemma_children(r);
                assert(pairs(es@) =~= with_value(
                    had,
                    place(had, section_of(c@)),
                    changed_section(had[k as int].1, c@),
                ));
            }
            r
        },
        _ => n,
    }
}

/// Makes changes to a document, in turn.
pub fn change_document(doc: Node, changes: &Vec<Change>) -> (r: Node)
    ensures
        r@ == changed(doc@, change_views(changes@)),
{
    let ghost d0 = doc@;
    let mut doc = doc;
    let ghost all = change_views(changes@);
    let mut i: usize = 0;
    while i < changes.len()
        invariant
            i <= changes.len(),
            all == change_views(changes@),
            doc@ == changed(d0, all.take(i as int)),
        decreases changes.len() - i,
    {
        proof {
            assert(all.take(i + 1).drop_last() =~= all.take(i as int));
            assert(all.take(i + 1).last() == changes@[i as int]@);
        }
        doc = change_once(doc, &changes[i]);
        i += 1;
    }
    assert(all.take(i as int) =~= all);
    doc
}

/// The changes that give autoanswer entries other paths.
pub open spec fn answer_changes(paths: Seq<Option<Seq<char>>>) -> Seq<ChangeText>
    decreases paths.len(),
{
    if paths.len() == 0 {
        Seq::empty()
    } else {
        let rest = answer_changes(paths.drop_last());
        match paths.last() {
            Some(p) => rest.push(
                ChangeText::Answer { index: (paths.len() - 1) as nat, path: p },
            ),
            None => rest,
        }
    }
}

/// The changes that give autoanswer entries, and the folder that recordings go to, other paths.
pub open spec fn path_changes(
    paths: Seq<Option<Seq<char>>>,
    record_dir: Option<Seq<char>>,
) -> Seq<ChangeText> {
    match record_dir {
        Some(d) => answer_changes(paths).push(
            ChangeText::AudioText { key: "record_dir"@, value: d },
        ),
        None => answer_changes(paths),
    }
}

/// The changes that give autoanswer entries, and the folder that recordings go to, other paths.
pub fn list_path_changes(paths: &Vec<Option<String>>, record_dir: Option<&str>) -> (r: Vec<Change>)
    ensures
        change_views(r@) == path_changes(
            item_views(paths@),
            match record_dir {
                Some(d) => Some(d@),
                None => None,
            },
        ),
{
    let ghost all = item_views(paths@);
    let mut out: Vec<Change> = Vec::new();
    let mut i: usize = 0;
    assert(change_views(out@) =~= answer_changes(all.take(0)));
    while i < paths.len()
        invariant
            i <= paths.len(),
            all == item_views(paths@),
            change_views(out@) == answer_changes(all.take(i as int)),
        decreases paths.len() - i,
    {
        let ghost had = change_views(out@);
        proof {
            assert(all.take(i + 1).drop_last() =~= all.take(i as int));
            assert(all.take(i + 1).last() == opt_view(paths@[i as int]));
        }
        if let Some(p) = &paths[i] {
            let c = Change::Answer { index: i, path: p.clone() };
            out.push(c);
            assert(change_views(out@) =~= had.push(c@));
        }
        i += 1;
    }
    assert(all.take(i as int) =~= all);
    if let Some(d) = record_dir {
        let ghost had = change_views(out@);
        let c = Change::AudioText { key: RECORD_DIR.to_owned(), value: d.to_owned() };
        out.push(c);
        assert(change_views(out@) =~= had.push(c@));
    }
    out
}

// ---------------------------------------------------------------------------
// Laws
// ---------------------------------------------------------------------------

/// Making some changes, then others, is making them all.
pub proof fn law_changes_add_up(doc: Tree, a: Seq<ChangeText>, b: Seq<ChangeText>)
    ensures
        changed(changed(doc, a), b) == changed(doc, a + b),
    decreases b.len(),
{
    if b.len() == 0 {
        assert(a + b =~= a);
    } else {
        law_changes_add_up(doc, a, b.drop_last());
        assert((a + b).drop_last() =~= a + b.drop_last());
        assert((a + b).last() == b.last());
    }
}

/// Whether two lists of entries have the same keys, in the same order.
pub open spec fn same_keys(es: Seq<(Tree, Tree)>, fs: Seq<(Tree, Tree)>) -> bool {
    &&& fs.len() == es.len()
    &&& forall|i: int| 0 <= i < es.len() ==> (#[trigger] fs[i]).0 == es[i].0
}

/// Whether a key is that of a section that one of some changes is made in.
pub open spec fn is_section_of(key: Tree, changes: Seq<ChangeText>) -> bool {
    exists|k: int| 0 <= k < changes.len() && key == Tree::Text(section_of(#[trigger] changes[k]))
}

/// The value of an entry of a section after some changes: what the last change of it brings, and
/// the value that it had where there is none.
pub open spec fn value_after(
    xs: Seq<(Tree, Tree)>,
    changes: Seq<ChangeText>,
    name: Seq<char>,
    j: int,
) -> Tree
    decreases changes.len(),
{
    if changes.len() == 0 {
        xs[j].1
    } else {
        let c = changes.last();
        if section_of(c) == name && changes_at(xs, c) == j {
            brought_by(c)
        } else {
            value_after(xs, changes.drop_last(), name, j)
        }
    }
}

proof fn lemma_changed_entries(t: Tree, c: ChangeText)
    ensures
        entries(changed_once(t, c)) == match entries(t) {
            Some(es) => Some(
                with_value(
                    es,
                    place(es, section_of(c)),
                    changed_section(es[place(es, section_of(c)) as int].1, c),
                ),
            ),
            None => None,
        },
    decreases t,
{
    if let Tree::Tagged(_, b) = t {
        lemma_changed_entries(*b, c);
    }
}

proof fn lemma_changed_settings(t: Tree, c: ChangeText)
    ensures
        entries(changed_section(t, c)) == match entries(t) {
            Some(es) => Some(with_value(es, changes_at(es, c), brought_by(c))),
            None => None,
        },
        entries(t) is None ==> changed_section(t, c) == t,
    decreases t,
{
    if let Tree::Tagged(_, b) = t {
        lemma_changed_settings(*b, c);
    }
}

proof fn lemma_same_places(es: Seq<(Tree, Tree)>, fs: Seq<(Tree, Tree)>, key: Seq<char>)
    requires
        same_keys(es, fs),
    ensures
        place(fs, key) == place(es, key),
{
    lemma_place(es, key);
    let k = place(es, key) as int;
    assert(k < es.len() ==> fs[k].0 == es[k].0);
    assert forall|i: int| 0 <= i < k implies (#[trigger] fs[i]).0 != Tree::Text(key) by {
        assert(es[i].0 != Tree::Text(key));
    }
    tree::lemma_place_is(fs, key, k);
}

/// Changes leave a config all its fields, in their order, and add none; a field that none of them
/// is made in stays as it was.
pub proof fn law_other_fields_stay(doc: Tree, changes: Seq<ChangeText>)
    requires
        entries(doc) is Some,
    ensures
        entries(changed(doc, changes)) matches Some(now) && same_keys(entries(doc)->0, now),
        forall|i: int|
            0 <= i < entries(doc)->0.len() && !is_section_of(entries(doc)->0[i].0, changes)
                ==> #[trigger] entries(changed(doc, changes))->0[i] == entries(doc)->0[i],
    decreases changes.len(),
{
    if changes.len() > 0 {
        let before = changes.drop_last();
        let c = changes.last();
        law_other_fields_stay(doc, before);
        let mid = changed(doc, before);
        lemma_changed_entries(mid, c);
        let es = entries(doc)->0;
        let fs = entries(mid)->0;
        let gs = entries(changed(doc, changes))->0;
        lemma_place(fs, section_of(c));
        assert forall|i: int| 0 <= i < es.len() && !is_section_of(es[i].0, changes) implies #[trigger] gs[i]
            == es[i] by {
            assert(changes[changes.len() - 1] == c);
            assert(es[i].0 != Tree::Text(section_of(changes[changes.len() - 1])));
            if is_section_of(es[i].0, before) {
                let k = choose|k: int|
                    0 <= k < before.len() && es[i].0 == Tree::Text(section_of(#[trigger] before[k]));
                assert(changes[k] == before[k]);
                assert(es[i].0 == Tree::Text(section_of(changes[k])));
            }
            assert(fs[i] == es[i]);
        }
    }
}

/// Changes leave a section all its entries, in their order, and add none; an entry has the value
/// that the last change of it brings, and one that none is made to stays as it was. So does a
/// section that has no entries.
pub proof fn law_settings_change_as_told(doc: Tree, changes: Seq<ChangeText>, name: Seq<char>)
    requires
        under(doc, name) is Some,
    ensures
        under(changed(doc, changes), name) is Some,
        match entries(under(doc, name)->0) {
            Some(xs) => entries(under(changed(doc, changes), name)->0) matches Some(ys)
                && same_keys(xs, ys) && forall|j: int|
                0 <= j < xs.len() ==> (#[trigger] ys[j]).1 == value_after(xs, changes, name, j),
            None => under(changed(doc, changes), name) == under(doc, name),
        },
    decreases changes.len(),
{
    if changes.len() > 0 {
        let before = changes.drop_last();
        let c = changes.last();
        law_settings_change_as_told(doc, before, name);
        law_other_fields_stay(doc, before);
        law_other_fields_stay(doc, changes);
        let mid = changed(doc, before);
        lemma_changed_entries(mid, c);
        let fs = entries(mid)->0;
        let gs = entries(changed(doc, changes))->0;
        let k = place(fs, name) as int;
        let m = place(fs, section_of(c)) as int;
        lemma_place(fs, name);
        lemma_place(fs, section_of(c));
        assert(same_keys(fs, gs));
        lemma_same_places(fs, gs, name);
        if section_of(c) == name {
            lemma_changed_settings(fs[k].1, c);
            if let Some(xs) = entries(under(doc, name)->0) {
                let ys = entries(under(mid, name)->0)->0;
                match c {
                    ChangeText::Answer { index, path } => {},
                    ChangeText::AudioText { key, value } => {
                        lemma_same_places(xs, ys, key);
                    },
                    ChangeText::AudioCommand { key, items } => {
                        lemma_same_places(xs, ys, key);
                    },
                }
                assert(changes_at(ys, c) == changes_at(xs, c));
            }
        } else {
            assert(k != m || m >= fs.len());
            assert(gs[k] == fs[k]);
        }
    }
}

/// The value under a path where there is one, and another value where there is none.
pub open spec fn told(paths: Seq<Option<Seq<char>>>, j: int, old: Tree) -> Tree {
    if 0 <= j < paths.len() {
        match paths[j] {
            Some(p) => Tree::Text(p),
            None => old,
        }
    } else {
        old
    }
}

/// The value of the folder that recordings go to, where there is one, and another value where
/// there is none.
pub open spec fn redirected(record_dir: Option<Seq<char>>, old: Tree) -> Tree {
    match record_dir {
        Some(d) => Tree::Text(d),
        None => old,
    }
}

proof fn lemma_sections_differ()
    ensures
        "autoanswer"@ != "audio"@,
{
    reveal_strlit("autoanswer");
    reveal_strlit("audio");
    assert("autoanswer"@.len() != "audio"@.len());
}

proof fn lemma_answers_told(xs: Seq<(Tree, Tree)>, paths: Seq<Option<Seq<char>>>, j: int)
    ensures
        value_after(xs, answer_changes(paths), "autoanswer"@, j) == told(paths, j, xs[j].1),
        value_after(xs, answer_changes(paths), "audio"@, j) == xs[j].1,
        forall|k: int|
            0 <= k < answer_changes(paths).len() ==> (#[trigger] answer_changes(paths)[k]) is Answer,
    decreases paths.len(),
{
    lemma_sections_differ();
    if paths.len() > 0 {
        let rest = paths.drop_last();
        lemma_answers_told(xs, rest, j);
        if let Some(p) = paths.last() {
            let c = ChangeText::Answer { index: (paths.len() - 1) as nat, path: p };
            assert(answer_changes(paths).drop_last() =~= answer_changes(rest));
            assert(answer_changes(paths).last() == c);
        }
    }
}

proof fn lemma_paths_told(
    xs: Seq<(Tree, Tree)>,
    paths: Seq<Option<Seq<char>>>,
    record_dir: Option<Seq<char>>,
    j: int,
)
    ensures
        value_after(xs, path_changes(paths, record_dir), "autoanswer"@, j) == told(
            paths,
            j,
            xs[j].1,
        ),
        value_after(xs, path_changes(paths, record_dir), "audio"@, j) == if place(
            xs,
            "record_dir"@,
        ) == j {
            redirected(record_dir, xs[j].1)
        } else {
            xs[j].1
        },
{
    lemma_sections_differ();
    lemma_answers_told(xs, paths, j);
    if let Some(d) = record_dir {
        let c = ChangeText::AudioText { key: "record_dir"@, value: d };
        assert(path_changes(paths, record_dir).drop_last() =~= answer_changes(paths));
        assert(path_changes(paths, record_dir).last() == c);
    }
}

/// A config whose paths are changed twice, for a bundle and for the machine that it is imported
/// on, comes whole: it has the fields that it had and no others, in their order; every field but
/// the two sections with paths is as it was; the autoanswer section has its numbers in their order,
/// each with the path that it was given last, and the audio section all its settings, of which at
/// most the folder for recordings differs.
pub proof fn law_a_config_travels_whole(
    doc: Tree,
    bundled: Seq<Option<Seq<char>>>,
    bundled_dir: Option<Seq<char>>,
    installed: Seq<Option<Seq<char>>>,
    installed_dir: Option<Seq<char>>,
)
    requires
        entries(doc) is Some,
    ensures
        ({
            let now = changed(
                changed(doc, path_changes(bundled, bundled_dir)),
                path_changes(installed, installed_dir),
            );
            let es = entries(doc)->0;
            &&& entries(now) matches Some(fs) && same_keys(es, fs)
            &&& forall|i: int|
                0 <= i < es.len() && es[i].0 != Tree::Text("autoanswer"@) && es[i].0 != Tree::Text(
                    "audio"@,
                ) ==> #[trigger] entries(now)->0[i] == es[i]
            &&& (under(doc, "autoanswer"@) matches Some(t) && entries(t) matches Some(xs)) ==> {
                let xs = entries(under(doc, "autoanswer"@)->0)->0;
                &&& under(now, "autoanswer"@) matches Some(u)
                &&& entries(u) matches Some(zs)
                &&& same_keys(xs, zs)
                &&& forall|j: int|
                    0 <= j < xs.len() ==> (#[trigger] zs[j]).1 == told(
                        installed,
                        j,
                        told(bundled, j, xs[j].1),
                    )
            }
            &&& (under(doc, "audio"@) matches Some(t) && entries(t) matches Some(xs)) ==> {
                let xs = entries(under(doc, "audio"@)->0)->0;
                &&& under(now, "audio"@) matches Some(u)
                &&& entries(u) matches Some(zs)
                &&& same_keys(xs, zs)
                &&& forall|j: int|
                    0 <= j < xs.len() ==> (#[trigger] zs[j]).1 == if place(xs, "record_dir"@) == j {
                        redirected(installed_dir, redirected(bundled_dir, xs[j].1))
                    } else {
                        xs[j].1
                    }
            }
        }),
{
    let a = path_changes(bundled, bundled_dir);
    let b = path_changes(installed, installed_dir);
    let mid = changed(doc, a);
    let now = changed(mid, b);
    let es = entries(doc)->0;
    law_other_fields_stay(doc, a);
    law_other_fields_stay(mid, b);
    let fs = entries(mid)->0;
    assert forall|i: int|
        0 <= i < es.len() && es[i].0 != Tree::Text("autoanswer"@) && es[i].0 != Tree::Text(
            "audio"@,
        ) implies #[trigger] entries(now)->0[i] == es[i] by {
        assert(fs[i].0 == es[i].0);
        assert(!is_section_of(es[i].0, a));
        assert(!is_section_of(fs[i].0, b));
        assert(fs[i] == es[i]);
    }
    if under(doc, "autoanswer"@) is Some && entries(under(doc, "autoanswer"@)->0) is Some {
        let xs = entries(under(doc, "autoanswer"@)->0)->0;
        law_settings_change_as_told(doc, a, "autoanswer"@);
        law_settings_change_as_told(mid, b, "autoanswer"@);
        let ys = entries(under(mid, "autoanswer"@)->0)->0;
        let zs = entries(under(now, "autoanswer"@)->0)->0;
        assert forall|j: int| 0 <= j < xs.len() implies (#[trigger] zs[j]).1 == told(
            installed,
            j,
            told(bundled, j, xs[j].1),
        ) && zs[j].0 == xs[j].0 by {
            lemma_paths_told(xs, bundled, bundled_dir, j);
            lemma_paths_told(ys, installed, installed_dir, j);
            assert(ys[j].0 == xs[j].0);
        }
    }
    if under(doc, "audio"@) is Some && entries(under(doc, "audio"@)->0) is Some {
        let xs = entries(under(doc, "audio"@)->0)->0;
        law_settings_change_as_told(doc, a, "audio"@);
        law_settings_change_as_told(mid, b, "audio"@);
        let ys = entries(under(mid, "audio"@)->0)->0;
        let zs = entries(under(now, "audio"@)->0)->0;
        lemma_same_places(xs, ys, "record_dir"@);
        assert forall|j: int| 0 <= j < xs.len() implies (#[trigger] zs[j]).1 == (if place(
            xs,
            "record_dir"@,
        ) == j {
            redirected(installed_dir, redirected(bundled_dir, xs[j].1))
        } else {
            xs[j].1
        }) && zs[j].0 == xs[j].0 by {
            lemma_paths_told(xs, bundled, bundled_dir, j);
            lemma_paths_told(ys, installed, installed_dir, j);
            assert(ys[j].0 == xs[j].0);
        }
    }
}

/// A config that holds no fields has none after any changes.
pub proof fn law_a_config_without_fields_stays(doc: Tree, changes: Seq<ChangeText>)
    requires
        entries(doc) is None,
    ensures
        entries(changed(doc, changes)) is None,
    decreases changes.len(),
{
    if changes.len() > 0 {
        law_a_config_without_fields_stays(doc, changes.drop_last());
        lemma_changed_entries(changed(doc, changes.drop_last()), changes.last());
    }
}

proof fn lemma_missing_stays(doc: Tree, changes: Seq<ChangeText>, name: Seq<char>)
    requires
        under(doc, name) is None,
    ensures
        under(changed(doc, changes), name) is None,
{
    if entries(doc) is Some {
        law_other_fields_stay(doc, changes);
        lemma_same_places(entries(doc)->0, entries(changed(doc, changes))->0, name);
    } else {
        law_a_config_without_fields_stays(doc, changes);
    }
}

/// What paths were changed to is what is read afterwards: the autoanswer entries have their
/// numbers, each with its new path, or the one that it had where it has no new one; and recordings
/// go to the new folder, where the config says where they go and there is a new one.
pub proof fn law_changed_paths_are_read_back(
    doc: Tree,
    paths: Seq<Option<Seq<char>>>,
    record_dir: Option<Seq<char>>,
)
    ensures
        ({
            let now = changed(doc, path_changes(paths, record_dir));
            &&& answers_in(now).len() == answers_in(doc).len()
            &&& forall|i: int|
                0 <= i < answers_in(doc).len() ==> {
                    &&& (#[trigger] answers_in(now)[i]).0 == answers_in(doc)[i].0
                    &&& answers_in(now)[i].1 == if i < paths.len() && paths[i] is Some {
                        paths[i]
                    } else {
                        answers_in(doc)[i].1
                    }
                }
            &&& audio_text(now, "record_dir"@) == if audio_value(doc, "record_dir"@) is Some
                && record_dir is Some {
                record_dir
            } else {
                audio_text(doc, "record_dir"@)
            }
        }),
{
    let c = path_changes(paths, record_dir);
    let now = changed(doc, c);
    if under(doc, "autoanswer"@) is None {
        lemma_missing_stays(doc, c, "autoanswer"@);
    } else {
        law_settings_change_as_told(doc, c, "autoanswer"@);
        if let Some(xs) = entries(under(doc, "autoanswer"@)->0) {
            let ys = entries(under(now, "autoanswer"@)->0)->0;
            assert forall|i: int| 0 <= i < answers_in(doc).len() implies {
                &&& (#[trigger] answers_in(now)[i]).0 == answers_in(doc)[i].0
                &&& answers_in(now)[i].1 == if i < paths.len() && paths[i] is Some {
                    paths[i]
                } else {
                    answers_in(doc)[i].1
                }
            } by {
                lemma_paths_told(xs, paths, record_dir, i);
                assert(ys[i].0 == xs[i].0);
            }
        }
    }
    if under(doc, "audio"@) is None {
        lemma_missing_stays(doc, c, "audio"@);
    } else {
        law_settings_change_as_told(doc, c, "audio"@);
        if let Some(xs) = entries(under(doc, "audio"@)->0) {
            let ys = entries(under(now, "audio"@)->0)->0;
            lemma_same_places(xs, ys, "record_dir"@);
            let k = place(xs, "record_dir"@) as int;
            if k < xs.len() {
                lemma_paths_told(xs, paths, record_dir, k);
                assert(ys[k].0 == xs[k].0);
            }
        }
    }
}

/// A command of the sound settings is the texts of its list, in order; what is no text is left out,
/// and a list without any is no command.
pub proof fn law_a_command_is_its_texts(list: Seq<Tree>, t: Tree)
    ensures
        text_in(t) is None ==> texts_among(list.push(t)) == texts_among(list),
        text_in(t) is Some ==> texts_among(list.push(t)) == texts_among(list).push(text_in(t)->0),
        texts_among(Seq::empty()).len() == 0,
{
    assert(list.push(t).drop_last() =~= list);
    assert(list.push(t).last() == t);
}

/// The routes of a configuration are the entries of its `autoanswer` table, in order: the number of
/// each, and its path where it has one.
pub proof fn law_routes_are_the_entries_of_their_table(doc: Tree, i: int)
    ensures
        match under(doc, "autoanswer"@) {
            Some(t) => match entries(t) {
                Some(es) => answers_in(doc).len() == es.len() && (0 <= i < es.len() ==> {
                    &&& text_in(es[i].0) matches Some(n) ==> answers_in(doc)[i].0 == n
                    &&& answers_in(doc)[i].1 == text_in(es[i].1)
                }),
                None => answers_in(doc).len() == 0,
            },
            None => answers_in(doc).len() == 0,
        },
{
}

/// A sound setting is the one under its own name in the `audio` table.
pub proof fn law_a_sound_setting_stands_under_its_name(doc: Tree, key: Seq<char>)
    ensures
        under(doc, "audio"@) is None ==> audio_text(doc, key) is None && audio_command(doc, key) is None,
        under(doc, "audio"@) matches Some(t) ==> match under(t, key) {
            Some(v) => audio_text(doc, key) == text_in(v),
            None => audio_text(doc, key) is None && audio_command(doc, key) is None,
        },
{
}

/// A command of the sound settings is the texts of its list where there are any.
pub proof fn law_a_command_stands_under_its_name(doc: Tree, key: Seq<char>, t: Tree, v: Seq<Tree>)
    requires
        under(doc, "audio"@) == Some(t),
        under(t, key) is Some,
        items(under(t, key)->0) == Some(v),
    ensures
        texts_among(v).len() > 0 ==> audio_command(doc, key) == Some(texts_among(v)),
        texts_among(v).len() == 0 ==> audio_command(doc, key) is None,
{
}

} // verus!
