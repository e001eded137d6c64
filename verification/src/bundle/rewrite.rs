//! Rewriting values of a config file in place, line by line, so that comments, quoting and order
//! stay as the user wrote them.

use vstd::prelude::*;

use crate::bundle::document;
use crate::bundle::document::Change;
#[allow(unused_imports)]
use crate::bundle::document::{change_views, changed};
use crate::bundle::tree::{self, Node};
#[allow(unused_imports)]
use crate::bundle::tree::{result_view, written, yaml_tree, Tree};
use crate::text;
#[allow(unused_imports)]
use crate::text::{after_prefix, is_space, joined, lines, trimmed_start, views};

verus! {

// ---------------------------------------------------------------------------
// YAML scalars
// ---------------------------------------------------------------------------

/// A character inside a double-quoted scalar.
pub open spec fn escaped_char(c: char) -> Seq<char> {
    if c == '\\' || c == '"' {
        seq!['\\', c]
    } else {
        seq![c]
    }
}

/// A text inside a double-quoted scalar.
pub open spec fn escaped(s: Seq<char>) -> Seq<char>
    decreases s.len(),
{
    if s.len() == 0 {
        Seq::empty()
    } else {
        escaped(s.drop_last()) + escaped_char(s.last())
    }
}

/// A text as a double-quoted scalar.
pub open spec fn quoted(s: Seq<char>) -> Seq<char> {
    "\""@ + escaped(s) + "\""@
}

/// Each of the texts as a double-quoted scalar.
pub open spec fn all_quoted(items: Seq<Seq<char>>) -> Seq<Seq<char>> {
    items.map_values(|s: Seq<char>| quoted(s))
}

/// A text as a double-quoted YAML scalar.
pub fn yaml_quote(s: &str) -> (r: String)
    ensures
        r@ == quoted(s@),
{
    let cs = text::chars_of(s);
    let mut out = "\"".to_owned();
    let mut i: usize = 0;
    proof {
        assert("\""@ + escaped(s@.take(0)) =~= "\""@);
    }
    while i < cs.len()
        invariant
            i <= cs.len(),
            cs@ == s@,
            out@ == "\""@ + escaped(s@.take(i as int)),
        decreases cs.len() - i,
    {
        let c = cs[i];
        let ghost before = out@;
        proof {
            assert(s@.take(i + 1).drop_last() =~= s@.take(i as int));
            assert(s@.take(i + 1).last() == c);
        }
        if c == '\\' || c == '"' {
            out.push('\\');
        }
        out.push(c);
        proof {
            assert(out@ =~= before + escaped_char(c));
            assert(before + escaped_char(c) =~= "\""@ + (escaped(s@.take(i as int)) + escaped_char(c)));
        }
        i += 1;
    }
    assert(s@.take(i as int) =~= s@);
    out.append("\"");
    out
}

/// A list as a single-line YAML flow sequence, every element quoted.
pub fn yaml_flow(items: &Vec<String>) -> (r: String)
    ensures
        r@ == "["@ + joined(all_quoted(views(items@)), ", "@) + "]"@,
{
    let mut inner: Vec<String> = Vec::new();
    let mut i: usize = 0;
    while i < items.len()
        invariant
            i <= items.len(),
            inner@.len() == i,
            forall|k: int| 0 <= k < i ==> (#[trigger] inner@[k])@ == quoted(items@[k]@),
        decreases items.len() - i,
    {
        inner.push(yaml_quote(&items[i]));
        i += 1;
    }
    assert(views(inner@) =~= all_quoted(views(items@)));
    text::cat3("[", &text::join(&inner, ", "), "]")
}

// ---------------------------------------------------------------------------
// Edits
// ---------------------------------------------------------------------------

/// A new value of a key, as it is written in the file.
#[derive(Debug, Clone, PartialEq, Eq)]
pub struct Edit {
    pub key: String,
    pub value: String,
}

/// An edit over texts.
pub struct EditText {
    pub key: Seq<char>,
    pub value: Seq<char>,
}

impl View for Edit {
    type V = EditText;

    open spec fn view(&self) -> EditText {
        EditText { key: self.key@, value: self.value@ }
    }
}

/// The edits of a list, over texts.
pub open spec fn edit_views(edits: Seq<Edit>) -> Seq<EditText> {
    edits.map_values(|e: Edit| e@)
}

/// What follows a key at the start of a text: the key in double quotes, in single quotes or bare.
pub open spec fn after_key(rest: Seq<char>, key: Seq<char>) -> Option<Seq<char>> {
    match after_prefix(rest, "\""@ + key + "\""@) {
        Some(t) => Some(t),
        None => match after_prefix(rest, "'"@ + key + "'"@) {
            Some(t) => Some(t),
            None => after_prefix(rest, key),
        },
    }
}

/// Where the value of `key` starts on a line that reads `key: value`; none where the line is
/// another key's, or holds no value.
pub open spec fn value_start(line: Seq<char>, key: Seq<char>) -> Option<nat> {
    match after_key(trimmed_start(line), key) {
        None => None,
        Some(t) => match after_prefix(trimmed_start(t), ":"@) {
            None => None,
            Some(u) => {
                let value = trimmed_start(u);
                if value.len() == 0 || value[0] == '#' {
                    None
                } else {
                    Some((line.len() - value.len()) as nat)
                }
            },
        },
    }
}

/// The lines that give `key` a value.
pub open spec fn hits(ls: Seq<Seq<char>>, key: Seq<char>) -> Seq<int>
    decreases ls.len(),
{
    if ls.len() == 0 {
        Seq::empty()
    } else {
        let rest = hits(ls.drop_last(), key);
        if value_start(ls.last(), key) is Some {
            rest.push(ls.len() - 1)
        } else {
            rest
        }
    }
}

/// The lines after one edit: its key must be given a value on exactly one of them.
pub open spec fn edited_once(ls: Seq<Seq<char>>, e: EditText) -> Option<Seq<Seq<char>>> {
    let h = hits(ls, e.key);
    if h.len() == 1 {
        Some(ls.update(h[0], ls[h[0]].take(value_start(ls[h[0]], e.key)->0 as int) + e.value))
    } else {
        None
    }
}

/// The lines after all edits, in turn.
pub open spec fn edited(ls: Seq<Seq<char>>, edits: Seq<EditText>) -> Option<Seq<Seq<char>>>
    decreases edits.len(),
{
    if edits.len() == 0 {
        Some(ls)
    } else {
        match edited(ls, edits.drop_last()) {
            Some(now) => edited_once(now, edits.last()),
            None => None,
        }
    }
}

/// The text of the file after all edits.
pub open spec fn edited_text(original: Seq<char>, edits: Seq<EditText>) -> Option<Seq<char>> {
    match edited(lines(original), edits) {
        Some(ls) => Some(joined(ls, "\n"@) + "\n"@),
        None => None,
    }
}

proof fn lemma_value_start(line: Seq<char>, key: Seq<char>)
    ensures
        value_start(line, key) is Some ==> value_start(line, key)->0 <= line.len(),
{
    if value_start(line, key) is Some {
        text::lemma_trimmed_start_len(line);
        let t = after_key(trimmed_start(line), key)->0;
        text::lemma_trimmed_start_len(t);
        let u = after_prefix(trimmed_start(t), ":"@)->0;
        text::lemma_trimmed_start_len(u);
    }
}

/// What follows a key at the start of a text.
fn strip_key<'a>(rest: &'a str, key: &str) -> (r: Option<&'a str>)
    ensures
        (match r {
            Some(s) => Some(s@),
            None => None,
        }) == after_key(rest@, key@),
{
    match text::strip_prefix(rest, &text::cat3("\"", key, "\"")) {
        Some(t) => Some(t),
        None => match text::strip_prefix(rest, &text::cat3("'", key, "'")) {
            Some(t) => Some(t),
            None => text::strip_prefix(rest, key),
        },
    }
}

/// Where the value of `key` starts on a line, counted in characters.
pub fn line_value_span(line: &str, key: &str) -> (r: Option<usize>)
    ensures
        (match r {
            Some(n) => Some(n as nat),
            None => None,
        }) == value_start(line@, key@),
        r matches Some(n) ==> n <= line@.len(),
{
    proof {
        lemma_value_start(line@, key@);
    }
    let t = match strip_key(text::trim_start(line), key) {
        Some(t) => t,
        None => {
            return None;
        },
    };
    let u = match text::strip_prefix(text::trim_start(t), ":") {
        Some(u) => u,
        None => {
            return None;
        },
    };
    let value = text::trim_start(u);
    if value.is_empty() || text::starts_with_char(value, '#') {
        return None;
    }
    let n: usize = value.unicode_len();
    let all: usize = line.unicode_len();
    proof {
        text::lemma_trimmed_start_len(line@);
        text::lemma_trimmed_start_len(t@);
        text::lemma_trimmed_start_len(u@);
    }
    Some(all - n)
}

/// Applies one edit to the lines; false, and no change, where its key is not given a value on
/// exactly one of them.
fn apply_edit(ls: &mut Vec<String>, e: &Edit) -> (r: bool)
    ensures
        match edited_once(views(old(ls)@), e@) {
            Some(now) => r && views(final(ls)@) == now,
            None => !r && final(ls)@ == old(ls)@,
        },
{
    let ghost all = views(ls@);
    let mut found: Vec<usize> = Vec::new();
    let mut i: usize = 0;
    while i < ls.len()
        invariant
            i <= ls.len(),
            ls@ == old(ls)@,
            all == views(ls@),
            found@.len() == hits(all.take(i as int), e.key@).len(),
            forall|k: int|
                0 <= k < found@.len() ==> #[trigger] found@[k] == hits(all.take(i as int), e.key@)[k],
            forall|k: int| 0 <= k < found@.len() ==> #[trigger] found@[k] < i,
        decreases ls.len() - i,
    {
        proof {
            assert(all.take(i + 1).drop_last() =~= all.take(i as int));
            assert(all.take(i + 1).last() == ls@[i as int]@);
        }
        let hit = line_value_span(&ls[i], &e.key).is_some();
        if hit {
            found.push(i);
        }
        i += 1;
    }
    assert(all.take(i as int) =~= all);
    if found.len() != 1 {
        return false;
    }
    let at: usize = found[0];
    proof {
        lemma_hits(all, e.key@);
        assert(all[at as int] == ls@[at as int]@);
    }
    let n: usize = match line_value_span(&ls[at], &e.key) {
        Some(n) => n,
        None => 0,
    };
    let head = ls[at].as_str().substring_char(0, n);
    assert(head@ =~= ls@[at as int]@.take(n as int));
    let line = text::cat(head, &e.value);
    ls.set(at, line);
    assert(views(ls@) =~= edited_once(all, e@)->0);
    true
}

proof fn lemma_hits(ls: Seq<Seq<char>>, key: Seq<char>)
    ensures
        forall|k: int|
            0 <= k < hits(ls, key).len() ==> 0 <= #[trigger] hits(ls, key)[k] < ls.len() && value_start(
                ls[hits(ls, key)[k]],
                key,
            ) is Some,
    decreases ls.len(),
{
    if ls.len() > 0 {
        lemma_hits(ls.drop_last(), key);
        let before = hits(ls.drop_last(), key);
        assert forall|k: int| 0 <= k < hits(ls, key).len() implies 0 <= #[trigger] hits(ls, key)[k]
            < ls.len() && value_start(ls[hits(ls, key)[k]], key) is Some by {
            if k < before.len() {
                assert(hits(ls, key)[k] == before[k]);
                assert(ls.drop_last()[before[k]] == ls[before[k]]);
            }
        }
    }
}

/// The text of a config file with each edit applied to the one line that gives its key a value,
/// and every other line as it was. None where some key is not given a value on exactly one line.
pub fn apply_line_edits(original: &str, edits: &Vec<Edit>) -> (r: Option<String>)
    ensures
        text::opt_view(r) == edited_text(original@, edit_views(edits@)),
{
    let mut ls = text::split_lines(original);
    let ghost all = views(ls@);
    let ghost es = edit_views(edits@);
    let mut i: usize = 0;
    while i < edits.len()
        invariant
            i <= edits.len(),
            all == lines(original@),
            es == edit_views(edits@),
            edited(all, es.take(i as int)) == Some(views(ls@)),
        decreases edits.len() - i,
    {
        proof {
            assert(es.take(i + 1).drop_last() =~= es.take(i as int));
            assert(es.take(i + 1).last() == edits@[i as int]@);
        }
        if !apply_edit(&mut ls, &edits[i]) {
            proof {
                lemma_edits_fail(all, es, i + 1);
            }
            return None;
        }
        i += 1;
    }
    assert(es.take(i as int) =~= es);
    Some(text::cat(&text::join(&ls, "\n"), "\n"))
}

proof fn lemma_edits_fail(ls: Seq<Seq<char>>, edits: Seq<EditText>, n: int)
    requires
        0 <= n <= edits.len(),
        edited(ls, edits.take(n)) is None,
    ensures
        edited(ls, edits) is None,
    decreases edits.len() - n,
{
    if n == edits.len() {
        assert(edits.take(n) =~= edits);
    } else {
        assert(edits.take(n + 1).drop_last() =~= edits.take(n));
        lemma_edits_fail(ls, edits, n + 1);
    }
}

// ---------------------------------------------------------------------------
// Rendering
// ---------------------------------------------------------------------------

/// A rewritten config: the edited text where it holds the document that is wanted, and that
/// document written out otherwise.
pub open spec fn rendered(original: Seq<char>, edits: Seq<EditText>, doc: Tree) -> Result<
    Seq<char>,
    Seq<char>,
> {
    match edited_text(original, edits) {
        Some(t) => if yaml_tree(t) == Ok::<Tree, Seq<char>>(doc) {
            Ok(t)
        } else {
            written(doc)
        },
        None => written(doc),
    }
}

/// A rewritten config, given what the edited text holds.
pub open spec fn picked(edited: Option<(Seq<char>, Option<Tree>)>, doc: Tree) -> Result<
    Seq<char>,
    Seq<char>,
> {
    match edited {
        Some((t, held)) => if held == Some(doc) {
            Ok(t)
        } else {
            written(doc)
        },
        None => written(doc),
    }
}

/// Picks the rewritten config, given the edited text and what it holds.
pub fn pick_rendering(edited: Option<(String, Option<Node>)>, doc: &Node) -> (r: Result<
    String,
    String,
>)
    ensures
        result_view(r) == picked(
            match edited {
                Some((t, held)) => Some(
                    (
                        t@,
                        match held {
                            Some(n) => Some(n@),
                            None => None,
                        },
                    ),
                ),
                None => None,
            },
            doc@,
        ),
{
    if let Some((t, held)) = edited {
        if let Some(n) = held {
            if tree::same_tree(&n, doc) {
                return Ok(t);
            }
        }
    }
    tree::write_tree(doc)
}

/// A rewritten config, as close to the user's own file as can be: the edits are made in its text,
/// and where that does not give the document wanted, entry by entry in their order, that document
/// is written out.
pub fn render_config(original: &str, edits: &Vec<Edit>, expected: &Node) -> (r: Result<
    String,
    String,
>)
    ensures
        result_view(r) == rendered(original@, edit_views(edits@), expected@),
{
    let edited = match apply_line_edits(original, edits) {
        Some(t) => {
            let held = match document::read_document(&t) {
                Ok(n) => Some(n),
                Err(_) => None,
            };
            Some((t, held))
        },
        None => None,
    };
    pick_rendering(edited, expected)
}

/// A config with changes made to its document, as close to the user's own file as can be. Fails
/// where the config holds no document, and where the changed one cannot be written out.
pub fn rewrite_config(original: &str, edits: &Vec<Edit>, changes: &Vec<Change>) -> (r: Result<
    String,
    String,
>)
    ensures
        result_view(r) == match yaml_tree(original@) {
            Ok(doc) => rendered(
                original@,
                edit_views(edits@),
                changed(doc, change_views(changes@)),
            ),
            Err(e) => Err(e),
        },
{
    match document::read_document(original) {
        Ok(doc) => render_config(original, edits, &document::change_document(doc, changes)),
        Err(e) => Err(e),
    }
}

// ---------------------------------------------------------------------------
// Laws
// ---------------------------------------------------------------------------

/// A rewritten config holds the document that is wanted, or is that document written out; and it
/// is the user's own text with the edits made in it wherever that holds the document.
pub proof fn law_a_rewritten_config_holds_its_document(
    original: Seq<char>,
    edits: Seq<EditText>,
    doc: Tree,
)
    ensures
        rendered(original, edits, doc) matches Ok(t) ==> yaml_tree(t) == Ok::<Tree, Seq<char>>(doc)
            || written(doc) == Ok::<Seq<char>, Seq<char>>(t),
        (edited_text(original, edits) matches Some(t) && yaml_tree(t) == Ok::<Tree, Seq<char>>(doc))
            ==> rendered(original, edits, doc) == Ok::<Seq<char>, Seq<char>>(
            edited_text(original, edits)->0,
        ),
{
}

/// Edits keep the number of lines, and every line that gives none of the edited keys a value
/// stays as it was, character for character.
pub proof fn law_other_lines_stay(ls: Seq<Seq<char>>, edits: Seq<EditText>, i: int)
    requires
        edited(ls, edits) is Some,
        0 <= i < ls.len(),
        forall|k: int| 0 <= k < edits.len() ==> value_start(ls[i], (#[trigger] edits[k]).key) is None,
    ensures
        edited(ls, edits)->0.len() == ls.len(),
        edited(ls, edits)->0[i] == ls[i],
    decreases edits.len(),
{
    if edits.len() > 0 {
        let before = edits.drop_last();
        assert forall|k: int| 0 <= k < before.len() implies value_start(
            ls[i],
            (#[trigger] before[k]).key,
        ) is None by {
            assert(before[k] == edits[k]);
        }
        law_other_lines_stay(ls, before, i);
        let now = edited(ls, before)->0;
        lemma_hits(now, edits.last().key);
        assert(edits[edits.len() - 1] == edits.last());
    }
}

/// What an escaped text stands for.
pub open spec fn unescaped(s: Seq<char>) -> Seq<char>
    decreases s.len(),
{
    if s.len() == 0 {
        Seq::empty()
    } else if s[0] == '\\' && s.len() > 1 {
        seq![s[1]] + unescaped(s.skip(2))
    } else {
        seq![s[0]] + unescaped(s.skip(1))
    }
}

proof fn lemma_unescape_tail(s: Seq<char>, t: Seq<char>)
    ensures
        unescaped(escaped(s) + t) == s + unescaped(t),
    decreases s.len(),
{
    if s.len() == 0 {
        assert(escaped(s) + t =~= t);
        assert(s + unescaped(t) =~= unescaped(t));
    } else {
        let c = s.last();
        let e = escaped_char(c) + t;
        assert(escaped(s) + t =~= escaped(s.drop_last()) + e);
        lemma_unescape_tail(s.drop_last(), e);
        if c == '\\' || c == '"' {
            assert(e.skip(2) =~= t);
        } else {
            assert(e.skip(1) =~= t);
        }
        assert(unescaped(e) =~= seq![c] + unescaped(t));
        assert(s.drop_last() + (seq![c] + unescaped(t)) =~= s + unescaped(t));
    }
}

/// A quoted text reads back as itself: what stands between the quotes, with the escapes undone,
/// is the text.
pub proof fn law_quoting_loses_nothing(s: Seq<char>)
    ensures
        unescaped(escaped(s)) == s,
{
    lemma_unescape_tail(s, Seq::empty());
    assert(escaped(s) + Seq::<char>::empty() =~= escaped(s));
    assert(s + unescaped(Seq::<char>::empty()) =~= s);
}

/// The value of a setting is found behind its key and the colon, however far the line is indented,
/// whether the key is bare or in quotation marks; a comment is no value.
pub proof fn law_a_value_stands_behind_its_key(indent: Seq<char>, key: Seq<char>, value: Seq<char>)
    requires
        forall|i: int| 0 <= i < indent.len() ==> is_space(#[trigger] indent[i]),
        key.len() > 0,
        !is_space(key[0]),
        key[0] != '"',
        key[0] != '\'',
        value.len() > 0,
        !is_space(value[0]),
    ensures
        ({
            let bare = indent + key + ": "@;
            let quoted = indent + ("\""@ + key + "\""@) + ": "@;
            &&& value[0] != '#' ==> value_start(bare + value, key) == Some(bare.len())
            &&& value[0] != '#' ==> value_start(quoted + value, key) == Some(quoted.len())
            &&& value[0] == '#' ==> value_start(bare + value, key) is None
            &&& value_start(bare, key) is None
        }),
{
    reveal_strlit(": ");
    reveal_strlit(":");
    reveal_strlit("\"");
    reveal_strlit("'");
    let q = "\""@ + key + "\""@;
    let sq = "'"@ + key + "'"@;
    let tail = ": "@ + value;
    assert(tail[0] == ':' && tail[1] == ' ');
    assert(text::trimmed_start(tail) == tail);
    assert(":"@ =~= tail.take(1));
    lemma_spaces_off(seq![' '], value);
    assert(tail.skip(1) =~= seq![' '] + value);
    // The bare key.
    let a = key + tail;
    assert(a[0] == key[0]);
    lemma_spaces_off(indent, a);
    assert(indent + key + ": "@ + value =~= indent + a);
    assert(!q.is_prefix_of(a)) by {
        if q.is_prefix_of(a) {
            assert(a[0] == q[0]);
        }
    }
    assert(!sq.is_prefix_of(a)) by {
        if sq.is_prefix_of(a) {
            assert(a[0] == sq[0]);
        }
    }
    assert(key =~= a.take(key.len() as int));
    assert(a.skip(key.len() as int) =~= tail);
    // The quoted key.
    let b = q + tail;
    assert(b[0] == '"');
    lemma_spaces_off(indent, b);
    assert(indent + q + ": "@ + value =~= indent + b);
    assert(q =~= b.take(q.len() as int));
    assert(b.skip(q.len() as int) =~= tail);
    // No value.
    let none = ": "@;
    let c = key + none;
    assert(c[0] == key[0]);
    lemma_spaces_off(indent, c);
    assert(indent + key + ": "@ =~= indent + c);
    assert(!q.is_prefix_of(c)) by {
        if q.is_prefix_of(c) {
            assert(c[0] == q[0]);
        }
    }
    assert(!sq.is_prefix_of(c)) by {
        if sq.is_prefix_of(c) {
            assert(c[0] == sq[0]);
        }
    }
    assert(key =~= c.take(key.len() as int));
    assert(c.skip(key.len() as int) =~= none);
    assert(text::trimmed_start(none) == none);
    assert(":"@ =~= none.take(1));
    assert(none.skip(1) =~= seq![' ']);
    assert(seq![' '].skip(1) =~= Seq::<char>::empty());
    assert(text::trimmed_start(seq![' ']) == text::trimmed_start(seq![' '].skip(1)));
}

proof fn lemma_spaces_off(spaces: Seq<char>, rest: Seq<char>)
    requires
        forall|i: int| 0 <= i < spaces.len() ==> is_space(#[trigger] spaces[i]),
        rest.len() > 0,
        !is_space(rest[0]),
    ensures
        text::trimmed_start(spaces + rest) == rest,
    decreases spaces.len(),
{
    let all = spaces + rest;
    if spaces.len() > 0 {
        let fewer = spaces.skip(1);
        assert forall|i: int| 0 <= i < fewer.len() implies is_space(#[trigger] fewer[i]) by {
            assert(fewer[i] == spaces[i + 1]);
        }
        assert(all[0] == spaces[0]);
        assert(all.skip(1) =~= fewer + rest);
        lemma_spaces_off(fewer, rest);
    } else {
        assert(all =~= rest);
    }
}

/// An edit is made where exactly one line has the key: that line keeps all up to its value, which is
/// replaced, and every other line stays. Where none or several have it, no edit is made.
pub proof fn law_an_edit_replaces_one_value(ls: Seq<Seq<char>>, e: EditText, i: int)
    requires
        0 <= i < ls.len(),
        value_start(ls[i], e.key) is Some,
    ensures
        (forall|j: int| 0 <= j < ls.len() && j != i ==> value_start(#[trigger] ls[j], e.key) is None)
            ==> {
            &&& edited_once(ls, e) is Some
            &&& edited_once(ls, e)->0.len() == ls.len()
            &&& edited_once(ls, e)->0[i] == ls[i].take(value_start(ls[i], e.key)->0 as int) + e.value
            &&& forall|j: int|
                0 <= j < ls.len() && j != i ==> #[trigger] edited_once(ls, e)->0[j] == ls[j]
        },
        (exists|j: int| 0 <= j < ls.len() && j != i && value_start(#[trigger] ls[j], e.key) is Some)
            ==> edited_once(ls, e) is None,
{
    let h = hits(ls, e.key);
    lemma_all_hits(ls, e.key);
    assert(h.contains(i));
    let a = choose|a: int| 0 <= a < h.len() && h[a] == i;
    if forall|j: int| 0 <= j < ls.len() && j != i ==> value_start(#[trigger] ls[j], e.key) is None {
        if h.len() > 1 {
            let b: int = if a == 0 {
                1
            } else {
                0
            };
            assert(h[b] != i) by {
                assert(h[0] < h[1]);
                if a > 1 {
                    assert(h[0] < h[a]);
                }
            }
            assert(h.contains(h[b]));
            assert(value_start(ls[h[b]], e.key) is Some);
        }
        assert(h.len() == 1 && h[0] == i);
    }
    if exists|j: int| 0 <= j < ls.len() && j != i && value_start(#[trigger] ls[j], e.key) is Some {
        let j = choose|j: int|
            0 <= j < ls.len() && j != i && value_start(#[trigger] ls[j], e.key) is Some;
        assert(h.contains(j));
    }
}

proof fn lemma_all_hits(ls: Seq<Seq<char>>, key: Seq<char>)
    ensures
        forall|i: int| #[trigger]
            hits(ls, key).contains(i) <==> 0 <= i < ls.len() && value_start(ls[i], key) is Some,
        forall|a: int, b: int|
            0 <= a < b < hits(ls, key).len() ==> #[trigger] hits(ls, key)[a] < #[trigger] hits(
                ls,
                key,
            )[b],
    decreases ls.len(),
{
    if ls.len() > 0 {
        let init = ls.drop_last();
        lemma_all_hits(init, key);
        let rest = hits(init, key);
        let now = hits(ls, key);
        assert forall|i: int| #[trigger] now.contains(i) <==> 0 <= i < ls.len() && value_start(ls[i], key)
            is Some by {
            if rest.contains(i) {
                let j = choose|j: int| 0 <= j < rest.len() && rest[j] == i;
                assert(now[j] == i);
                assert(init[i] == ls[i]);
            }
            if now.contains(i) {
                let j = choose|j: int| 0 <= j < now.len() && now[j] == i;
                if j < rest.len() {
                    assert(rest[j] == i);
                    assert(rest.contains(i));
                }
            }
            if 0 <= i < init.len() {
                assert(init[i] == ls[i]);
                assert(rest.contains(i) <==> value_start(init[i], key) is Some);
            }
            if i == ls.len() - 1 && value_start(ls[i], key) is Some {
                assert(now[rest.len() as int] == i);
            }
        }
        assert forall|a: int, b: int| 0 <= a < b < now.len() implies #[trigger] now[a] < #[trigger] now[b] by {
            assert(now[a] == rest[a]);
            assert(rest.contains(rest[a]));
            if b < rest.len() {
                assert(now[b] == rest[b]);
            }
        }
    }
}

/// A quoted text stands between quotation marks, each mark and each backslash of its own behind a
/// backslash, so that no other mark ends it.
pub proof fn law_only_the_outer_marks_are_bare(s: Seq<char>)
    ensures
        quoted(s).len() >= 2,
        quoted(s)[0] == '"',
        quoted(s).last() == '"',
        quoted(s).subrange(1, quoted(s).len() - 1) == escaped(s),
        unescaped(escaped(s)) == s,
{
    reveal_strlit("\"");
    law_quoting_loses_nothing(s);
    assert(quoted(s).subrange(1, quoted(s).len() - 1) =~= escaped(s));
}

/// The edited text is taken exactly where it reads back as the document; otherwise the document is
/// written anew.
pub proof fn law_an_edit_that_reads_back_is_taken(t: Seq<char>, held: Option<Tree>, doc: Tree)
    ensures
        picked(Some((t, Some(doc))), doc) == Ok::<Seq<char>, Seq<char>>(t),
        held != Some(doc) ==> picked(Some((t, held)), doc) == written(doc),
        picked(None, doc) == written(doc),
{
}

} // verus!
