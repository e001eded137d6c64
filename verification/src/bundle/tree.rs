//! A YAML document as a tree.

use serde_yaml::value::{Tag, TaggedValue};
use serde_yaml::Value;
use vstd::prelude::*;

use crate::text;

verus! {

/// A YAML value.
#[derive(Debug)]
pub enum Node {
    Null,
    Bool(bool),
    /// A number, as it is written.
    Number(String),
    Text(String),
    List(Vec<Node>),
    /// The entries of a mapping, in their order.
    Table(Vec<(Node, Node)>),
    /// A value under a tag.
    Tagged(String, Box<Node>),
}

/// A YAML value over characters.
pub enum Tree {
    Null,
    Bool(bool),
    Number(Seq<char>),
    Text(Seq<char>),
    List(Seq<Tree>),
    Table(Seq<(Tree, Tree)>),
    Tagged(Seq<char>, Box<Tree>),
}

impl View for Node {
    type V = Tree;

    open spec fn view(&self) -> Tree {
        tree_of(*self)
    }
}

/// A value over characters.
pub open spec fn tree_of(n: Node) -> Tree
    decreases n,
{
    match n {
        Node::Null => Tree::Null,
        Node::Bool(b) => Tree::Bool(b),
        Node::Number(s) => Tree::Number(s@),
        Node::Text(s) => Tree::Text(s@),
        Node::List(v) => Tree::List(
            Seq::new(
                v@.len(),
                |i: int|
                    if 0 <= i < v@.len() {
                        tree_of(v@[i])
                    } else {
                        Tree::Null
                    },
            ),
        ),
        Node::Table(v) => Tree::Table(
            Seq::new(
                v@.len(),
                |i: int|
                    if 0 <= i < v@.len() {
                        (tree_of(v@[i].0), tree_of(v@[i].1))
                    } else {
                        (Tree::Null, Tree::Null)
                    },
            ),
        ),
        Node::Tagged(t, b) => Tree::Tagged(t@, Box::new(tree_of(*b))),
    }
}

/// Whether a text is that of a YAML number.
pub uninterp spec fn yaml_number(text: Seq<char>) -> bool;

/// Whether a value can be written: its numbers are numbers, and no tag is empty.
pub open spec fn is_writable(t: Tree) -> bool
    decreases t,
{
    match t {
        Tree::List(v) => forall|i: int| 0 <= i < v.len() ==> is_writable(#[trigger] v[i]),
        Tree::Table(v) => forall|i: int|
            0 <= i < v.len() ==> is_writable((#[trigger] v[i]).0) && is_writable(v[i].1),
        Tree::Tagged(g, b) => g.len() > 0 && is_writable(*b),
        Tree::Number(n) => yaml_number(n),
        _ => true,
    }
}

/// `serde_yaml::Value`, which is converted from and to a [`Node`].
#[verifier::external_type_specification]
#[verifier::external_body]
pub struct ExValue(Value);

/// The value that a YAML text holds, or why it holds none.
pub uninterp spec fn yaml_tree(text: Seq<char>) -> Result<Tree, Seq<char>>;

/// How a value is written as YAML, or why it cannot be.
pub uninterp spec fn yaml_written(t: Tree) -> Result<Seq<char>, Seq<char>>;

/// Turns a `serde_yaml::Value` into a [`Node`], variant by variant: a number by how it is shown, a
/// mapping into its entries in their order, a tag by how it is shown. It is the conversion in
/// [`read_tree`], and nothing is claimed of it alone.
#[verifier::external_body]
fn node_of(v: &Value) -> (r: Node) {
    match v {
        Value::Null => Node::Null,
        Value::Bool(b) => Node::Bool(*b),
        Value::Number(n) => Node::Number(n.to_string()),
        Value::String(s) => Node::Text(s.clone()),
        Value::Sequence(l) => Node::List(l.iter().map(node_of).collect()),
        Value::Mapping(m) => Node::Table(m.iter().map(|(k, v)| (node_of(k), node_of(v))).collect()),
        Value::Tagged(t) => Node::Tagged(t.tag.to_string(), Box::new(node_of(&t.value))),
    }
}

/// `serde_yaml::Number` read of a text: whether that succeeds. It is a function of the text, named
/// `yaml_number`.
#[verifier::external_body]
fn is_number(text: &str) -> (r: bool)
    ensures
        r == yaml_number(text@),
{
    text.parse::<serde_yaml::Number>().is_ok()
}

/// Turns a [`Node`] into a `serde_yaml::Value`, variant by variant. It is the conversion in
/// [`emit_tree`], and nothing is claimed of it alone. A number that cannot be read and an empty tag,
/// on which `Tag::new` panics, are left out.
#[verifier::external_body]
fn value_of(n: &Node) -> (r: Value)
    requires
        is_writable(n@),
{
    match n {
        Node::Null => Value::Null,
        Node::Bool(b) => Value::Bool(*b),
        Node::Number(t) => Value::Number(t.parse().expect("a number")),
        Node::Text(s) => Value::String(s.clone()),
        Node::List(l) => Value::Sequence(l.iter().map(value_of).collect()),
        Node::Table(m) => Value::Mapping(m.iter().map(|(k, v)| (value_of(k), value_of(v))).collect()),
        Node::Tagged(t, v) => Value::Tagged(Box::new(TaggedValue { tag: Tag::new(t), value: value_of(v) })),
    }
}

/// `serde_yaml::from_str` into `serde_yaml::Value`: the value that a text holds, or what it says
/// where it fails. That is a function of the text, named `yaml_tree`.
#[verifier::external_body]
pub(crate) fn read_tree(text: &str) -> (r: Result<Node, String>)
    ensures
        match r {
            Ok(n) => yaml_tree(text@) == Ok::<Tree, Seq<char>>(n@),
            Err(e) => yaml_tree(text@) == Err::<Tree, Seq<char>>(e@),
        },
{
    match serde_yaml::from_str::<Value>(text) {
        Ok(v) => Ok(node_of(&v)),
        Err(e) => Err(e.to_string()),
    }
}

/// `serde_yaml::to_string` of a `serde_yaml::Value`: the text that it writes for a value, or what
/// it says where it fails. That is a function of the value, named `yaml_written`.
#[verifier::external_body]
fn emit_tree(n: &Node) -> (r: Result<String, String>)
    requires
        is_writable(n@),
    ensures
        match r {
            Ok(s) => yaml_written(n@) == Ok::<Seq<char>, Seq<char>>(s@),
            Err(e) => yaml_written(n@) == Err::<Seq<char>, Seq<char>>(e@),
        },
{
    serde_yaml::to_string(&value_of(n)).map_err(|e| e.to_string())
}

/// Values over characters.
pub open spec fn trees(v: Seq<Node>) -> Seq<Tree> {
    v.map_values(|n: Node| n@)
}

/// Entries over characters.
pub open spec fn pairs(v: Seq<(Node, Node)>) -> Seq<(Tree, Tree)> {
    v.map_values(|e: (Node, Node)| (e.0@, e.1@))
}

/// A list is its items, and a mapping its entries.
pub proof fn lemma_children(n: Node)
    ensures
        n matches Node::List(v) ==> n@ == Tree::List(trees(v@)),
        n matches Node::Table(v) ==> n@ == Tree::Table(pairs(v@)),
{
    match n {
        Node::List(v) => {
            assert(n@->List_0 =~= trees(v@));
        },
        Node::Table(v) => {
            assert(n@->Table_0 =~= pairs(v@));
        },
        _ => {},
    }
}

/// Whether a value can be written.
fn can_be_written(n: &Node) -> (r: bool)
    ensures
        r == is_writable(n@),
    decreases n,
{
    proof {
        lemma_children(*n);
    }
    match n {
        Node::List(v) => {
            let ghost all = trees(v@);
            let mut i: usize = 0;
            while i < v.len()
                invariant
                    i <= v.len(),
                    all == trees(v@),
                    n@ == Tree::List(all),
                    *n == Node::List(*v),
                    forall|j: int| 0 <= j < i ==> is_writable(#[trigger] all[j]),
                decreases v.len() - i,
            {
                assert(all[i as int] == v@[i as int]@);
                if !can_be_written(&v[i]) {
                    assert(!is_writable(n@->List_0[i as int]));
                    return false;
                }
                i += 1;
            }
            true
        },
        Node::Table(v) => {
            let ghost all = pairs(v@);
            let mut i: usize = 0;
            while i < v.len()
                invariant
                    i <= v.len(),
                    all == pairs(v@),
                    n@ == Tree::Table(all),
                    *n == Node::Table(*v),
                    forall|j: int|
                        0 <= j < i ==> is_writable((#[trigger] all[j]).0) && is_writable(all[j].1),
                decreases v.len() - i,
            {
                assert(all[i as int] == (v@[i as int].0@, v@[i as int].1@));
                if !can_be_written(&v[i].0) || !can_be_written(&v[i].1) {
                    assert(!(is_writable(n@->Table_0[i as int].0) && is_writable(
                        n@->Table_0[i as int].1,
                    )));
                    return false;
                }
                i += 1;
            }
            true
        },
        Node::Tagged(g, b) => g.as_str().unicode_len() > 0 && can_be_written(b),
        Node::Number(t) => is_number(t),
        _ => true,
    }
}

/// What is said of a value that has a number which is none, or an empty tag, for which YAML has no
/// syntax.
pub const NOT_WRITABLE: &'static str = "not a YAML number, or an empty YAML tag";

/// A value written out, or why it cannot be.
pub open spec fn written(t: Tree) -> Result<Seq<char>, Seq<char>> {
    if is_writable(t) {
        yaml_written(t)
    } else {
        Err(NOT_WRITABLE@)
    }
}

/// The texts of a result.
pub open spec fn result_view(r: Result<String, String>) -> Result<Seq<char>, Seq<char>> {
    match r {
        Ok(s) => Ok(s@),
        Err(e) => Err(e@),
    }
}

/// Writes a value out.
pub fn write_tree(n: &Node) -> (r: Result<String, String>)
    ensures
        result_view(r) == written(n@),
{
    if can_be_written(n) {
        emit_tree(n)
    } else {
        Err(NOT_WRITABLE.to_owned())
    }
}

/// Whether two values are the same: entry by entry, in their order.
pub fn same_tree(a: &Node, b: &Node) -> (r: bool)
    ensures
        r == (a@ == b@),
    decreases a,
{
    proof {
        lemma_children(*a);
        lemma_children(*b);
    }
    match (a, b) {
        (Node::Null, Node::Null) => true,
        (Node::Bool(x), Node::Bool(y)) => *x == *y,
        (Node::Number(x), Node::Number(y)) => text::same(x, y),
        (Node::Text(x), Node::Text(y)) => text::same(x, y),
        (Node::List(x), Node::List(y)) => {
            if x.len() != y.len() {
                assert(trees(x@).len() != trees(y@).len());
                return false;
            }
            let ghost p = trees(x@);
            let ghost q = trees(y@);
            let mut i: usize = 0;
            while i < x.len()
                invariant
                    i <= x.len(),
                    x.len() == y.len(),
                    p == trees(x@),
                    q == trees(y@),
                    a@ == Tree::List(p),
                    b@ == Tree::List(q),
                    *a == Node::List(*x),
                    forall|j: int| 0 <= j < i ==> #[trigger] p[j] == q[j],
                decreases x.len() - i,
            {
                assert(p[i as int] == x@[i as int]@ && q[i as int] == y@[i as int]@);
                if !same_tree(&x[i], &y[i]) {
                    assert(p != q);
                    return false;
                }
                i += 1;
            }
            assert(p =~= q);
            true
        },
        (Node::Table(x), Node::Table(y)) => {
            if x.len() != y.len() {
                assert(pairs(x@).len() != pairs(y@).len());
                return false;
            }
            let ghost p = pairs(x@);
            let ghost q = pairs(y@);
            let mut i: usize = 0;
            while i < x.len()
                invariant
                    i <= x.len(),
                    x.len() == y.len(),
                    p == pairs(x@),
                    q == pairs(y@),
                    a@ == Tree::Table(p),
                    b@ == Tree::Table(q),
                    *a == Node::Table(*x),
                    forall|j: int| 0 <= j < i ==> #[trigger] p[j] == q[j],
                decreases x.len() - i,
            {
                assert(p[i as int] == (x@[i as int].0@, x@[i as int].1@));
                assert(q[i as int] == (y@[i as int].0@, y@[i as int].1@));
                if !same_tree(&x[i].0, &y[i].0) || !same_tree(&x[i].1, &y[i].1) {
                    assert(p[i as int] != q[i as int]);
                    assert(p != q);
                    return false;
                }
                i += 1;
            }
            assert(p =~= q);
            true
        },
        (Node::Tagged(f, x), Node::Tagged(g, y)) => text::same(f, g) && same_tree(x, y),
        _ => false,
    }
}

/// A value without its tags.
pub open spec fn bare(t: Tree) -> Tree
    decreases t,
{
    match t {
        Tree::Tagged(_, b) => bare(*b),
        _ => t,
    }
}

/// The entries of a value, where it is a mapping.
pub open spec fn entries(t: Tree) -> Option<Seq<(Tree, Tree)>> {
    match bare(t) {
        Tree::Table(es) => Some(es),
        _ => None,
    }
}

/// The text of a value, where it is one.
pub open spec fn text_in(t: Tree) -> Option<Seq<char>> {
    match bare(t) {
        Tree::Text(s) => Some(s),
        _ => None,
    }
}

/// The items of a value, where it is a list.
pub open spec fn items(t: Tree) -> Option<Seq<Tree>> {
    match bare(t) {
        Tree::List(v) => Some(v),
        _ => None,
    }
}

/// The index of the first entry with a key, or the number of entries.
pub open spec fn place(es: Seq<(Tree, Tree)>, key: Seq<char>) -> nat
    decreases es.len(),
{
    if es.len() == 0 || es[0].0 == Tree::Text(key) {
        0
    } else {
        1 + place(es.skip(1), key)
    }
}

/// The value under a key of a mapping.
pub open spec fn under(t: Tree, key: Seq<char>) -> Option<Tree> {
    match entries(t) {
        Some(es) => if place(es, key) < es.len() {
            Some(es[place(es, key) as int].1)
        } else {
            None
        },
        None => None,
    }
}

/// The first entry with a key is the one that [`place`] finds.
pub proof fn lemma_place(es: Seq<(Tree, Tree)>, key: Seq<char>)
    ensures
        place(es, key) <= es.len(),
        place(es, key) < es.len() ==> es[place(es, key) as int].0 == Tree::Text(key),
        forall|i: int| 0 <= i < place(es, key) ==> (#[trigger] es[i]).0 != Tree::Text(key),
    decreases es.len(),
{
    if es.len() > 0 && es[0].0 != Tree::Text(key) {
        let rest = es.skip(1);
        lemma_place(rest, key);
        assert forall|i: int| 0 <= i < place(es, key) implies (#[trigger] es[i]).0 != Tree::Text(
            key,
        ) by {
            if i > 0 {
                assert(es[i] == rest[i - 1]);
            }
        }
    }
}

/// An entry with a key, none before which has it, is the one that [`place`] finds.
pub proof fn lemma_place_is(es: Seq<(Tree, Tree)>, key: Seq<char>, k: int)
    requires
        0 <= k <= es.len(),
        k < es.len() ==> es[k].0 == Tree::Text(key),
        forall|i: int| 0 <= i < k ==> (#[trigger] es[i]).0 != Tree::Text(key),
    ensures
        place(es, key) == k,
{
    lemma_place(es, key);
    let p = place(es, key) as int;
    if p < k {
        assert(es[p].0 != Tree::Text(key));
    }
}

/// A value without its tags.
pub fn bare_of(n: &Node) -> (r: &Node)
    ensures
        r@ == bare(n@),
        r@ !is Tagged,
    decreases n,
{
    match n {
        Node::Tagged(_, b) => bare_of(b),
        _ => n,
    }
}

/// The text of a value, where it is one.
pub fn text_of(n: &Node) -> (r: Option<String>)
    ensures
        text::opt_view(r) == text_in(n@),
{
    match bare_of(n) {
        Node::Text(s) => Some(s.clone()),
        _ => None,
    }
}

/// The index of the first entry with a key, or the number of entries.
pub fn place_of(es: &Vec<(Node, Node)>, key: &str) -> (r: usize)
    ensures
        r == place(pairs(es@), key@),
        r <= es@.len(),
{
    let ghost all = pairs(es@);
    let mut i: usize = 0;
    while i < es.len()
        invariant
            i <= es.len(),
            all == pairs(es@),
            forall|j: int| 0 <= j < i ==> (#[trigger] all[j]).0 != Tree::Text(key@),
        decreases es.len() - i,
    {
        assert(all[i as int] == (es@[i as int].0@, es@[i as int].1@));
        if let Node::Text(s) = &es[i].0 {
            if text::same(s, key) {
                proof {
                    lemma_place_is(all, key@, i as int);
                }
                return i;
            }
        }
        i += 1;
    }
    proof {
        lemma_place_is(all, key@, i as int);
    }
    i
}

/// The value under a key of a mapping.
pub fn value_under<'a>(n: &'a Node, key: &str) -> (r: Option<&'a Node>)
    ensures
        (match r {
            Some(v) => Some(v@),
            None => None,
        }) == under(n@, key@),
{
    let b = bare_of(n);
    proof {
        lemma_children(*b);
    }
    match b {
        Node::Table(es) => {
            let k: usize = place_of(es, key);
            assert(pairs(es@).len() == es@.len());
            if k < es.len() {
                assert(pairs(es@)[k as int].1 == es@[k as int].1@);
                Some(&es[k].1)
            } else {
                None
            }
        },
        _ => None,
    }
}

/// What stands under a name in a table is the value of its first entry of that name, whatever tags
/// are put on the table; nothing stands under a name elsewhere.
pub proof fn law_a_value_stands_under_its_name(t: Tree, es: Seq<(Tree, Tree)>, key: Seq<char>, i: int)
    requires
        bare(t) == Tree::Table(es),
        0 <= i <= es.len(),
        forall|j: int| 0 <= j < i ==> (#[trigger] es[j]).0 != Tree::Text(key),
        i < es.len() ==> es[i].0 == Tree::Text(key),
    ensures
        entries(t) == Some(es),
        i < es.len() ==> under(t, key) == Some(es[i].1),
        i == es.len() ==> under(t, key) is None,
{
    lemma_place_is(es, key, i);
}

/// A text, a list or a table is read as what it is, with tags or without.
pub proof fn law_tags_do_not_hide_a_value(tag: Seq<char>, t: Tree, s: Seq<char>, v: Seq<Tree>)
    ensures
        text_in(Tree::Tagged(tag, Box::new(t))) == text_in(t),
        entries(Tree::Tagged(tag, Box::new(t))) == entries(t),
        items(Tree::Tagged(tag, Box::new(t))) == items(t),
        text_in(Tree::Text(s)) == Some(s),
        items(Tree::List(v)) == Some(v),
        text_in(Tree::List(v)) is None,
        items(Tree::Text(s)) is None,
        entries(Tree::Text(s)) is None,
{
    reveal_with_fuel(bare, 3);
}

/// Plain values can be written, a number where it is one, and a tagged value where its tag is not
/// empty and the value can be. What cannot be written is refused.
pub proof fn law_plain_values_can_be_written(s: Seq<char>, b: bool, t: Tree)
    ensures
        is_writable(Tree::Null),
        is_writable(Tree::Bool(b)),
        is_writable(Tree::Text(s)),
        is_writable(Tree::Number(s)) <==> yaml_number(s),
        is_writable(Tree::Tagged(s, Box::new(t))) <==> s.len() > 0 && is_writable(t),
        is_writable(t) ==> written(t) == yaml_written(t),
        !is_writable(t) ==> written(t) is Err,
{
}

} // verus!
