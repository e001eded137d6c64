//! A table keyed by text.

use vstd::prelude::*;

use crate::text;
#[allow(unused_imports)]
use crate::text::views;

verus! {

/// Whether `a` stands before `b` in the order of texts: by the first character in which they
/// differ, a text that another one continues standing before it.
pub open spec fn before(a: Seq<char>, b: Seq<char>) -> bool
    decreases a.len(),
{
    if b.len() == 0 {
        false
    } else if a.len() == 0 {
        true
    } else if a[0] == b[0] {
        before(a.skip(1), b.skip(1))
    } else {
        a[0] < b[0]
    }
}

/// No text stands before itself.
pub proof fn lemma_before_irreflexive(a: Seq<char>)
    ensures
        !before(a, a),
    decreases a.len(),
{
    if a.len() > 0 {
        lemma_before_irreflexive(a.skip(1));
    }
}

/// The order of texts is transitive.
pub proof fn lemma_before_transitive(a: Seq<char>, b: Seq<char>, c: Seq<char>)
    requires
        before(a, b),
        before(b, c),
    ensures
        before(a, c),
    decreases a.len(),
{
    if a.len() > 0 && a[0] == b[0] && b[0] == c[0] {
        lemma_before_transitive(a.skip(1), b.skip(1), c.skip(1));
    }
}

/// Of two different texts, one stands before the other.
pub proof fn lemma_before_total(a: Seq<char>, b: Seq<char>)
    requires
        !before(a, b),
        !before(b, a),
    ensures
        a == b,
    decreases a.len(),
{
    if a.len() == 0 || b.len() == 0 {
        assert(a =~= b);
    } else {
        assert(a[0] == b[0]);
        lemma_before_total(a.skip(1), b.skip(1));
        assert forall|i: int| 0 <= i < a.len() implies a[i] == b[i] by {
            if i > 0 {
                assert(a.skip(1)[i - 1] == b.skip(1)[i - 1]);
            }
        }
        assert(a.len() == b.len()) by {
            assert(a.skip(1).len() == b.skip(1).len());
        }
        assert(a =~= b);
    }
}

/// Whether `a` stands before `b` in the order of texts.
pub fn stands_before(a: &str, b: &str) -> (r: bool)
    ensures
        r == before(a@, b@),
{
    let x = text::chars_of(a);
    let y = text::chars_of(b);
    let mut i: usize = 0;
    proof {
        assert(a@.skip(0) =~= a@);
        assert(b@.skip(0) =~= b@);
    }
    while i < x.len() && i < y.len() && x[i] == y[i]
        invariant
            i <= x.len(),
            i <= y.len(),
            x@ == a@,
            y@ == b@,
            before(a@, b@) == before(a@.skip(i as int), b@.skip(i as int)),
        decreases x.len() - i,
    {
        proof {
            assert(a@.skip(i as int).skip(1) =~= a@.skip(i + 1));
            assert(b@.skip(i as int).skip(1) =~= b@.skip(i + 1));
        }
        i += 1;
    }
    if i >= y.len() {
        false
    } else if i >= x.len() {
        true
    } else {
        x[i] < y[i]
    }
}

/// Whether a sequence of texts is strictly in order.
pub open spec fn in_order(keys: Seq<Seq<char>>) -> bool {
    forall|i: int, j: int| 0 <= i < j < keys.len() ==> before(#[trigger] keys[i], #[trigger] keys[j])
}

/// The index of the first `x` in `s`, or the length of `s` where there is none.
pub open spec fn first_of<T>(s: Seq<T>, x: T) -> nat
    decreases s.len(),
{
    if s.len() == 0 || s[0] == x {
        0
    } else {
        1 + first_of(s.skip(1), x)
    }
}

/// How `first_of` is recognised.
pub proof fn lemma_first_of<T>(s: Seq<T>, x: T, k: int)
    requires
        0 <= k <= s.len(),
        forall|j: int| 0 <= j < k ==> s[j] != x,
        k < s.len() ==> s[k] == x,
    ensures
        first_of(s, x) == k,
    decreases k,
{
    if k > 0 {
        assert forall|j: int| 0 <= j < k - 1 implies s.skip(1)[j] != x by {
            assert(s.skip(1)[j] == s[j + 1]);
        }
        lemma_first_of(s.skip(1), x, k - 1);
    }
}

proof fn lemma_first_of_finds<T>(s: Seq<T>, x: T)
    ensures
        first_of(s, x) <= s.len(),
        first_of(s, x) < s.len() <==> s.contains(x),
        first_of(s, x) < s.len() ==> s[first_of(s, x) as int] == x,
        forall|j: int| 0 <= j < first_of(s, x) ==> s[j] != x,
    decreases s.len(),
{
    if s.len() > 0 && s[0] != x {
        lemma_first_of_finds(s.skip(1), x);
        assert forall|j: int| 0 <= j < first_of(s, x) implies s[j] != x by {
            if j > 0 {
                assert(s[j] == s.skip(1)[j - 1]);
            }
        }
        if s.contains(x) {
            let j = choose|j: int| 0 <= j < s.len() && s[j] == x;
            assert(s.skip(1)[j - 1] == x);
        }
        if first_of(s, x) < s.len() {
            assert(s[first_of(s, x) as int] == x);
        }
    }
}

/// A map without some of its keys.
pub open spec fn without_keys<V>(m: Map<Seq<char>, V>, keys: Seq<Seq<char>>) -> Map<Seq<char>, V> {
    Map::new(|k: Seq<char>| m.dom().contains(k) && !keys.contains(k), |k: Seq<char>| m[k])
}

/// The values of a table of texts, as characters.
pub open spec fn text_table(m: Map<Seq<char>, String>) -> Map<Seq<char>, Seq<char>> {
    m.map_values(|s: String| s@)
}

struct Entry<V> {
    key: String,
    val: V,
}

/// A table keyed by text.
///
/// Where a key stood twice, the first entry would count: the view does not rest on keys being
/// distinct.
pub struct Table<V> {
    entries: Vec<Entry<V>>,
}

impl<V> Table<V> {
    closed spec fn keys(self) -> Seq<Seq<char>> {
        self.entries@.map_values(|e: Entry<V>| e.key@)
    }

    closed spec fn vals(self) -> Seq<V> {
        self.entries@.map_values(|e: Entry<V>| e.val)
    }
}

impl<V> View for Table<V> {
    type V = Map<Seq<char>, V>;

    closed spec fn view(&self) -> Map<Seq<char>, V> {
        let keys = self.keys();
        let vals = self.vals();
        Map::new(|k: Seq<char>| keys.contains(k), |k: Seq<char>| vals[first_of(keys, k) as int])
    }
}

impl<V> Table<V> {
    /// An empty table.
    pub fn new() -> (r: Self)
        ensures
            r@ == Map::<Seq<char>, V>::empty(),
    {
        let r = Table { entries: Vec::new() };
        assert(r@ =~= Map::<Seq<char>, V>::empty());
        r
    }

    /// A table holds finitely many entries, no more than memory does.
    pub proof fn lemma_finite(self)
        ensures
            self@.dom().finite(),
            self@.dom().len() <= usize::MAX,
    {
        let keys = self.keys();
        assert(self@.dom() =~= keys.to_set());
        keys.lemma_cardinality_of_set();
        assert(self.entries.len() == self.entries@.len());
    }

    fn find(&self, key: &str) -> (r: Option<usize>)
        ensures
            match r {
                Some(i) => {
                    &&& i < self.entries@.len()
                    &&& i == first_of(self.keys(), key@)
                    &&& self.keys()[i as int] == key@
                    &&& self@.dom().contains(key@)
                    &&& self@[key@] == self.entries@[i as int].val
                },
                None => !self@.dom().contains(key@) && !self.keys().contains(key@),
            },
    {
        let mut i: usize = 0;
        while i < self.entries.len()
            invariant
                i <= self.entries@.len(),
                forall|j: int| 0 <= j < i ==> self.keys()[j] != key@,
            decreases self.entries.len() - i,
        {
            if text::same(&self.entries[i].key, key) {
                proof {
                    lemma_first_of(self.keys(), key@, i as int);
                    assert(self.keys()[i as int] == key@);
                }
                return Some(i);
            }
            i += 1;
        }
        None
    }

    /// The value under a key.
    pub fn get(&self, key: &str) -> (r: Option<&V>)
        ensures
            match r {
                Some(v) => self@.dom().contains(key@) && *v == self@[key@],
                None => !self@.dom().contains(key@),
            },
    {
        match self.find(key) {
            Some(i) => Some(&self.entries[i].val),
            None => None,
        }
    }

    /// Whether there is an entry under a key.
    pub fn contains(&self, key: &str) -> (r: bool)
        ensures
            r == self@.dom().contains(key@),
    {
        self.find(key).is_some()
    }

    /// The value under a key, to be changed in place.
    pub fn get_mut(&mut self, key: &str) -> (r: Option<&mut V>)
        ensures
            match r {
                Some(v) => {
                    &&& old(self)@.dom().contains(key@)
                    &&& *v == old(self)@[key@]
                    &&& final(self)@ == old(self)@.insert(key@, *final(v))
                },
                None => !old(self)@.dom().contains(key@) && final(self)@ == old(self)@,
            },
    {
        let ghost t0 = *self;
        match self.find(key) {
            Some(i) => {
                proof {
                    assert forall|v: V, t1: Table<V>|
                        #![trigger t1@, t0@.insert(key@, v)]
                        t1.entries@ == t0.entries@.update(
                            i as int,
                            Entry { key: t0.entries@[i as int].key, val: v },
                        ) implies t1@ == t0@.insert(key@, v) by {
                        lemma_update(t0, t1, i as int, v);
                    }
                }
                Some(&mut self.entries[i].val)
            },
            None => None,
        }
    }

    /// Puts a value under a key, in place of the one that was there.
    pub fn insert(&mut self, key: String, val: V)
        ensures
            final(self)@ == old(self)@.insert(key@, val),
    {
        let ghost t0 = *self;
        let ghost kk = key@;
        match self.find(&key) {
            Some(i) => {
                let e = Entry { key, val };
                self.entries.set(i, e);
                proof {
                    assert(self.keys() =~= t0.keys());
                    assert(self.vals() =~= t0.vals().update(i as int, val));
                    lemma_vals_update(t0.keys(), t0.vals(), i as int, val);
                    assert(self@ =~= t0@.insert(kk, val));
                }
            },
            None => {
                self.entries.push(Entry { key, val });
                proof {
                    let k0 = t0.keys();
                    let k1 = self.keys();
                    assert(k1 =~= k0.push(kk));
                    assert(self.vals() =~= t0.vals().push(val));
                    assert forall|k: Seq<char>| self@.dom().contains(k) == t0@.insert(
                        kk,
                        val,
                    ).dom().contains(k) by {
                        if k0.contains(k) {
                            let j = choose|j: int| 0 <= j < k0.len() && k0[j] == k;
                            assert(k1[j] == k);
                        }
                        if k == kk {
                            assert(k1[k0.len() as int] == k);
                        }
                    }
                    assert forall|k: Seq<char>| self@.dom().contains(k) implies self@[k]
                        == t0@.insert(kk, val)[k] by {
                        lemma_first_of_finds(k0, k);
                        let n = first_of(k0, k) as int;
                        assert forall|j: int| 0 <= j < n implies k1[j] != k by {
                            assert(k1[j] == k0[j]);
                        }
                        if k == kk {
                            assert(n == k0.len());
                        } else {
                            assert(k0.contains(k));
                            assert(k1[n] == k0[n]);
                        }
                        lemma_first_of(k1, k, n);
                    }
                    assert(self@ =~= t0@.insert(kk, val));
                }
            },
        }
    }

    /// Takes the entry under a key out.
    pub fn remove(&mut self, key: &str) -> (r: Option<V>)
        ensures
            final(self)@ == old(self)@.remove(key@),
            match r {
                Some(v) => old(self)@.dom().contains(key@) && v == old(self)@[key@],
                None => !old(self)@.dom().contains(key@) && final(self)@ == old(self)@,
            },
    {
        let ghost t0 = *self;
        let mut out: Option<V> = None;
        let mut i: usize = 0;
        proof {
            assert(t0@.remove(key@) =~= t0@.remove(key@));
        }
        while i < self.entries.len()
            invariant
                i <= self.entries@.len(),
                forall|j: int| 0 <= j < i ==> self.keys()[j] != key@,
                out is None ==> self.entries@ == t0.entries@,
                out matches Some(v) ==> t0@.dom().contains(key@) && v == t0@[key@],
                self@.remove(key@) == t0@.remove(key@),
            decreases self.entries.len() - i,
        {
            if text::same(&self.entries[i].key, key) {
                let ghost t1 = *self;
                let e = self.entries.remove(i);
                proof {
                    lemma_remove(t1, *self, i as int);
                    if out is None {
                        lemma_first_of(t0.keys(), key@, i as int);
                        assert(t0.keys()[i as int] == key@);
                        assert(t0.vals()[i as int] == e.val);
                    }
                    assert forall|j: int| 0 <= j < i implies self.keys()[j] != key@ by {
                        assert(self.keys()[j] == t1.keys()[j]);
                    }
                }
                if out.is_none() {
                    out = Some(e.val);
                }
            } else {
                i += 1;
            }
        }
        proof {
            assert(!self@.dom().contains(key@));
            assert(self@.remove(key@) =~= self@);
            if out is None {
                assert(self.keys() =~= t0.keys());
                assert(!t0@.dom().contains(key@));
                assert(self@ =~= t0@);
            }
        }
        out
    }

    /// Takes the entries under some keys out.
    pub fn remove_all(&mut self, keys: &Vec<String>)
        ensures
            final(self)@ == without_keys(old(self)@, views(keys@)),
    {
        let ghost m0 = self@;
        let mut i: usize = 0;
        proof {
            assert(without_keys(m0, views(keys@).take(0)) =~= m0);
        }
        while i < keys.len()
            invariant
                i <= keys.len(),
                self@ == without_keys(m0, views(keys@).take(i as int)),
            decreases keys.len() - i,
        {
            let _ = self.remove(&keys[i]);
            proof {
                let a = views(keys@).take(i as int);
                let b = views(keys@).take(i + 1);
                let kk = keys@[i as int]@;
                assert(b =~= a.push(kk));
                assert forall|k: Seq<char>| b.contains(k) <==> (a.contains(k) || k == kk) by {
                    if a.contains(k) {
                        let j = choose|j: int| 0 <= j < a.len() && a[j] == k;
                        assert(b[j] == k);
                    }
                    assert(b[i as int] == kk);
                }
                assert(without_keys(m0, a).remove(kk) =~= without_keys(m0, b));
            }
            i += 1;
        }
        proof {
            assert(views(keys@).take(i as int) =~= views(keys@));
        }
    }

    /// The keys, each once and in order.
    pub fn sorted_keys(&self) -> (r: Vec<String>)
        ensures
            in_order(views(r@)),
            forall|k: Seq<char>| views(r@).contains(k) <==> self@.dom().contains(k),
    {
        let mut out: Vec<String> = Vec::new();
        let mut i: usize = 0;
        while i < self.entries.len()
            invariant
                i <= self.entries@.len(),
                in_order(views(out@)),
                forall|k: Seq<char>| views(out@).contains(k) <==> self.keys().take(i as int).contains(k),
            decreases self.entries.len() - i,
        {
            let ghost had = views(out@);
            let key = self.entries[i].key.clone();
            let ghost kk = key@;
            put_in_order(&mut out, key);
            proof {
                let a = self.keys().take(i as int);
                let b = self.keys().take(i + 1);
                assert(b =~= a.push(kk));
                assert forall|k: Seq<char>| views(out@).contains(k) <==> b.contains(k) by {
                    if a.contains(k) {
                        let j = choose|j: int| 0 <= j < a.len() && a[j] == k;
                        assert(b[j] == k);
                    }
                    if b.contains(k) {
                        let j = choose|j: int| 0 <= j < b.len() && b[j] == k;
                        if j < a.len() {
                            assert(a[j] == k);
                        }
                    }
                    assert(b[i as int] == kk);
                }
            }
            i += 1;
        }
        proof {
            assert(self.keys().take(i as int) =~= self.keys());
        }
        out
    }
}

/// Puts `key` where it belongs among ordered keys, unless it is there.
pub fn put_in_order(keys: &mut Vec<String>, key: String)
    requires
        in_order(views(old(keys)@)),
    ensures
        in_order(views(final(keys)@)),
        forall|k: Seq<char>|
            views(final(keys)@).contains(k) <==> (views(old(keys)@).contains(k) || k == key@),
{
    let ghost k0 = views(keys@);
    let ghost kk = key@;
    let mut i: usize = 0;
    while i < keys.len() && stands_before(&keys[i], &key)
        invariant
            i <= keys@.len(),
            k0 == views(keys@),
            forall|j: int| 0 <= j < i ==> before(#[trigger] k0[j], key@),
        decreases keys.len() - i,
    {
        i += 1;
    }
    if i < keys.len() && text::same(&keys[i], &key) {
        assert(k0[i as int] == kk);
        return ;
    }
    proof {
        if i < k0.len() {
            assert(!before(k0[i as int], kk));
            assert(before(kk, k0[i as int])) by {
                if !before(kk, k0[i as int]) {
                    lemma_before_total(kk, k0[i as int]);
                }
            }
        }
        let k1 = k0.insert(i as int, kk);
        assert(views(keys@.insert(i as int, key)) =~= k1);
        assert forall|a: int, b: int| 0 <= a < b < k1.len() implies before(
            #[trigger] k1[a],
            #[trigger] k1[b],
        ) by {
            if b < i {
                assert(k1[a] == k0[a] && k1[b] == k0[b]);
            } else if b == i {
                assert(k1[a] == k0[a]);
            } else if a < i {
                assert(k1[a] == k0[a] && k1[b] == k0[b - 1]);
            } else if a == i {
                assert(k1[b] == k0[b - 1]);
                if b - 1 > i {
                    assert(before(k0[i as int], k0[b - 1]));
                    lemma_before_transitive(kk, k0[i as int], k0[b - 1]);
                }
            } else {
                assert(k1[a] == k0[a - 1] && k1[b] == k0[b - 1]);
            }
        }
        assert forall|k: Seq<char>| k1.contains(k) <==> (k0.contains(k) || k == kk) by {
            if k0.contains(k) {
                let a0 = choose|a: int| 0 <= a < k0.len() && k0[a] == k;
                let a = if a0 < i {
                    a0
                } else {
                    a0 + 1
                };
                assert(k1[a] == k);
            }
            if k1.contains(k) {
                let a = choose|a: int| 0 <= a < k1.len() && k1[a] == k;
                if a < i {
                    assert(k0[a] == k);
                } else if a > i {
                    assert(k0[a - 1] == k);
                }
            }
            assert(k1[i as int] == kk);
        }
    }
    keys.insert(i, key);
}

proof fn lemma_vals_update<V>(keys: Seq<Seq<char>>, vals: Seq<V>, i: int, v: V)
    requires
        keys.len() == vals.len(),
        0 <= i < keys.len(),
        i == first_of(keys, keys[i]),
    ensures
        forall|k: Seq<char>|
            keys.contains(k) ==> vals.update(i, v)[first_of(keys, k) as int] == (if k == keys[i] {
                v
            } else {
                vals[first_of(keys, k) as int]
            }),
{
    assert forall|k: Seq<char>| keys.contains(k) implies vals.update(i, v)[first_of(keys, k) as int]
        == (if k == keys[i] {
        v
    } else {
        vals[first_of(keys, k) as int]
    }) by {
        lemma_first_of_finds(keys, k);
    }
}

proof fn lemma_update<V>(t0: Table<V>, t1: Table<V>, i: int, v: V)
    requires
        0 <= i < t0.entries@.len(),
        i == first_of(t0.keys(), t0.keys()[i]),
        t1.entries@ == t0.entries@.update(i, Entry { key: t0.entries@[i].key, val: v }),
    ensures
        t1@ == t0@.insert(t0.keys()[i], v),
{
    assert(t1.keys() =~= t0.keys());
    assert(t1.vals() =~= t0.vals().update(i, v));
    lemma_vals_update(t0.keys(), t0.vals(), i, v);
    assert(t0.keys().contains(t0.keys()[i]));
    assert(t1@ =~= t0@.insert(t0.keys()[i], v));
}

proof fn lemma_remove<V>(t0: Table<V>, t1: Table<V>, i: int)
    requires
        0 <= i < t0.entries@.len(),
        t1.entries@ == t0.entries@.remove(i),
    ensures
        t1@.remove(t0.keys()[i]) == t0@.remove(t0.keys()[i]),
{
    let k0 = t0.keys();
    let k1 = t1.keys();
    let x = k0[i];
    assert(k1 =~= k0.remove(i));
    assert(t1.vals() =~= t0.vals().remove(i));
    assert forall|k: Seq<char>| k != x implies k0.contains(k) == k1.contains(k) by {
        if k0.contains(k) {
            let a0 = choose|a: int| 0 <= a < k0.len() && k0[a] == k;
            let a = if a0 < i {
                a0
            } else {
                a0 - 1
            };
            assert(k1[a] == k);
        }
        if k1.contains(k) {
            let a = choose|a: int| 0 <= a < k1.len() && k1[a] == k;
            let a0 = if a < i {
                a
            } else {
                a + 1
            };
            assert(k0[a0] == k);
        }
    }
    assert forall|k: Seq<char>| k != x && k0.contains(k) implies t0@[k] == t1@[k] by {
        lemma_first_of_finds(k0, k);
        let n0 = first_of(k0, k) as int;
        let n1 = if n0 < i {
            n0
        } else {
            n0 - 1
        };
        assert forall|j: int| 0 <= j < n1 implies k1[j] != k by {
            let j0 = if j < i {
                j
            } else {
                j + 1
            };
            assert(k1[j] == k0[j0]);
        }
        assert(n0 != i);
        assert(k1[n1] == k0[n0]);
        lemma_first_of(k1, k, n1);
    }
    assert(t1@.remove(x) =~= t0@.remove(x));
}

/// The first character in which two texts differ decides which stands first; a text stands before
/// every one that continues it.
pub proof fn law_the_first_difference_decides(
    head: Seq<char>,
    c: char,
    d: char,
    a: Seq<char>,
    b: Seq<char>,
)
    requires
        c < d,
    ensures
        before(head + seq![c] + a, head + seq![d] + b),
        !before(head + seq![d] + b, head + seq![c] + a),
        before(head, head + seq![c] + a),
        !before(head + seq![c] + a, head),
    decreases head.len(),
{
    let x = head + seq![c] + a;
    let y = head + seq![d] + b;
    if head.len() > 0 {
        let rest = head.skip(1);
        law_the_first_difference_decides(rest, c, d, a, b);
        assert(x.skip(1) =~= rest + seq![c] + a);
        assert(y.skip(1) =~= rest + seq![d] + b);
        assert(x[0] == head[0] && y[0] == head[0]);
    } else {
        assert(x[0] == c && y[0] == d);
    }
}

} // verus!
