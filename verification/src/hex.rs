//! Hexadecimal text.

use vstd::prelude::*;

use crate::text;
#[allow(unused_imports)]
use crate::text::{is_space, small, small_char, trimmed, trimmed_end, trimmed_start};

verus! {

/// The small hexadecimal digit of `n < 16`.
pub open spec fn nibble(n: nat) -> char {
    if n < 10 {
        (48 + n) as char
    } else {
        (87 + n) as char
    }
}

/// The value of a hexadecimal digit, small or capital.
pub open spec fn nibble_value(c: char) -> Option<nat> {
    if '0' <= c <= '9' {
        Some((c as u32 - 48) as nat)
    } else if 'a' <= c <= 'f' {
        Some((c as u32 - 87) as nat)
    } else if 'A' <= c <= 'F' {
        Some((c as u32 - 55) as nat)
    } else {
        None
    }
}

/// Two small hexadecimal digits for each byte.
pub open spec fn hex_text(bytes: Seq<u8>) -> Seq<char>
    decreases bytes.len(),
{
    if bytes.len() == 0 {
        Seq::empty()
    } else {
        hex_text(bytes.drop_last()) + seq![
            nibble((bytes.last() / 16) as nat),
            nibble((bytes.last() % 16) as nat),
        ]
    }
}

/// The byte that two hexadecimal digits write.
pub open spec fn pair_value(a: char, b: char) -> Option<nat> {
    match (nibble_value(a), nibble_value(b)) {
        (Some(x), Some(y)) => Some(x * 16 + y),
        _ => None,
    }
}

/// The bytes that `s` writes pair by pair, where each pair writes one.
pub open spec fn pairs_bytes(s: Seq<char>) -> Option<Seq<u8>>
    decreases s.len(),
{
    if s.len() < 2 {
        Some(Seq::empty())
    } else {
        match (
            pairs_bytes(s.take(s.len() - 2)),
            pair_value(s[s.len() - 2], s[s.len() - 1]),
        ) {
            (Some(head), Some(v)) => Some(head.push(v as u8)),
            _ => None,
        }
    }
}

/// The bytes that `s` writes in hexadecimal: none at all is no answer, nor is half a byte.
pub open spec fn hex_bytes(s: Seq<char>) -> Option<Seq<u8>> {
    if s.len() == 0 || s.len() % 2 != 0 {
        None
    } else {
        pairs_bytes(s)
    }
}

/// Whether `s` holds small hexadecimal digits only.
pub open spec fn is_hex_text(s: Seq<char>) -> bool {
    forall|i: int| 0 <= i < s.len() ==> ('0' <= #[trigger] s[i] <= '9' || 'a' <= s[i] <= 'f')
}

/// Hexadecimal text has two digits for each byte.
pub proof fn lemma_hex_text_shape(bytes: Seq<u8>)
    ensures
        hex_text(bytes).len() == 2 * bytes.len(),
        is_hex_text(hex_text(bytes)),
    decreases bytes.len(),
{
    if bytes.len() > 0 {
        lemma_hex_text_shape(bytes.drop_last());
        let head = hex_text(bytes.drop_last());
        assert forall|i: int| 0 <= i < hex_text(bytes).len() implies ('0' <= #[trigger] hex_text(
            bytes,
        )[i] <= '9' || 'a' <= hex_text(bytes)[i] <= 'f') by {
            if i < head.len() {
                assert(hex_text(bytes)[i] == head[i]);
            }
        }
    }
}

/// Reading back what was written gives the bytes again.
pub proof fn law_hex_round_trip(bytes: Seq<u8>)
    requires
        bytes.len() > 0,
    ensures
        hex_bytes(hex_text(bytes)) == Some(bytes),
{
    lemma_hex_text_shape(bytes);
    lemma_pairs_round_trip(bytes);
}

proof fn lemma_pairs_round_trip(bytes: Seq<u8>)
    ensures
        pairs_bytes(hex_text(bytes)) == Some(bytes),
    decreases bytes.len(),
{
    lemma_hex_text_shape(bytes);
    if bytes.len() > 0 {
        lemma_pairs_round_trip(bytes.drop_last());
        lemma_hex_text_shape(bytes.drop_last());
        let s = hex_text(bytes);
        assert(s.take(s.len() - 2) =~= hex_text(bytes.drop_last()));
        let b = bytes.last();
        assert(s[s.len() - 2] == nibble((b / 16) as nat));
        assert(s[s.len() - 1] == nibble((b % 16) as nat));
        assert(nibble_value(nibble((b / 16) as nat)) == Some((b / 16) as nat));
        assert(nibble_value(nibble((b % 16) as nat)) == Some((b % 16) as nat));
        assert((b / 16) * 16 + b % 16 == b);
        assert(bytes.drop_last().push(b) =~= bytes);
    } else {
        assert(bytes =~= Seq::empty());
    }
}

/// A digit has a value exactly where, made small, it is the digit of that value.
proof fn lemma_digit_of(c: char, n: nat)
    requires
        n < 16,
    ensures
        nibble_value(c) == Some(n) <==> small_char(c) == nibble(n),
{
}

proof fn lemma_pairs_write(s: Seq<char>, bytes: Seq<u8>)
    requires
        s.len() % 2 == 0,
    ensures
        pairs_bytes(s) == Some(bytes) <==> small(s) == hex_text(bytes),
    decreases s.len(),
{
    lemma_hex_text_shape(bytes);
    if s.len() == 0 {
        if bytes.len() == 0 {
            assert(bytes =~= Seq::empty());
            assert(small(s) =~= hex_text(bytes));
        }
    } else if bytes.len() > 0 {
        let t = s.take(s.len() - 2);
        let head = bytes.drop_last();
        let b = bytes.last();
        let (x, y) = (s[s.len() - 2], s[s.len() - 1]);
        lemma_pairs_write(t, head);
        lemma_hex_text_shape(head);
        lemma_digit_of(x, (b / 16) as nat);
        lemma_digit_of(y, (b % 16) as nat);
        assert(bytes =~= head.push(b));
        let end = seq![nibble((b / 16) as nat), nibble((b % 16) as nat)];
        if pairs_bytes(s) == Some(bytes) {
            let v = pair_value(x, y)->0;
            assert(pairs_bytes(t) is Some);
            assert(pairs_bytes(t)->0.push(v as u8) == bytes);
            assert(pairs_bytes(t)->0 =~= head) by {
                assert(bytes.drop_last() =~= pairs_bytes(t)->0);
            }
            assert(b == v as u8);
            assert(v == nibble_value(x)->0 * 16 + nibble_value(y)->0);
            assert(small(s) =~= small(t) + end);
        }
        if small(s) == hex_text(bytes) {
            assert(small(t) =~= small(s).take(s.len() - 2));
            assert(hex_text(bytes).take(s.len() - 2) =~= hex_text(head));
            assert(small(s)[s.len() - 2] == end[0]);
            assert(small(s)[s.len() - 1] == end[1]);
            assert((b / 16) * 16 + b % 16 == b);
        }
    } else if pairs_bytes(s) == Some(bytes) {
        let t = s.take(s.len() - 2);
        let v = pair_value(s[s.len() - 2], s[s.len() - 1])->0;
        assert(pairs_bytes(t)->0.push(v as u8).len() > 0);
    }
}

/// Text is hexadecimal for some bytes exactly where, its capitals made small, it is what is
/// written for them.
pub proof fn law_hex_is_read_as_it_is_written(s: Seq<char>, bytes: Seq<u8>)
    requires
        bytes.len() > 0,
    ensures
        hex_bytes(s) == Some(bytes) <==> small(s) == hex_text(bytes),
{
    lemma_hex_text_shape(bytes);
    assert(small(s).len() == s.len());
    if s.len() % 2 == 0 {
        lemma_pairs_write(s, bytes);
    }
}

/// Hexadecimal text has no white space to trim.
pub proof fn lemma_hex_text_is_trimmed(s: Seq<char>)
    requires
        is_hex_text(s),
    ensures
        trimmed(s) == s,
{
    if s.len() > 0 {
        assert(!is_space(s[0]));
        assert(!is_space(s[s.len() - 1]));
    }
}

/// The small hexadecimal digit of `n`.
fn nibble_of(n: u8) -> (r: char)
    requires
        n < 16,
    ensures
        r == nibble(n as nat),
{
    if n < 10 {
        (48 + n) as char
    } else {
        (87 + n) as char
    }
}

/// The value of a hexadecimal digit.
pub fn nibble_from(c: char) -> (r: Option<u8>)
    ensures
        (match r {
            Some(v) => Some(v as nat),
            None => None,
        }) == nibble_value(c),
        r matches Some(v) ==> v < 16,
{
    let n: u32 = c as u32;
    if '0' <= c && c <= '9' {
        Some((n - 48) as u8)
    } else if 'a' <= c && c <= 'f' {
        Some((n - 87) as u8)
    } else if 'A' <= c && c <= 'F' {
        Some((n - 55) as u8)
    } else {
        None
    }
}

/// Writes `bytes` in hexadecimal.
pub fn hex(bytes: &[u8]) -> (r: String)
    ensures
        r@ == hex_text(bytes@),
{
    let mut out = String::new();
    let mut i: usize = 0;
    while i < bytes.len()
        invariant
            i <= bytes@.len(),
            out@ == hex_text(bytes@.take(i as int)),
        decreases bytes.len() - i,
    {
        let b: u8 = bytes[i];
        let ghost before = out@;
        out.push(nibble_of(b / 16));
        out.push(nibble_of(b % 16));
        proof {
            assert(bytes@.take(i + 1).drop_last() =~= bytes@.take(i as int));
            assert(bytes@.take(i + 1).last() == b);
            assert(out@ =~= before + seq![nibble((b / 16) as nat), nibble((b % 16) as nat)]);
        }
        i += 1;
    }
    proof {
        assert(bytes@.take(i as int) =~= bytes@);
    }
    out
}

/// Reads hexadecimal text.
pub fn unhex(s: &str) -> (r: Option<Vec<u8>>)
    ensures
        (match r {
            Some(v) => Some(v@),
            None => None,
        }) == hex_bytes(s@),
{
    let cs = text::chars_of(s);
    if cs.len() == 0 || cs.len() % 2 != 0 {
        return None;
    }
    let mut out: Vec<u8> = Vec::new();
    let mut i: usize = 0;
    while i < cs.len()
        invariant
            i <= cs.len(),
            cs@.len() % 2 == 0,
            i % 2 == 0,
            cs@ == s@,
            pairs_bytes(s@.take(i as int)) == Some(out@),
        decreases cs.len() - i,
    {
        let ghost t = s@.take(i + 2);
        proof {
            assert(t.take(t.len() - 2) =~= s@.take(i as int));
            assert(t[t.len() - 2] == cs@[i as int]);
            assert(t[t.len() - 1] == cs@[i + 1]);
        }
        match (nibble_from(cs[i]), nibble_from(cs[i + 1])) {
            (Some(x), Some(y)) => {
                out.push(x * 16 + y);
            },
            _ => {
                proof {
                    assert(pairs_bytes(t) is None);
                    lemma_bad_pair(s@, i + 2);
                }
                return None;
            },
        }
        i += 2;
    }
    proof {
        assert(s@.take(i as int) =~= s@);
    }
    Some(out)
}

proof fn lemma_bad_pair(s: Seq<char>, k: int)
    requires
        0 <= k <= s.len(),
        k % 2 == 0,
        s.len() % 2 == 0,
        pairs_bytes(s.take(k)) is None,
    ensures
        pairs_bytes(s) is None,
    decreases s.len(),
{
    if k < s.len() {
        let t = s.take(s.len() - 2);
        assert(t.take(k) =~= s.take(k));
        lemma_bad_pair(t, k);
    } else {
        assert(s.take(k) =~= s);
    }
}

/// A byte is written with its high digit first, in small letters, and the digits weigh sixteen and
/// one.
pub proof fn law_a_byte_is_two_digits(bytes: Seq<u8>, b: u8)
    ensures
        ({
            let t = hex_text(bytes.push(b));
            let n = t.len() as int;
            &&& n == hex_text(bytes).len() + 2
            &&& t.take(n - 2) == hex_text(bytes)
            &&& nibble_value(t[n - 2]) is Some
            &&& nibble_value(t[n - 1]) is Some
            &&& nibble_value(t[n - 2])->0 * 16 + nibble_value(t[n - 1])->0 == b
        }),
        hex_text(Seq::empty()).len() == 0,
        nibble_value('0') == Some(0nat),
        nibble_value('9') == Some(9nat),
        nibble_value('a') == Some(10nat),
        nibble_value('f') == Some(15nat),
        nibble_value('A') == Some(10nat),
        nibble_value('F') == Some(15nat),
        nibble_value('g') is None,
{
    assert(bytes.push(b).drop_last() =~= bytes);
    let t = hex_text(bytes.push(b));
    assert(t.take(t.len() - 2) =~= hex_text(bytes));
    lemma_digit_of(t[t.len() - 2], (b / 16) as nat);
    lemma_digit_of(t[t.len() - 1], (b % 16) as nat);
    assert((b / 16) * 16 + b % 16 == b);
}

} // verus!
