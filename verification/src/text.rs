//! Text as sequences of characters.
//!
//! Every contract of the crate that speaks of text speaks of `Seq<char>`, the view of `str` and
//! `String`. This module gives those sequences their vocabulary (trimming, splitting, searching,
//! number formats) as spec functions, and beside each an executable function that computes it.

use vstd::prelude::*;

verus! {

/// `String::push`: appends one character.
pub assume_specification[ String::push ](s: &mut String, c: char)
    ensures
        final(s)@ == old(s)@.push(c),
;

/// `str::eq`: two string slices are equal exactly when their characters are.
pub assume_specification[ <str as PartialEq>::eq ](a: &str, b: &str) -> (r: bool)
    ensures
        r == (a@ == b@),
;

/// A list of strings, as a sequence of character sequences.
pub open spec fn views(v: Seq<String>) -> Seq<Seq<char>> {
    v.map_values(|s: String| s@)
}

/// An optional string, as optional characters.
pub open spec fn opt_view(o: Option<String>) -> Option<Seq<char>> {
    match o {
        Some(s) => Some(s@),
        None => None,
    }
}

/// Whether `c` has Unicode's `White_Space` property.
pub open spec fn is_space(c: char) -> bool {
    let n = c as u32;
    ||| 0x9 <= n <= 0xd
    ||| n == 0x20
    ||| n == 0x85
    ||| n == 0xa0
    ||| n == 0x1680
    ||| 0x2000 <= n <= 0x200a
    ||| n == 0x2028
    ||| n == 0x2029
    ||| n == 0x202f
    ||| n == 0x205f
    ||| n == 0x3000
}

/// `s` without its leading white space.
pub open spec fn trimmed_start(s: Seq<char>) -> Seq<char>
    decreases s.len(),
{
    if s.len() > 0 && is_space(s[0]) {
        trimmed_start(s.skip(1))
    } else {
        s
    }
}

/// `s` without its trailing white space.
pub open spec fn trimmed_end(s: Seq<char>) -> Seq<char>
    decreases s.len(),
{
    if s.len() > 0 && is_space(s.last()) {
        trimmed_end(s.drop_last())
    } else {
        s
    }
}

/// `s` without its leading and trailing white space.
pub open spec fn trimmed(s: Seq<char>) -> Seq<char> {
    trimmed_end(trimmed_start(s))
}

/// `s` without the run of `c` that it ends with.
pub open spec fn without_trailing(s: Seq<char>, c: char) -> Seq<char>
    decreases s.len(),
{
    if s.len() > 0 && s.last() == c {
        without_trailing(s.drop_last(), c)
    } else {
        s
    }
}

/// `s` without the run of `c` that it starts with.
pub open spec fn without_leading(s: Seq<char>, c: char) -> Seq<char>
    decreases s.len(),
{
    if s.len() > 0 && s[0] == c {
        without_leading(s.skip(1), c)
    } else {
        s
    }
}

/// The index of the first `c` in `s`, or the length of `s` where there is none.
pub open spec fn first_at(s: Seq<char>, c: char) -> nat
    decreases s.len(),
{
    if s.len() == 0 || s[0] == c {
        0
    } else {
        1 + first_at(s.skip(1), c)
    }
}

/// The pieces of `s` between the occurrences of `c`: one more than there are occurrences.
pub open spec fn pieces(s: Seq<char>, c: char) -> Seq<Seq<char>>
    decreases s.len(),
{
    let k = first_at(s, c) as int;
    if k >= s.len() {
        seq![s]
    } else {
        seq![s.take(k)] + pieces(s.skip(k + 1), c)
    }
}

/// A line without the carriage return that stood before its line feed.
pub open spec fn without_cr(s: Seq<char>) -> Seq<char> {
    if s.len() > 0 && s.last() == '\r' {
        s.drop_last()
    } else {
        s
    }
}

/// The lines of `s`: ended by `\n` or `\r\n`, the last one possibly by the end of the text.
pub open spec fn lines(s: Seq<char>) -> Seq<Seq<char>>
    decreases s.len(),
{
    if s.len() == 0 {
        Seq::empty()
    } else {
        let k = first_at(s, '\n') as int;
        if k >= s.len() {
            seq![s]
        } else {
            seq![without_cr(s.take(k))] + lines(s.skip(k + 1))
        }
    }
}

/// The index of the first white space in `s`, or the length of `s` where there is none.
pub open spec fn word_len(s: Seq<char>) -> nat
    decreases s.len(),
{
    if s.len() == 0 || is_space(s[0]) {
        0
    } else {
        1 + word_len(s.skip(1))
    }
}

/// `word_len` is a length within the text.
pub proof fn lemma_word_len_bound(s: Seq<char>)
    ensures
        word_len(s) <= s.len(),
    decreases s.len(),
{
    if s.len() > 0 && !is_space(s[0]) {
        lemma_word_len_bound(s.skip(1));
    }
}

/// `trimmed_start` never lengthens.
pub proof fn lemma_trimmed_start_len(s: Seq<char>)
    ensures
        trimmed_start(s).len() <= s.len(),
        trimmed_start(s).len() > 0 ==> !is_space(trimmed_start(s)[0]),
    decreases s.len(),
{
    if s.len() > 0 && is_space(s[0]) {
        lemma_trimmed_start_len(s.skip(1));
    }
}

/// The runs of `s` that hold no white space, in order.
pub open spec fn words(s: Seq<char>) -> Seq<Seq<char>>
    decreases s.len(),
{
    let t = trimmed_start(s);
    if t.len() == 0 {
        Seq::empty()
    } else {
        proof {
            lemma_trimmed_start_len(s);
            lemma_word_len_bound(t);
        }
        seq![t.take(word_len(t) as int)] + words(t.skip(word_len(t) as int))
    }
}

/// Whether `sub` stands in `s` at index `i`.
pub open spec fn occurs_at(s: Seq<char>, sub: Seq<char>, i: int) -> bool {
    &&& 0 <= i
    &&& i + sub.len() <= s.len()
    &&& s.subrange(i, i + sub.len()) == sub
}

/// Whether `sub` stands anywhere in `s`.
pub open spec fn contains_text(s: Seq<char>, sub: Seq<char>) -> bool {
    exists|i: int| occurs_at(s, sub, i)
}

/// The first index at which `sub` stands in `s`.
pub open spec fn text_at(s: Seq<char>, sub: Seq<char>) -> Option<nat>
    decreases s.len(),
{
    if sub.is_prefix_of(s) {
        Some(0)
    } else if s.len() == 0 {
        None
    } else {
        match text_at(s.skip(1), sub) {
            Some(k) => Some(k + 1),
            None => None,
        }
    }
}

/// What stands in `s` before the first `sub`: all of it where there is none.
pub open spec fn before_text(s: Seq<char>, sub: Seq<char>) -> Seq<char> {
    match text_at(s, sub) {
        Some(k) => s.take(k as int),
        None => s,
    }
}

/// What stands in `s` behind the first `sub`.
pub open spec fn after_text(s: Seq<char>, sub: Seq<char>) -> Option<Seq<char>> {
    match text_at(s, sub) {
        Some(k) => Some(s.skip(k as int + sub.len())),
        None => None,
    }
}

/// `text_at` finds within the text.
pub proof fn lemma_text_at_bound(s: Seq<char>, sub: Seq<char>)
    ensures
        text_at(s, sub) matches Some(k) ==> k + sub.len() <= s.len(),
    decreases s.len(),
{
    if !sub.is_prefix_of(s) && s.len() > 0 {
        lemma_text_at_bound(s.skip(1), sub);
    }
}

/// `s` with every `from` replaced by `to`, from left to right. An empty `from` is left alone.
pub open spec fn text_replaced(s: Seq<char>, from: Seq<char>, to: Seq<char>) -> Seq<char>
    decreases s.len(),
{
    match text_at(s, from) {
        Some(k) => if from.len() > 0 {
            proof {
                lemma_text_at_bound(s, from);
            }
            s.take(k as int) + to + text_replaced(s.skip(k as int + from.len()), from, to)
        } else {
            s
        },
        None => s,
    }
}

/// `s` without the quotation marks round it.
pub open spec fn without_quotes(s: Seq<char>) -> Seq<char> {
    without_trailing(without_leading(s, '"'), '"')
}

/// What follows `p` where `s` starts with it.
pub open spec fn after_prefix(s: Seq<char>, p: Seq<char>) -> Option<Seq<char>> {
    if p.is_prefix_of(s) {
        Some(s.skip(p.len() as int))
    } else {
        None
    }
}

/// The items of `list` with `sep` between each two.
pub open spec fn joined(list: Seq<Seq<char>>, sep: Seq<char>) -> Seq<char>
    decreases list.len(),
{
    if list.len() == 0 {
        Seq::empty()
    } else if list.len() == 1 {
        list[0]
    } else {
        joined(list.drop_last(), sep) + sep + list.last()
    }
}

/// `c` with an ASCII capital made small.
pub open spec fn small_char(c: char) -> char {
    if 'A' <= c <= 'Z' {
        ((c as u32) + 32) as char
    } else {
        c
    }
}

/// `s` with its ASCII capitals made small.
pub open spec fn small(s: Seq<char>) -> Seq<char> {
    s.map_values(|c: char| small_char(c))
}

/// `s` with every `from` replaced by `to`.
pub open spec fn char_replaced(s: Seq<char>, from: char, to: char) -> Seq<char> {
    s.map_values(|c: char| if c == from { to } else { c })
}

/// The decimal digit of `d < 10`.
pub open spec fn digit_char(d: nat) -> char {
    (48 + d) as char
}

/// `n` in decimal, without leading zeros.
pub open spec fn decimal(n: nat) -> Seq<char>
    decreases n,
{
    if n < 10 {
        seq![digit_char(n)]
    } else {
        decimal(n / 10).push(digit_char(n % 10))
    }
}

/// `n` in decimal, with a minus sign where it is negative.
pub open spec fn signed_decimal(n: int) -> Seq<char> {
    if n < 0 {
        seq!['-'] + decimal((-n) as nat)
    } else {
        decimal(n as nat)
    }
}

/// Whether `c` is one of the ten decimal digits.
pub open spec fn is_digit(c: char) -> bool {
    '0' <= c <= '9'
}

/// The number that the decimal digits `s` write, where `s` holds digits only.
pub open spec fn digits_value(s: Seq<char>) -> nat
    decreases s.len(),
{
    if s.len() == 0 {
        0
    } else {
        digits_value(s.drop_last()) * 10 + (s.last() as u32 - 48) as nat
    }
}

/// Whether `s` holds at least one decimal digit and nothing else.
pub open spec fn all_digits(s: Seq<char>) -> bool {
    s.len() > 0 && forall|i: int| 0 <= i < s.len() ==> is_digit(#[trigger] s[i])
}

/// The number that `s` writes in decimal: an optional `+`, then at least one digit.
pub open spec fn parsed_decimal(s: Seq<char>) -> Option<nat> {
    let t = if s.len() > 0 && s[0] == '+' {
        s.skip(1)
    } else {
        s
    };
    if all_digits(t) {
        Some(digits_value(t))
    } else {
        None
    }
}

/// The number that `s` writes in decimal, where it is at most `max`.
pub open spec fn parsed_up_to(s: Seq<char>, max: nat) -> Option<nat> {
    match parsed_decimal(s) {
        Some(n) => if n <= max {
            Some(n)
        } else {
            None
        },
        None => None,
    }
}

/// The number that `s` writes in decimal with an optional sign.
pub open spec fn parsed_signed(s: Seq<char>) -> Option<int> {
    if s.len() > 0 && s[0] == '-' {
        if all_digits(s.skip(1)) {
            Some(-(digits_value(s.skip(1)) as int))
        } else {
            None
        }
    } else {
        match parsed_decimal(s) {
            Some(n) => Some(n as int),
            None => None,
        }
    }
}

/// The number that `s` writes in decimal with an optional sign, where it lies within bounds.
pub open spec fn parsed_between(s: Seq<char>, min: int, max: int) -> Option<int> {
    match parsed_signed(s) {
        Some(n) => if min <= n <= max {
            Some(n)
        } else {
            None
        },
        None => None,
    }
}

/// What follows the last `c` in `s`.
pub open spec fn last_piece(s: Seq<char>, c: char) -> Seq<char> {
    pieces(s, c).last()
}

// ---------------------------------------------------------------------------
// Facts
// ---------------------------------------------------------------------------

/// How `first_at` is recognised.
pub proof fn lemma_first_at(s: Seq<char>, c: char, k: int)
    requires
        0 <= k <= s.len(),
        forall|j: int| 0 <= j < k ==> s[j] != c,
        k < s.len() ==> s[k] == c,
    ensures
        first_at(s, c) == k,
    decreases k,
{
    if k > 0 {
        assert forall|j: int| 0 <= j < k - 1 implies s.skip(1)[j] != c by {
            assert(s.skip(1)[j] == s[j + 1]);
        }
        lemma_first_at(s.skip(1), c, k - 1);
    }
}

/// What `first_at` finds.
pub proof fn lemma_first_at_finds(s: Seq<char>, c: char)
    ensures
        first_at(s, c) <= s.len(),
        first_at(s, c) < s.len() ==> s[first_at(s, c) as int] == c,
        forall|j: int| 0 <= j < first_at(s, c) ==> s[j] != c,
    decreases s.len(),
{
    if s.len() > 0 && s[0] != c {
        lemma_first_at_finds(s.skip(1), c);
        assert forall|j: int| 0 <= j < first_at(s, c) implies s[j] != c by {
            if j > 0 {
                assert(s[j] == s.skip(1)[j - 1]);
            }
        }
    }
}

/// How `text_at` is recognised.
pub proof fn lemma_text_at(s: Seq<char>, sub: Seq<char>, k: int)
    requires
        0 <= k,
        occurs_at(s, sub, k),
        forall|j: int| 0 <= j < k ==> !occurs_at(s, sub, j),
    ensures
        text_at(s, sub) == Some(k as nat),
    decreases k,
{
    if k > 0 {
        assert(!occurs_at(s, sub, 0));
        assert(!sub.is_prefix_of(s)) by {
            if sub.is_prefix_of(s) {
                assert(s.subrange(0, sub.len() as int) =~= sub);
            }
        }
        let t = s.skip(1);
        assert(t.subrange(k - 1, k - 1 + sub.len()) =~= s.subrange(k, k + sub.len()));
        assert forall|j: int| 0 <= j < k - 1 implies !occurs_at(t, sub, j) by {
            if occurs_at(t, sub, j) {
                assert(s.subrange(j + 1, j + 1 + sub.len()) =~= t.subrange(j, j + sub.len()));
                assert(occurs_at(s, sub, j + 1));
            }
        }
        lemma_text_at(t, sub, k - 1);
    } else {
        assert(s.subrange(0, sub.len() as int) =~= s.take(sub.len() as int));
        assert(sub.is_prefix_of(s));
    }
}

/// What `text_at` finds.
pub proof fn lemma_text_at_finds(s: Seq<char>, sub: Seq<char>)
    ensures
        match text_at(s, sub) {
            Some(k) => occurs_at(s, sub, k as int) && forall|j: int|
                0 <= j < k ==> !occurs_at(s, sub, j),
            None => !contains_text(s, sub),
        },
    decreases s.len(),
{
    if sub.is_prefix_of(s) {
        assert(s.subrange(0, sub.len() as int) =~= sub);
    } else {
        assert(!occurs_at(s, sub, 0)) by {
            if occurs_at(s, sub, 0) {
                assert(s.subrange(0, sub.len() as int) =~= s.take(sub.len() as int));
            }
        }
        if s.len() > 0 {
            let t = s.skip(1);
            lemma_text_at_finds(t, sub);
            assert forall|j: int| j > 0 && occurs_at(s, sub, j) implies occurs_at(t, sub, j - 1) by {
                assert(t.subrange(j - 1, j - 1 + sub.len()) =~= s.subrange(j, j + sub.len()));
            }
            match text_at(t, sub) {
                Some(n) => {
                    let k = n as int;
                    assert(s.subrange(k + 1, k + 1 + sub.len()) =~= t.subrange(k, k + sub.len()));
                },
                None => {
                    assert forall|j: int| !occurs_at(s, sub, j) by {
                        if occurs_at(s, sub, j) && j > 0 {
                            assert(occurs_at(t, sub, j - 1));
                        }
                    }
                },
            }
        } else {
            assert forall|j: int| !occurs_at(s, sub, j) by {
                if occurs_at(s, sub, j) {
                    assert(j == 0);
                }
            }
        }
    }
}

/// The last piece of a text is no longer than the text.
pub proof fn lemma_last_piece_len(s: Seq<char>, c: char)
    ensures
        last_piece(s, c).len() <= s.len(),
    decreases s.len(),
{
    let n = first_at(s, c) as int;
    lemma_first_at_finds(s, c);
    lemma_pieces_not_empty(s, c);
    if n < s.len() {
        let rest = s.skip(n + 1);
        lemma_last_piece_len(rest, c);
        lemma_pieces_not_empty(rest, c);
        assert(pieces(s, c).last() == pieces(rest, c).last());
    }
}

/// A separator between two texts separates their pieces.
pub proof fn lemma_pieces_concat(a: Seq<char>, b: Seq<char>, c: char)
    ensures
        pieces(a + seq![c] + b, c) == pieces(a, c) + pieces(b, c),
    decreases a.len(),
{
    let s = a + seq![c] + b;
    let n = first_at(a, c) as int;
    lemma_first_at_finds(a, c);
    assert forall|k: int| 0 <= k < n implies s[k] != c by {
        assert(s[k] == a[k]);
    }
    assert(s[n] == c);
    lemma_first_at(s, c, n);
    if n < a.len() {
        assert(s.take(n) =~= a.take(n));
        assert(s.skip(n + 1) =~= a.skip(n + 1) + seq![c] + b);
        lemma_pieces_concat(a.skip(n + 1), b, c);
        assert(pieces(s, c) =~= pieces(a, c) + pieces(b, c));
    } else {
        assert(s.take(n) =~= a);
        assert(s.skip(n + 1) =~= b);
        assert(pieces(s, c) =~= pieces(a, c) + pieces(b, c));
    }
}

/// Decimal digits write their number.
pub proof fn lemma_decimal_value(n: nat)
    ensures
        digits_value(decimal(n)) == n,
        all_digits(decimal(n)),
    decreases n,
{
    if n < 10 {
        let s = decimal(n);
        assert(s.drop_last() =~= Seq::<char>::empty());
        assert(digits_value(s.drop_last()) == 0);
    } else {
        lemma_decimal_value(n / 10);
        let s = decimal(n);
        let head = decimal(n / 10);
        assert(s.drop_last() =~= head);
        assert forall|i: int| 0 <= i < s.len() implies is_digit(#[trigger] s[i]) by {
            if i < head.len() {
                assert(s[i] == head[i]);
            }
        }
    }
}

/// `views` of a list that grew by one string.
pub proof fn lemma_views_push(v: Seq<String>, s: String)
    ensures
        views(v.push(s)) == views(v).push(s@),
{
    assert(views(v.push(s)) =~= views(v).push(s@));
}

/// `joined` of a list that grew by one item.
pub proof fn lemma_joined_push(list: Seq<Seq<char>>, sep: Seq<char>, item: Seq<char>)
    requires
        list.len() > 0,
    ensures
        joined(list.push(item), sep) == joined(list, sep) + sep + item,
{
    assert(list.push(item).drop_last() =~= list);
}

proof fn lemma_trimmed_start_at(s: Seq<char>, i: int)
    requires
        0 <= i <= s.len(),
        forall|j: int| 0 <= j < i ==> is_space(s[j]),
        i < s.len() ==> !is_space(s[i]),
    ensures
        trimmed_start(s) == s.skip(i),
    decreases i,
{
    if i > 0 {
        assert forall|j: int| 0 <= j < i - 1 implies is_space(s.skip(1)[j]) by {
            assert(s.skip(1)[j] == s[j + 1]);
        }
        lemma_trimmed_start_at(s.skip(1), i - 1);
        assert(s.skip(1).skip(i - 1) =~= s.skip(i));
    } else {
        assert(s.skip(0) =~= s);
    }
}

proof fn lemma_trimmed_end_at(s: Seq<char>, i: int)
    requires
        0 <= i <= s.len(),
        forall|j: int| i <= j < s.len() ==> is_space(s[j]),
        i > 0 ==> !is_space(s[i - 1]),
    ensures
        trimmed_end(s) == s.take(i),
    decreases s.len() - i,
{
    if i < s.len() {
        lemma_trimmed_end_at(s.drop_last(), i);
        assert(s.drop_last().take(i) =~= s.take(i));
    } else {
        assert(s.take(i) =~= s);
    }
}

proof fn lemma_word_len(s: Seq<char>, k: int)
    requires
        0 <= k <= s.len(),
        forall|j: int| 0 <= j < k ==> !is_space(s[j]),
        k < s.len() ==> is_space(s[k]),
    ensures
        word_len(s) == k,
    decreases k,
{
    if k > 0 {
        assert forall|j: int| 0 <= j < k - 1 implies !is_space(s.skip(1)[j]) by {
            assert(s.skip(1)[j] == s[j + 1]);
        }
        lemma_word_len(s.skip(1), k - 1);
    }
}

/// No line holds a line feed.
pub proof fn lemma_lines_hold_no_line_feed(s: Seq<char>)
    ensures
        forall|i: int, j: int|
            0 <= i < lines(s).len() && 0 <= j < lines(s)[i].len() ==> lines(s)[i][j] != '\n',
    decreases s.len(),
{
    if s.len() > 0 {
        lemma_first_at_finds(s, '\n');
        let k = first_at(s, '\n') as int;
        if k < s.len() {
            lemma_lines_hold_no_line_feed(s.skip(k + 1));
            let rest = lines(s.skip(k + 1));
            assert forall|i: int, j: int|
                0 <= i < lines(s).len() && 0 <= j < lines(s)[i].len() implies lines(s)[i][j]
                != '\n' by {
                if i > 0 {
                    assert(lines(s)[i] == rest[i - 1]);
                } else {
                    assert(lines(s)[0] == without_cr(s.take(k)));
                    assert(s.take(k)[j] == s[j]);
                }
            }
        }
    }
}

/// The lines of a text that ends with a line feed, followed by another text.
pub proof fn lemma_lines_concat(a: Seq<char>, b: Seq<char>)
    requires
        a.len() > 0 ==> a.last() == '\n',
    ensures
        lines(a + b) == lines(a) + lines(b),
    decreases a.len(),
{
    if a.len() == 0 {
        assert(a + b =~= b);
        assert(lines(a) + lines(b) =~= lines(b));
    } else {
        lemma_first_at_finds(a, '\n');
        let k = first_at(a, '\n') as int;
        assert(k < a.len()) by {
            if k >= a.len() {
                assert(a[a.len() - 1] != '\n');
            }
        }
        assert forall|j: int| 0 <= j < k implies (a + b)[j] != '\n' by {
            assert((a + b)[j] == a[j]);
        }
        lemma_first_at(a + b, '\n', k);
        assert((a + b).take(k) =~= a.take(k));
        assert((a + b).skip(k + 1) =~= a.skip(k + 1) + b);
        if a.skip(k + 1).len() > 0 {
            assert(a.skip(k + 1).last() == a.last());
        }
        lemma_lines_concat(a.skip(k + 1), b);
        let head = seq![without_cr(a.take(k))];
        assert(head + (lines(a.skip(k + 1)) + lines(b)) =~= (head + lines(a.skip(k + 1))) + lines(
            b,
        ));
    }
}

/// The lines of one line.
pub proof fn lemma_one_line(l: Seq<char>)
    requires
        forall|j: int| 0 <= j < l.len() ==> l[j] != '\n',
    ensures
        lines(l.push('\n')) == seq![without_cr(l)],
{
    let s = l.push('\n');
    lemma_first_at(s, '\n', l.len() as int);
    assert(s.take(l.len() as int) =~= l);
    assert(s.skip(l.len() as int + 1) =~= Seq::empty());
    assert(lines(Seq::<char>::empty()) =~= Seq::empty());
    assert(lines(s) =~= seq![without_cr(l)]);
}

/// `trimmed_start` cuts a prefix off.
pub proof fn lemma_trimmed_start_suffix(s: Seq<char>) -> (k: int)
    ensures
        0 <= k <= s.len(),
        trimmed_start(s) == s.skip(k),
        forall|j: int| 0 <= j < k ==> is_space(s[j]),
        k < s.len() ==> !is_space(s[k]),
    decreases s.len(),
{
    if s.len() > 0 && is_space(s[0]) {
        let k = lemma_trimmed_start_suffix(s.skip(1));
        assert(s.skip(1).skip(k) =~= s.skip(k + 1));
        assert forall|j: int| 0 <= j < k + 1 implies is_space(s[j]) by {
            if j > 0 {
                assert(s[j] == s.skip(1)[j - 1]);
            }
        }
        k + 1
    } else {
        assert(s.skip(0) =~= s);
        0
    }
}

/// What `word_len` finds.
pub proof fn lemma_word_len_finds(s: Seq<char>)
    ensures
        word_len(s) <= s.len(),
        word_len(s) < s.len() ==> is_space(s[word_len(s) as int]),
        forall|j: int| 0 <= j < word_len(s) ==> !is_space(s[j]),
    decreases s.len(),
{
    if s.len() > 0 && !is_space(s[0]) {
        lemma_word_len_finds(s.skip(1));
        assert forall|j: int| 0 <= j < word_len(s) implies !is_space(s[j]) by {
            if j > 0 {
                assert(s[j] == s.skip(1)[j - 1]);
            }
        }
    }
}

/// A carriage return at the end of a line does not touch its first word.
pub proof fn lemma_first_word_without_cr(l: Seq<char>)
    requires
        words(l).len() > 0,
    ensures
        words(without_cr(l)).len() > 0,
        words(without_cr(l))[0] == words(l)[0],
{
    if l.len() > 0 && l.last() == '\r' {
        let m = l.drop_last();
        let k = lemma_trimmed_start_suffix(l);
        assert(is_space('\r'));
        assert(k < l.len() - 1);
        lemma_trimmed_start_at(m, k);
        let t = l.skip(k);
        let u = m.skip(k);
        lemma_word_len_finds(t);
        let n = word_len(t) as int;
        assert(t.last() == '\r');
        assert(n < t.len());
        assert forall|j: int| 0 <= j < n implies !is_space(u[j]) by {
            assert(u[j] == t[j]);
        }
        if n < u.len() {
            assert(u[n] == t[n]);
        }
        lemma_word_len(u, n);
        assert(u.take(n) =~= t.take(n));
    }
}

/// Two words with a space between them.
pub proof fn lemma_two_words(a: Seq<char>, b: Seq<char>)
    requires
        a.len() > 0,
        b.len() > 0,
        forall|j: int| 0 <= j < a.len() ==> !is_space(a[j]),
        forall|j: int| 0 <= j < b.len() ==> !is_space(b[j]),
    ensures
        words(a + " "@ + b) == seq![a, b],
{
    reveal_strlit(" ");
    let s = a + " "@ + b;
    let n = a.len() as int;
    assert(trimmed_start(s) == s);
    assert forall|j: int| 0 <= j < n implies !is_space(s[j]) by {
        assert(s[j] == a[j]);
    }
    lemma_word_len(s, n);
    assert(s.take(n) =~= a);
    let u = s.skip(n);
    lemma_trimmed_start_at(u, 1);
    assert(u.skip(1) =~= b);
    lemma_word_len(b, b.len() as int);
    assert(b.take(b.len() as int) =~= b);
    assert(b.skip(b.len() as int) =~= Seq::empty());
    assert(words(Seq::<char>::empty()) =~= Seq::empty());
    assert(words(u) =~= seq![b]);
    assert(words(s) =~= seq![a] + words(u));
}

// ---------------------------------------------------------------------------
// Executable forms
// ---------------------------------------------------------------------------

/// The characters of `s`, in order.
pub fn chars_of(s: &str) -> (r: Vec<char>)
    ensures
        r@ == s@,
{
    let mut out: Vec<char> = Vec::new();
    for c in it: s.chars()
        invariant
            out@ == it.seq().take(it.index()),
            it.seq() == s@,
    {
        out.push(c);
        assert(out@ =~= it.seq().take(it.index() + 1));
    }
    assert(s@.take(s@.len() as int) =~= s@);
    out
}

/// The string that holds the characters of `cs` from `from` up to `to`.
pub fn string_of(cs: &Vec<char>, from: usize, to: usize) -> (r: String)
    requires
        from <= to <= cs@.len(),
    ensures
        r@ == cs@.subrange(from as int, to as int),
{
    let mut out = String::new();
    let mut i: usize = from;
    while i < to
        invariant
            from <= i <= to <= cs@.len(),
            out@ == cs@.subrange(from as int, i as int),
        decreases to - i,
    {
        out.push(cs[i]);
        i += 1;
        assert(out@ =~= cs@.subrange(from as int, i as int));
    }
    out
}

/// A copy of an optional string.
pub fn copy_opt(o: &Option<String>) -> (r: Option<String>)
    ensures
        r == *o,
{
    match o {
        Some(s) => Some(s.clone()),
        None => None,
    }
}

/// A copy of a list of strings.
pub fn copy_list(v: &Vec<String>) -> (r: Vec<String>)
    ensures
        r@ == v@,
{
    let mut out: Vec<String> = Vec::new();
    let mut i: usize = 0;
    while i < v.len()
        invariant
            i <= v.len(),
            out@ == v@.take(i as int),
        decreases v.len() - i,
    {
        out.push(v[i].clone());
        i += 1;
        assert(out@ =~= v@.take(i as int));
    }
    assert(v@.take(i as int) =~= v@);
    out
}

/// Whether two texts hold the same characters.
pub fn same(a: &str, b: &str) -> (r: bool)
    ensures
        r == (a@ == b@),
{
    a.eq(b)
}

/// Whether `c` is white space.
pub fn space(c: char) -> (r: bool)
    ensures
        r == is_space(c),
{
    let n: u32 = c as u32;
    (0x9 <= n && n <= 0xd) || n == 0x20 || n == 0x85 || n == 0xa0 || n == 0x1680 || (0x2000 <= n && n
        <= 0x200a) || n == 0x2028 || n == 0x2029 || n == 0x202f || n == 0x205f || n == 0x3000
}

/// `s` without surrounding white space.
pub fn trim(s: &str) -> (r: &str)
    ensures
        r@ == trimmed(s@),
{
    let cs = chars_of(s);
    let mut i: usize = 0;
    while i < cs.len() && space(cs[i])
        invariant
            i <= cs.len(),
            cs@ == s@,
            forall|j: int| 0 <= j < i ==> is_space(cs@[j]),
        decreases cs.len() - i,
    {
        i += 1;
    }
    proof {
        lemma_trimmed_start_at(s@, i as int);
    }
    let mut e: usize = cs.len();
    while e > i && space(cs[e - 1])
        invariant
            i <= e <= cs.len(),
            cs@ == s@,
            forall|j: int| e <= j < cs.len() ==> is_space(cs@[j]),
        decreases e,
    {
        e -= 1;
    }
    proof {
        let t = s@.skip(i as int);
        assert forall|j: int| e - i <= j < t.len() implies is_space(t[j]) by {
            assert(t[j] == cs@[j + i]);
        }
        if e > i {
            assert(t[e - i - 1] == cs@[e - 1]);
        }
        lemma_trimmed_end_at(t, e - i);
        assert(t.take(e - i) =~= s@.subrange(i as int, e as int));
    }
    s.substring_char(i, e)
}

/// `s` without the white space that it starts with.
pub fn trim_start(s: &str) -> (r: &str)
    ensures
        r@ == trimmed_start(s@),
{
    let cs = chars_of(s);
    let mut i: usize = 0;
    while i < cs.len() && space(cs[i])
        invariant
            i <= cs.len(),
            cs@ == s@,
            forall|j: int| 0 <= j < i ==> is_space(cs@[j]),
        decreases cs.len() - i,
    {
        i += 1;
    }
    proof {
        lemma_trimmed_start_at(s@, i as int);
        assert(s@.subrange(i as int, s@.len() as int) =~= s@.skip(i as int));
    }
    s.substring_char(i, cs.len())
}

/// `s` without the run of `c` that it ends with.
pub fn trim_end_of(s: &str, c: char) -> (r: &str)
    ensures
        r@ == without_trailing(s@, c),
{
    let cs = chars_of(s);
    let mut e: usize = cs.len();
    proof {
        assert(s@.take(e as int) =~= s@);
    }
    while e > 0 && cs[e - 1] == c
        invariant
            e <= cs.len(),
            cs@ == s@,
            without_trailing(s@.take(e as int), c) == without_trailing(s@, c),
        decreases e,
    {
        proof {
            assert(s@.take(e as int).last() == cs@[e - 1]);
            assert(s@.take(e as int).drop_last() =~= s@.take(e - 1));
        }
        e -= 1;
    }
    proof {
        if e > 0 {
            assert(s@.take(e as int).last() == cs@[e - 1]);
        }
        assert(s@.take(e as int) =~= s@.subrange(0, e as int));
    }
    s.substring_char(0, e)
}

/// `s` without the run of `c` that it starts with.
pub fn trim_start_of(s: &str, c: char) -> (r: &str)
    ensures
        r@ == without_leading(s@, c),
{
    let cs = chars_of(s);
    let mut i: usize = 0;
    proof {
        assert(s@.skip(0) =~= s@);
    }
    while i < cs.len() && cs[i] == c
        invariant
            i <= cs.len(),
            cs@ == s@,
            without_leading(s@.skip(i as int), c) == without_leading(s@, c),
        decreases cs.len() - i,
    {
        proof {
            assert(s@.skip(i as int)[0] == cs@[i as int]);
            assert(s@.skip(i as int).skip(1) =~= s@.skip(i + 1));
        }
        i += 1;
    }
    proof {
        if i < cs.len() {
            assert(s@.skip(i as int)[0] == cs@[i as int]);
        }
        assert(s@.skip(i as int) =~= s@.subrange(i as int, s@.len() as int));
    }
    s.substring_char(i, cs.len())
}

/// The pieces of `s` between the occurrences of `c`.
pub fn split(s: &str, c: char) -> (r: Vec<String>)
    ensures
        views(r@) == pieces(s@, c),
{
    let cs = chars_of(s);
    let mut out: Vec<String> = Vec::new();
    let mut start: usize = 0;
    let mut i: usize = 0;
    proof {
        assert(s@.skip(0) =~= s@);
        assert(views(out@) + pieces(s@, c) =~= pieces(s@, c));
    }
    while i < cs.len()
        invariant
            start <= i <= cs.len(),
            cs@ == s@,
            forall|j: int| start <= j < i ==> cs@[j] != c,
            views(out@) + pieces(s@.skip(start as int), c) == pieces(s@, c),
        decreases cs.len() - i,
    {
        if cs[i] == c {
            let piece = string_of(&cs, start, i);
            proof {
                let t = s@.skip(start as int);
                assert forall|j: int| 0 <= j < i - start implies t[j] != c by {
                    assert(t[j] == cs@[j + start]);
                }
                lemma_first_at(t, c, i - start);
                assert(t.take(i - start) =~= piece@);
                assert(t.skip(i - start + 1) =~= s@.skip(i + 1));
                lemma_views_push(out@, piece);
                assert(views(out@).push(piece@) + pieces(s@.skip(i + 1), c) =~= views(out@) + (
                seq![piece@] + pieces(s@.skip(i + 1), c)));
            }
            out.push(piece);
            start = i + 1;
        }
        i += 1;
    }
    let last = string_of(&cs, start, cs.len());
    proof {
        let t = s@.skip(start as int);
        assert forall|j: int| 0 <= j < t.len() implies t[j] != c by {
            assert(t[j] == cs@[j + start]);
        }
        lemma_first_at(t, c, t.len() as int);
        assert(t =~= last@);
        lemma_views_push(out@, last);
        assert(views(out@).push(last@) =~= views(out@) + seq![last@]);
    }
    out.push(last);
    out
}

/// The lines of `s`.
pub fn split_lines(s: &str) -> (r: Vec<String>)
    ensures
        views(r@) == lines(s@),
{
    let cs = chars_of(s);
    let mut out: Vec<String> = Vec::new();
    let mut start: usize = 0;
    let mut i: usize = 0;
    proof {
        assert(s@.skip(0) =~= s@);
        assert(views(out@) + lines(s@) =~= lines(s@));
    }
    while i < cs.len()
        invariant
            start <= i <= cs.len(),
            cs@ == s@,
            forall|j: int| start <= j < i ==> cs@[j] != '\n',
            views(out@) + lines(s@.skip(start as int)) == lines(s@),
        decreases cs.len() - i,
    {
        if cs[i] == '\n' {
            let end: usize = if i > start && cs[i - 1] == '\r' {
                i - 1
            } else {
                i
            };
            let piece = string_of(&cs, start, end);
            proof {
                let t = s@.skip(start as int);
                assert forall|j: int| 0 <= j < i - start implies t[j] != '\n' by {
                    assert(t[j] == cs@[j + start]);
                }
                lemma_first_at(t, '\n', i - start);
                if i > start {
                    assert(t.take(i - start).last() == cs@[i - 1]);
                }
                assert(without_cr(t.take(i - start)) =~= piece@);
                assert(t.skip(i - start + 1) =~= s@.skip(i + 1));
                lemma_views_push(out@, piece);
                assert(views(out@).push(piece@) + lines(s@.skip(i + 1)) =~= views(out@) + (
                seq![piece@] + lines(s@.skip(i + 1))));
            }
            out.push(piece);
            start = i + 1;
        }
        i += 1;
    }
    if start < cs.len() {
        let last = string_of(&cs, start, cs.len());
        proof {
            let t = s@.skip(start as int);
            assert forall|j: int| 0 <= j < t.len() implies t[j] != '\n' by {
                assert(t[j] == cs@[j + start]);
            }
            lemma_first_at(t, '\n', t.len() as int);
            assert(t =~= last@);
            lemma_views_push(out@, last);
            assert(views(out@).push(last@) =~= views(out@) + seq![last@]);
        }
        out.push(last);
    } else {
        proof {
            assert(s@.skip(start as int) =~= Seq::<char>::empty());
            assert(views(out@) + Seq::<Seq<char>>::empty() =~= views(out@));
        }
    }
    out
}

/// The words of `s`.
pub fn split_words(s: &str) -> (r: Vec<String>)
    ensures
        views(r@) == words(s@),
{
    let cs = chars_of(s);
    let mut out: Vec<String> = Vec::new();
    let mut i: usize = 0;
    proof {
        assert(s@.skip(0) =~= s@);
        assert(views(out@) + words(s@) =~= words(s@));
    }
    while i < cs.len()
        invariant
            i <= cs.len(),
            cs@ == s@,
            views(out@) + words(s@.skip(i as int)) == words(s@),
        decreases cs.len() - i,
    {
        let ghost t = s@.skip(i as int);
        let ghost i0 = i;
        let mut w: usize = i;
        while w < cs.len() && space(cs[w])
            invariant
                i <= w <= cs.len(),
                cs@ == s@,
                forall|j: int| i <= j < w ==> is_space(cs@[j]),
            decreases cs.len() - w,
        {
            w += 1;
        }
        let mut e: usize = w;
        while e < cs.len() && !space(cs[e])
            invariant
                w <= e <= cs.len(),
                cs@ == s@,
                forall|j: int| w <= j < e ==> !is_space(cs@[j]),
            decreases cs.len() - e,
        {
            e += 1;
        }
        proof {
            assert forall|j: int| 0 <= j < w - i implies is_space(t[j]) by {
                assert(t[j] == cs@[j + i]);
            }
            if w < cs.len() {
                assert(t[w - i] == cs@[w as int]);
            }
            lemma_trimmed_start_at(t, w - i);
            assert(t.skip(w - i) =~= s@.skip(w as int));
        }
        if w < cs.len() {
            let piece = string_of(&cs, w, e);
            proof {
                let u = s@.skip(w as int);
                assert forall|j: int| 0 <= j < e - w implies !is_space(u[j]) by {
                    assert(u[j] == cs@[j + w]);
                }
                if e < cs.len() {
                    assert(u[e - w] == cs@[e as int]);
                }
                assert(u.len() > 0);
                lemma_word_len(u, e - w);
                assert(u.take(e - w) =~= piece@);
                assert(u.skip(e - w) =~= s@.skip(e as int));
                assert(words(t) == seq![piece@] + words(s@.skip(e as int)));
                lemma_views_push(out@, piece);
                assert(views(out@).push(piece@) + words(s@.skip(e as int)) =~= views(out@) + (
                seq![piece@] + words(s@.skip(e as int))));
            }
            out.push(piece);
        } else {
            proof {
                assert(words(t) =~= Seq::empty());
                assert(s@.skip(e as int) =~= Seq::<char>::empty());
                assert(words(s@.skip(e as int)) =~= Seq::empty());
            }
        }
        proof {
            if w < cs.len() {
                assert(e > i) by {
                    assert(!is_space(cs@[w as int]));
                }
            }
        }
        i = e;
    }
    proof {
        assert(s@.skip(i as int) =~= Seq::<char>::empty());
        assert(words(s@.skip(i as int)) =~= Seq::empty());
        assert(views(out@) + Seq::<Seq<char>>::empty() =~= views(out@));
    }
    out
}

/// Whether `s` starts with `p`.
pub fn starts_with(s: &str, p: &str) -> (r: bool)
    ensures
        r == p@.is_prefix_of(s@),
{
    strip_prefix(s, p).is_some()
}

/// What follows `p` where `s` starts with it.
pub fn strip_prefix<'a>(s: &'a str, p: &str) -> (r: Option<&'a str>)
    ensures
        (match r {
            Some(t) => Some(t@),
            None => None,
        }) == after_prefix(s@, p@),
{
    let n = p.unicode_len();
    let m = s.unicode_len();
    if n > m {
        return None;
    }
    let head = s.substring_char(0, n);
    if same(head, p) {
        proof {
            assert(s@.skip(n as int) =~= s@.subrange(n as int, m as int));
            assert(p@.is_prefix_of(s@));
        }
        Some(s.substring_char(n, m))
    } else {
        None
    }
}

/// Whether `s` ends with `p`.
pub fn ends_with(s: &str, p: &str) -> (r: bool)
    ensures
        r == p@.is_suffix_of(s@),
{
    let n = p.unicode_len();
    let m = s.unicode_len();
    if n > m {
        return false;
    }
    let tail = s.substring_char(m - n, m);
    same(tail, p)
}

/// The first index at which `sub` stands in `s`.
pub fn find(s: &str, sub: &str) -> (r: Option<usize>)
    ensures
        match r {
            Some(k) => occurs_at(s@, sub@, k as int) && forall|j: int|
                0 <= j < k ==> !occurs_at(s@, sub@, j),
            None => !contains_text(s@, sub@),
        },
{
    let cs = chars_of(s);
    let ps = chars_of(sub);
    let n: usize = ps.len();
    let m: usize = cs.len();
    if n > m {
        return None;
    }
    let mut i: usize = 0;
    while i <= m - n
        invariant
            i <= m - n + 1,
            n <= m,
            cs@ == s@,
            ps@ == sub@,
            n == ps@.len(),
            m == cs@.len(),
            forall|j: int| 0 <= j < i ==> !occurs_at(s@, sub@, j),
        decreases m - n + 1 - i,
    {
        let mut k: usize = 0;
        while k < n && cs[i + k] == ps[k]
            invariant
                i <= m - n,
                k <= n <= m,
                n == ps@.len(),
                m == cs@.len(),
                cs@.subrange(i as int, i + k) == ps@.take(k as int),
            decreases n - k,
        {
            proof {
                assert(cs@.subrange(i as int, i + k + 1) =~= cs@.subrange(i as int, i + k).push(
                    cs@[i + k],
                ));
                assert(ps@.take(k + 1) =~= ps@.take(k as int).push(ps@[k as int]));
            }
            k += 1;
        }
        if k == n {
            proof {
                assert(ps@.take(n as int) =~= ps@);
            }
            return Some(i);
        }
        proof {
            if occurs_at(s@, sub@, i as int) {
                assert(s@.subrange(i as int, i + n)[k as int] == cs@[i + k]);
                assert(false);
            }
        }
        if i == m - n {
            return None;
        }
        i += 1;
    }
    None
}

/// What stands in `s` before the first `sub`.
pub fn before(s: &str, sub: &str) -> (r: String)
    ensures
        r@ == before_text(s@, sub@),
{
    proof {
        lemma_text_at_finds(s@, sub@);
    }
    match find(s, sub) {
        Some(k) => {
            proof {
                lemma_text_at(s@, sub@, k as int);
                assert(s@.subrange(0, k as int) =~= s@.take(k as int));
            }
            s.substring_char(0, k).to_owned()
        },
        None => {
            proof {
                if text_at(s@, sub@) is Some {
                    assert(occurs_at(s@, sub@, text_at(s@, sub@)->0 as int));
                }
            }
            s.to_owned()
        },
    }
}

/// What stands in `s` behind the first `sub`.
pub fn after(s: &str, sub: &str) -> (r: Option<String>)
    ensures
        opt_view(r) == after_text(s@, sub@),
{
    proof {
        lemma_text_at_finds(s@, sub@);
    }
    match find(s, sub) {
        Some(k) => {
            let n: usize = sub.unicode_len();
            let m: usize = s.unicode_len();
            proof {
                lemma_text_at(s@, sub@, k as int);
                assert(s@.subrange(k + n, m as int) =~= s@.skip(k + n));
            }
            Some(s.substring_char(k + n, m).to_owned())
        },
        None => {
            proof {
                if text_at(s@, sub@) is Some {
                    assert(occurs_at(s@, sub@, text_at(s@, sub@)->0 as int));
                }
            }
            None
        },
    }
}

/// The index of the first `c` in `s`, or the length of `s` where there is none.
pub fn index_of(s: &str, c: char) -> (r: usize)
    ensures
        r == first_at(s@, c),
        r <= s@.len(),
{
    let cs = chars_of(s);
    let mut i: usize = 0;
    while i < cs.len() && cs[i] != c
        invariant
            i <= cs.len(),
            cs@ == s@,
            forall|j: int| 0 <= j < i ==> cs@[j] != c,
        decreases cs.len() - i,
    {
        i += 1;
    }
    proof {
        lemma_first_at(s@, c, i as int);
    }
    i
}

/// What stands in `s` before the first `c`.
pub fn before_char(s: &str, c: char) -> (r: &str)
    ensures
        r@ == s@.take(first_at(s@, c) as int),
{
    let k: usize = index_of(s, c);
    proof {
        assert(s@.subrange(0, k as int) =~= s@.take(k as int));
    }
    s.substring_char(0, k)
}

/// What stands in `s` before and behind the first `c`.
pub fn split_once(s: &str, c: char) -> (r: Option<(&str, &str)>)
    ensures
        match r {
            Some((a, b)) => {
                &&& first_at(s@, c) < s@.len()
                &&& a@ == s@.take(first_at(s@, c) as int)
                &&& b@ == s@.skip(first_at(s@, c) as int + 1)
            },
            None => first_at(s@, c) == s@.len(),
        },
{
    let k: usize = index_of(s, c);
    let m: usize = s.unicode_len();
    if k < m {
        proof {
            assert(s@.subrange(0, k as int) =~= s@.take(k as int));
            assert(s@.subrange(k + 1, m as int) =~= s@.skip(k + 1));
        }
        Some((s.substring_char(0, k), s.substring_char(k + 1, m)))
    } else {
        None
    }
}

/// `s` without the quotation marks round it.
pub fn unquote(s: &str) -> (r: &str)
    ensures
        r@ == without_quotes(s@),
{
    trim_end_of(trim_start_of(s, '"'), '"')
}

/// Two texts, one after the other.
pub fn cat(a: &str, b: &str) -> (r: String)
    ensures
        r@ == a@ + b@,
{
    let mut s = a.to_owned();
    s.append(b);
    s
}

/// Three texts, one after the other.
pub fn cat3(a: &str, b: &str, c: &str) -> (r: String)
    ensures
        r@ == a@ + b@ + c@,
{
    let mut s = cat(a, b);
    s.append(c);
    s
}

/// Whether a list holds a text.
pub fn holds(list: &Vec<String>, x: &str) -> (r: bool)
    ensures
        r == views(list@).contains(x@),
{
    let mut i: usize = 0;
    while i < list.len()
        invariant
            i <= list.len(),
            forall|j: int| 0 <= j < i ==> views(list@)[j] != x@,
        decreases list.len() - i,
    {
        if same(&list[i], x) {
            proof {
                assert(views(list@)[i as int] == x@);
            }
            return true;
        }
        i += 1;
    }
    false
}

/// Whether `sub` stands anywhere in `s`.
pub fn contains(s: &str, sub: &str) -> (r: bool)
    ensures
        r == contains_text(s@, sub@),
{
    find(s, sub).is_some()
}

/// The items of `list` with `sep` between each two.
pub fn join(list: &Vec<String>, sep: &str) -> (r: String)
    ensures
        r@ == joined(views(list@), sep@),
{
    let mut out = String::new();
    let mut i: usize = 0;
    while i < list.len()
        invariant
            i <= list.len(),
            out@ == joined(views(list@).take(i as int), sep@),
        decreases list.len() - i,
    {
        proof {
            assert(views(list@).take(i + 1) =~= views(list@).take(i as int).push(views(list@)[i as int]));
        }
        if i > 0 {
            proof {
                lemma_joined_push(views(list@).take(i as int), sep@, list@[i as int]@);
            }
            out.append(sep);
        }
        out.append(&list[i]);
        i += 1;
    }
    proof {
        assert(views(list@).take(i as int) =~= views(list@));
    }
    out
}

/// `s` with its ASCII capitals made small.
pub fn to_small(s: &str) -> (r: String)
    ensures
        r@ == small(s@),
{
    let cs = chars_of(s);
    let mut out = String::new();
    let mut i: usize = 0;
    while i < cs.len()
        invariant
            i <= cs.len(),
            cs@ == s@,
            out@ == small(s@).take(i as int),
        decreases cs.len() - i,
    {
        let c: char = cs[i];
        let d: char = if 'A' <= c && c <= 'Z' {
            ((c as u8) + 32) as char
        } else {
            c
        };
        out.push(d);
        i += 1;
        assert(out@ =~= small(s@).take(i as int));
    }
    assert(small(s@).take(i as int) =~= small(s@));
    out
}

/// `s` with every `from` replaced by `to`.
pub fn replace_char(s: &str, from: char, to: char) -> (r: String)
    ensures
        r@ == char_replaced(s@, from, to),
{
    let cs = chars_of(s);
    let mut out = String::new();
    let mut i: usize = 0;
    while i < cs.len()
        invariant
            i <= cs.len(),
            cs@ == s@,
            out@ == char_replaced(s@, from, to).take(i as int),
        decreases cs.len() - i,
    {
        let c: char = cs[i];
        out.push(if c == from { to } else { c });
        i += 1;
        assert(out@ =~= char_replaced(s@, from, to).take(i as int));
    }
    assert(char_replaced(s@, from, to).take(i as int) =~= char_replaced(s@, from, to));
    out
}

/// `n` in decimal.
pub fn decimal_of(n: u64) -> (r: String)
    ensures
        r@ == decimal(n as nat),
    decreases n,
{
    let d: u8 = (n % 10) as u8;
    let c: char = (48 + d) as char;
    if n < 10 {
        let mut out = String::new();
        out.push(c);
        assert(out@ =~= seq![digit_char(n as nat)]);
        out
    } else {
        let mut out = decimal_of(n / 10);
        out.push(c);
        out
    }
}

/// `n` in decimal, signed.
pub fn signed_decimal_of(n: i64) -> (r: String)
    ensures
        r@ == signed_decimal(n as int),
{
    if n < 0 {
        let m: u64 = if n == i64::MIN {
            0x8000_0000_0000_0000u64
        } else {
            (-n) as u64
        };
        let mut out = String::new();
        out.push('-');
        let digits = decimal_of(m);
        out.append(&digits);
        assert(out@ =~= seq!['-'] + decimal((-(n as int)) as nat));
        out
    } else {
        decimal_of(n as u64)
    }
}

/// The number that `s` writes in decimal, where it fits a `u64`.
pub fn parse_u64(s: &str) -> (r: Option<u64>)
    ensures
        (match r {
            Some(n) => Some(n as nat),
            None => None,
        }) == parsed_up_to(s@, u64::MAX as nat),
{
    let cs = chars_of(s);
    let from: usize = if cs.len() > 0 && cs[0] == '+' {
        1
    } else {
        0
    };
    let ghost t = if s@.len() > 0 && s@[0] == '+' {
        s@.skip(1)
    } else {
        s@
    };
    proof {
        assert(t =~= s@.skip(from as int));
    }
    if cs.len() == from {
        return None;
    }
    let mut n: u64 = 0;
    let mut i: usize = from;
    let mut too_big = false;
    while i < cs.len()
        invariant
            from <= i <= cs.len(),
            from <= 1,
            cs@ == s@,
            t == s@.skip(from as int),
            t == (if s@.len() > 0 && s@[0] == '+' {
                s@.skip(1)
            } else {
                s@
            }),
            forall|j: int| 0 <= j < i - from ==> is_digit(#[trigger] t[j]),
            !too_big ==> n == digits_value(t.take(i - from)),
            too_big ==> digits_value(t.take(i - from)) > u64::MAX,
        decreases cs.len() - i,
    {
        let c: char = cs[i];
        proof {
            assert(t[i - from] == c);
        }
        if c < '0' || c > '9' {
            proof {
                assert(!is_digit(t[i - from]));
            }
            return None;
        }
        let d: u64 = (c as u32 - 48) as u64;
        proof {
            assert(t.take(i - from + 1).drop_last() =~= t.take(i - from));
            assert(t.take(i - from + 1).last() == c);
            assert(is_digit(t[i - from]));
        }
        if too_big || n > (u64::MAX - d) / 10 {
            too_big = true;
        } else {
            n = n * 10 + d;
        }
        i += 1;
    }
    proof {
        assert(t.take(t.len() as int) =~= t);
    }
    if too_big {
        None
    } else {
        Some(n)
    }
}

/// The number that `s` writes in decimal with an optional sign, where it fits an `i32`.
pub fn parse_i32(s: &str) -> (r: Option<i32>)
    ensures
        (match r {
            Some(n) => Some(n as int),
            None => None,
        }) == parsed_between(s@, i32::MIN as int, i32::MAX as int),
{
    if starts_with_char(s, '-') {
        let t = s.substring_char(1, s.unicode_len());
        proof {
            assert(t@ =~= s@.skip(1));
        }
        if starts_with_char(t, '+') {
            proof {
                assert(!is_digit(t@[0]));
            }
            return None;
        }
        match parse_u64(t) {
            Some(n) => if n <= 0x8000_0000u64 {
                Some((-(n as i64)) as i32)
            } else {
                None
            },
            None => None,
        }
    } else {
        match parse_u64(s) {
            Some(n) => if n <= 0x7fff_ffffu64 {
                Some(n as i32)
            } else {
                None
            },
            None => None,
        }
    }
}

/// Whether `s` starts with `c`.
pub fn starts_with_char(s: &str, c: char) -> (r: bool)
    ensures
        r == (s@.len() > 0 && s@[0] == c),
{
    s.unicode_len() > 0 && s.get_char(0) == c
}

/// What follows the last `c` in `s`.
pub fn after_last(s: &str, c: char) -> (r: String)
    ensures
        r@ == last_piece(s@, c),
{
    let mut ps = split(s, c);
    proof {
        lemma_pieces_not_empty(s@, c);
        assert(views(ps@).len() == ps@.len());
        assert(views(ps@).last() == ps@.last()@);
    }
    match ps.pop() {
        Some(p) => p,
        None => String::new(),
    }
}

/// There is always a piece.
pub proof fn lemma_pieces_not_empty(s: Seq<char>, c: char)
    ensures
        pieces(s, c).len() > 0,
{
}

/// The number that `s` writes in decimal, where it fits a `u16`.
pub fn parse_u16(s: &str) -> (r: Option<u16>)
    ensures
        (match r {
            Some(n) => Some(n as nat),
            None => None,
        }) == parsed_up_to(s@, u16::MAX as nat),
{
    match parse_u64(s) {
        Some(n) => if n <= 0xffff {
            Some(n as u16)
        } else {
            None
        },
        None => None,
    }
}

/// `s` with every `from` replaced by `to`, from left to right.
pub fn replace(s: &str, from: &str, to: &str) -> (r: String)
    ensures
        r@ == text_replaced(s@, from@, to@),
{
    if from.is_empty() {
        return s.to_owned();
    }
    let n: usize = from.unicode_len();
    let m: usize = s.unicode_len();
    let mut out = String::new();
    let mut at: usize = 0;
    proof {
        assert(s@.skip(0) =~= s@);
        assert(out@ + text_replaced(s@, from@, to@) =~= text_replaced(s@, from@, to@));
    }
    loop
        invariant
            at <= m,
            m == s@.len(),
            n == from@.len(),
            n > 0,
            out@ + text_replaced(s@.skip(at as int), from@, to@) == text_replaced(s@, from@, to@),
        decreases m - at,
    {
        let rest = s.substring_char(at, m);
        proof {
            assert(rest@ =~= s@.skip(at as int));
            lemma_text_at_finds(rest@, from@);
        }
        match find(rest, from) {
            Some(k) => {
                proof {
                    lemma_text_at(rest@, from@, k as int);
                    let tail = text_replaced(rest@.skip(k + n), from@, to@);
                    assert(rest@.skip(k + n) =~= s@.skip(at + k + n));
                    assert(rest@.subrange(0, k as int) =~= rest@.take(k as int));
                    assert(out@ + (rest@.take(k as int) + to@ + tail) =~= out@ + rest@.take(
                        k as int,
                    ) + to@ + tail);
                }
                out.append(rest.substring_char(0, k));
                out.append(to);
                at = at + k + n;
            },
            None => {
                proof {
                    if text_at(rest@, from@) is Some {
                        assert(occurs_at(rest@, from@, text_at(rest@, from@)->0 as int));
                    }
                }
                out.append(rest);
                return out;
            },
        }
    }
}

/// A number reads back as itself, with a sign or without, wherever it lies within the bounds.
pub proof fn law_numbers_read_back(n: nat, i: int, max: nat, lo: int, hi: int)
    ensures
        parsed_decimal(decimal(n)) == Some(n),
        parsed_decimal(seq!['+'] + decimal(n)) == Some(n),
        parsed_up_to(decimal(n), max) == if n <= max {
            Some(n)
        } else {
            None
        },
        parsed_signed(signed_decimal(i)) == Some(i),
        parsed_between(signed_decimal(i), lo, hi) == if lo <= i <= hi {
            Some(i)
        } else {
            None
        },
{
    lemma_decimal_value(n);
    assert(is_digit(decimal(n)[0]));
    let p = seq!['+'] + decimal(n);
    assert(p.skip(1) =~= decimal(n));
    let m = (if i < 0 {
        -i
    } else {
        i
    }) as nat;
    lemma_decimal_value(m);
    assert(is_digit(decimal(m)[0]));
    if i < 0 {
        assert(signed_decimal(i).skip(1) =~= decimal(m));
    }
}

/// Each digit of a number weighs ten times the next, and no number but zero starts with a zero.
pub proof fn law_digits_weigh_ten(n: nat, d: nat)
    requires
        d < 10,
    ensures
        n > 0 ==> decimal(10 * n + d) == decimal(n).push((48 + d) as char),
        decimal(d) == seq![(48 + d) as char],
        n > 0 ==> decimal(n)[0] != '0',
    decreases n,
{
    assert((10 * n + d) / 10 == n && (10 * n + d) % 10 == d);
    if n >= 10 {
        law_digits_weigh_ten(n / 10, n % 10);
        assert(10 * (n / 10) + n % 10 == n);
        assert(decimal(n)[0] == decimal(n / 10)[0]) by {
            lemma_decimal_value(n / 10);
        }
    }
}

/// Trimming takes white space off both ends and nothing else: what is left starts and ends with
/// other characters, and stands in the text with nothing but white space round it.
pub proof fn law_trimming_takes_white_space_alone(s: Seq<char>) -> (k: (int, int))
    ensures
        0 <= k.0 <= k.1 <= s.len(),
        trimmed(s) == s.subrange(k.0, k.1),
        forall|i: int| 0 <= i < k.0 ==> is_space(#[trigger] s[i]),
        forall|i: int| k.1 <= i < s.len() ==> is_space(#[trigger] s[i]),
        trimmed(s).len() > 0 ==> !is_space(trimmed(s)[0]) && !is_space(trimmed(s).last()),
{
    let a = lemma_trimmed_start_suffix(s);
    let t = trimmed_start(s);
    assert(t == s.skip(a));
    lemma_spaces_before(s, a);
    let n = lemma_trimmed_end_prefix(t);
    assert(trimmed(s) =~= s.subrange(a, a + n));
    assert forall|i: int| a + n <= i < s.len() implies is_space(#[trigger] s[i]) by {
        assert(t[i - a] == s[i]);
    }
    lemma_trimmed_start_len(s);
    (a, a + n)
}

proof fn lemma_spaces_before(s: Seq<char>, a: int)
    requires
        0 <= a <= s.len(),
        trimmed_start(s) == s.skip(a),
    ensures
        forall|i: int| 0 <= i < a ==> is_space(#[trigger] s[i]),
    decreases s.len(),
{
    if a > 0 {
        if !is_space(s[0]) {
            assert(s.skip(a).len() == s.len());
        }
        lemma_spaces_before_rest(s, a);
    }
}

proof fn lemma_spaces_before_rest(s: Seq<char>, a: int)
    requires
        0 < a <= s.len(),
        is_space(s[0]),
        trimmed_start(s) == s.skip(a),
    ensures
        forall|i: int| 0 <= i < a ==> is_space(#[trigger] s[i]),
    decreases s.len(),
{
    let rest = s.skip(1);
    assert(trimmed_start(rest) == s.skip(a));
    assert(rest.skip(a - 1) =~= s.skip(a));
    if a > 1 {
        if !is_space(rest[0]) {
            assert(rest.len() == s.skip(a).len());
        }
        lemma_spaces_before_rest(rest, a - 1);
    }
    assert forall|i: int| 0 <= i < a implies is_space(#[trigger] s[i]) by {
        if i > 0 {
            assert(rest[i - 1] == s[i]);
        }
    }
}

proof fn lemma_trimmed_end_prefix(t: Seq<char>) -> (n: int)
    ensures
        0 <= n <= t.len(),
        trimmed_end(t) == t.take(n),
        forall|i: int| n <= i < t.len() ==> is_space(#[trigger] t[i]),
        n > 0 ==> !is_space(t[n - 1]),
    decreases t.len(),
{
    if t.len() > 0 && is_space(t.last()) {
        let n = lemma_trimmed_end_prefix(t.drop_last());
        assert(t.drop_last().take(n) =~= t.take(n));
        assert forall|i: int| n <= i < t.len() implies is_space(#[trigger] t[i]) by {
            if i < t.len() - 1 {
                assert(t.drop_last()[i] == t[i]);
            }
        }
        if n > 0 {
            assert(t.drop_last()[n - 1] == t[n - 1]);
        }
        n
    } else {
        assert(t.take(t.len() as int) =~= t);
        t.len() as int
    }
}

/// What is split at a character and joined with it is the text again.
pub proof fn law_split_and_joined_is_the_same(s: Seq<char>, c: char)
    ensures
        joined(pieces(s, c), seq![c]) == s,
        forall|i: int, j: int|
            0 <= i < pieces(s, c).len() && 0 <= j < pieces(s, c)[i].len() ==> #[trigger] pieces(
                s,
                c,
            )[i][j] != c,
    decreases s.len(),
{
    let k = first_at(s, c) as int;
    lemma_first_at_finds(s, c);
    if k < s.len() {
        let rest = s.skip(k + 1);
        law_split_and_joined_is_the_same(rest, c);
        lemma_pieces_not_empty(rest, c);
        lemma_joined_first(s.take(k), pieces(rest, c), seq![c]);
        assert(s =~= s.take(k) + seq![c] + rest);
        let p = pieces(s, c);
        assert(p == seq![s.take(k)] + pieces(rest, c));
        assert forall|i: int, j: int| 0 <= i < p.len() && 0 <= j < p[i].len() implies #[trigger] p[i][j]
            != c by {
            if i > 0 {
                assert(p[i] == pieces(rest, c)[i - 1]);
            }
        }
    }
}

proof fn lemma_joined_first(first: Seq<char>, rest: Seq<Seq<char>>, sep: Seq<char>)
    requires
        rest.len() > 0,
    ensures
        joined(seq![first] + rest, sep) == first + sep + joined(rest, sep),
    decreases rest.len(),
{
    let all = seq![first] + rest;
    assert(all.drop_last() =~= seq![first] + rest.drop_last());
    assert(all.last() == rest.last());
    if rest.len() == 1 {
        assert(all.drop_last() =~= seq![first]);
        assert(joined(seq![first], sep) == first);
        assert(joined(rest, sep) == rest.last());
    } else {
        lemma_joined_first(first, rest.drop_last(), sep);
        assert(first + sep + joined(rest.drop_last(), sep) + sep + rest.last() =~= first + sep + (
        joined(rest.drop_last(), sep) + sep + rest.last()));
    }
}

/// Small letters are the capitals' own, and every other character stays as it is.
pub proof fn law_capitals_become_small(s: Seq<char>, i: int)
    requires
        0 <= i < s.len(),
    ensures
        small(s).len() == s.len(),
        'A' <= s[i] <= 'Z' ==> small(s)[i] as u32 == s[i] as u32 + 32,
        !('A' <= s[i] <= 'Z') ==> small(s)[i] == s[i],
{
}

} // verus!
