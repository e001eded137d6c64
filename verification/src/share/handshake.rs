//! The authentication handshake that guards a shared endpoint.
//!
//! The adb server protocol has no authentication of its own, so a connection must prove that it
//! holds the share's token before a single byte is spliced through. The server issues a random
//! nonce and the client answers `HMAC-SHA256(token, nonce)`: the token never crosses the wire,
//! and a captured answer is no use against a later nonce.

use hmac::{Hmac, Mac};
use sha2::Sha256;
use vstd::prelude::*;
#[allow(unused_imports)]
use vstd::utf8::encode_utf8;

use super::dice::Dice;
#[allow(unused_imports)]
use super::dice::Draw;
use crate::hex;
#[allow(unused_imports)]
use crate::hex::{hex_bytes, hex_text, is_hex_text};
use crate::text;
#[allow(unused_imports)]
use crate::text::{small, trimmed};

verus! {

/// Protocol banner; the version guards against a future format change.
pub const MAGIC: &'static str = "DIALF-SHARE/1";

/// Nonce length in bytes (hex on the wire, so 64 characters).
pub const NONCE_BYTES: usize = 32;

/// Shortest token that is accepted.
pub const MIN_TOKEN_LEN: usize = 16;

/// Longest preamble line that is read.
pub const MAX_LINE: usize = 256;

/// Prefix of every issued share token, so that one is recognisable on sight.
pub const TOKEN_PREFIX: &'static str = "dvs_";

/// Characters of a token's body: without the pairs that get misread.
pub const TOKEN_ALPHABET: &'static str = "abcdefghijkmnopqrstuvwxyzACDEFGHJKLMNPQRSTUVWXYZ23456789";

/// Length of a token's random part.
pub const TOKEN_BODY_LEN: usize = 12;

/// The HMAC-SHA256 of `message` under `key`.
pub uninterp spec fn hmac_sha256(key: Seq<u8>, message: Seq<u8>) -> Seq<u8>;

/// `Hmac::<Sha256>` of the crate `hmac`: a new instance on `key`, updated with `message` and
/// finalized. The result is a function of the two, named `hmac_sha256`, and has 32 bytes.
#[verifier::external_body]
fn mac_of(key: &[u8], message: &[u8]) -> (r: Vec<u8>)
    ensures
        r@ == hmac_sha256(key@, message@),
        r@.len() == 32,
{
    let mut mac = <Hmac<Sha256>>::new_from_slice(key).expect("HMAC accepts keys of any length");
    mac.update(message);
    mac.finalize().into_bytes().to_vec()
}

/// `Mac::verify_slice` of the crate `hmac`, on a new instance for `key` updated with `message`:
/// it accepts `tag` exactly when that is the whole of the computed code, in constant time.
#[verifier::external_body]
fn mac_matches(key: &[u8], message: &[u8], tag: &[u8]) -> (r: bool)
    ensures
        r == (tag@ == hmac_sha256(key@, message@)),
{
    let mut mac = <Hmac<Sha256>>::new_from_slice(key).expect("HMAC accepts keys of any length");
    mac.update(message);
    mac.verify_slice(tag).is_ok()
}

/// A fresh random nonce, in hex: the challenge half of the handshake. It is what was drawn, written
/// out.
pub fn new_nonce(dice: &mut Dice) -> (r: String)
    ensures
        r@.len() == 2 * NONCE_BYTES,
        is_hex_text(r@),
        draws_nonce(old(dice).log(), final(dice).log(), r@),
{
    let bytes = dice.bytes(NONCE_BYTES);
    proof {
        hex::lemma_hex_text_shape(bytes@);
        assert(dice.log().last() == Draw::Bytes(bytes@));
    }
    hex::hex(&bytes)
}

/// Whether a nonce is what one draw of [`NONCE_BYTES`] bytes gave, in hex.
pub open spec fn draws_nonce(before: Seq<Draw>, after: Seq<Draw>, nonce: Seq<char>) -> bool {
    &&& after.len() == before.len() + 1
    &&& before.is_prefix_of(after)
    &&& after.last() matches Draw::Bytes(b)
    &&& b.len() == NONCE_BYTES
    &&& nonce == hex_text(b)
}

/// Whether `t` has the shape of an issued token.
pub open spec fn is_issued(t: Seq<char>) -> bool {
    &&& t.len() == TOKEN_PREFIX@.len() + TOKEN_BODY_LEN
    &&& TOKEN_PREFIX@.is_prefix_of(t)
    &&& forall|i: int|
        TOKEN_PREFIX@.len() <= i < t.len() ==> TOKEN_ALPHABET@.contains(#[trigger] t[i])
}

/// The token of some draws: the prefix, and a character of the alphabet for each.
pub open spec fn token_text(draws: Seq<usize>) -> Seq<char> {
    TOKEN_PREFIX@ + draws.map_values(|d: usize| TOKEN_ALPHABET@[d as int])
}

/// The token of some draws, each the place of a character in the alphabet.
pub fn token_of(draws: &Vec<usize>) -> (r: String)
    requires
        forall|i: int| 0 <= i < draws@.len() ==> (#[trigger] draws@[i]) < TOKEN_ALPHABET@.len(),
    ensures
        r@ == token_text(draws@),
{
    let alphabet = text::chars_of(TOKEN_ALPHABET);
    let mut out = TOKEN_PREFIX.to_owned();
    let mut i: usize = 0;
    assert(out@ =~= token_text(draws@.take(0)));
    while i < draws.len()
        invariant
            i <= draws.len(),
            alphabet@ == TOKEN_ALPHABET@,
            out@ == token_text(draws@.take(i as int)),
            forall|j: int| 0 <= j < draws@.len() ==> (#[trigger] draws@[j]) < TOKEN_ALPHABET@.len(),
        decreases draws.len() - i,
    {
        let c: char = alphabet[draws[i]];
        out.push(c);
        i += 1;
        assert(draws@.take(i as int) =~= draws@.take(i - 1).push(draws@[i - 1]));
        assert(out@ =~= token_text(draws@.take(i as int)));
    }
    assert(draws@.take(i as int) =~= draws@);
    out
}

/// Whether a token is that of [`TOKEN_BODY_LEN`] draws of a place in the alphabet.
pub open spec fn draws_token(before: Seq<Draw>, after: Seq<Draw>, token: Seq<char>) -> bool {
    &&& after.len() == before.len() + TOKEN_BODY_LEN
    &&& before.is_prefix_of(after)
    &&& forall|i: int|
        before.len() <= i < after.len() ==> {
            &&& (#[trigger] after[i]) matches Draw::Below { bound, got }
            &&& bound == TOKEN_ALPHABET@.len()
            &&& got < bound
        }
    &&& token == token_text(
        Seq::new(TOKEN_BODY_LEN as nat, |i: int| after[before.len() + i]->got),
    )
}

/// A token of draws from the alphabet has the shape of an issued one.
pub proof fn law_drawn_tokens_are_issued_ones(before: Seq<Draw>, after: Seq<Draw>, token: Seq<char>)
    requires
        draws_token(before, after, token),
    ensures
        is_issued(token),
{
    let draws = Seq::new(TOKEN_BODY_LEN as nat, |i: int| after[before.len() + i]->got);
    let n = TOKEN_PREFIX@.len() as int;
    assert(token.subrange(0, n) =~= TOKEN_PREFIX@);
    assert forall|i: int| n <= i < token.len() implies TOKEN_ALPHABET@.contains(
        #[trigger] token[i],
    ) by {
        let d = after[before.len() + (i - n)];
        assert(token[i] == TOKEN_ALPHABET@[draws[i - n] as int]);
    }
}

/// Mints a share token: the prefix and 12 characters of the alphabet, each drawn.
///
/// Issued fresh for every share and kept in memory only.
pub fn new_token(dice: &mut Dice) -> (r: String)
    ensures
        is_issued(r@),
        draws_token(old(dice).log(), final(dice).log(), r@),
{
    let size: usize = TOKEN_ALPHABET.unicode_len();
    proof {
        reveal_strlit("abcdefghijkmnopqrstuvwxyzACDEFGHJKLMNPQRSTUVWXYZ23456789");
    }
    let ghost had = dice.log();
    let mut draws: Vec<usize> = Vec::new();
    while draws.len() < TOKEN_BODY_LEN
        invariant
            size == TOKEN_ALPHABET@.len(),
            size > 0,
            draws@.len() <= TOKEN_BODY_LEN,
            had == old(dice).log(),
            had.is_prefix_of(dice.log()),
            dice.log().len() == had.len() + draws@.len(),
            forall|i: int| 0 <= i < draws@.len() ==> (#[trigger] draws@[i]) < size,
            forall|i: int|
                had.len() <= i < dice.log().len() ==> (#[trigger] dice.log()[i]) == (Draw::Below {
                    bound: size,
                    got: draws@[i - had.len()],
                }),
        decreases TOKEN_BODY_LEN - draws.len(),
    {
        let d: usize = dice.below(size);
        draws.push(d);
    }
    let token = token_of(&draws);
    proof {
        let after = dice.log();
        assert(Seq::new(TOKEN_BODY_LEN as nat, |i: int| after[had.len() + i]->got) =~= draws@);
        law_drawn_tokens_are_issued_ones(had, after, token@);
    }
    token
}

/// Refuses a token too short to be a secret.
pub fn check_token(token: &str) -> (r: Result<(), String>)
    ensures
        r is Ok <==> trimmed(token@).len() >= MIN_TOKEN_LEN,
        r matches Err(e) ==> e@ == "share token is too short (want at least 16 characters)"@,
{
    if text::trim(token).unicode_len() >= MIN_TOKEN_LEN {
        Ok(())
    } else {
        Err("share token is too short (want at least 16 characters)".to_owned())
    }
}

/// The code that proves possession of `token` for `nonce`.
pub open spec fn proof_code(token: Seq<char>, nonce: Seq<char>) -> Seq<u8> {
    hmac_sha256(encode_utf8(trimmed(token)), encode_utf8(nonce))
}

/// Whether `answer` is the right response for `nonce` under `token`.
pub open spec fn accepted(token: Seq<char>, nonce: Seq<char>, answer: Seq<char>) -> bool {
    hex_bytes(trimmed(answer)) == Some(proof_code(token, nonce))
}

/// The answer that a client holding `token` gives for `nonce`: it is one that [`verify`]
/// accepts.
pub fn expected_auth(token: &str, nonce: &str) -> (r: String)
    ensures
        r@ == hex_text(proof_code(token@, nonce@)),
        proof_code(token@, nonce@).len() == 32,
        r@.len() == 64,
        is_hex_text(r@),
        accepted(token@, nonce@, r@),
{
    let code = mac_of(text::trim(token).as_bytes(), nonce.as_bytes());
    proof {
        hex::lemma_hex_text_shape(code@);
        hex::law_hex_round_trip(code@);
        hex::lemma_hex_text_is_trimmed(hex_text(code@));
    }
    hex::hex(&code)
}

/// Whether `answer` is the right response for `nonce` under `token`. A malformed answer is a
/// wrong one.
pub fn verify(token: &str, nonce: &str, answer: &str) -> (r: bool)
    ensures
        r == accepted(token@, nonce@, answer@),
{
    match hex::unhex(text::trim(answer)) {
        Some(bytes) => mac_matches(text::trim(token).as_bytes(), nonce.as_bytes(), &bytes),
        None => false,
    }
}

/// An answer that is accepted for one nonce under one token proves the code of that pair: it is
/// accepted for another pair only where the two codes are the same.
pub proof fn law_an_answer_fits_one_code(
    token: Seq<char>,
    nonce: Seq<char>,
    other_token: Seq<char>,
    other_nonce: Seq<char>,
    answer: Seq<char>,
)
    requires
        accepted(token, nonce, answer),
    ensures
        accepted(other_token, other_nonce, answer) <==> proof_code(other_token, other_nonce)
            == proof_code(token, nonce),
{
}

/// An answer is accepted exactly where, without white space round it and with its capitals made
/// small, it is the expected one. That a code has 32 bytes is what [`expected_auth`] tells of it.
pub proof fn law_only_the_expected_answer_is_accepted(
    token: Seq<char>,
    nonce: Seq<char>,
    answer: Seq<char>,
)
    requires
        proof_code(token, nonce).len() == 32,
    ensures
        accepted(token, nonce, answer) <==> small(trimmed(answer)) == hex_text(
            proof_code(token, nonce),
        ),
{
    hex::law_hex_is_read_as_it_is_written(trimmed(answer), proof_code(token, nonce));
}

/// White space round an answer, as a line-based transport may add it, does not matter.
pub proof fn law_answers_are_trimmed(
    token: Seq<char>,
    nonce: Seq<char>,
    a: Seq<char>,
    b: Seq<char>,
)
    requires
        trimmed(a) == trimmed(b),
    ensures
        accepted(token, nonce, a) == accepted(token, nonce, b),
{
}

/// Every issued token is long enough to be accepted, for nothing of it is white space.
pub proof fn law_issued_tokens_are_strong_enough(t: Seq<char>)
    requires
        is_issued(t),
    ensures
        trimmed(t).len() >= MIN_TOKEN_LEN,
{
    reveal_strlit("dvs_");
    reveal_strlit("abcdefghijkmnopqrstuvwxyzACDEFGHJKLMNPQRSTUVWXYZ23456789");
    assert(t[0] == TOKEN_PREFIX@[0]);
    assert(TOKEN_ALPHABET@.contains(t[t.len() - 1]));
    let k = choose|k: int| 0 <= k < TOKEN_ALPHABET@.len() && TOKEN_ALPHABET@[k] == t[t.len() - 1];
    assert(!text::is_space(TOKEN_ALPHABET@[k]));
    assert(!text::is_space(t[0]));
    assert(text::trimmed_start(t) == t);
    assert(text::trimmed_end(t) == t);
}

/// What proves possession of a token is the HMAC-SHA256 of the nonce under the trimmed token as the
/// key, and an answer is accepted exactly where its hex digits read as that.
pub proof fn law_the_token_is_the_key(token: Seq<char>, nonce: Seq<char>, answer: Seq<char>)
    ensures
        proof_code(token, nonce) == hmac_sha256(encode_utf8(trimmed(token)), encode_utf8(nonce)),
        accepted(token, nonce, answer) <==> hex_bytes(trimmed(answer)) == Some(
            hmac_sha256(encode_utf8(trimmed(token)), encode_utf8(nonce)),
        ),
{
}

/// White space round a token, as a copied one may have it, does not matter.
pub proof fn law_tokens_are_trimmed(a: Seq<char>, b: Seq<char>, nonce: Seq<char>, answer: Seq<char>)
    requires
        trimmed(a) == trimmed(b),
    ensures
        accepted(a, nonce, answer) == accepted(b, nonce, answer),
{
}

/// An issued token is recognisable, and none of its characters is easily misread for another: it
/// is `dvs_` and twelve characters, none of them an `l`, an `I`, a one, an `O` or a zero.
pub proof fn law_issued_tokens_are_not_misread(t: Seq<char>, i: int)
    requires
        is_issued(t),
        4 <= i < t.len(),
    ensures
        t.len() == 16,
        t.take(4) == "dvs_"@,
        t[i] != 'l' && t[i] != 'I' && t[i] != '1' && t[i] != 'O' && t[i] != '0',
        ('a' <= t[i] <= 'z') || ('A' <= t[i] <= 'Z') || ('0' <= t[i] <= '9'),
{
    reveal_strlit("dvs_");
    assert(t.take(4) =~= "dvs_"@);
    assert(TOKEN_ALPHABET@.contains(t[i]));
    lemma_alphabet(choose|k: int| 0 <= k < TOKEN_ALPHABET@.len() && TOKEN_ALPHABET@[k] == t[i]);
}

proof fn lemma_alphabet(k: int)
    requires
        0 <= k < TOKEN_ALPHABET@.len(),
    ensures
        ({
            let c = TOKEN_ALPHABET@[k];
            &&& c != 'l' && c != 'I' && c != '1' && c != 'O' && c != '0'
            &&& ('a' <= c <= 'z') || ('A' <= c <= 'Z') || ('0' <= c <= '9')
        }),
{
    reveal_strlit("abcdefghijkmnopqrstuvwxyzACDEFGHJKLMNPQRSTUVWXYZ23456789");
}

/// A nonce is the draw of thirty-two bytes that was made for it, and no other.
pub proof fn law_a_nonce_is_what_was_drawn(before: Seq<Draw>, after: Seq<Draw>, nonce: Seq<char>)
    requires
        draws_nonce(before, after, nonce),
    ensures
        after.len() == before.len() + 1,
        after.drop_last() == before,
        after.last() is Bytes,
        after.last()->Bytes_0.len() == 32,
        hex_bytes(nonce) == Some(after.last()->Bytes_0),
        nonce.len() == 64,
{
    hex::law_hex_round_trip(after.last()->Bytes_0);
    hex::lemma_hex_text_shape(after.last()->Bytes_0);
    assert(after.drop_last() =~= before);
}

/// Each character of a token is the one of the alphabet that was drawn for it.
pub proof fn law_a_token_is_what_was_drawn(
    before: Seq<Draw>,
    after: Seq<Draw>,
    token: Seq<char>,
    i: int,
)
    requires
        draws_token(before, after, token),
        0 <= i < 12,
    ensures
        after.len() == before.len() + 12,
        after[before.len() + i] is Below,
        after[before.len() + i]->bound == TOKEN_ALPHABET@.len(),
        token.len() == 16,
        token[4 + i] == TOKEN_ALPHABET@[after[before.len() + i]->got as int],
{
    reveal_strlit("dvs_");
    let draws = Seq::new(TOKEN_BODY_LEN as nat, |k: int| after[before.len() + k]->got);
    assert(token == token_text(draws));
    assert(token[4 + i] == TOKEN_ALPHABET@[draws[i] as int]);
    assert(after[before.len() + i] is Below);
}

} // verus!
