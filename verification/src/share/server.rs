//! The host side of a share: what an accepted connection must say before it is served.
//!
//! A connection passes [`check_hello`], gets a nonce, and passes [`check_answer`]. Until both
//! have passed, nothing is opened towards the device endpoint: [`Preamble`] keeps that order.

use vstd::prelude::*;

use super::dice::Dice;
use super::handshake;
use super::handshake::{MAGIC, MAX_LINE};
#[allow(unused_imports)]
use super::handshake::{accepted, draws_nonce, proof_code, NONCE_BYTES};
#[allow(unused_imports)]
use super::client::{challenged, hello_text};
use super::Profile;
use crate::text;
#[allow(unused_imports)]
use crate::hex::{hex_bytes, hex_text, is_hex_text};
#[allow(unused_imports)]
use crate::text::{after_prefix, decimal, opt_view, trimmed, views, words};

verus! {

/// Why a peer is turned away: the line that it gets, and what the log says.
#[derive(Debug)]
pub struct Refusal {
    pub reply: String,
    pub reason: String,
}

/// The `i`th word of a line, or nothing.
pub open spec fn word_at(line: Seq<char>, i: int) -> Seq<char> {
    if i < words(line).len() {
        words(line)[i]
    } else {
        Seq::empty()
    }
}

/// Whether a first line is that of a client for `profile`.
pub open spec fn hello_fits(line: Seq<char>, profile: Profile) -> bool {
    word_at(line, 0) == MAGIC@ && word_at(line, 1) == profile.word()
}

/// Checks a peer's first line: the banner, then the profile.
pub fn check_hello(line: &str, profile: Profile) -> (r: Result<(), Refusal>)
    ensures
        match r {
            Ok(_) => hello_fits(line@, profile),
            Err(e) => if word_at(line@, 0) != MAGIC@ {
                e.reply@ == "ERR bad magic\n"@ && e.reason@ == "bad magic `"@ + word_at(line@, 0)
                    + "`"@
            } else {
                &&& word_at(line@, 1) != profile.word()
                &&& e.reply@ == "ERR profile mismatch (serving "@ + profile.word() + ")\n"@
                &&& e.reason@ == "profile `"@ + word_at(line@, 1) + "` (serving "@ + profile.word()
                    + ")"@
            },
        },
{
    let parts = text::split_words(line);
    proof {
        assert(words(line@).len() == parts@.len());
        assert(forall|i: int| 0 <= i < parts@.len() ==> words(line@)[i] == (#[trigger] parts@[i])@);
    }
    let magic = if parts.len() > 0 {
        parts[0].clone()
    } else {
        String::new()
    };
    if !text::same(&magic, MAGIC) {
        let mut reason = "bad magic `".to_owned();
        reason.append(&magic);
        reason.append("`");
        return Err(Refusal { reply: "ERR bad magic\n".to_owned(), reason });
    }
    let named = if parts.len() > 1 {
        parts[1].clone()
    } else {
        String::new()
    };
    if !text::same(&named, profile.as_str()) {
        let mut reply = "ERR profile mismatch (serving ".to_owned();
        reply.append(profile.as_str());
        reply.append(")\n");
        let mut reason = "profile `".to_owned();
        reason.append(&named);
        reason.append("` (serving ");
        reason.append(profile.as_str());
        reason.append(")");
        return Err(Refusal { reply, reason });
    }
    Ok(())
}

/// The challenge line for a nonce.
pub open spec fn challenge_text(nonce: Seq<char>) -> Seq<char> {
    "NONCE "@ + nonce + "\n"@
}

/// The challenge line for a nonce, line feed included.
pub fn challenge_line(nonce: &str) -> (r: String)
    ensures
        r@ == challenge_text(nonce@),
{
    let mut s = "NONCE ".to_owned();
    s.append(nonce);
    s.append("\n");
    s
}

/// The code that an answer line carries.
pub open spec fn answered(line: Seq<char>) -> Seq<char> {
    match after_prefix(line, "AUTH "@) {
        Some(a) => a,
        None => Seq::empty(),
    }
}

/// Checks a peer's answer. On success the line to send is `OK`.
pub fn check_answer(line: &str, token: &str, nonce: &str) -> (r: Result<String, Refusal>)
    ensures
        match r {
            Ok(s) => accepted(token@, nonce@, answered(line@)) && s@ == "OK\n"@,
            Err(e) => {
                &&& !accepted(token@, nonce@, answered(line@))
                &&& e.reply@ == "ERR auth failed\n"@
                &&& e.reason@ == "auth failed"@
            },
        },
{
    let given = match text::strip_prefix(line, "AUTH ") {
        Some(a) => a.to_owned(),
        None => String::new(),
    };
    if handshake::verify(token, nonce, &given) {
        Ok("OK\n".to_owned())
    } else {
        Err(
            Refusal {
                reply: "ERR auth failed\n".to_owned(),
                reason: "auth failed".to_owned(),
            },
        )
    }
}

/// Whether a preamble line may be used: `n` bytes of it came, and `ended` tells whether the last
/// one was a line feed. At most [`MAX_LINE`] bytes are read, so a line that does not end within
/// them is refused.
pub fn check_line(n: usize, ended: bool) -> (r: Result<(), String>)
    ensures
        match r {
            Ok(_) => n > 0 && ended,
            Err(e) => if n == 0 {
                e@ == "peer closed during handshake"@
            } else {
                !ended && e@ == "handshake line exceeded "@ + decimal(MAX_LINE as nat) + " bytes"@
            },
        },
{
    if n == 0 {
        return Err("peer closed during handshake".to_owned());
    }
    if !ended {
        let mut e = "handshake line exceeded ".to_owned();
        e.append(&text::decimal_of(MAX_LINE as u64));
        e.append(" bytes");
        return Err(e);
    }
    Ok(())
}

// ---------------------------------------------------------------------------
// The order of things
// ---------------------------------------------------------------------------

/// Where a connection to a share with a token stands.
#[derive(Debug)]
pub enum Stage {
    /// Its first line is awaited.
    Hello,
    /// The answer to this nonce is awaited.
    Answer(String),
    /// It has proved that it holds the token.
    Served,
    /// It was turned away.
    Closed,
}

/// A [`Stage`] over texts.
pub enum StageText {
    Hello,
    Answer(Seq<char>),
    Served,
    Closed,
}

impl View for Stage {
    type V = StageText;

    open spec fn view(&self) -> StageText {
        match *self {
            Stage::Hello => StageText::Hello,
            Stage::Answer(n) => StageText::Answer(n@),
            Stage::Served => StageText::Served,
            Stage::Closed => StageText::Closed,
        }
    }
}

/// What came while a line was awaited.
#[derive(Debug)]
pub enum Heard {
    /// `n` bytes came, which read as `line`. `ended` tells whether the last one was a line feed,
    /// and `more` whether the peer has sent anything behind it.
    Line { n: usize, ended: bool, line: String, more: bool },
    /// Nothing came in time.
    TimedOut,
}

/// A [`Heard`] over texts.
pub enum HeardText {
    Line { n: nat, ended: bool, line: Seq<char>, more: bool },
    TimedOut,
}

impl View for Heard {
    type V = HeardText;

    open spec fn view(&self) -> HeardText {
        match *self {
            Heard::Line { n, ended, line, more } => HeardText::Line {
                n: n as nat,
                ended,
                line: line@,
                more,
            },
            Heard::TimedOut => HeardText::TimedOut,
        }
    }
}

/// What is done next on a connection.
#[derive(Debug)]
pub enum Turn {
    /// Send this line and await another.
    Challenge(String),
    /// Send this line, open the device endpoint and relay.
    Serve(String),
    /// Send this line, if there is one, and close. Nothing was opened.
    Refuse { reply: Option<String>, reason: String },
}

/// A [`Turn`] over texts.
pub enum TurnText {
    Challenge(Seq<char>),
    Serve(Seq<char>),
    Refuse { reply: Option<Seq<char>>, reason: Seq<char> },
}

impl View for Turn {
    type V = TurnText;

    open spec fn view(&self) -> TurnText {
        match *self {
            Turn::Challenge(s) => TurnText::Challenge(s@),
            Turn::Serve(s) => TurnText::Serve(s@),
            Turn::Refuse { reply, reason } => TurnText::Refuse {
                reply: opt_view(reply),
                reason: reason@,
            },
        }
    }
}

/// The line that turns a peer away for its first one, and what the log says, if it is turned
/// away.
pub open spec fn hello_refusal(line: Seq<char>, profile: Profile) -> Option<(Seq<char>, Seq<char>)> {
    if word_at(line, 0) != MAGIC@ {
        Some(("ERR bad magic\n"@, "bad magic `"@ + word_at(line, 0) + "`"@))
    } else if word_at(line, 1) != profile.word() {
        Some(
            (
                "ERR profile mismatch (serving "@ + profile.word() + ")\n"@,
                "profile `"@ + word_at(line, 1) + "` (serving "@ + profile.word() + ")"@,
            ),
        )
    } else {
        None
    }
}

/// Why what came is no line, if it is none.
pub open spec fn unheard(heard: HeardText) -> Option<Seq<char>> {
    match heard {
        HeardText::TimedOut => Some("handshake timed out"@),
        HeardText::Line { n, ended, .. } => if n == 0 {
            Some("peer closed during handshake"@)
        } else if !ended {
            Some("handshake line exceeded "@ + decimal(MAX_LINE as nat) + " bytes"@)
        } else {
            None
        },
    }
}

/// The line that came.
pub open spec fn line_of(heard: HeardText) -> Seq<char> {
    match heard {
        HeardText::Line { line, .. } => trimmed(line),
        HeardText::TimedOut => Seq::empty(),
    }
}

/// Whether the peer has sent anything behind the line that came.
pub open spec fn more_of(heard: HeardText) -> bool {
    heard matches HeardText::Line { more, .. } && more
}

/// Whether a connection goes from `stage` to `next` by `turn` when `heard` comes. Which nonce is
/// sent is left open.
pub open spec fn turns(
    profile: Profile,
    token: Seq<char>,
    stage: StageText,
    heard: HeardText,
    next: StageText,
    turn: TurnText,
) -> bool {
    let line = line_of(heard);
    match (unheard(heard), stage) {
        (Some(why), _) => {
            &&& next == StageText::Closed
            &&& turn == TurnText::Refuse { reply: None, reason: why }
        },
        (None, StageText::Hello) => match hello_refusal(line, profile) {
            Some((reply, reason)) => {
                &&& next == StageText::Closed
                &&& turn == TurnText::Refuse { reply: Some(reply), reason }
            },
            None => {
                &&& next matches StageText::Answer(nonce)
                &&& nonce.len() == 2 * NONCE_BYTES
                &&& is_hex_text(nonce)
                &&& turn == TurnText::Challenge(challenge_text(nonce))
            },
        },
        (None, StageText::Answer(nonce)) => if !accepted(token, nonce, answered(line)) {
            &&& next == StageText::Closed
            &&& turn == TurnText::Refuse { reply: Some("ERR auth failed\n"@), reason: "auth failed"@ }
        } else if more_of(heard) {
            &&& next == StageText::Closed
            &&& turn == TurnText::Refuse {
                reply: Some("OK\n"@),
                reason: "peer sent data before the handshake completed"@,
            }
        } else {
            &&& next == StageText::Served
            &&& turn == TurnText::Serve("OK\n"@)
        },
        _ => false,
    }
}

/// A connection to a share with a token, up to where it is served or turned away.
#[derive(Debug)]
pub struct Preamble {
    pub profile: Profile,
    pub token: String,
    pub stage: Stage,
}

fn refuse(reply: Option<String>, reason: String) -> (r: (Stage, Turn))
    ensures
        r.0@ == StageText::Closed,
        r.1@ == (TurnText::Refuse { reply: opt_view(reply), reason: reason@ }),
{
    (Stage::Closed, Turn::Refuse { reply, reason })
}

fn take_hello(profile: Profile, line: &str, dice: &mut Dice) -> (r: (Stage, Turn))
    ensures
        match hello_refusal(line@, profile) {
            Some((reply, reason)) => {
                &&& r.0@ == StageText::Closed
                &&& r.1@ == (TurnText::Refuse { reply: Some(reply), reason })
                &&& final(dice).log() == old(dice).log()
            },
            None => {
                &&& r.0@ matches StageText::Answer(nonce)
                &&& draws_nonce(old(dice).log(), final(dice).log(), nonce)
                &&& nonce.len() == 2 * NONCE_BYTES
                &&& is_hex_text(nonce)
                &&& r.1@ == TurnText::Challenge(challenge_text(nonce))
            },
        },
{
    match check_hello(line, profile) {
        Err(e) => refuse(Some(e.reply), e.reason),
        Ok(_) => {
            let nonce = handshake::new_nonce(dice);
            let challenge = challenge_line(&nonce);
            (Stage::Answer(nonce), Turn::Challenge(challenge))
        },
    }
}

fn take_answer(token: &str, nonce: &str, line: &str, more: bool) -> (r: (Stage, Turn))
    ensures
        if !accepted(token@, nonce@, answered(line@)) {
            &&& r.0@ == StageText::Closed
            &&& r.1@ == (TurnText::Refuse {
                reply: Some("ERR auth failed\n"@),
                reason: "auth failed"@,
            })
        } else if more {
            &&& r.0@ == StageText::Closed
            &&& r.1@ == (TurnText::Refuse {
                reply: Some("OK\n"@),
                reason: "peer sent data before the handshake completed"@,
            })
        } else {
            &&& r.0@ == StageText::Served
            &&& r.1@ == TurnText::Serve("OK\n"@)
        },
{
    match check_answer(line, token, nonce) {
        Err(e) => refuse(Some(e.reply), e.reason),
        Ok(ok) => if more {
            refuse(Some(ok), "peer sent data before the handshake completed".to_owned())
        } else {
            (Stage::Served, Turn::Serve(ok))
        },
    }
}

impl Preamble {
    /// A connection that was just accepted.
    pub fn new(profile: Profile, token: String) -> (r: Self)
        ensures
            r.profile == profile,
            r.token@ == token@,
            r.stage@ == StageText::Hello,
    {
        Preamble { profile, token, stage: Stage::Hello }
    }

    /// Takes what came on the connection. The nonce of a challenge is drawn of `dice`, and nothing
    /// else is.
    pub fn hear(&mut self, heard: Heard, dice: &mut Dice) -> (r: Turn)
        requires
            old(self).stage is Hello || old(self).stage is Answer,
        ensures
            final(self).profile == old(self).profile,
            final(self).token@ == old(self).token@,
            turns(
                old(self).profile,
                old(self).token@,
                old(self).stage@,
                heard@,
                final(self).stage@,
                r@,
            ),
            match final(self).stage@ {
                StageText::Answer(nonce) => draws_nonce(old(dice).log(), final(dice).log(), nonce),
                _ => final(dice).log() == old(dice).log(),
            },
    {
        let (n, ended, line, more) = match heard {
            Heard::Line { n, ended, line, more } => (n, ended, line, more),
            Heard::TimedOut => {
                let (stage, turn) = refuse(None, "handshake timed out".to_owned());
                self.stage = stage;
                return turn;
            },
        };
        if let Err(why) = check_line(n, ended) {
            let (stage, turn) = refuse(None, why);
            self.stage = stage;
            return turn;
        }
        let line = text::trim(&line);
        let (stage, turn) = match &self.stage {
            Stage::Answer(nonce) => take_answer(&self.token, nonce, line, more),
            _ => take_hello(self.profile, line, dice),
        };
        self.stage = stage;
        turn
    }
}

/// What an open share answers to a shim: it needs no handshake, so adb can be pointed at it.
pub open spec fn open_share_text() -> Seq<char> {
    "ERR this share needs no token — point adb at it directly: adb -H <host> -P <port>\n"@
}

/// The answer of an open share to a connection whose first four bytes are `prefix`: a shim that
/// opens with the handshake's banner is told that none is needed; adb's own requests open with a
/// length and get no answer here.
pub fn greet_open(prefix: &[u8]) -> (r: Option<String>)
    requires
        prefix@.len() == 4,
    ensures
        match r {
            Some(s) => s@ == open_share_text() && prefix@ == seq![68u8, 73u8, 65u8, 76u8],
            None => prefix@ != seq![68u8, 73u8, 65u8, 76u8],
        },
{
    if prefix[0] == 68 && prefix[1] == 73 && prefix[2] == 65 && prefix[3] == 76 {
        assert(prefix@ =~= seq![68u8, 73u8, 65u8, 76u8]);
        Some(
            "ERR this share needs no token — point adb at it directly: adb -H <host> -P <port>\n".to_owned(),
        )
    } else {
        None
    }
}

/// The seconds that a share has left.
pub open spec fn left(expires_after: Option<u64>, elapsed: u64) -> Option<u64> {
    match expires_after {
        Some(t) => Some((if t > elapsed { t - elapsed } else { 0 }) as u64),
        None => None,
    }
}

/// Whether a share still serves.
pub open spec fn live(expires_after: Option<u64>, elapsed: u64) -> bool {
    expires_after matches Some(t) ==> elapsed < t
}

/// Whether a peer may use a forward port.
pub open spec fn forwards(
    require_auth: bool,
    authenticated: Seq<Seq<char>>,
    peer: Seq<char>,
) -> bool {
    !require_auth || authenticated.contains(peer)
}

/// Seconds until a share closes itself, `elapsed` seconds after it started: nothing for one that
/// never expires.
pub fn seconds_remaining(expires_after: Option<u64>, elapsed: u64) -> (r: Option<u64>)
    ensures
        r == left(expires_after, elapsed),
{
    match expires_after {
        Some(t) => Some(if t > elapsed { t - elapsed } else { 0 }),
        None => None,
    }
}

/// Whether a share still serves, `elapsed` seconds after it started.
pub fn is_live(expires_after: Option<u64>, elapsed: u64) -> (r: bool)
    ensures
        r == live(expires_after, elapsed),
{
    match expires_after {
        Some(t) => elapsed < t,
        None => true,
    }
}

/// Whether a peer at an address may use a forward port: on a share with a token, only an address
/// that has passed the handshake before.
pub fn may_forward(require_auth: bool, authenticated: &Vec<String>, peer: &str) -> (r: bool)
    ensures
        r == forwards(require_auth, views(authenticated@), peer@),
{
    if !require_auth {
        return true;
    }
    let mut i: usize = 0;
    while i < authenticated.len()
        invariant
            i <= authenticated.len(),
            require_auth,
            forall|j: int| 0 <= j < i ==> views(authenticated@)[j] != peer@,
        decreases authenticated.len() - i,
    {
        if text::same(&authenticated[i], peer) {
            assert(views(authenticated@)[i as int] == peer@);
            return true;
        }
        i += 1;
    }
    false
}

/// The client's first line, as a server reads it, fits.
pub proof fn law_a_clients_hello_fits(profile: Profile)
    ensures
        hello_fits(trimmed(hello_text(profile)), profile),
{
    let line = hello_text(profile);
    reveal_strlit("DIALF-SHARE/1");
    reveal_strlit(" ");
    reveal_strlit("adb");
    reveal_strlit("\n");
    let m = MAGIC@;
    let p = profile.word();
    let t = m + " "@ + p;
    assert(line == t.push('\n'));
    assert(!text::is_space(line[0]));
    assert(text::trimmed_start(line) == line);
    assert(line.drop_last() =~= t);
    assert(t.last() == 'b');
    assert(text::trimmed_end(t) == t);
    assert(trimmed(line) == t);
    text::lemma_two_words(m, p);
}

/// The challenge that a server sends, as a client reads it, carries the nonce.
pub proof fn law_a_challenge_carries_its_nonce(nonce: Seq<char>)
    requires
        is_hex_text(nonce),
        nonce.len() > 0,
    ensures
        challenged(trimmed(challenge_text(nonce))) == Some(nonce),
{
    reveal_strlit("NONCE ");
    reveal_strlit("\n");
    let line = challenge_text(nonce);
    let t = "NONCE "@ + nonce;
    assert(line =~= t.push('\n'));
    assert(text::trimmed_start(line) == line);
    assert(line.drop_last() =~= t);
    assert(t.last() == nonce.last());
    assert(!text::is_space(nonce[nonce.len() - 1]));
    assert(text::trimmed_end(t) == t);
    assert(t.skip(6) =~= nonce);
    assert("NONCE "@.is_prefix_of(t));
}

/// The answer that a client sends for a code in hex, as a server reads it, is that code.
pub proof fn law_an_answer_carries_its_code(code: Seq<char>)
    requires
        is_hex_text(code),
        code.len() > 0,
    ensures
        answered(trimmed("AUTH "@ + code + "\n"@)) == code,
{
    reveal_strlit("AUTH ");
    reveal_strlit("\n");
    let line = "AUTH "@ + code + "\n"@;
    let t = "AUTH "@ + code;
    assert(line =~= t.push('\n'));
    assert(text::trimmed_start(line) == line);
    assert(line.drop_last() =~= t);
    assert(t.last() == code.last());
    assert(!text::is_space(code[code.len() - 1]));
    assert(text::trimmed_end(t) == t);
    assert(t.skip(5) =~= code);
    assert("AUTH "@.is_prefix_of(t));
}

/// A peer's course up to some point: it starts with nothing heard, each line takes it from one
/// stage to the next, and nothing more is heard once it is served or turned away.
pub open spec fn is_course(
    profile: Profile,
    token: Seq<char>,
    stages: Seq<StageText>,
    heard: Seq<HeardText>,
    done: Seq<TurnText>,
) -> bool {
    &&& stages.len() == heard.len() + 1
    &&& done.len() == heard.len()
    &&& stages[0] == StageText::Hello
    &&& forall|i: int|
        0 <= i < heard.len() ==> {
            &&& #[trigger] stages[i] is Hello || stages[i] is Answer
            &&& turns(profile, token, stages[i], heard[i], stages[i + 1], done[i])
        }
}

/// Nobody is served who has not said hello and then answered the nonce sent for it under the
/// token: until then, every turn is the challenge or a refusal, and the device endpoint stays
/// closed.
pub proof fn law_only_who_holds_the_token_is_served(
    profile: Profile,
    token: Seq<char>,
    stages: Seq<StageText>,
    heard: Seq<HeardText>,
    done: Seq<TurnText>,
    i: int,
)
    requires
        is_course(profile, token, stages, heard, done),
        0 <= i < done.len(),
        done[i] is Serve,
    ensures
        i == 1,
        hello_fits(line_of(heard[0]), profile),
        exists|nonce: Seq<char>| #[trigger]
            challenge_text(nonce) == done[0]->Challenge_0 && accepted(
                token,
                nonce,
                answered(line_of(heard[1])),
            ),
        done[0] is Challenge,
{
    assert(stages[0] == StageText::Hello);
    assert(turns(profile, token, stages[0], heard[0], stages[1], done[0]));
    if i >= 1 {
        assert(stages[1] is Hello || stages[1] is Answer);
        assert(stages[1] is Answer);
        assert(turns(profile, token, stages[1], heard[1], stages[2], done[1]));
        if i >= 2 {
            assert(stages[2] is Hello || stages[2] is Answer);
        }
        let nonce = stages[1]->Answer_0;
        assert(challenge_text(nonce) == done[0]->Challenge_0);
    }
}

/// What a client that holds `token` answers to a nonce carries the code that proves it.
proof fn lemma_an_answer_is_read(token: Seq<char>, nonce: Seq<char>)
    requires
        proof_code(token, nonce).len() > 0,
    ensures
        hex_bytes(
            trimmed(answered(trimmed("AUTH "@ + hex_text(proof_code(token, nonce)) + "\n"@))),
        ) == Some(proof_code(token, nonce)),
{
    let bytes = proof_code(token, nonce);
    let code = hex_text(bytes);
    crate::hex::lemma_hex_text_shape(bytes);
    crate::hex::law_hex_round_trip(bytes);
    crate::hex::lemma_hex_text_is_trimmed(code);
    law_an_answer_carries_its_code(code);
}

/// An answer without a code is none.
proof fn lemma_an_empty_answer_is_none(token: Seq<char>, nonce: Seq<char>)
    requires
        proof_code(token, nonce).len() == 0,
    ensures
        hex_bytes(
            trimmed(answered(trimmed("AUTH "@ + hex_text(proof_code(token, nonce)) + "\n"@))),
        ) is None,
{
    let code = hex_text(proof_code(token, nonce));
    crate::hex::lemma_hex_text_shape(proof_code(token, nonce));
    reveal_strlit("AUTH ");
    reveal_strlit("\n");
    let line = "AUTH "@ + code + "\n"@;
    let four = "AUTH "@.take(4);
    assert(line =~= "AUTH "@.push('\n'));
    assert(text::trimmed_start(line) == line);
    assert(line.drop_last() =~= "AUTH "@);
    assert("AUTH "@.drop_last() =~= four);
    assert(text::trimmed_end(four) == four);
    assert(text::trimmed_end("AUTH "@) == four);
    assert(trimmed(line) == four);
    assert(answered(four) =~= code);
    assert(trimmed(code) =~= code);
}

/// A client that holds the token is served: its answer to the nonce, read as a line, is the one
/// that is waited for. That a code has 32 bytes is what [`handshake::expected_auth`] tells of it.
pub proof fn law_who_holds_the_token_is_served(
    profile: Profile,
    token: Seq<char>,
    nonce: Seq<char>,
    n: nat,
    next: StageText,
    turn: TurnText,
)
    requires
        n > 0,
        proof_code(token, nonce).len() == 32,
        turns(
            profile,
            token,
            StageText::Answer(nonce),
            HeardText::Line {
                n,
                ended: true,
                line: "AUTH "@ + hex_text(proof_code(token, nonce)) + "\n"@,
                more: false,
            },
            next,
            turn,
        ),
    ensures
        turn == TurnText::Serve("OK\n"@),
{
    lemma_an_answer_is_read(token, nonce);
}

/// A client that holds another token is turned away, wherever the two tokens have different codes
/// for the nonce.
pub proof fn law_another_token_is_refused(
    profile: Profile,
    token: Seq<char>,
    other: Seq<char>,
    nonce: Seq<char>,
    n: nat,
    more: bool,
    next: StageText,
    turn: TurnText,
)
    requires
        n > 0,
        proof_code(other, nonce) != proof_code(token, nonce),
        turns(
            profile,
            token,
            StageText::Answer(nonce),
            HeardText::Line {
                n,
                ended: true,
                line: "AUTH "@ + hex_text(proof_code(other, nonce)) + "\n"@,
                more,
            },
            next,
            turn,
        ),
    ensures
        turn == (TurnText::Refuse { reply: Some("ERR auth failed\n"@), reason: "auth failed"@ }),
{
    if proof_code(other, nonce).len() > 0 {
        lemma_an_answer_is_read(other, nonce);
    } else {
        lemma_an_empty_answer_is_none(other, nonce);
    }
}

/// Whatever else a peer says, nothing is opened for it: it is turned away where it says nothing in
/// time, hangs up, sends a line that does not end, opens with another banner or profile, answers
/// wrongly, or sends anything behind its answer.
pub proof fn law_a_bad_peer_is_turned_away(
    profile: Profile,
    token: Seq<char>,
    stage: StageText,
    heard: HeardText,
    next: StageText,
    turn: TurnText,
)
    requires
        turns(profile, token, stage, heard, next, turn),
        match heard {
            HeardText::TimedOut => true,
            HeardText::Line { n, ended, line, more } => {
                ||| n == 0
                ||| !ended
                ||| (stage is Hello && (word_at(trimmed(line), 0) != "DIALF-SHARE/1"@ || word_at(
                    trimmed(line),
                    1,
                ) != profile.word()))
                ||| (stage is Answer && (more || !accepted(
                    token,
                    stage->Answer_0,
                    answered(trimmed(line)),
                )))
            },
        },
    ensures
        next is Closed,
        turn is Refuse,
        heard is TimedOut ==> turn->reply is None,
        heard matches HeardText::Line { n, ended, .. } && (n == 0 || !ended) ==> turn->reply is None,
        stage is Hello && heard is Line && heard->n > 0 && heard->ended ==> turn->reply is Some,
        stage is Answer && heard is Line && heard->n > 0 && heard->ended && !accepted(
            token,
            stage->Answer_0,
            answered(trimmed(heard->line)),
        ) ==> turn->reply == Some("ERR auth failed\n"@),
{
}

/// A first line that names the banner and the profile is answered with a challenge for a nonce of
/// sixty-four hex digits, whose answer is then awaited.
pub proof fn law_a_hello_is_challenged(
    profile: Profile,
    token: Seq<char>,
    n: nat,
    line: Seq<char>,
    more: bool,
    next: StageText,
    turn: TurnText,
)
    requires
        n > 0,
        turns(
            profile,
            token,
            StageText::Hello,
            HeardText::Line { n, ended: true, line, more },
            next,
            turn,
        ),
        word_at(trimmed(line), 0) == "DIALF-SHARE/1"@,
        word_at(trimmed(line), 1) == profile.word(),
    ensures
        next is Answer,
        next->Answer_0.len() == 64,
        is_hex_text(next->Answer_0),
        turn == TurnText::Challenge("NONCE "@ + next->Answer_0 + "\n"@),
{
}

/// What is read of an answer line is what stands behind its word, and nothing of any other line.
pub proof fn law_an_answer_stands_behind_its_word(code: Seq<char>, line: Seq<char>)
    ensures
        answered("AUTH "@ + code) == code,
        !"AUTH "@.is_prefix_of(line) ==> answered(line).len() == 0,
{
    let t = "AUTH "@ + code;
    assert("AUTH "@ =~= t.take("AUTH "@.len() as int));
    assert(t.skip("AUTH "@.len() as int) =~= code);
}

/// A share serves for as long as it has time left: it has what is not yet gone of its time, and one
/// that never expires serves always.
pub proof fn law_a_share_serves_while_it_has_time(t: u64, elapsed: u64)
    ensures
        live(Some(t), elapsed) <==> elapsed < t,
        live(Some(t), elapsed) <==> left(Some(t), elapsed) is Some && left(Some(t), elapsed)->0 > 0,
        elapsed <= t ==> left(Some(t), elapsed) == Some((t - elapsed) as u64),
        elapsed >= t ==> left(Some(t), elapsed) == Some(0u64),
        live(None, elapsed),
        left(None, elapsed) is None,
{
}

/// On a share with a token a forward port is for the peers that have proved that they hold it.
pub proof fn law_forward_ports_are_for_those_who_proved_it(
    authenticated: Seq<Seq<char>>,
    peer: Seq<char>,
)
    ensures
        forwards(false, authenticated, peer),
        forwards(true, authenticated, peer) <==> authenticated.contains(peer),
        !forwards(true, Seq::empty(), peer),
{
}

/// A peer that is turned away is told why where it can be, and the log says so: the banner that it
/// came with, the profile that it asked for, that it said nothing in time, hung up, or sent a line
/// that did not end.
pub proof fn law_a_refused_peer_is_told_why(
    line: Seq<char>,
    profile: Profile,
    n: nat,
    ended: bool,
    more: bool,
)
    ensures
        word_at(line, 0) != "DIALF-SHARE/1"@ ==> hello_refusal(line, profile) == Some(
            ("ERR bad magic\n"@, "bad magic `"@ + word_at(line, 0) + "`"@),
        ),
        word_at(line, 0) == "DIALF-SHARE/1"@ && word_at(line, 1) != profile.word() ==> hello_refusal(
            line,
            profile,
        ) == Some(
            (
                "ERR profile mismatch (serving "@ + profile.word() + ")\n"@,
                "profile `"@ + word_at(line, 1) + "` (serving "@ + profile.word() + ")"@,
            ),
        ),
        word_at(line, 0) == "DIALF-SHARE/1"@ && word_at(line, 1) == profile.word() ==> hello_refusal(
            line,
            profile,
        ) is None,
        unheard(HeardText::TimedOut) == Some("handshake timed out"@),
        unheard(HeardText::Line { n: 0, ended, line, more }) == Some(
            "peer closed during handshake"@,
        ),
        n > 0 ==> unheard(HeardText::Line { n, ended: false, line, more }) == Some(
            "handshake line exceeded "@ + decimal(256) + " bytes"@,
        ),
        n > 0 ==> unheard(HeardText::Line { n, ended: true, line, more }) is None,
{
}

} // verus!
