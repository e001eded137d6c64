//! The remote side of a share: present a shared endpoint as a plain local port.
//!
//! For each local connection the shim opens one to the host, performs the handshake with the
//! lines that this module reads and writes, and splices.

use vstd::prelude::*;

use super::handshake;
use super::handshake::MAGIC;
#[allow(unused_imports)]
use super::handshake::{accepted, proof_code};
use super::Profile;
use crate::text;
#[allow(unused_imports)]
use crate::hex::{hex_text, is_hex_text};
#[allow(unused_imports)]
use crate::text::{after_prefix, decimal, first_at, pieces, trimmed};

verus! {

/// The address that `target` stands for, or why it stands for none.
pub open spec fn address_of(target: Seq<char>, profile: Profile) -> Result<Seq<char>, Seq<char>> {
    let t = trimmed(target);
    let port = decimal(profile.default_client_port() as nat);
    if t.len() == 0 {
        Err("empty share target"@)
    } else if t[0] == '[' {
        let rest = t.skip(1);
        let k = first_at(rest, ']') as int;
        if k >= rest.len() {
            Err("unterminated `[` in IPv6 target (want `[::1]:5038`)"@)
        } else {
            let tail = rest.skip(k + 1);
            let given = tail.len() > 1 && tail[0] == ':';
            Ok(
                "["@ + rest.take(k) + "]:"@ + (if given {
                    tail.skip(1)
                } else {
                    port
                }),
            )
        }
    } else {
        let p = pieces(t, ':');
        if p.len() > 2 {
            Err("bracket IPv6 targets, e.g. `["@ + t + "]:"@ + port + "`"@)
        } else if p.len() == 2 && p[0].len() > 0 && p[1].len() > 0 {
            Ok(p[0] + ":"@ + p[1])
        } else {
            Ok(t + ":"@ + port)
        }
    }
}

/// Splits a `host`, `host:port` or bracketed-IPv6 target into an address for `profile`,
/// supplying the default port when none is given.
///
/// IPv6 literals must be bracketed to be unambiguous; one that is not is refused with an
/// explanation.
pub fn target_addr(target: &str, profile: Profile) -> (r: Result<String, String>)
    ensures
        match r {
            Ok(a) => address_of(target@, profile) == Ok::<Seq<char>, Seq<char>>(a@),
            Err(e) => address_of(target@, profile) == Err::<Seq<char>, Seq<char>>(e@),
        },
{
    let t = text::trim(target);
    let port = text::decimal_of(profile.default_client_port() as u64);
    let cs = text::chars_of(t);
    if cs.len() == 0 {
        return Err("empty share target".to_owned());
    }
    if cs[0] == '[' {
        let mut k: usize = 1;
        while k < cs.len() && cs[k] != ']'
            invariant
                1 <= k <= cs.len(),
                forall|j: int| 1 <= j < k ==> cs@[j] != ']',
            decreases cs.len() - k,
        {
            k += 1;
        }
        proof {
            let rest = t@.skip(1);
            assert forall|j: int| 0 <= j < k - 1 implies rest[j] != ']' by {
                assert(rest[j] == cs@[j + 1]);
            }
            if k < cs.len() {
                assert(rest[k - 1] == cs@[k as int]);
            }
            text::lemma_first_at(rest, ']', k - 1);
        }
        if k == cs.len() {
            return Err("unterminated `[` in IPv6 target (want `[::1]:5038`)".to_owned());
        }
        let mut out = "[".to_owned();
        out.append(t.substring_char(1, k));
        out.append("]:");
        proof {
            let rest = t@.skip(1);
            assert(rest.take(k - 1) =~= t@.subrange(1, k as int));
            assert(rest.skip(k as int) =~= t@.skip(k + 1));
        }
        if cs.len() - k > 2 && cs[k + 1] == ':' {
            out.append(t.substring_char(k + 2, cs.len()));
            proof {
                assert(t@.skip(k + 1).skip(1) =~= t@.subrange(k + 2, cs@.len() as int));
                assert(t@.skip(k + 1)[0] == cs@[k + 1]);
            }
        } else {
            out.append(&port);
            proof {
                if k + 1 < cs.len() {
                    assert(t@.skip(k + 1)[0] == cs@[k + 1]);
                }
            }
        }
        return Ok(out);
    }
    let p = text::split(t, ':');
    proof {
        assert(pieces(t@, ':').len() == p@.len());
    }
    if p.len() > 2 {
        let mut e = "bracket IPv6 targets, e.g. `[".to_owned();
        e.append(t);
        e.append("]:");
        e.append(&port);
        e.append("`");
        return Err(e);
    }
    if p.len() == 2 {
        assert(pieces(t@, ':')[0] == p@[0]@);
        assert(pieces(t@, ':')[1] == p@[1]@);
        if !p[0].as_str().is_empty() && !p[1].as_str().is_empty() {
            let mut out = p[0].clone();
            out.append(":");
            out.append(&p[1]);
            return Ok(out);
        }
    }
    let mut out = t.to_owned();
    out.append(":");
    out.append(&port);
    Ok(out)
}

/// What a share's line other than the expected one means to a person.
pub open spec fn refusal_text(line: Seq<char>) -> Seq<char> {
    match after_prefix(line, "ERR "@) {
        Some(why) => if why == "auth failed"@ {
            "share rejected the token — check `adb_share.token` on the host matches the one passed here (--token / DIALF_SHARE_TOKEN)"@
        } else if why == "bad magic"@ {
            "the endpoint is not a dialf share (bad magic) — check the host and port"@
        } else {
            "share refused the connection: "@ + why
        },
        None => if line.len() == 0 {
            "share closed the connection during the handshake"@
        } else {
            "unexpected reply from share: "@ + line
        },
    }
}

/// Turns a server's `ERR …` line into something a person can act on.
pub fn describe_refusal(line: &str) -> (r: String)
    ensures
        r@ == refusal_text(line@),
{
    match text::strip_prefix(line, "ERR ") {
        Some(why) => if text::same(why, "auth failed") {
            "share rejected the token — check `adb_share.token` on the host matches the one passed here (--token / DIALF_SHARE_TOKEN)".to_owned()
        } else if text::same(why, "bad magic") {
            "the endpoint is not a dialf share (bad magic) — check the host and port".to_owned()
        } else {
            let mut s = "share refused the connection: ".to_owned();
            s.append(why);
            s
        },
        None => if line.is_empty() {
            "share closed the connection during the handshake".to_owned()
        } else {
            let mut s = "unexpected reply from share: ".to_owned();
            s.append(line);
            s
        },
    }
}

/// The first line of a client.
pub open spec fn hello_text(profile: Profile) -> Seq<char> {
    MAGIC@ + " "@ + profile.word() + "\n"@
}

/// The first line of a client, line feed included.
pub fn hello_line(profile: Profile) -> (r: String)
    ensures
        r@ == hello_text(profile),
{
    let mut s = MAGIC.to_owned();
    s.append(" ");
    s.append(profile.as_str());
    s.append("\n");
    s
}

/// The nonce that a challenge line carries, if it carries one.
pub open spec fn challenged(line: Seq<char>) -> Option<Seq<char>> {
    match after_prefix(line, "NONCE "@) {
        Some(n) => if n.len() > 0 {
            Some(n)
        } else {
            None
        },
        None => None,
    }
}

/// Reads the server's challenge: the nonce, or why there is none.
pub fn read_challenge(line: &str) -> (r: Result<String, String>)
    ensures
        match r {
            Ok(n) => challenged(line@) == Some(n@),
            Err(e) => challenged(line@) is None && e@ == refusal_text(line@),
        },
{
    match text::strip_prefix(line, "NONCE ") {
        Some(n) => if !n.is_empty() {
            Ok(n.to_owned())
        } else {
            Err(describe_refusal(line))
        },
        None => Err(describe_refusal(line)),
    }
}

/// The client's answer to a challenge, line feed included.
pub fn answer_line(token: &str, nonce: &str) -> (r: String)
    ensures
        r@ == "AUTH "@ + hex_text(proof_code(token@, nonce@)) + "\n"@,
        proof_code(token@, nonce@).len() == 32,
        is_hex_text(hex_text(proof_code(token@, nonce@))),
        accepted(token@, nonce@, hex_text(proof_code(token@, nonce@))),
{
    let mut s = "AUTH ".to_owned();
    s.append(&handshake::expected_auth(token, nonce));
    s.append("\n");
    s
}

/// Reads the server's verdict on an answer.
pub fn read_verdict(line: &str) -> (r: Result<(), String>)
    ensures
        match r {
            Ok(_) => line@ == "OK"@,
            Err(e) => line@ != "OK"@ && e@ == refusal_text(line@),
        },
{
    if text::same(line, "OK") {
        Ok(())
    } else {
        Err(describe_refusal(line))
    }
}

/// The words that a share refuses a client with are put so that a person can act on them: a wrong
/// token, an endpoint that is no share, another refusal in the share's own words, a closed
/// connection, or a line that is none of these.
pub proof fn law_refusals_are_put_in_words(why: Seq<char>, line: Seq<char>)
    ensures
        why == "auth failed"@ ==> refusal_text("ERR "@ + why)
            == "share rejected the token — check `adb_share.token` on the host matches the one passed here (--token / DIALF_SHARE_TOKEN)"@,
        why == "bad magic"@ ==> refusal_text("ERR "@ + why)
            == "the endpoint is not a dialf share (bad magic) — check the host and port"@,
        why != "auth failed"@ && why != "bad magic"@ ==> refusal_text("ERR "@ + why)
            == "share refused the connection: "@ + why,
        !"ERR "@.is_prefix_of(line) && line.len() > 0 ==> refusal_text(line)
            == "unexpected reply from share: "@ + line,
        line.len() == 0 ==> refusal_text(line) == "share closed the connection during the handshake"@,
{
    let e = "ERR "@ + why;
    reveal_strlit("ERR ");
    reveal_strlit("auth failed");
    reveal_strlit("bad magic");
    assert("ERR "@ =~= e.take(4));
    assert(e.skip(4) =~= why);
}

/// A host without a port is dialled on the shim's default port, and one with a port on that.
pub proof fn law_a_target_keeps_its_host_and_port(
    target: Seq<char>,
    host: Seq<char>,
    port: Seq<char>,
    profile: Profile,
)
    requires
        host.len() > 0,
        host[0] != '[',
        forall|i: int| 0 <= i < host.len() ==> host[i] != ':',
        port.len() > 0,
        forall|i: int| 0 <= i < port.len() ==> port[i] != ':',
    ensures
        trimmed(target) == host ==> address_of(target, profile) == Ok::<Seq<char>, Seq<char>>(
            host + ":"@ + decimal(5038),
        ),
        trimmed(target) == host + ":"@ + port ==> address_of(target, profile) == Ok::<
            Seq<char>,
            Seq<char>,
        >(host + ":"@ + port),
{
    reveal_strlit(":");
    let n = host.len() as int;
    if trimmed(target) == host {
        text::lemma_first_at(host, ':', n);
        assert(pieces(host, ':').len() == 1);
    }
    if trimmed(target) == host + ":"@ + port {
        let t = host + ":"@ + port;
        assert(t[0] == host[0]);
        assert forall|j: int| 0 <= j < n implies t[j] != ':' by {
            assert(t[j] == host[j]);
        }
        assert(t[n] == ':');
        text::lemma_first_at(t, ':', n);
        text::lemma_first_at(port, ':', port.len() as int);
        assert(t.take(n) =~= host);
        assert(t.skip(n + 1) =~= port);
        assert(pieces(port, ':') =~= seq![port]);
        assert(pieces(t, ':') =~= seq![host] + seq![port]);
    }
}

/// An address in brackets keeps them, and gets the default port where it names none.
pub proof fn law_a_bracketed_target_keeps_its_brackets(
    target: Seq<char>,
    host: Seq<char>,
    port: Seq<char>,
    profile: Profile,
)
    requires
        forall|i: int| 0 <= i < host.len() ==> host[i] != ']',
        port.len() > 0,
    ensures
        trimmed(target) == "["@ + host + "]"@ ==> address_of(target, profile) == Ok::<
            Seq<char>,
            Seq<char>,
        >("["@ + host + "]:"@ + decimal(5038)),
        trimmed(target) == "["@ + host + "]:"@ + port ==> address_of(target, profile) == Ok::<
            Seq<char>,
            Seq<char>,
        >("["@ + host + "]:"@ + port),
        trimmed(target).len() == 0 ==> address_of(target, profile) is Err,
        trimmed(target) == "["@ + host ==> address_of(target, profile) is Err,
{
    reveal_strlit("[");
    reveal_strlit("]");
    reveal_strlit("]:");
    let t = trimmed(target);
    let n = host.len() as int;
    if t == "["@ + host + "]"@ || t == "["@ + host + "]:"@ + port || t == "["@ + host {
        let rest = t.skip(1);
        assert forall|j: int| 0 <= j < n implies rest[j] != ']' by {
            assert(rest[j] == host[j]);
        }
        if t == "["@ + host {
            assert(rest =~= host);
        } else {
            assert(rest[n] == ']');
        }
        text::lemma_first_at(rest, ']', n);
        if t != "["@ + host {
            assert(rest.take(n) =~= host);
            if t == "["@ + host + "]:"@ + port {
                assert(rest.skip(n + 1).len() == 1 + port.len());
                assert(rest.skip(n + 1)[0] == ':');
                assert(rest.skip(n + 1).skip(1) =~= port);
            } else {
                assert(rest.skip(n + 1).len() == 0);
            }
        }
    }
}

/// An address with several colons must stand in brackets: without them it is refused, and shown with
/// them.
pub proof fn law_bare_addresses_with_colons_are_refused(
    target: Seq<char>,
    profile: Profile,
)
    requires
        trimmed(target).len() > 0,
        trimmed(target)[0] != '[',
        pieces(trimmed(target), ':').len() > 2,
    ensures
        address_of(target, profile) == Err::<Seq<char>, Seq<char>>(
            "bracket IPv6 targets, e.g. `["@ + trimmed(target) + "]:"@ + decimal(5038) + "`"@,
        ),
{
}

/// A challenge carries what stands behind its word, where that is anything.
pub proof fn law_a_challenge_stands_behind_its_word(nonce: Seq<char>, line: Seq<char>)
    ensures
        nonce.len() > 0 ==> challenged("NONCE "@ + nonce) == Some(nonce),
        challenged("NONCE "@) is None,
        !"NONCE "@.is_prefix_of(line) ==> challenged(line) is None,
{
    let t = "NONCE "@ + nonce;
    let n = "NONCE "@.len() as int;
    assert("NONCE "@ =~= t.take(n));
    assert(t.skip(n) =~= nonce);
    assert("NONCE "@.skip(n).len() == 0);
}

} // verus!
