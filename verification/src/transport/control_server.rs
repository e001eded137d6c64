//! The control socket: serve sessions, event frames and the socket's mode.

use vstd::prelude::*;

use crate::daemon::{AutoanswerOverride, ControlResponse, DaemonState, Reply, ServeGuard};
use crate::text;
#[allow(unused_imports)]
use crate::text::{joined, opt_view, trimmed, views};

verus! {

/// A serve session. It ends with [`stop_serving`].
#[derive(Debug)]
pub struct ServeSession {
    /// The session's registration of overrides.
    pub token: u64,
    /// The right to serve.
    pub guard: ServeGuard,
    /// The first line that the client is told.
    pub confirm: String,
}

/// Whether `ov` is the override that a session registers.
pub open spec fn is_session_override(
    ov: AutoanswerOverride,
    token: u64,
    path: Seq<char>,
    device: Option<Seq<char>>,
) -> bool {
    ov.token == token && ov.path@ == path && opt_view(ov.device) == device
}

/// Whether overrides have become `next` by registering some numbers.
pub open spec fn registered(
    m: Map<Seq<char>, AutoanswerOverride>,
    numbers: Seq<Seq<char>>,
    token: u64,
    path: Seq<char>,
    device: Option<Seq<char>>,
    next: Map<Seq<char>, AutoanswerOverride>,
) -> bool {
    &&& forall|k: Seq<char>| #[trigger]
        next.dom().contains(k) <==> (m.dom().contains(k) || numbers.contains(k))
    &&& forall|k: Seq<char>| #[trigger]
        numbers.contains(k) ==> is_session_override(next[k], token, path, device)
    &&& forall|k: Seq<char>|
        m.dom().contains(k) && !numbers.contains(k) ==> #[trigger] next[k] == m[k]
}

/// Starts a serve session: registers the job for each number, to be run when it calls. There is
/// one phone to drive, so a second session is refused.
pub fn serve_autoanswer(
    state: &mut DaemonState,
    numbers: &Vec<String>,
    path: &str,
    device: &Option<String>,
) -> (r: Result<ServeSession, String>)
    ensures
        match r {
            Ok(s) => {
                &&& !old(state).serve_busy
                &&& s.token == old(state).serve_token
                &&& s.confirm@ == "serving inbound: "@ + joined(views(numbers@), ", "@)
                    + " (overrides config)"@
                &&& registered(
                    old(state).overrides@,
                    views(numbers@),
                    s.token,
                    path@,
                    opt_view(*device),
                    final(state).overrides@,
                )
                &&& final(state).serve_token != s.token
                &&& *final(state) == (DaemonState {
                    serve_busy: true,
                    serve_token: final(state).serve_token,
                    overrides: final(state).overrides,
                    ..*old(state)
                })
            },
            Err(e) => {
                &&& old(state).serve_busy
                &&& e@ == "a dialf serve session is already running (one phone — only one at a time)"@
                &&& *final(state) == *old(state)
            },
        },
{
    let guard = match state.acquire_serve() {
        Some(g) => g,
        None => {
            return Err(
                "a dialf serve session is already running (one phone — only one at a time)".to_owned(),
            );
        },
    };
    let token: u64 = state.next_serve_token();
    let ghost m = state.overrides@;
    let ghost base = *state;
    let mut i: usize = 0;
    while i < numbers.len()
        invariant
            i <= numbers.len(),
            registered(
                m,
                views(numbers@).take(i as int),
                token,
                path@,
                opt_view(*device),
                state.overrides@,
            ),
            *state == (DaemonState { overrides: state.overrides, ..base }),
        decreases numbers.len() - i,
    {
        let ghost head = views(numbers@).take(i as int);
        let ghost was = state.overrides@;
        let ov = AutoanswerOverride {
            token,
            path: path.to_owned(),
            device: text::copy_opt(device),
        };
        let number = numbers[i].clone();
        let ghost key = number@;
        state.register_override(number, ov);
        proof {
            let next = views(numbers@).take(i + 1);
            assert(next =~= head.push(key));
            assert forall|k: Seq<char>| next.contains(k) <==> (head.contains(k) || k == key) by {
                if head.contains(k) {
                    let j = choose|j: int| 0 <= j < head.len() && head[j] == k;
                    assert(next[j] == k);
                }
                assert(next[i as int] == key);
            }
        }
        i += 1;
    }
    proof {
        assert(views(numbers@).take(i as int) =~= views(numbers@));
    }
    let mut confirm = "serving inbound: ".to_owned();
    confirm.append(&text::join(numbers, ", "));
    confirm.append(" (overrides config)");
    Ok(ServeSession { token, guard, confirm })
}

/// Ends a serve session: its overrides go, and another session may start.
pub fn stop_serving(state: &mut DaemonState, session: ServeSession)
    ensures
        final(state).overrides@ == crate::daemon::without_token(
            old(state).overrides@,
            session.token,
        ),
        *final(state) == (DaemonState {
            serve_busy: false,
            overrides: final(state).overrides,
            ..*old(state)
        }),
{
    state.clear_overrides(session.token);
    state.release_serve(session.guard);
}

/// One streamed event: a response that is not the last of its request.
pub fn event_response(id: &str, event: String) -> (r: ControlResponse)
    ensures
        r.id@ == id@,
        !r.done,
        r.ok == Some(true),
        r.error is None,
        r.data == Some(Reply::Event(event)),
{
    ControlResponse {
        id: id.to_owned(),
        done: false,
        ok: Some(true),
        error: None,
        data: Some(Reply::Event(event)),
    }
}

/// The response to a line that is not a request.
pub fn bad_request(reason: &str) -> (r: ControlResponse)
    ensures
        r.id@.len() == 0,
        r.done,
        r.ok == Some(false),
        r.error is Some,
        r.error->0@ == "bad request: "@ + reason@,
        r.data is None,
{
    let mut e = "bad request: ".to_owned();
    e.append(reason);
    ControlResponse { id: String::new(), done: true, ok: Some(false), error: Some(e), data: None }
}

/// `s` without the prefixes `0o` that it starts with.
pub open spec fn without_octal_prefix(s: Seq<char>) -> Seq<char>
    decreases s.len(),
{
    if s.len() >= 2 && s[0] == '0' && s[1] == 'o' {
        without_octal_prefix(s.skip(2))
    } else {
        s
    }
}

/// The number that octal digits write.
pub open spec fn octal_value(s: Seq<char>) -> nat
    decreases s.len(),
{
    if s.len() == 0 {
        0
    } else {
        octal_value(s.drop_last()) * 8 + (s.last() as u32 - 48) as nat
    }
}

/// Whether `s` holds at least one octal digit and nothing else.
pub open spec fn all_octal(s: Seq<char>) -> bool {
    s.len() > 0 && forall|i: int| 0 <= i < s.len() ==> '0' <= #[trigger] s[i] <= '7'
}

/// The mode that a text writes in octal, with or without a `0o` before it.
pub open spec fn octal_mode(s: Seq<char>) -> Option<nat> {
    let t = without_octal_prefix(trimmed(s));
    let digits = if t.len() > 0 && t[0] == '+' {
        t.skip(1)
    } else {
        t
    };
    if all_octal(digits) && octal_value(digits) <= u32::MAX {
        Some(octal_value(digits))
    } else {
        None
    }
}

/// Parses an octal permission text like `0660` or `660` into mode bits.
pub fn parse_octal_mode(s: &str) -> (r: Result<u32, String>)
    ensures
        match r {
            Ok(n) => octal_mode(s@) == Some(n as nat),
            Err(e) => octal_mode(s@) is None && e@ == "control_socket_mode `"@ + s@
                + "` (want octal, e.g. 0660)"@,
        },
{
    match octal(s) {
        Some(n) => Ok(n),
        None => {
            let mut e = "control_socket_mode `".to_owned();
            e.append(s);
            e.append("` (want octal, e.g. 0660)");
            Err(e)
        },
    }
}

fn octal(s: &str) -> (r: Option<u32>)
    ensures
        (match r {
            Some(n) => Some(n as nat),
            None => None,
        }) == octal_mode(s@),
{
    let t = text::trim(s);
    let cs = text::chars_of(t);
    let ghost whole = trimmed(s@);
    let mut from: usize = 0;
    proof {
        assert(whole.skip(0) =~= whole);
    }
    while from < cs.len() && cs.len() - from >= 2 && cs[from] == '0' && cs[from + 1] == 'o'
        invariant
            from <= cs.len(),
            cs@ == whole,
            without_octal_prefix(whole.skip(from as int)) == without_octal_prefix(whole),
        decreases cs.len() - from,
    {
        proof {
            let u = whole.skip(from as int);
            assert(u[0] == cs@[from as int] && u[1] == cs@[from + 1]);
            assert(u.skip(2) =~= whole.skip(from + 2));
        }
        from += 2;
    }
    proof {
        let u = whole.skip(from as int);
        if u.len() >= 2 {
            assert(u[0] == cs@[from as int] && u[1] == cs@[from + 1]);
        }
        assert(without_octal_prefix(whole) == u);
    }
    let ghost u = whole.skip(from as int);
    if from < cs.len() && cs[from] == '+' {
        proof {
            assert(u[0] == cs@[from as int]);
            assert(u.skip(1) =~= whole.skip(from + 1));
        }
        from += 1;
    } else {
        proof {
            if u.len() > 0 {
                assert(u[0] == cs@[from as int]);
            }
        }
    }
    let ghost digits = whole.skip(from as int);
    if from == cs.len() {
        return None;
    }
    let mut n: u32 = 0;
    let mut i: usize = from;
    let mut too_big = false;
    while i < cs.len()
        invariant
            from <= i <= cs.len(),
            cs@ == whole,
            digits == whole.skip(from as int),
            digits == (if u.len() > 0 && u[0] == '+' {
                u.skip(1)
            } else {
                u
            }),
            u == without_octal_prefix(trimmed(s@)),
            forall|j: int| 0 <= j < i - from ==> '0' <= #[trigger] digits[j] <= '7',
            !too_big ==> n == octal_value(digits.take(i - from)),
            too_big ==> octal_value(digits.take(i - from)) > u32::MAX,
        decreases cs.len() - i,
    {
        let c: char = cs[i];
        proof {
            assert(digits[i - from] == c);
        }
        if c < '0' || c > '7' {
            proof {
                assert(!('0' <= digits[i - from] <= '7'));
            }
            return None;
        }
        let d: u32 = c as u32 - 48;
        proof {
            assert(digits.take(i - from + 1).drop_last() =~= digits.take(i - from));
            assert(digits.take(i - from + 1).last() == c);
        }
        if too_big || n > (u32::MAX - d) / 8 {
            too_big = true;
        } else {
            n = n * 8 + d;
        }
        i += 1;
    }
    proof {
        assert(digits.take(digits.len() as int) =~= digits);
    }
    if too_big {
        None
    } else {
        Some(n)
    }
}

/// When a session ends, the numbers that it alone had registered are handled as before it
/// started.
pub proof fn law_a_session_leaves_no_trace(
    before: Map<Seq<char>, AutoanswerOverride>,
    during: Map<Seq<char>, AutoanswerOverride>,
    numbers: Seq<Seq<char>>,
    token: u64,
    path: Seq<char>,
    device: Option<Seq<char>>,
    number: Seq<char>,
)
    requires
        registered(before, numbers, token, path, device, during),
        !before.dom().contains(number),
    ensures
        !crate::daemon::without_token(during, token).dom().contains(number),
{
    if numbers.contains(number) {
        assert(is_session_override(during[number], token, path, device));
    }
}

/// While a session runs, a call from one of its numbers runs its job, on its device where it names
/// one, whatever was registered or configured before; every other number is handled as before.
pub proof fn law_a_session_serves_its_numbers(
    before: DaemonState,
    during: DaemonState,
    numbers: Seq<Seq<char>>,
    token: u64,
    path: Seq<char>,
    device: Option<Seq<char>>,
    number: Seq<char>,
)
    requires
        registered(before.overrides@, numbers, token, path, device, during.overrides@),
        during == (DaemonState {
            serve_busy: true,
            serve_token: during.serve_token,
            overrides: during.overrides,
            ..before
        }),
    ensures
        numbers.contains(number) ==> during.handling(number) == Some(
            crate::daemon::Handling::Job { path, device },
        ) && during.overrides@[number].token == token,
        !numbers.contains(number) ==> during.handling(number) == before.handling(number),
{
}

/// The octal digits of a number.
pub open spec fn octal_text(n: nat) -> Seq<char>
    decreases n,
{
    if n < 8 {
        seq![((48 + n) as u8) as char]
    } else {
        octal_text(n / 8).push(((48 + n % 8) as u8) as char)
    }
}

proof fn lemma_octal_text(n: nat)
    ensures
        all_octal(octal_text(n)),
        octal_value(octal_text(n)) == n,
    decreases n,
{
    let t = octal_text(n);
    let d = if n < 8 {
        n
    } else {
        n % 8
    };
    let c = ((48 + d) as u8) as char;
    assert('0' <= c <= '7' && c as u32 - 48 == d);
    assert(t.last() == c);
    if n < 8 {
        assert(t.drop_last() =~= Seq::<char>::empty());
        assert(octal_value(t.drop_last()) == 0);
    } else {
        lemma_octal_text(n / 8);
        assert(t.drop_last() =~= octal_text(n / 8));
    }
}

/// A mode that is written in octal is read as it is, with leading zeros, with `0o` before it, or
/// with white space round it.
pub proof fn law_octal_modes_read_back(n: u32, s: Seq<char>)
    requires
        trimmed(s) == octal_text(n as nat) || trimmed(s) == seq!['0'] + octal_text(n as nat)
            || trimmed(s) == seq!['0', 'o'] + octal_text(n as nat),
    ensures
        octal_mode(s) == Some(n as nat),
{
    let t = octal_text(n as nat);
    lemma_octal_text(n as nat);
    let z = seq!['0'] + t;
    lemma_octal_zero(t);
    assert(t[0] != 'o' && t[0] != '+');
    assert(t.len() >= 2 ==> t[1] != 'o');
    assert(without_octal_prefix(t) == t);
    let p = seq!['0', 'o'] + t;
    assert(p.skip(2) =~= t);
    assert(z[1] == t[0]);
}

proof fn lemma_octal_zero(t: Seq<char>)
    requires
        all_octal(t),
    ensures
        all_octal(seq!['0'] + t),
        octal_value(seq!['0'] + t) == octal_value(t),
    decreases t.len(),
{
    let z = seq!['0'] + t;
    assert forall|i: int| 0 <= i < z.len() implies '0' <= #[trigger] z[i] <= '7' by {
        if i > 0 {
            assert(z[i] == t[i - 1]);
        }
    }
    assert(z.drop_last() =~= seq!['0'] + t.drop_last());
    assert(z.last() == t.last());
    if t.len() > 1 {
        assert forall|i: int| 0 <= i < t.drop_last().len() implies '0' <= #[trigger] t.drop_last()[i]
            <= '7' by {
            assert(t.drop_last()[i] == t[i]);
        }
        lemma_octal_zero(t.drop_last());
    } else {
        assert(t.drop_last() =~= Seq::<char>::empty());
        assert(z.drop_last() =~= seq!['0']);
        assert(seq!['0'].drop_last() =~= Seq::<char>::empty());
        assert(octal_value(seq!['0']) == 0) by {
            reveal_with_fuel(octal_value, 3);
        }
    }
}

} // verus!
