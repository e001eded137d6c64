//! What the command line shows: versions, lists of calls, texts and phones, and the outcome of
//! requests.

use vstd::prelude::*;

use crate::jobs::runner::CALL_ENDED_SUMMARY;
use crate::text;
#[allow(unused_imports)]
use crate::text::{
    char_replaced, decimal, first_at, opt_view, parsed_up_to, pieces, signed_decimal, views,
};

verus! {

// ---------------------------------------------------------------------------
// Versions
// ---------------------------------------------------------------------------

/// A version number.
pub struct Version {
    pub major: u64,
    pub minor: u64,
    pub patch: u64,
}

/// The number before a suffix of a version.
pub open spec fn version_core(s: Seq<char>) -> Seq<char> {
    let t = s.take(first_at(s, '-') as int);
    t.take(first_at(t, '+') as int)
}

/// The `i`-th number of a version: none where it is no number, zero where it is left out.
pub open spec fn version_part(parts: Seq<Seq<char>>, i: int) -> Option<nat> {
    if i < parts.len() {
        parsed_up_to(parts[i], u64::MAX as nat)
    } else {
        Some(0)
    }
}

/// The version that a text writes: up to three numbers, whatever follows them.
pub open spec fn parsed_version(s: Seq<char>) -> Option<(nat, nat, nat)> {
    let parts = pieces(version_core(s), '.');
    match (version_part(parts, 0), version_part(parts, 1), version_part(parts, 2)) {
        (Some(a), Some(b), Some(c)) => Some((a, b, c)),
        _ => None,
    }
}

/// Whether a version comes before another.
pub open spec fn version_before(a: (nat, nat, nat), b: (nat, nat, nat)) -> bool {
    a.0 < b.0 || (a.0 == b.0 && (a.1 < b.1 || (a.1 == b.1 && a.2 < b.2)))
}

/// How the version of the running daemon relates to that of the command line.
#[derive(Debug, PartialEq, Eq, Structural, Clone, Copy)]
pub enum VerRel {
    Older,
    Newer,
    Same,
    /// One of the two is no version: nothing is said of which is ahead.
    Unknown,
}

/// How two versions relate.
pub open spec fn version_relation(daemon: Seq<char>, cli: Seq<char>) -> VerRel {
    match (parsed_version(daemon), parsed_version(cli)) {
        (Some(d), Some(c)) => if version_before(d, c) {
            VerRel::Older
        } else if version_before(c, d) {
            VerRel::Newer
        } else {
            VerRel::Same
        },
        _ => VerRel::Unknown,
    }
}

fn part_at(parts: &Vec<String>, i: usize) -> (r: Option<u64>)
    ensures
        (match r {
            Some(n) => Some(n as nat),
            None => None,
        }) == version_part(views(parts@), i as int),
{
    if i < parts.len() {
        assert(views(parts@)[i as int] == parts@[i as int]@);
        text::parse_u64(&parts[i])
    } else {
        Some(0)
    }
}

/// The version that a text writes.
pub fn parse_ver(s: &str) -> (r: Option<Version>)
    ensures
        (match r {
            Some(v) => Some((v.major as nat, v.minor as nat, v.patch as nat)),
            None => None,
        }) == parsed_version(s@),
{
    let core = text::before_char(text::before_char(s, '-'), '+');
    let parts = text::split(core, '.');
    match (part_at(&parts, 0), part_at(&parts, 1), part_at(&parts, 2)) {
        (Some(major), Some(minor), Some(patch)) => Some(Version { major, minor, patch }),
        _ => None,
    }
}

/// Whether a version comes before another.
fn comes_before(a: &Version, b: &Version) -> (r: bool)
    ensures
        r == version_before(
            (a.major as nat, a.minor as nat, a.patch as nat),
            (b.major as nat, b.minor as nat, b.patch as nat),
        ),
{
    a.major < b.major || (a.major == b.major && (a.minor < b.minor || (a.minor == b.minor && a.patch
        < b.patch)))
}

/// How the version of the running daemon relates to that of the command line.
pub fn ver_rel(daemon: &str, cli: &str) -> (r: VerRel)
    ensures
        r == version_relation(daemon@, cli@),
{
    match (parse_ver(daemon), parse_ver(cli)) {
        (Some(d), Some(c)) => if comes_before(&d, &c) {
            VerRel::Older
        } else if comes_before(&c, &d) {
            VerRel::Newer
        } else {
            VerRel::Same
        },
        _ => VerRel::Unknown,
    }
}

/// What the daemon said of its version.
#[derive(Debug)]
pub enum DaemonSays {
    Version(String),
    NoVersion,
    NotRunning,
    NotResponding,
}

/// The lines on the daemon's version.
pub open spec fn daemon_version(cli: Seq<char>, says: DaemonSays) -> Seq<Seq<char>> {
    let head = "dialfd (daemon): "@;
    match says {
        DaemonSays::Version(v) => match version_relation(v@, cli) {
            VerRel::Older => seq![
                head + v@ + "  (older than the CLI "@ + cli + ")"@,
                "  ↳ update the service: `dialf service install` (add `--user` if you installed it per-user)"@,
            ],
            VerRel::Newer => seq![
                head + v@ + "  (newer than the CLI "@ + cli + ")"@,
                "  ↳ update the CLI: `npm i -g @agora-build/dialf`"@,
            ],
            VerRel::Same => seq![head + v@ + "  (up to date)"@],
            VerRel::Unknown => seq![head + v@],
        },
        DaemonSays::NoVersion => seq![
            head
                + "running, older than the CLI — re-run `dialf service install` (add `--user` if you installed it per-user) to update"@,
        ],
        DaemonSays::NotRunning => seq![head + "not running"@],
        DaemonSays::NotResponding => seq![head + "not responding"@],
    }
}

/// The lines on the versions of the command line and of the daemon.
pub fn version_lines(cli: &str, says: &DaemonSays) -> (r: Vec<String>)
    ensures
        views(r@) == seq!["dialf  (CLI):    "@ + cli@] + daemon_version(cli@, *says),
{
    let head = "dialfd (daemon): ";
    let mut out: Vec<String> = vec![text::cat("dialf  (CLI):    ", cli)];
    match says {
        DaemonSays::Version(v) => match ver_rel(v, cli) {
            VerRel::Older => {
                let mut s = text::cat3(head, v, "  (older than the CLI ");
                s.append(cli);
                s.append(")");
                out.push(s);
                out.push(
                    "  ↳ update the service: `dialf service install` (add `--user` if you installed it per-user)".to_owned(),
                );
            },
            VerRel::Newer => {
                let mut s = text::cat3(head, v, "  (newer than the CLI ");
                s.append(cli);
                s.append(")");
                out.push(s);
                out.push("  ↳ update the CLI: `npm i -g @agora-build/dialf`".to_owned());
            },
            VerRel::Same => {
                out.push(text::cat3(head, v, "  (up to date)"));
            },
            VerRel::Unknown => {
                out.push(text::cat(head, v));
            },
        },
        DaemonSays::NoVersion => {
            out.push(
                text::cat(
                    head,
                    "running, older than the CLI — re-run `dialf service install` (add `--user` if you installed it per-user) to update",
                ),
            );
        },
        DaemonSays::NotRunning => {
            out.push(text::cat(head, "not running"));
        },
        DaemonSays::NotResponding => {
            out.push(text::cat(head, "not responding"));
        },
    }
    assert(views(out@) =~= seq!["dialf  (CLI):    "@ + cli@] + daemon_version(cli@, *says));
    out
}

/// Whether the arguments ask for the versions: help goes first.
pub fn wants_version(argv: &Vec<String>) -> (r: bool)
    ensures
        r == ((views(argv@).contains("-V"@) || views(argv@).contains("--version"@)) && !views(
            argv@,
        ).contains("-h"@) && !views(argv@).contains("--help"@)),
{
    (text::holds(argv, "-V") || text::holds(argv, "--version")) && !text::holds(argv, "-h")
        && !text::holds(argv, "--help")
}

// ---------------------------------------------------------------------------
// Values
// ---------------------------------------------------------------------------

/// A text filled up with spaces to a width.
pub open spec fn padded(s: Seq<char>, width: nat) -> Seq<char> {
    if s.len() < width {
        s + Seq::new((width - s.len()) as nat, |i: int| ' ')
    } else {
        s
    }
}

/// A text filled up with spaces to a width.
pub fn pad(s: &str, width: usize) -> (r: String)
    ensures
        r@ == padded(s@, width as nat),
{
    let mut out = s.to_owned();
    let mut n: usize = s.unicode_len();
    let ghost len = s@.len();
    proof {
        assert(s@ + Seq::new(0, |i: int| ' ') =~= s@);
    }
    while n < width
        invariant
            n >= len,
            n <= width || n == len,
            len == s@.len(),
            out@ == s@ + Seq::new((n - len) as nat, |i: int| ' '),
        decreases width - n,
    {
        out.push(' ');
        n += 1;
        assert(out@ =~= s@ + Seq::new((n - len) as nat, |i: int| ' '));
    }
    out
}

/// Seconds in the largest unit that they fill.
pub open spec fn duration_text(secs: int) -> Seq<char> {
    if secs < 60 {
        signed_decimal(secs) + "s"@
    } else if secs < 3600 {
        signed_decimal(secs / 60) + "m"@
    } else if secs < 86400 {
        signed_decimal(secs / 3600) + "h"@
    } else {
        signed_decimal(secs / 86400) + "d"@
    }
}

/// Seconds in the largest unit that they fill: seconds, minutes, hours or days.
pub fn fmt_duration(secs: i64) -> (r: String)
    ensures
        r@ == duration_text(secs as int),
{
    if secs < 60 {
        text::cat(&text::signed_decimal_of(secs), "s")
    } else if secs < 3600 {
        text::cat(&text::signed_decimal_of(secs / 60), "m")
    } else if secs < 86400 {
        text::cat(&text::signed_decimal_of(secs / 3600), "h")
    } else {
        text::cat(&text::signed_decimal_of(secs / 86400), "d")
    }
}

/// A point in time, given in epoch milliseconds, as its local time; where it has none, the number.
pub fn fmt_ts(ms: i64, local: Option<&str>) -> (r: String)
    ensures
        r@ == (match local {
            Some(t) => t@,
            None => signed_decimal(ms as int),
        }),
{
    match local {
        Some(t) => t.to_owned(),
        None => text::signed_decimal_of(ms),
    }
}

/// The country that a number without a country code is taken for one of.
pub const HOME_COUNTRY: &'static str = "US";

/// Whether a text is that of a valid phone number, seen from a country.
pub uninterp spec fn valid_number(number: Seq<char>, country: Seq<char>) -> bool;

/// A phone number in international format, seen from a country.
pub uninterp spec fn international(number: Seq<char>, country: Seq<char>) -> Seq<char>;

/// `phonenumber::parse` with a default country, given by its two letters, and
/// `phonenumber::is_valid`: whether the text parses as a number, and that is valid. That is a
/// function of the two texts, named `valid_number`.
#[verifier::external_body]
fn is_valid_number(number: &str, country: &str) -> (r: bool)
    ensures
        r == valid_number(number@, country@),
{
    match phonenumber::parse(country.parse().ok(), number) {
        Ok(n) => phonenumber::is_valid(&n),
        Err(_) => false,
    }
}

/// `phonenumber::parse` with a default country, given by its two letters, and the formatter's
/// `Mode::International`: the formatted number, a function of the two texts, named
/// `international`. It starts with `+`, before the country code. A text that is not that of a
/// valid number may have no format.
#[verifier::external_body]
fn format_number(number: &str, country: &str) -> (r: String)
    requires
        valid_number(number@, country@),
    ensures
        r@ == international(number@, country@),
        r@.len() > 0 && r@[0] == '+',
{
    let n = phonenumber::parse(country.parse().ok(), number).expect("a valid number parses");
    n.format().mode(phonenumber::Mode::International).to_string()
}

/// A phone number in international format, where it is a valid one. One without a country code
/// is taken for a number of the United States.
pub open spec fn formatted(number: Seq<char>) -> Option<Seq<char>> {
    if valid_number(number, "US"@) {
        Some(international(number, "US"@))
    } else {
        None
    }
}

/// A number as it is shown, given its international format where it has one.
pub open spec fn shown(number: Seq<char>, format: Option<Seq<char>>) -> Seq<char> {
    match format {
        Some(t) => t,
        None => number,
    }
}

/// A number as it is shown, given its international format where it has one.
pub fn show_number(number: &str, format: Option<String>) -> (r: String)
    ensures
        r@ == shown(number@, opt_view(format)),
{
    match format {
        Some(t) => t,
        None => number.to_owned(),
    }
}

/// A phone number in international format; whatever is no valid one (a short code, the name of a
/// sender) as it is.
pub fn fmt_number(number: &str) -> (r: String)
    ensures
        r@ == shown(number@, formatted(number@)),
        r@ == number@ || (r@.len() > 0 && r@[0] == '+'),
{
    let format = if is_valid_number(number, HOME_COUNTRY) {
        Some(format_number(number, HOME_COUNTRY))
    } else {
        None
    };
    show_number(number, format)
}

// ---------------------------------------------------------------------------
// Rows
// ---------------------------------------------------------------------------

/// A text, or what stands for it where there is none.
pub open spec fn text_or(o: Option<String>, other: Seq<char>) -> Seq<char> {
    match o {
        Some(s) => s@,
        None => other,
    }
}

fn or_text<'a>(o: &'a Option<String>, other: &'a str) -> (r: &'a str)
    ensures
        r@ == text_or(*o, other@),
{
    match o {
        Some(s) => s.as_str(),
        None => other,
    }
}

/// A row of the call log, as far as the phone gave it.
#[derive(Debug)]
pub struct CallRow {
    pub kind: Option<String>,
    pub number: Option<String>,
    pub duration: Option<i64>,
}

/// A row of the call log on one line, given its time and its number as they are shown.
pub open spec fn call_line(c: CallRow, time: Seq<char>, number: Seq<char>) -> Seq<char> {
    let secs = match c.duration {
        Some(d) => d as int,
        None => 0,
    };
    time + "  "@ + padded(text_or(c.kind, "?"@), 9) + " "@ + padded(number, 17) + " "@
        + duration_text(secs)
}

/// The number of a row of the call log.
pub open spec fn call_number(c: CallRow) -> Seq<char> {
    text_or(c.number, "(unknown)"@)
}

/// A row of the call log on one line. `time` is when the call was, in local time.
pub fn human_calls(c: &CallRow, time: &str) -> (r: String)
    ensures
        r@ == call_line(*c, time@, shown(call_number(*c), formatted(call_number(*c)))),
{
    let number = fmt_number(or_text(&c.number, "(unknown)"));
    let secs: i64 = match c.duration {
        Some(d) => d,
        None => 0,
    };
    let mut s = text::cat3(time, "  ", &pad(or_text(&c.kind, "?"), 9));
    s.append(" ");
    s.append(&pad(&number, 17));
    s.append(" ");
    s.append(&fmt_duration(secs));
    s
}

/// A text message, as far as the phone gave it.
#[derive(Debug)]
pub struct SmsRow {
    pub direction: Option<String>,
    pub to: Option<String>,
    pub from: Option<String>,
    pub body: Option<String>,
}

/// Whether a message was sent.
pub open spec fn was_sent(m: SmsRow) -> bool {
    text_or(m.direction, "in"@) == "out"@
}

/// The other side of a message.
pub open spec fn sms_number(m: SmsRow) -> Seq<char> {
    if was_sent(m) {
        text_or(m.to, "(unknown)"@)
    } else {
        text_or(m.from, "(unknown)"@)
    }
}

/// A message on one line, given its time and its number as they are shown.
pub open spec fn sms_line(m: SmsRow, time: Seq<char>, number: Seq<char>) -> Seq<char> {
    let arrow = if was_sent(m) {
        "->"@
    } else {
        "<-"@
    };
    time + "  "@ + arrow + " "@ + padded(number, 17) + " "@ + char_replaced(
        text_or(m.body, ""@),
        '\n',
        ' ',
    )
}

/// A message on one line. `time` is when it was, in local time.
pub fn human_sms(m: &SmsRow, time: &str) -> (r: String)
    ensures
        r@ == sms_line(*m, time@, shown(sms_number(*m), formatted(sms_number(*m)))),
{
    let sent = text::same(or_text(&m.direction, "in"), "out");
    let who = if sent {
        or_text(&m.to, "(unknown)")
    } else {
        or_text(&m.from, "(unknown)")
    };
    let number = fmt_number(who);
    let mut s = text::cat(time, "  ");
    if sent {
        s.append("->");
    } else {
        s.append("<-");
    }
    s.append(" ");
    s.append(&pad(&number, 17));
    s.append(" ");
    s.append(&text::replace_char(or_text(&m.body, ""), '\n', ' '));
    s
}

/// A phone's call, as far as the daemon gave it.
#[derive(Debug)]
pub struct PhoneCall {
    pub number: Option<String>,
    pub state: Option<String>,
}

/// A connected phone, as far as the daemon gave it.
#[derive(Debug)]
pub struct PhoneRow {
    pub id: Option<String>,
    pub name: Option<String>,
    pub addr: Option<String>,
    pub last_seen_ms: Option<i64>,
    pub call: Option<PhoneCall>,
}

/// Since how many seconds a phone was not seen: never less than none.
pub open spec fn seconds_ago(d: PhoneRow, now: int) -> int {
    let seen = match d.last_seen_ms {
        Some(t) => t as int,
        None => 0,
    };
    if now > seen {
        (now - seen) / 1000
    } else {
        0
    }
}

/// The number of a phone's call.
pub open spec fn phone_number(c: PhoneCall) -> Seq<char> {
    text_or(c.number, "(unknown)"@)
}

/// What a phone does, given the number of its call as it is shown.
pub open spec fn doing(d: PhoneRow, number: Seq<char>) -> Seq<char> {
    match d.call {
        Some(c) => "in call "@ + number + " ("@ + text_or(c.state, "?"@) + ")"@,
        None => "idle"@,
    }
}

/// A connected phone on one line, given the number of its call as it is shown.
pub open spec fn phone_line(d: PhoneRow, now: int, number: Seq<char>) -> Seq<char> {
    padded(text_or(d.id, "?"@), 20) + " "@ + padded(text_or(d.name, ""@), 16) + " "@ + padded(
        text_or(d.addr, "-"@),
        16,
    ) + " seen "@ + signed_decimal(seconds_ago(d, now)) + "s ago   "@ + doing(d, number)
}

/// A connected phone on one line, `now` being the time in epoch milliseconds.
pub fn human_device(d: &PhoneRow, now: i64) -> (r: String)
    requires
        now - (match d.last_seen_ms {
            Some(t) => t as int,
            None => 0,
        }) <= i64::MAX,
    ensures
        r@ == phone_line(
            *d,
            now as int,
            match d.call {
                Some(c) => shown(phone_number(c), formatted(phone_number(c))),
                None => Seq::empty(),
            },
        ),
{
    let seen: i64 = match d.last_seen_ms {
        Some(t) => t,
        None => 0,
    };
    let ago: i64 = if now > seen {
        (now - seen) / 1000
    } else {
        0
    };
    let mut s = pad(or_text(&d.id, "?"), 20);
    s.append(" ");
    s.append(&pad(or_text(&d.name, ""), 16));
    s.append(" ");
    s.append(&pad(or_text(&d.addr, "-"), 16));
    s.append(" seen ");
    s.append(&text::signed_decimal_of(ago));
    s.append("s ago   ");
    match &d.call {
        Some(c) => {
            let number = fmt_number(or_text(&c.number, "(unknown)"));
            let mut w = text::cat3("in call ", &number, " (");
            w.append(or_text(&c.state, "?"));
            w.append(")");
            s.append(&w);
        },
        None => {
            s.append("idle");
        },
    }
    s
}

// ---------------------------------------------------------------------------
// Outcomes
// ---------------------------------------------------------------------------

/// Whether a request was refused, and with what.
pub fn ok_or_err(ok: Option<bool>, error: Option<String>) -> (r: Result<(), String>)
    ensures
        r is Err == (ok == Some(false)),
        r matches Err(e) ==> e@ == text_or(error, "request failed"@),
{
    match ok {
        Some(false) => Err(
            match error {
                Some(e) => e,
                None => "request failed".to_owned(),
            },
        ),
        _ => Ok(()),
    }
}

/// Whether a job stopped because the far end hung up: one of its steps says so.
pub fn job_ended_on_hangup(summaries: &Vec<String>) -> (r: bool)
    ensures
        r == views(summaries@).contains(CALL_ENDED_SUMMARY@),
{
    text::holds(summaries, CALL_ENDED_SUMMARY)
}

/// What a line of a serving session comes to.
#[derive(Debug, PartialEq, Eq)]
pub enum ServeLine {
    Refused(String),
    Event(String),
    Nothing,
}

/// What a line of a serving session comes to: a refusal ends it, and events are printed.
pub fn serve_line(ok: Option<bool>, error: Option<String>, event: Option<String>) -> (r: ServeLine)
    ensures
        match r {
            ServeLine::Refused(e) => ok == Some(false) && e@ == text_or(error, "serve rejected"@),
            ServeLine::Event(e) => ok != Some(false) && event == Some(e),
            ServeLine::Nothing => ok != Some(false) && event is None,
        },
{
    if let Some(false) = ok {
        return ServeLine::Refused(
            match error {
                Some(e) => e,
                None => "serve rejected".to_owned(),
            },
        );
    }
    match event {
        Some(e) => ServeLine::Event(e),
        None => ServeLine::Nothing,
    }
}

/// What an interrupt does while a job runs.
#[derive(Debug, PartialEq, Eq, Structural, Clone, Copy)]
pub enum Interrupt {
    /// Asks the daemon to stop after the step.
    Cancel,
    /// Asks it to cut the step short.
    Force,
    /// Leaves.
    Quit,
}

/// What the `n`-th interrupt does, and what is said.
pub fn interrupted(n: u8) -> (r: (Interrupt, &'static str))
    ensures
        r.0 == (if n <= 1 {
            Interrupt::Cancel
        } else if n == 2 {
            Interrupt::Force
        } else {
            Interrupt::Quit
        }),
        r.1@ == (if n <= 1 {
            "\ncancelling job… (Ctrl+C again to force-stop the current step)"@
        } else if n == 2 {
            "force-stopping the current step… (audio files are still saved)"@
        } else {
            "quit."@
        }),
{
    if n <= 1 {
        (
            Interrupt::Cancel,
            "\ncancelling job… (Ctrl+C again to force-stop the current step)",
        )
    } else if n == 2 {
        (Interrupt::Force, "force-stopping the current step… (audio files are still saved)")
    } else {
        (Interrupt::Quit, "quit.")
    }
}

// ---------------------------------------------------------------------------
// Laws
// ---------------------------------------------------------------------------

/// A daemon is older than the command line exactly where the command line is newer than the
/// daemon, and neither is where both are the same.
pub proof fn law_versions_relate_both_ways(a: Seq<char>, b: Seq<char>)
    ensures
        (version_relation(a, b) is Older) == (version_relation(b, a) is Newer),
        (version_relation(a, b) is Same) == (version_relation(b, a) is Same),
        (version_relation(a, b) is Unknown) == (version_relation(b, a) is Unknown),
{
}

/// What follows a dash does not count: a version with such a suffix is the same as without it.
pub proof fn law_suffixes_do_not_count(version: Seq<char>, suffix: Seq<char>)
    requires
        parsed_version(version) is Some,
        first_at(version, '-') == version.len(),
    ensures
        version_relation(version + seq!['-'] + suffix, version) is Same,
{
    let s = version + seq!['-'] + suffix;
    text::lemma_first_at_finds(version, '-');
    assert forall|j: int| 0 <= j < version.len() implies s[j] != '-' by {
        assert(s[j] == version[j]);
    }
    text::lemma_first_at(s, '-', version.len() as int);
    assert(s.take(version.len() as int) =~= version);
    assert(version.take(version.len() as int) =~= version);
}

/// A version reads as its numbers; those that are left out are zero, and what follows a dash or a
/// plus does not count.
pub proof fn law_a_version_reads_as_its_numbers(a: u64, b: u64, c: u64, suffix: Seq<char>)
    ensures
        ({
            let x = decimal(a as nat);
            let xy = x + seq!['.'] + decimal(b as nat);
            let xyz = xy + seq!['.'] + decimal(c as nat);
            &&& parsed_version(x) == Some((a as nat, 0nat, 0nat))
            &&& parsed_version(xy) == Some((a as nat, b as nat, 0nat))
            &&& parsed_version(xyz) == Some((a as nat, b as nat, c as nat))
            &&& parsed_version(xyz + seq!['-'] + suffix) == Some((a as nat, b as nat, c as nat))
            &&& parsed_version(xyz + seq!['+'] + suffix) == parsed_version(xyz) || (exists|i: int|
                0 <= i < suffix.len() && #[trigger] suffix[i] == '-')
        }),
{
    let x = decimal(a as nat);
    let y = decimal(b as nat);
    let z = decimal(c as nat);
    let xy = x + seq!['.'] + y;
    let xyz = xy + seq!['.'] + z;
    text::law_numbers_read_back(a as nat, 0, u64::MAX as nat, 0, 0);
    text::law_numbers_read_back(b as nat, 0, u64::MAX as nat, 0, 0);
    text::law_numbers_read_back(c as nat, 0, u64::MAX as nat, 0, 0);
    text::lemma_decimal_value(a as nat);
    text::lemma_decimal_value(b as nat);
    text::lemma_decimal_value(c as nat);
    lemma_one_piece(x);
    lemma_one_piece(y);
    lemma_one_piece(z);
    text::lemma_pieces_concat(x, y, '.');
    text::lemma_pieces_concat(xy, z, '.');
    assert(pieces(xy, '.') =~= seq![x, y]);
    assert(pieces(xyz, '.') =~= seq![x, y, z]);
    assert(forall|i: int| 0 <= i < x.len() ==> text::is_digit(x[i]));
    assert(forall|i: int| 0 <= i < y.len() ==> text::is_digit(y[i]));
    assert(forall|i: int| 0 <= i < z.len() ==> text::is_digit(z[i]));
    assert forall|i: int| 0 <= i < xyz.len() implies xyz[i] == '.' || text::is_digit(xyz[i]) by {
        if i < x.len() {
            assert(xyz[i] == x[i]);
        } else if x.len() < i < xy.len() {
            assert(xyz[i] == y[i - x.len() - 1]);
        } else if i > xy.len() {
            assert(xyz[i] == z[i - xy.len() - 1]);
        }
    }
    assert forall|i: int| 0 <= i < xy.len() implies xy[i] == '.' || text::is_digit(xy[i]) by {
        assert(xyz[i] == xy[i]);
    }
    lemma_core(x, Seq::empty());
    lemma_core(xy, Seq::empty());
    lemma_core(xyz, suffix);
}

proof fn lemma_one_piece(d: Seq<char>)
    requires
        forall|i: int| 0 <= i < d.len() ==> text::is_digit(#[trigger] d[i]),
    ensures
        pieces(d, '.') == seq![d],
{
    text::lemma_first_at(d, '.', d.len() as int);
}

proof fn lemma_core(v: Seq<char>, suffix: Seq<char>)
    requires
        forall|i: int| 0 <= i < v.len() ==> v[i] == '.' || text::is_digit(#[trigger] v[i]),
    ensures
        version_core(v) == v,
        version_core(v + seq!['-'] + suffix) == v,
        version_core(v + seq!['+'] + suffix) == v || (exists|i: int|
            0 <= i < suffix.len() && #[trigger] suffix[i] == '-'),
{
    let n = v.len() as int;
    text::lemma_first_at(v, '-', n);
    text::lemma_first_at(v, '+', n);
    assert(v.take(n) =~= v);
    let s = v + seq!['-'] + suffix;
    assert forall|j: int| 0 <= j < n implies s[j] != '-' by {
        assert(s[j] == v[j]);
    }
    text::lemma_first_at(s, '-', n);
    assert(s.take(n) =~= v);
    let p = v + seq!['+'] + suffix;
    if !(exists|i: int| 0 <= i < suffix.len() && #[trigger] suffix[i] == '-') {
        assert forall|j: int| 0 <= j < p.len() implies p[j] != '-' by {
            if j < n {
                assert(p[j] == v[j]);
            } else if j > n {
                assert(p[j] == suffix[j - n - 1]);
            }
        }
        text::lemma_first_at(p, '-', p.len() as int);
        assert(p.take(p.len() as int) =~= p);
        assert forall|j: int| 0 <= j < n implies p[j] != '+' by {
            assert(p[j] == v[j]);
        }
        text::lemma_first_at(p, '+', n);
        assert(p.take(n) =~= v);
    }
}

/// The daemon is older where its first differing number is the smaller one, newer where it is the
/// larger one, and the same where none differs.
pub proof fn law_the_first_differing_number_decides(
    daemon: Seq<char>,
    cli: Seq<char>,
    d: (nat, nat, nat),
    c: (nat, nat, nat),
)
    requires
        parsed_version(daemon) == Some(d),
        parsed_version(cli) == Some(c),
    ensures
        version_relation(daemon, cli) == if d.0 != c.0 {
            if d.0 < c.0 {
                VerRel::Older
            } else {
                VerRel::Newer
            }
        } else if d.1 != c.1 {
            if d.1 < c.1 {
                VerRel::Older
            } else {
                VerRel::Newer
            }
        } else if d.2 != c.2 {
            if d.2 < c.2 {
                VerRel::Older
            } else {
                VerRel::Newer
            }
        } else {
            VerRel::Same
        },
{
}

/// What is shown of the daemon's version: who is behind is told to update, and by what.
pub proof fn law_who_is_behind_is_told_to_update(cli: Seq<char>, v: String)
    ensures
        version_relation(v@, cli) is Older ==> daemon_version(cli, DaemonSays::Version(v)) == seq![
            "dialfd (daemon): "@ + v@ + "  (older than the CLI "@ + cli + ")"@,
            "  ↳ update the service: `dialf service install` (add `--user` if you installed it per-user)"@,
        ],
        version_relation(v@, cli) is Newer ==> daemon_version(cli, DaemonSays::Version(v)) == seq![
            "dialfd (daemon): "@ + v@ + "  (newer than the CLI "@ + cli + ")"@,
            "  ↳ update the CLI: `npm i -g @agora-build/dialf`"@,
        ],
        version_relation(v@, cli) is Same ==> daemon_version(cli, DaemonSays::Version(v)) == seq![
            "dialfd (daemon): "@ + v@ + "  (up to date)"@,
        ],
        version_relation(v@, cli) is Unknown ==> daemon_version(cli, DaemonSays::Version(v)) == seq![
            "dialfd (daemon): "@ + v@,
        ],
{
}

/// What is shown of a daemon that does not tell its version.
pub proof fn law_a_silent_daemon_is_told_of(cli: Seq<char>)
    ensures
        daemon_version(cli, DaemonSays::NotRunning) == seq!["dialfd (daemon): "@ + "not running"@],
        daemon_version(cli, DaemonSays::NotResponding) == seq![
            "dialfd (daemon): "@ + "not responding"@,
        ],
        daemon_version(cli, DaemonSays::NoVersion) == seq![
            "dialfd (daemon): "@
                + "running, older than the CLI — re-run `dialf service install` (add `--user` if you installed it per-user) to update"@,
        ],
{
}

/// A filled up text is the text and then spaces, and as wide as asked for, or wider where the text
/// is.
pub proof fn law_a_filled_up_text_is_wide_enough(s: Seq<char>, width: nat, i: int)
    requires
        0 <= i < padded(s, width).len(),
    ensures
        padded(s, width).len() == if s.len() < width {
            width
        } else {
            s.len()
        },
        padded(s, width)[i] == if i < s.len() {
            s[i]
        } else {
            ' '
        },
{
}

/// A duration is shown in the largest unit that it fills, rounded down: `n` of them and not one
/// more.
pub proof fn law_a_duration_is_shown_in_its_unit(secs: int, n: int)
    ensures
        secs < 60 ==> duration_text(secs) == signed_decimal(secs) + "s"@,
        60 <= secs < 3600 && n * 60 <= secs < (n + 1) * 60 ==> duration_text(secs) == signed_decimal(
            n,
        ) + "m"@,
        3600 <= secs < 86400 && n * 3600 <= secs < (n + 1) * 3600 ==> duration_text(secs)
            == signed_decimal(n) + "h"@,
        secs >= 86400 && n * 86400 <= secs < (n + 1) * 86400 ==> duration_text(secs)
            == signed_decimal(n) + "d"@,
{
}

/// A message is shown with the other side: the recipient of one that was sent, the sender of one
/// that came in, and an arrow that points that way. Its line breaks are shown as spaces.
pub proof fn law_a_message_shows_the_other_side(m: SmsRow, time: Seq<char>, number: Seq<char>)
    ensures
        was_sent(m) <==> m.direction is Some && m.direction->0@ == "out"@,
        was_sent(m) && m.to is Some ==> sms_number(m) == m.to->0@,
        !was_sent(m) && m.from is Some ==> sms_number(m) == m.from->0@,
        was_sent(m) && m.to is None ==> sms_number(m) == "(unknown)"@,
        !was_sent(m) && m.from is None ==> sms_number(m) == "(unknown)"@,
        was_sent(m) && m.body is Some ==> sms_line(m, time, number) == time + "  "@ + "->"@ + " "@
            + padded(number, 17) + " "@ + char_replaced(m.body->0@, '\n', ' '),
        !was_sent(m) && m.body is Some ==> sms_line(m, time, number) == time + "  "@ + "<-"@ + " "@
            + padded(number, 17) + " "@ + char_replaced(m.body->0@, '\n', ' '),
{
    reveal_strlit("in");
    reveal_strlit("out");
    assert("in"@.len() != "out"@.len());
}

/// A call is shown with its time, its kind, its number and how long it took.
pub proof fn law_a_call_shows_what_it_was(c: CallRow, time: Seq<char>, number: Seq<char>)
    ensures
        c.number is Some ==> call_number(c) == c.number->0@,
        c.number is None ==> call_number(c) == "(unknown)"@,
        c.kind is Some && c.duration is Some ==> call_line(c, time, number) == time + "  "@ + padded(
            c.kind->0@,
            9,
        ) + " "@ + padded(number, 17) + " "@ + duration_text(c.duration->0 as int),
        c.kind is Some && c.duration is None ==> call_line(c, time, number) == time + "  "@ + padded(
            c.kind->0@,
            9,
        ) + " "@ + padded(number, 17) + " "@ + duration_text(0),
{
}

/// A phone is shown with its id, its name and its address, for how many whole seconds it was not
/// seen, and its call where it has one.
pub proof fn law_a_phone_shows_how_it_is(d: PhoneRow, now: int, number: Seq<char>)
    requires
        d.id is Some,
        d.name is Some,
        d.addr is Some,
        d.last_seen_ms is Some,
    ensures
        seconds_ago(d, now) >= 0,
        now >= d.last_seen_ms->0 ==> seconds_ago(d, now) * 1000 <= now - d.last_seen_ms->0 < (
        seconds_ago(d, now) + 1) * 1000,
        now <= d.last_seen_ms->0 ==> seconds_ago(d, now) == 0,
        phone_line(d, now, number) == padded(d.id->0@, 20) + " "@ + padded(d.name->0@, 16) + " "@
            + padded(d.addr->0@, 16) + " seen "@ + signed_decimal(seconds_ago(d, now))
            + "s ago   "@ + (match d.call {
            Some(c) => "in call "@ + number + " ("@ + (match c.state {
                Some(s) => s@,
                None => "?"@,
            }) + ")"@,
            None => "idle"@,
        }),
{
}

/// A valid number is shown in its international format, seen from the United States, and any other
/// text as it is.
pub proof fn law_a_valid_number_is_shown_internationally(number: Seq<char>)
    ensures
        valid_number(number, "US"@) ==> shown(number, formatted(number)) == international(
            number,
            "US"@,
        ),
        !valid_number(number, "US"@) ==> shown(number, formatted(number)) == number,
{
}

} // verus!
