//! Advertising the daemon on the local network through the system's mDNS responder.

use vstd::prelude::*;

use crate::audio::tool_detect::Os;
use crate::config::DEFAULT_SERVICE_TYPE;
use crate::reachability::{self, Distro, Finding};
#[allow(unused_imports)]
use crate::reachability::{avahi_cause, avahi_install, FindingModel};
use crate::text;
#[allow(unused_imports)]
use crate::text::{
    contains_text, decimal, joined, parsed_between, trimmed, views, without_trailing, words,
};

verus! {

/// Seconds to wait for the responder to confirm.
pub const CONFIRM_WAIT_SECS: u64 = 3;

/// `s` without the copies of `.local` that it ends with.
pub open spec fn without_local(s: Seq<char>) -> Seq<char>
    decreases s.len(),
{
    if ".local"@.is_suffix_of(s) && ".local"@.len() == 6 {
        without_local(s.take(s.len() - 6))
    } else {
        s
    }
}

/// A service type as the responders' tools take it: without the domain.
pub open spec fn bare_type(s: Seq<char>) -> Seq<char> {
    without_local(without_trailing(s, '.'))
}

/// A service type as the responders' tools take it.
pub fn bare_service_type(s: &str) -> (r: String)
    ensures
        r@ == bare_type(s@),
{
    let t = text::trim_end_of(s, '.');
    let mut n: usize = t.unicode_len();
    proof {
        reveal_strlit(".local");
        assert(t@.take(n as int) =~= t@);
    }
    loop
        invariant
            n <= t@.len(),
            t@ == without_trailing(s@, '.'),
            ".local"@.len() == 6,
            without_local(t@.take(n as int)) == bare_type(s@),
        ensures
            t@.take(n as int) == bare_type(s@),
            n <= t@.len(),
        decreases n,
    {
        let head = t.substring_char(0, n);
        proof {
            assert(head@ =~= t@.take(n as int));
        }
        if !text::ends_with(head, ".local") {
            break ;
        }
        proof {
            assert(t@.take(n as int).take(n - 6) =~= t@.take(n - 6));
        }
        n -= 6;
    }
    proof {
        assert(t@.subrange(0, n as int) =~= t@.take(n as int));
    }
    t.substring_char(0, n).to_owned()
}

/// A tool to run, with its arguments.
#[derive(Debug)]
pub struct Advertising {
    pub program: &'static str,
    pub args: Vec<String>,
}

/// How the daemon is advertised.
pub fn advertise(os: Os, instance: &str, port: u16, version: &str) -> (r: Advertising)
    ensures
        os == Os::MacOs ==> {
            &&& r.program@ == "dns-sd"@
            &&& views(r.args@) == seq![
                "-R"@,
                instance@,
                bare_type(DEFAULT_SERVICE_TYPE@),
                "local."@,
                decimal(port as nat),
                "ver="@ + version@,
            ]
        },
        os != Os::MacOs ==> {
            &&& r.program@ == "avahi-publish"@
            &&& views(r.args@) == seq![
                "-s"@,
                instance@,
                bare_type(DEFAULT_SERVICE_TYPE@),
                decimal(port as nat),
                "ver="@ + version@,
            ]
        },
{
    let mut args: Vec<String> = Vec::new();
    match os {
        Os::MacOs => {
            args.push("-R".to_owned());
            args.push(instance.to_owned());
            args.push(bare_service_type(DEFAULT_SERVICE_TYPE));
            args.push("local.".to_owned());
            args.push(text::decimal_of(port as u64));
            args.push(text::cat("ver=", version));
            proof {
                assert(views(args@) =~= seq![
                    args@[0]@,
                    args@[1]@,
                    args@[2]@,
                    args@[3]@,
                    args@[4]@,
                    args@[5]@,
                ]);
            }
            Advertising { program: "dns-sd", args }
        },
        _ => {
            args.push("-s".to_owned());
            args.push(instance.to_owned());
            args.push(bare_service_type(DEFAULT_SERVICE_TYPE));
            args.push(text::decimal_of(port as u64));
            args.push(text::cat("ver=", version));
            proof {
                assert(views(args@) =~= seq![
                    args@[0]@,
                    args@[1]@,
                    args@[2]@,
                    args@[3]@,
                    args@[4]@,
                ]);
            }
            Advertising { program: "avahi-publish", args }
        },
    }
}

/// What is reported when the bind address is none.
pub fn bad_address(ws_bind: &str, error: &str) -> (r: Finding)
    ensures
        r.problem@ == "ws_bind `"@ + ws_bind@ + "` is not an address: "@ + error@,
        r.fix@ == "set ws_bind to e.g. 0.0.0.0:8765 in the config"@,
{
    let mut problem = text::cat3("ws_bind `", ws_bind, "` is not an address: ");
    problem.append(error);
    Finding { problem, fix: "set ws_bind to e.g. 0.0.0.0:8765 in the config".to_owned() }
}

/// What is reported when the responder's tool did not start. `error` is its text.
pub fn spawn_finding(os: Os, not_found: bool, error: &str, d: Distro) -> (r: Finding)
    ensures
        os == Os::MacOs ==> {
            &&& r.problem@ == "could not run `dns-sd` (Bonjour): "@ + error@
            &&& r.fix@ == "dns-sd ships with macOS at /usr/bin/dns-sd — check that /usr/bin is on the daemon's PATH"@
        },
        os != Os::MacOs ==> {
            &&& r.problem@ == (if not_found {
                "`avahi-publish` is not installed (or not on the daemon's PATH), so dialfd cannot advertise itself and phones cannot discover it"@
            } else {
                "could not run `avahi-publish`: "@ + error@
            })
            &&& r.fix@ == avahi_install(d) + ", then `dialf service restart`"@
        },
{
    match os {
        Os::MacOs => Finding {
            problem: text::cat("could not run `dns-sd` (Bonjour): ", error),
            fix: "dns-sd ships with macOS at /usr/bin/dns-sd — check that /usr/bin is on the daemon's PATH".to_owned(),
        },
        _ => Finding {
            problem: if not_found {
                "`avahi-publish` is not installed (or not on the daemon's PATH), so dialfd cannot advertise itself and phones cannot discover it".to_owned()
            } else {
                text::cat("could not run `avahi-publish`: ", error)
            },
            fix: reachability::avahi_install_fix(d),
        },
    }
}

/// What came of the responder's tool while its confirmation was awaited.
#[derive(Debug)]
pub enum Confirm {
    /// It printed this line.
    Line(String),
    /// The time is over.
    Timeout,
    /// It stopped, having last said this.
    Stopped(String),
}

/// What to do next.
#[derive(Debug)]
pub enum Confirmed {
    /// The daemon is advertised, or will be.
    Yes,
    /// Wait on.
    NotYet,
    Failed(Finding),
}

/// Decides whether the daemon is advertised. A tool that is merely slow is trusted.
pub fn confirm(event: Confirm, d: Distro) -> (r: Confirmed)
    ensures
        match event {
            Confirm::Line(l) => if contains_text(l@, "Established"@) {
                r is Yes
            } else {
                r is NotYet
            },
            Confirm::Timeout => r is Yes,
            Confirm::Stopped(said) => {
                &&& r matches Confirmed::Failed(f)
                &&& f.problem@ == avahi_cause(trimmed(said@), d).problem
                &&& f.fix@ == avahi_cause(trimmed(said@), d).fix
                    + ", then `dialf service restart`"@
            },
        },
{
    match event {
        Confirm::Line(l) => if text::contains(&l, "Established") {
            Confirmed::Yes
        } else {
            Confirmed::NotYet
        },
        Confirm::Timeout => Confirmed::Yes,
        Confirm::Stopped(said) => Confirmed::Failed(reachability::avahi_failure(&said, d)),
    }
}

/// The advertisement's state for the daemon's lifetime.
#[derive(Debug)]
pub enum Advert {
    /// Advertised by this tool.
    Active { via: &'static str },
    /// Bound to loopback only: deliberately not advertised.
    Loopback,
    Failed(Finding),
}

/// What is reported of the advertisement.
#[derive(Debug)]
pub struct AdvertReport {
    pub state: &'static str,
    pub via: Option<&'static str>,
    pub reason: Option<&'static str>,
    pub failure: Option<Finding>,
}

impl Advert {
    /// Takes in that the tool has stopped with `status`, having last said `said`. It does not come
    /// back before the daemon is started anew.
    pub fn note_exit(&mut self, status: &str, said: &str, d: Distro)
        ensures
            match *old(self) {
                Advert::Active { via } => {
                    &&& *final(self) matches Advert::Failed(f)
                    &&& if via@ == "avahi-publish"@ {
                        &&& f.problem@ == avahi_cause(trimmed(said@), d).problem
                        &&& f.fix@ == avahi_cause(trimmed(said@), d).fix
                            + ", then `dialf service restart`"@
                    } else {
                        &&& f.problem@ == via@ + " exited ("@ + status@ + "): "@ + trimmed(said@)
                        &&& f.fix@ == "restart dialfd"@
                    }
                },
                _ => *final(self) == *old(self),
            },
    {
        let via = match self {
            Advert::Active { via } => *via,
            _ => {
                return ;
            },
        };
        let f = if text::same(via, "avahi-publish") {
            reachability::avahi_failure(said, d)
        } else {
            let mut problem = text::cat3(via, " exited (", status);
            problem.append("): ");
            problem.append(text::trim(said));
            Finding { problem, fix: "restart dialfd".to_owned() }
        };
        *self = Advert::Failed(f);
    }

    /// What is reported of the advertisement.
    pub fn report(&self) -> (r: AdvertReport)
        ensures
            match *self {
                Advert::Active { via } => {
                    &&& r.state@ == "advertising"@
                    &&& r.via == Some(via)
                    &&& r.reason is None
                    &&& r.failure is None
                },
                Advert::Loopback => {
                    &&& r.state@ == "off"@
                    &&& r.via is None
                    &&& r.reason is Some
                    &&& r.reason->0@ == "ws_bind is loopback"@
                    &&& r.failure is None
                },
                Advert::Failed(f) => {
                    &&& r.state@ == "failed"@
                    &&& r.via is None
                    &&& r.reason is None
                    &&& r.failure is Some
                    &&& r.failure->0@ == f@
                },
            },
    {
        match self {
            Advert::Active { via } => AdvertReport {
                state: "advertising",
                via: Some(*via),
                reason: None,
                failure: None,
            },
            Advert::Loopback => AdvertReport {
                state: "off",
                via: None,
                reason: Some("ws_bind is loopback"),
                failure: None,
            },
            Advert::Failed(f) => AdvertReport {
                state: "failed",
                via: None,
                reason: None,
                failure: Some(Finding { problem: f.problem.clone(), fix: f.fix.clone() }),
            },
        }
    }
}

/// The address that the daemon listens at, as far as advertising it goes.
#[derive(Debug, Clone, Copy, PartialEq, Eq, Structural)]
pub struct ListenAt {
    /// Whether only this machine can reach it.
    pub loopback: bool,
    pub port: u16,
}

/// How advertising starts.
#[derive(Debug)]
pub enum StartPlan {
    /// It does not, for the address is none; this is the outcome.
    Refuse(Advert),
    /// Orphaned advertisers are stopped, and that is all; this is the outcome.
    Reap(Advert),
    /// Orphaned advertisers are stopped, and this tool is run.
    Run(Advertising),
}

/// How advertising starts, given the bind address as it parsed, or why it did not. Nobody else
/// could connect to a loopback bind, so that is never advertised.
pub fn start(
    os: Os,
    ws_bind: &str,
    addr: Result<ListenAt, String>,
    instance: &str,
    version: &str,
) -> (r: StartPlan)
    ensures
        match addr {
            Err(e) => {
                &&& r matches StartPlan::Refuse(Advert::Failed(f))
                &&& f.problem@ == "ws_bind `"@ + ws_bind@ + "` is not an address: "@ + e@
                &&& f.fix@ == "set ws_bind to e.g. 0.0.0.0:8765 in the config"@
            },
            Ok(at) => if at.loopback {
                r matches StartPlan::Reap(a) && a is Loopback
            } else {
                &&& r matches StartPlan::Run(tool)
                &&& tool.program@ == (if os == Os::MacOs {
                    "dns-sd"@
                } else {
                    "avahi-publish"@
                })
                &&& views(tool.args@) == (if os == Os::MacOs {
                    seq![
                        "-R"@,
                        instance@,
                        bare_type(DEFAULT_SERVICE_TYPE@),
                        "local."@,
                        decimal(at.port as nat),
                        "ver="@ + version@,
                    ]
                } else {
                    seq![
                        "-s"@,
                        instance@,
                        bare_type(DEFAULT_SERVICE_TYPE@),
                        decimal(at.port as nat),
                        "ver="@ + version@,
                    ]
                })
            },
        },
{
    match addr {
        Err(e) => StartPlan::Refuse(Advert::Failed(bad_address(ws_bind, &e))),
        Ok(at) => if at.loopback {
            StartPlan::Reap(Advert::Loopback)
        } else {
            StartPlan::Run(advertise(os, instance, at.port, version))
        },
    }
}

/// The command line of a process, as its listing shows it behind its two numbers.
pub open spec fn listed_command(ws: Seq<Seq<char>>) -> Seq<char> {
    joined(ws.skip(2), " "@)
}

/// The process to be stopped that a line of a listing names: its parent is gone, and it is a
/// responder's tool that advertises our service. The tool of a live daemon is never one.
pub open spec fn orphaned_advertiser(line: Seq<char>) -> Option<int> {
    let ws = words(line);
    if ws.len() >= 2 && ws[1] == "1"@ && contains_text(
        listed_command(ws),
        bare_type(DEFAULT_SERVICE_TYPE@),
    ) && ("dns-sd"@.is_prefix_of(listed_command(ws)) || "avahi-publish"@.is_prefix_of(
        listed_command(ws),
    )) {
        parsed_between(ws[0], i32::MIN as int, i32::MAX as int)
    } else {
        None
    }
}

/// The process to be stopped that a line of a listing of number, parent and command names.
pub fn stale_advertiser(line: &str) -> (r: Option<i32>)
    ensures
        (match r {
            Some(p) => Some(p as int),
            None => None,
        }) == orphaned_advertiser(line@),
{
    let ws = text::split_words(line);
    let ghost all = words(line@);
    proof {
        assert(views(ws@).len() == ws@.len());
    }
    if ws.len() < 2 {
        return None;
    }
    let mut rest = text::copy_list(&ws);
    let rest = rest.split_off(2);
    proof {
        assert(views(rest@) =~= all.skip(2));
        assert(ws@[0]@ == all[0] && ws@[1]@ == all[1]);
    }
    let cmd = text::join(&rest, " ");
    let needle = bare_service_type(DEFAULT_SERVICE_TYPE);
    if text::same(&ws[1], "1") && text::contains(&cmd, &needle) && (text::starts_with(
        &cmd,
        "dns-sd",
    ) || text::starts_with(&cmd, "avahi-publish")) {
        text::parse_i32(&ws[0])
    } else {
        None
    }
}

/// A process whose parent still lives is never stopped.
pub proof fn law_live_advertisers_are_spared(line: Seq<char>)
    requires
        words(line).len() >= 2,
        words(line)[1] != "1"@,
    ensures
        orphaned_advertiser(line) is None,
{
}

/// A process is stopped exactly where its line names it, its parent is gone, its command begins
/// with one of the responders' tools, and it advertises our service.
pub proof fn law_only_our_orphans_are_stopped(line: Seq<char>, pid: int)
    ensures
        orphaned_advertiser(line) == Some(pid) <==> {
            let ws = words(line);
            let command = joined(ws.skip(2), " "@);
            &&& ws.len() >= 2
            &&& ws[1] == "1"@
            &&& contains_text(command, bare_type(DEFAULT_SERVICE_TYPE@))
            &&& "dns-sd"@.is_prefix_of(command) || "avahi-publish"@.is_prefix_of(command)
            &&& parsed_between(ws[0], i32::MIN as int, i32::MAX as int) == Some(pid)
        },
{
}

/// A service type loses the domain behind it, with or without the dot of the root, and nothing else.
pub proof fn law_a_service_type_loses_its_domain(t: Seq<char>)
    requires
        t.len() > 0,
        t.last() != '.',
        !".local"@.is_suffix_of(t),
    ensures
        bare_type(t) == t,
        bare_type(t + ".local"@) == t,
        bare_type(t + ".local"@ + "."@) == t,
{
    reveal_strlit(".local");
    reveal_strlit(".");
    let a = t + ".local"@;
    let b = a + "."@;
    assert(a.last() == 'l');
    assert(b.last() == '.');
    assert(b.drop_last() =~= a);
    assert(without_trailing(a, '.') == a);
    assert(without_trailing(b, '.') == a);
    assert(without_trailing(t, '.') == t);
    assert(a.take(a.len() - 6) =~= t);
    assert(a.skip(a.len() - 6) =~= ".local"@);
    assert(".local"@.is_suffix_of(a));
}

} // verus!
