//! Wireless debugging: each phone's endpoint, and keeping it connected in this host's adb server.
//!
//! adb does not reconnect a wireless device on its own, so every heartbeat looks at the host's
//! device list anew. The phone counts as present under either serial that adb may use. Only the
//! connecting itself is held back after failures, so that a fix is seen within one heartbeat.
//!
//! All times are milliseconds on one clock.

use vstd::prelude::*;

use crate::config::join_name;
#[allow(unused_imports)]
use crate::config::{inside, opt_text};
use crate::paths;
#[allow(unused_imports)]
use crate::paths::{components, is_rooted, path_of};
use crate::share::adb::Device;
#[allow(unused_imports)]
use crate::share::adb::DeviceModel;
use crate::search::Search;
use crate::text;
#[allow(unused_imports)]
use crate::text::{
    after_prefix, contains_text, decimal, joined, opt_view, small, trimmed, views,
};

verus! {

/// The host's adb server.
pub const HOST_ADB_SERVER: &'static str = "127.0.0.1:5037";

/// Seconds that an adb command gets.
pub const CONNECT_TIMEOUT_SECS: u64 = 10;

/// Seconds that a look at the device list gets.
pub const LIST_TIMEOUT_SECS: u64 = 2;

/// The first delay after a failure.
pub const FIRST_RETRY_MS: u64 = 30_000;

/// The longest delay after a failure.
pub const MAX_RETRY_MS: u64 = 300_000;

/// What is said to a host whose key was never paired with the phone.
pub const PAIRING_HINT: &'static str = "this host is not paired with the phone — pair once with `adb pair <ip>:<pairing port>`, using the code from Wireless debugging → Pair device with pairing code";

const LOCAL_NETWORK_HINT: &'static str = "macOS Local Network permission is missing for the adb server. Allow it in System Settings → Privacy & Security → Local Network, and start the adb server (or dialfd) from a plain Terminal window or as a service — under tmux macOS never grants it";

#[derive(Debug, Clone, Copy, PartialEq, Eq, Structural)]
pub enum AdbState {
    /// Wireless debugging is off, or its port is not known yet.
    Off,
    /// The endpoint is known, and not connected.
    Available,
    Connecting,
    Connected,
    /// This host's key was never paired with the phone.
    NeedsPairing,
    /// The adb server may not use the local network.
    BlockedLocalNetwork,
    AdbNotFound,
    Error,
}

impl AdbState {
    /// The state's word.
    pub open spec fn word(self) -> Seq<char> {
        match self {
            AdbState::Off => "off"@,
            AdbState::Available => "available"@,
            AdbState::Connecting => "connecting"@,
            AdbState::Connected => "connected"@,
            AdbState::NeedsPairing => "needs_pairing"@,
            AdbState::BlockedLocalNetwork => "blocked_local_network"@,
            AdbState::AdbNotFound => "adb_not_found"@,
            AdbState::Error => "error"@,
        }
    }

    /// The state's word.
    pub fn name(self) -> (r: &'static str)
        ensures
            r@ == self.word(),
    {
        match self {
            AdbState::Off => "off",
            AdbState::Available => "available",
            AdbState::Connecting => "connecting",
            AdbState::Connected => "connected",
            AdbState::NeedsPairing => "needs_pairing",
            AdbState::BlockedLocalNetwork => "blocked_local_network",
            AdbState::AdbNotFound => "adb_not_found",
            AdbState::Error => "error",
        }
    }
}

/// What is shown of a phone's wireless debugging.
#[derive(Debug, Clone, PartialEq)]
pub struct AdbStatus {
    pub endpoint: Option<String>,
    /// The serial under which adb lists the phone, when connected.
    pub serial: Option<String>,
    pub state: AdbState,
    pub detail: Option<String>,
}

/// An [`AdbStatus`] with its texts as characters.
pub struct StatusModel {
    pub endpoint: Option<Seq<char>>,
    pub serial: Option<Seq<char>>,
    pub state: AdbState,
    pub detail: Option<Seq<char>>,
}

impl View for AdbStatus {
    type V = StatusModel;

    open spec fn view(&self) -> StatusModel {
        StatusModel {
            endpoint: opt_view(self.endpoint),
            serial: opt_view(self.serial),
            state: self.state,
            detail: opt_view(self.detail),
        }
    }
}

/// The status of a phone that is not connected.
pub open spec fn unconnected(
    endpoint: Option<Seq<char>>,
    state: AdbState,
    detail: Option<Seq<char>>,
) -> StatusModel {
    StatusModel { endpoint, serial: None, state, detail }
}

impl AdbStatus {
    /// The status of a phone that is not connected.
    pub fn new(endpoint: Option<&str>, state: AdbState, detail: Option<String>) -> (r: Self)
        ensures
            r@ == unconnected(opt_text(endpoint), state, opt_view(detail)),
    {
        AdbStatus {
            endpoint: match endpoint {
                Some(e) => Some(e.to_owned()),
                None => None,
            },
            serial: None,
            state,
            detail,
        }
    }

    /// The status of a phone that is connected under `serial`.
    pub fn connected(endpoint: &str, serial: String) -> (r: Self)
        ensures
            r@ == (StatusModel {
                endpoint: Some(endpoint@),
                serial: Some(serial@),
                state: AdbState::Connected,
                detail: None,
            }),
    {
        AdbStatus {
            endpoint: Some(endpoint.to_owned()),
            serial: Some(serial),
            state: AdbState::Connected,
            detail: None,
        }
    }
}

/// Every serial under which adb may list a phone.
pub open spec fn serials_of(endpoint: Seq<char>, service: Option<Seq<char>>) -> Seq<Seq<char>> {
    match service {
        Some(name) => if name.len() > 0 {
            seq![endpoint, name + "._adb-tls-connect._tcp"@]
        } else {
            seq![endpoint]
        },
        None => seq![endpoint],
    }
}

/// Every serial under which adb may list a phone: its endpoint, and the name of the service under
/// which adb connects a paired phone by itself.
pub fn serials(endpoint: &str, service: Option<&str>) -> (r: Vec<String>)
    ensures
        views(r@) == serials_of(endpoint@, opt_text(service)),
{
    let mut v: Vec<String> = Vec::new();
    v.push(endpoint.to_owned());
    if let Some(name) = service {
        if !name.is_empty() {
            v.push(text::cat(name, "._adb-tls-connect._tcp"));
        }
    }
    proof {
        assert(views(v@) =~= serials_of(endpoint@, opt_text(service)));
    }
    v
}

/// An address and port as adb names them.
pub open spec fn endpoint_of(ip: Seq<char>, port: u16) -> Seq<char> {
    if contains_text(ip, ":"@) {
        "["@ + ip + "]:"@ + decimal(port as nat)
    } else {
        ip + ":"@ + decimal(port as nat)
    }
}

/// An address and port as adb names them, an address with colons in brackets.
pub fn endpoint(ip: &str, port: u16) -> (r: String)
    ensures
        r@ == endpoint_of(ip@, port),
{
    let p = text::decimal_of(port as u64);
    if text::contains(ip, ":") {
        let mut s = text::cat3("[", ip, "]:");
        s.append(&p);
        s
    } else {
        text::cat3(ip, ":", &p)
    }
}

/// Whether adb's failure names no reason. A failure of the network always has one; without one,
/// the phone rejected this host, which is not paired with it.
pub open spec fn is_bare_failure(lower: Seq<char>) -> bool {
    match after_prefix(lower, "failed to connect to "@) {
        Some(rest) => !contains_text(rest, " "@) && !contains_text(rest, "'"@),
        None => false,
    }
}

fn bare_failure(lower: &str) -> (r: bool)
    ensures
        r == is_bare_failure(lower@),
{
    match text::strip_prefix(lower, "failed to connect to ") {
        Some(rest) => !text::contains(rest, " ") && !text::contains(rest, "'"),
        None => false,
    }
}

/// What the output of `adb connect` means.
pub open spec fn connect_verdict(output: Seq<char>, macos: bool) -> (AdbState, Option<Seq<char>>) {
    let out = trimmed(output);
    let lower = small(out);
    if contains_text(lower, "connected to"@) {
        (AdbState::Connected, None)
    } else if contains_text(lower, "failed to authenticate"@) || contains_text(
        lower,
        "unauthorized"@,
    ) || is_bare_failure(lower) {
        (AdbState::NeedsPairing, Some(PAIRING_HINT@))
    } else if macos && contains_text(lower, "no route to host"@) {
        (
            AdbState::BlockedLocalNetwork,
            Some("macOS Local Network permission is missing for the adb server. Allow it in System Settings → Privacy & Security → Local Network, and start the adb server (or dialfd) from a plain Terminal window or as a service — under tmux macOS never grants it"@),
        )
    } else if out.len() == 0 {
        (AdbState::Error, Some("adb connect printed nothing"@))
    } else {
        (AdbState::Error, Some(out))
    }
}

/// Reads the output of `adb connect`. While the phone holds a live connection to the daemon there
/// is a route to it, so on macOS the lack of one means the privacy block.
pub fn classify_connect(output: &str, macos: bool) -> (r: (AdbState, Option<String>))
    ensures
        (r.0, opt_view(r.1)) == connect_verdict(output@, macos),
{
    let out = text::trim(output);
    let lower = text::to_small(out);
    if text::contains(&lower, "connected to") {
        return (AdbState::Connected, None);
    }
    if text::contains(&lower, "failed to authenticate") || text::contains(&lower, "unauthorized")
        || bare_failure(&lower) {
        return (AdbState::NeedsPairing, Some(PAIRING_HINT.to_owned()));
    }
    if macos && text::contains(&lower, "no route to host") {
        return (AdbState::BlockedLocalNetwork, Some(LOCAL_NETWORK_HINT.to_owned()));
    }
    let detail = if out.is_empty() {
        "adb connect printed nothing".to_owned()
    } else {
        out.to_owned()
    };
    (AdbState::Error, Some(detail))
}

/// The default place of adb below a home directory.
pub open spec fn default_adb(home: Seq<char>, macos: bool) -> Seq<char> {
    inside(
        inside(
            home,
            if macos {
                "Library/Android/sdk"@
            } else {
                "Android/Sdk"@
            },
        ),
        "platform-tools/adb"@,
    )
}

/// Where adb is: as configured, else on the path, else in its default place. A configured place
/// where it is not is reported, and not quietly replaced. `is_there` tells whether a file is there.
pub fn resolve_adb<F: Fn(&str) -> bool>(
    configured: Option<&str>,
    on_path: Option<String>,
    home: Option<&str>,
    macos: bool,
    is_there: F,
) -> (r: Option<String>)
    requires
        forall|p: &str| call_requires(is_there, (p,)),
    ensures
        match (configured, on_path, home) {
            (Some(c), _, _) => match r {
                Some(p) => p@ == c@ && call_ensures(is_there, (c,), true),
                None => call_ensures(is_there, (c,), false),
            },
            (None, Some(p), _) => r == Some(p),
            (None, None, Some(h)) => match r {
                Some(p) => p@ == default_adb(h@, macos) && exists|d: &str|
                    d@ == p@ && #[trigger] call_ensures(is_there, (d,), true),
                None => exists|d: &str|
                    d@ == default_adb(h@, macos) && #[trigger] call_ensures(is_there, (d,), false),
            },
            (None, None, None) => r is None,
        },
{
    if let Some(p) = configured {
        return if is_there(p) {
            Some(p.to_owned())
        } else {
            None
        };
    }
    if on_path.is_some() {
        return on_path;
    }
    match home {
        Some(h) => {
            let sdk = if macos {
                "Library/Android/sdk"
            } else {
                "Android/Sdk"
            };
            let default = join_name(&join_name(h, sdk), "platform-tools/adb");
            let place: &str = default.as_str();
            if is_there(place) {
                Some(place.to_owned())
            } else {
                None
            }
        },
        None => None,
    }
}

/// Finds adb on this machine: as [`resolve_adb`] has it, with what a search for `adb` finds on the
/// path.
pub fn find_adb<F: Fn(&str) -> bool>(
    configured: Option<&str>,
    home: Option<&str>,
    macos: bool,
    is_there: F,
    search: &mut Search,
) -> (r: Option<String>)
    requires
        forall|p: &str| call_requires(is_there, (p,)),
    ensures
        final(search).log().len() == old(search).log().len() + 1,
        old(search).log().is_prefix_of(final(search).log()),
        final(search).log().last().0 == "adb"@,
        match (configured, final(search).log().last().1, home) {
            (Some(c), _, _) => match r {
                Some(p) => p@ == c@ && call_ensures(is_there, (c,), true),
                None => call_ensures(is_there, (c,), false),
            },
            (None, Some(found), _) => opt_view(r) == Some(found),
            (None, None, Some(h)) => match r {
                Some(p) => p@ == default_adb(h@, macos) && exists|d: &str|
                    d@ == p@ && #[trigger] call_ensures(is_there, (d,), true),
                None => exists|d: &str|
                    d@ == default_adb(h@, macos) && #[trigger] call_ensures(is_there, (d,), false),
            },
            (None, None, None) => r is None,
        },
{
    let on_path = search.find("adb");
    resolve_adb(configured, on_path, home, macos, is_there)
}

/// A path behind a leading `~/`, under the home directory. Anything else stays: a bare `~`, and
/// `~name`, since another person's home is not known.
pub open spec fn home_expanded(path: Seq<char>, home: Option<Seq<char>>) -> Seq<char> {
    if "~/"@.is_prefix_of(path) && home is Some {
        path_of(is_rooted(home->0), components(home->0) + components(path).skip(1))
    } else {
        path
    }
}

/// Expands a leading `~/`.
pub fn expand_home(path: &str, home: Option<&str>) -> (r: String)
    ensures
        r@ == home_expanded(path@, opt_text(home)),
{
    let mut parts = paths::split_path(path);
    let ghost all = components(path@);
    proof {
        assert(views(parts@).len() == parts@.len());
    }
    match home {
        Some(h) => if text::starts_with(path, "~/") {
            proof {
                reveal_strlit("~/");
                let name = seq!['~'];
                let lead = path@.subrange(0, 2);
                assert(lead == "~/"@);
                assert(path@[0] == lead[0] && path@[1] == lead[1]);
                assert(path@ =~= name + seq!['/'] + path@.skip(2));
                paths::lemma_behind_a_name(name, path@.skip(2));
            }
            let mut whole = paths::split_path(h);
            let mut rest = parts.split_off(1);
            proof {
                assert(views(rest@) =~= all.skip(1));
                assert(views(whole@ + rest@) =~= views(whole@) + views(rest@));
            }
            whole.append(&mut rest);
            paths::join_path(paths::rooted(h), &whole)
        } else {
            path.to_owned()
        },
        None => path.to_owned(),
    }
}

/// The delay before the next attempt to connect after a failure: it doubles up to a limit.
#[derive(Debug, Clone)]
pub struct Backoff {
    pub delay: u64,
    pub not_before: Option<u64>,
}

impl Default for Backoff {
    fn default() -> (r: Self)
        ensures
            r == (Backoff { delay: FIRST_RETRY_MS, not_before: None }),
    {
        Backoff { delay: FIRST_RETRY_MS, not_before: None }
    }
}

impl Backoff {
    /// Whether the delay lies within its limits.
    pub open spec fn wf(self) -> bool {
        FIRST_RETRY_MS <= self.delay <= MAX_RETRY_MS
    }

    /// Whether an attempt is allowed at a time.
    pub open spec fn allows(self, now: u64) -> bool {
        match self.not_before {
            None => true,
            Some(t) => now >= t,
        }
    }

    /// Whether an attempt is allowed.
    pub fn ready(&self, now: u64) -> (r: bool)
        ensures
            r == self.allows(now),
    {
        match self.not_before {
            None => true,
            Some(t) => now >= t,
        }
    }

    /// The state after a failure.
    pub open spec fn after_failure(self, now: u64) -> Backoff {
        Backoff {
            delay: (if self.delay * 2 > MAX_RETRY_MS {
                MAX_RETRY_MS
            } else {
                (self.delay * 2) as u64
            }),
            not_before: Some((now + self.delay) as u64),
        }
    }

    /// Notes a failure.
    pub fn failed(&mut self, now: u64)
        requires
            old(self).wf(),
            now + MAX_RETRY_MS <= u64::MAX,
        ensures
            *final(self) == old(self).after_failure(now),
            final(self).wf(),
    {
        self.not_before = Some(now + self.delay);
        self.delay = if self.delay * 2 > MAX_RETRY_MS {
            MAX_RETRY_MS
        } else {
            self.delay * 2
        };
    }

    /// Forgets all failures.
    pub fn reset(&mut self)
        ensures
            *final(self) == (Backoff { delay: FIRST_RETRY_MS, not_before: None }),
    {
        *self = Backoff::default();
    }
}

/// What is known of one device's link.
#[derive(Debug)]
pub struct Link {
    pub endpoint: Option<String>,
    pub backoff: Backoff,
    /// Whether a check is under way.
    pub busy: bool,
}

impl Default for Link {
    fn default() -> (r: Self)
        ensures
            r.endpoint is None,
            r.backoff == (Backoff { delay: FIRST_RETRY_MS, not_before: None }),
            !r.busy,
    {
        Link { endpoint: None, backoff: Backoff::default(), busy: false }
    }
}

/// What a heartbeat reports of wireless debugging.
#[derive(Debug)]
pub struct AdbReport {
    pub wifi_enabled: bool,
    /// The port, once the phone has found it.
    pub port: Option<u16>,
    /// The name of the phone's service.
    pub service: Option<String>,
}

/// What to do on a report.
#[derive(Debug)]
pub enum ReportPlan {
    /// Nothing: the phone's address is not known, or a check is under way.
    Ignore,
    /// Show this, and that is all.
    Show(AdbStatus),
    /// Show this if there is something to show, and check the endpoint.
    Check {
        show: Option<AdbStatus>,
        endpoint: String,
        serials: Vec<String>,
        /// The endpoint that this one replaces, to be disconnected.
        previous: Option<String>,
        may_connect: bool,
    },
}

/// Whether `r` is what a report leads to, and `next` the link after it.
pub open spec fn takes_in(
    link: Link,
    addr: Option<Seq<char>>,
    report: AdbReport,
    shown: Option<Seq<char>>,
    now: u64,
    next: Link,
    r: ReportPlan,
) -> bool {
    match (addr, report.wifi_enabled, report.port) {
        (None, _, _) => r is Ignore && next == link,
        (Some(_), false, _) => {
            &&& r matches ReportPlan::Show(s)
            &&& s@ == unconnected(None, AdbState::Off, None)
            &&& next == link
        },
        (Some(_), true, None) => {
            &&& r matches ReportPlan::Show(s)
            &&& s@ == unconnected(
                None,
                AdbState::Off,
                Some("wireless debugging is on; the phone has not found its port yet"@),
            )
            &&& next == link
        },
        (Some(ip), true, Some(port)) => if link.busy {
            r is Ignore && next == link
        } else {
            let ep = endpoint_of(ip, port);
            let changed = opt_view(link.endpoint) != Some(ep);
            &&& r matches ReportPlan::Check { show, endpoint, serials, previous, may_connect }
            &&& endpoint@ == ep
            &&& views(serials@) == serials_of(ep, opt_view(report.service))
            &&& previous == (if changed {
                link.endpoint
            } else {
                None
            })
            &&& may_connect == (changed || link.backoff.allows(now))
            &&& match show {
                Some(s) => shown != Some(ep) && s@ == unconnected(
                    Some(ep),
                    AdbState::Available,
                    None,
                ),
                None => shown == Some(ep),
            }
            &&& next.busy
            &&& opt_view(next.endpoint) == Some(ep)
            &&& next.backoff == (if changed {
                Backoff { delay: FIRST_RETRY_MS, not_before: None }
            } else {
                link.backoff
            })
        },
    }
}

/// Takes a heartbeat's report in. `addr` is the phone's address and `shown` the endpoint that is
/// shown of it. A new endpoint is a fresh start: what failed before was about the old one.
pub fn on_report(
    link: &mut Link,
    addr: Option<&str>,
    report: &AdbReport,
    shown: Option<&str>,
    now: u64,
) -> (r: ReportPlan)
    ensures
        takes_in(*old(link), opt_text(addr), *report, opt_text(shown), now, *final(link), r),
{
    let ip = match addr {
        Some(ip) => ip,
        None => {
            return ReportPlan::Ignore;
        },
    };
    if !report.wifi_enabled {
        return ReportPlan::Show(AdbStatus::new(None, AdbState::Off, None));
    }
    let port: u16 = match report.port {
        Some(p) => p,
        None => {
            return ReportPlan::Show(
                AdbStatus::new(
                    None,
                    AdbState::Off,
                    Some(
                        "wireless debugging is on; the phone has not found its port yet".to_owned(),
                    ),
                ),
            );
        },
    };
    if link.busy {
        return ReportPlan::Ignore;
    }
    let ep = endpoint(ip, port);
    let changed = match &link.endpoint {
        Some(e) => !text::same(e, &ep),
        None => true,
    };
    let may_connect = changed || link.backoff.ready(now);
    let previous = if changed {
        link.backoff = Backoff::default();
        let was = text::copy_opt(&link.endpoint);
        link.endpoint = Some(ep.clone());
        was
    } else {
        None
    };
    link.busy = true;
    let known = match shown {
        Some(s) => text::same(s, &ep),
        None => false,
    };
    let show = if known {
        None
    } else {
        Some(AdbStatus::new(Some(ep.as_str()), AdbState::Available, None))
    };
    let service = match &report.service {
        Some(s) => Some(s.as_str()),
        None => None,
    };
    let list = serials(&ep, service);
    ReportPlan::Check { show, endpoint: ep, serials: list, previous, may_connect }
}

/// A link once a check has ended: a phone that is there has failed nothing, and any other outcome
/// is a failure.
pub open spec fn after_check(link: Link, outcome: Option<AdbState>, now: u64) -> Link {
    Link {
        endpoint: link.endpoint,
        busy: false,
        backoff: match outcome {
            None => link.backoff,
            Some(s) => if s == AdbState::Connected || s == AdbState::Available {
                Backoff { delay: FIRST_RETRY_MS, not_before: None }
            } else {
                link.backoff.after_failure(now)
            },
        },
    }
}

/// Takes the end of a check in. Without an outcome nothing was learned.
pub fn finish_check(link: &mut Link, outcome: Option<AdbState>, now: u64)
    requires
        old(link).backoff.wf(),
        now + MAX_RETRY_MS <= u64::MAX,
    ensures
        final(link).backoff.wf(),
        *final(link) == after_check(*old(link), outcome, now),
{
    link.busy = false;
    match outcome {
        None => {},
        Some(AdbState::Connected) => {
            link.backoff = Backoff::default();
        },
        Some(AdbState::Available) => {
            link.backoff = Backoff::default();
        },
        Some(_) => {
            let mut b = Backoff { delay: link.backoff.delay, not_before: link.backoff.not_before };
            b.failed(now);
            link.backoff = b;
        },
    }
}

/// A device of the host's list, by serial and state.
#[derive(Debug)]
pub struct Listed {
    pub serial: String,
    pub state: String,
}

/// The first device of a list under one of some serials, possibly among the ready ones only: its
/// serial and its state.
pub open spec fn first_listed(
    ds: Seq<DeviceModel>,
    serials: Seq<Seq<char>>,
    ready_only: bool,
) -> Option<(Seq<char>, Seq<char>)>
    decreases ds.len(),
{
    if ds.len() == 0 {
        None
    } else if serials.contains(ds[0].serial) && (!ready_only || ds[0].state == "device"@) {
        Some((ds[0].serial, ds[0].state))
    } else {
        first_listed(ds.skip(1), serials, ready_only)
    }
}

/// How the host lists a phone, a ready entry preferred.
pub open spec fn listed_as(ds: Seq<DeviceModel>, serials: Seq<Seq<char>>) -> Option<
    (Seq<char>, Seq<char>),
> {
    match first_listed(ds, serials, true) {
        Some(x) => Some(x),
        None => first_listed(ds, serials, false),
    }
}

/// A [`Listed`] as a pair of characters.
pub open spec fn listed_pair(o: Option<Listed>) -> Option<(Seq<char>, Seq<char>)> {
    match o {
        Some(l) => Some((l.serial@, l.state@)),
        None => None,
    }
}

/// The devices of a list, each as a model.
pub open spec fn device_models(v: Seq<Device>) -> Seq<DeviceModel> {
    v.map_values(|d: Device| d@)
}

fn find_listed(devices: &Vec<Device>, serials: &Vec<String>, ready_only: bool) -> (r: Option<
    Listed,
>)
    ensures
        listed_pair(r) == first_listed(device_models(devices@), views(serials@), ready_only),
{
    let ghost all = device_models(devices@);
    let mut i: usize = 0;
    proof {
        assert(all.skip(0) =~= all);
    }
    while i < devices.len()
        invariant
            i <= devices.len(),
            all == device_models(devices@),
            first_listed(all.skip(i as int), views(serials@), ready_only) == first_listed(
                all,
                views(serials@),
                ready_only,
            ),
        decreases devices.len() - i,
    {
        proof {
            assert(all.skip(i as int)[0] == devices@[i as int]@);
            assert(all.skip(i as int).skip(1) =~= all.skip(i + 1));
        }
        if text::holds(serials, &devices[i].serial) && (!ready_only || text::same(
            &devices[i].state,
            "device",
        )) {
            return Some(
                Listed { serial: devices[i].serial.clone(), state: devices[i].state.clone() },
            );
        }
        i += 1;
    }
    proof {
        assert(all.skip(i as int) =~= Seq::<DeviceModel>::empty());
    }
    None
}

/// How the host lists a phone: the first entry under one of its serials, a ready one preferred.
pub fn host_state(devices: &Vec<Device>, serials: &Vec<String>) -> (r: Option<Listed>)
    ensures
        listed_pair(r) == listed_as(device_models(devices@), views(serials@)),
{
    match find_listed(devices, serials, true) {
        Some(x) => Some(x),
        None => find_listed(devices, serials, false),
    }
}

/// What to do after the look at the host's list.
#[derive(Debug)]
pub enum Drive {
    /// Show this.
    Show(AdbStatus),
    /// Wait out the delay; what is shown stands.
    Wait,
    Connect,
}

/// Whether `r` is what is done once the host's list was looked at.
pub open spec fn drives(
    listed: Option<(Seq<char>, Seq<char>)>,
    ep: Seq<char>,
    may_connect: bool,
    r: Drive,
) -> bool {
    match listed {
        Some((serial, state)) => if state == "device"@ {
            &&& r matches Drive::Show(s)
            &&& s@ == (StatusModel {
                endpoint: Some(ep),
                serial: Some(serial),
                state: AdbState::Connected,
                detail: None,
            })
        } else if state == "unauthorized"@ {
            &&& r matches Drive::Show(s)
            &&& s@ == unconnected(Some(ep), AdbState::NeedsPairing, Some(PAIRING_HINT@))
        } else if may_connect {
            r is Connect
        } else {
            r is Wait
        },
        None => if may_connect {
            r is Connect
        } else {
            r is Wait
        },
    }
}

/// Decides what to do after the look at the host's list. A phone that is listed under any serial
/// is not connected again, for it would be listed twice.
pub fn drive(listed: Option<Listed>, ep: &str, may_connect: bool) -> (r: Drive)
    ensures
        drives(listed_pair(listed), ep@, may_connect, r),
{
    if let Some(l) = listed {
        if text::same(&l.state, "device") {
            return Drive::Show(AdbStatus::connected(ep, l.serial));
        }
        if text::same(&l.state, "unauthorized") {
            return Drive::Show(
                AdbStatus::new(Some(ep), AdbState::NeedsPairing, Some(PAIRING_HINT.to_owned())),
            );
        }
    }
    if may_connect {
        Drive::Connect
    } else {
        Drive::Wait
    }
}

/// Whether connecting may start: what to show where it may not.
pub fn before_connect(autoconnect: bool, adb_found: bool, ep: &str) -> (r: Option<AdbStatus>)
    ensures
        match r {
            Some(s) => if !autoconnect {
                s@ == unconnected(
                    Some(ep@),
                    AdbState::Available,
                    Some("auto-connect is off (adb_share.autoconnect in config.yaml)"@),
                )
            } else {
                !adb_found && s@ == unconnected(
                    Some(ep@),
                    AdbState::AdbNotFound,
                    Some("adb not found on the service PATH or in the default SDK location — set adb_share.adb in config.yaml"@),
                )
            },
            None => autoconnect && adb_found,
        },
{
    if !autoconnect {
        return Some(
            AdbStatus::new(
                Some(ep),
                AdbState::Available,
                Some("auto-connect is off (adb_share.autoconnect in config.yaml)".to_owned()),
            ),
        );
    }
    if !adb_found {
        return Some(
            AdbStatus::new(
                Some(ep),
                AdbState::AdbNotFound,
                Some(
                    "adb not found on the service PATH or in the default SDK location — set adb_share.adb in config.yaml".to_owned(),
                ),
            ),
        );
    }
    None
}

/// What to show after `adb connect`; none where the host's list is to be asked first.
pub fn after_connect(output: &str, macos: bool, ep: &str) -> (r: Option<AdbStatus>)
    ensures
        match r {
            Some(s) => connect_verdict(output@, macos).0 != AdbState::Connected && s@ == unconnected(
                Some(ep@),
                connect_verdict(output@, macos).0,
                connect_verdict(output@, macos).1,
            ),
            None => connect_verdict(output@, macos).0 == AdbState::Connected,
        },
{
    let (state, detail) = classify_connect(output, macos);
    if state == AdbState::Connected {
        None
    } else {
        Some(AdbStatus::new(Some(ep), state, detail))
    }
}

/// What to show once adb has reported a connection and the host's list has been asked for it.
pub fn confirm_connect(listed: Option<Listed>, output: &str, ep: &str) -> (r: AdbStatus)
    ensures
        if listed is Some && listed->0.state@ == "device"@ {
            r@ == (StatusModel {
                endpoint: Some(ep@),
                serial: Some(listed->0.serial@),
                state: AdbState::Connected,
                detail: None,
            })
        } else {
            r@ == unconnected(
                Some(ep@),
                AdbState::Error,
                Some(
                    "adb reported `"@ + trimmed(output@)
                        + "` but the phone is not in its device list"@,
                ),
            )
        },
{
    if let Some(l) = listed {
        if text::same(&l.state, "device") {
            return AdbStatus::connected(ep, l.serial);
        }
    }
    let detail = text::cat3(
        "adb reported `",
        text::trim(output),
        "` but the phone is not in its device list",
    );
    AdbStatus::new(Some(ep), AdbState::Error, Some(detail))
}

/// What is said of an adb command that took too long.
pub fn adb_timed_out(args: &Vec<String>) -> (r: String)
    ensures
        r@ == "`adb "@ + joined(views(args@), " "@) + "` timed out after "@ + decimal(
            CONNECT_TIMEOUT_SECS as nat,
        ) + "s"@,
{
    let mut s = text::cat3("`adb ", &text::join(args, " "), "` timed out after ");
    s.append(&text::decimal_of(CONNECT_TIMEOUT_SECS));
    s.append("s");
    s
}

/// After a failure no attempt is allowed for the whole delay, and one is allowed right after it.
pub proof fn law_the_backoff_holds_back(b: Backoff, now: u64, later: u64)
    requires
        b.wf(),
        now + MAX_RETRY_MS <= u64::MAX,
    ensures
        b.after_failure(now).wf(),
        b.after_failure(now).allows(later) <==> later >= now + b.delay,
        b.after_failure(now).delay >= b.delay,
{
}

/// A link that failed is not connected before its delay is over, and is from then on: a report of
/// the same endpoint at `later` may connect exactly where the delay since the failure has passed.
pub proof fn law_a_failed_link_waits_out_its_delay(
    link: Link,
    endpoint: Seq<char>,
    now: u64,
    later: u64,
)
    requires
        link.backoff.wf(),
        opt_view(link.endpoint) == Some(endpoint),
        now + MAX_RETRY_MS <= u64::MAX,
    ensures
        ({
            let changed = opt_view(link.endpoint) != Some(endpoint);
            let may_connect = changed || link.backoff.after_failure(now).allows(later);
            may_connect <==> later >= now + link.backoff.delay
        }),
{
}

/// The state after failures in a row at some times.
pub open spec fn after_failures(b: Backoff, times: Seq<u64>) -> Backoff
    decreases times.len(),
{
    if times.len() == 0 {
        b
    } else {
        after_failures(b, times.drop_last()).after_failure(times.last())
    }
}

/// The first delay, doubled `n` times.
pub open spec fn doubled(n: nat) -> nat
    decreases n,
{
    if n == 0 {
        FIRST_RETRY_MS as nat
    } else {
        2 * doubled((n - 1) as nat)
    }
}

/// The delay before the attempt after `n` failures and one more: the first delay doubled `n` times,
/// but never longer than the longest one.
pub open spec fn delay_after(n: nat) -> nat {
    if doubled(n) > MAX_RETRY_MS {
        MAX_RETRY_MS as nat
    } else {
        doubled(n)
    }
}

/// After failures in a row the next attempt is held back for the first delay, doubled with each
/// failure up to the limit, counted from the last failure.
pub proof fn law_the_delay_doubles_up_to_its_limit(times: Seq<u64>)
    requires
        forall|i: int| 0 <= i < times.len() ==> #[trigger] times[i] + MAX_RETRY_MS <= u64::MAX,
    ensures
        ({
            let fresh = Backoff { delay: FIRST_RETRY_MS, not_before: None };
            let b = after_failures(fresh, times);
            &&& b.wf()
            &&& b.delay == delay_after(times.len())
            &&& times.len() == 0 ==> b.not_before is None
            &&& times.len() > 0 ==> b.not_before == Some(
                (times.last() + delay_after((times.len() - 1) as nat)) as u64,
            )
        }),
    decreases times.len(),
{
    if times.len() > 0 {
        let init = times.drop_last();
        assert forall|i: int| 0 <= i < init.len() implies #[trigger] init[i] + MAX_RETRY_MS
            <= u64::MAX by {
            assert(init[i] == times[i]);
        }
        law_the_delay_doubles_up_to_its_limit(init);
        assert(times[times.len() - 1] == times.last());
        lemma_doubled_positive((times.len() - 1) as nat);
    }
}

proof fn lemma_doubled_positive(n: nat)
    ensures
        doubled(n) >= FIRST_RETRY_MS,
    decreases n,
{
    if n > 0 {
        lemma_doubled_positive((n - 1) as nat);
    }
}

/// A phone that is ready in the host's list under one of its serials is never connected again.
pub proof fn law_a_ready_phone_is_found(
    ds: Seq<DeviceModel>,
    serials: Seq<Seq<char>>,
    i: int,
)
    requires
        0 <= i < ds.len(),
        serials.contains(ds[i].serial),
        ds[i].state == "device"@,
    ensures
        listed_as(ds, serials) matches Some((serial, state)) && state == "device"@,
    decreases ds.len(),
{
    if !(serials.contains(ds[0].serial) && ds[0].state == "device"@) {
        assert(ds.skip(1)[i - 1] == ds[i]);
        law_a_ready_phone_is_found(ds.skip(1), serials, i - 1);
        lemma_first_ready(ds.skip(1), serials);
    }
    lemma_first_ready(ds, serials);
}

proof fn lemma_first_ready(ds: Seq<DeviceModel>, serials: Seq<Seq<char>>)
    ensures
        first_listed(ds, serials, true) matches Some(x) ==> x.1 == "device"@,
        first_listed(ds, serials, true) is None ==> (first_listed(ds, serials, false) matches Some(
            x,
        ) ==> x.1 != "device"@),
    decreases ds.len(),
{
    if ds.len() > 0 {
        lemma_first_ready(ds.skip(1), serials);
    }
}

/// What adb prints is read by its words, in small letters or capitals: a connection before anything
/// else; then a host that is not paired, which adb names or leaves without a reason; then, on
/// macOS alone, the lack of a route as a missing permission; anything else is an error in adb's own
/// words.
pub proof fn law_adbs_words_are_understood(output: Seq<char>, macos: bool)
    ensures
        ({
            let lower = small(trimmed(output));
            let (state, detail) = connect_verdict(output, macos);
            let paired = !contains_text(lower, "failed to authenticate"@) && !contains_text(
                lower,
                "unauthorized"@,
            ) && !(exists|rest: Seq<char>|
                lower == "failed to connect to "@ + rest && !#[trigger] contains_text(rest, " "@)
                    && !contains_text(rest, "'"@));
            &&& state is Connected <==> contains_text(lower, "connected to"@)
            &&& state is NeedsPairing <==> !contains_text(lower, "connected to"@) && !paired
            &&& state is BlockedLocalNetwork <==> !contains_text(lower, "connected to"@) && paired
                && macos && contains_text(lower, "no route to host"@)
            &&& state is Connected || state is NeedsPairing || state is BlockedLocalNetwork
                || state is Error
            &&& state is Connected <==> detail is None
            &&& state is Error && trimmed(output).len() > 0 ==> detail == Some(trimmed(output))
            &&& state is Error && trimmed(output).len() == 0 ==> detail == Some(
                "adb connect printed nothing"@,
            )
        }),
{
    let lower = small(trimmed(output));
    let p = "failed to connect to "@;
    if p.is_prefix_of(lower) {
        let rest = lower.skip(p.len() as int);
        assert(lower =~= p + rest);
    }
    assert forall|rest: Seq<char>| lower == p + rest && !#[trigger] contains_text(rest, " "@)
        && !contains_text(rest, "'"@) implies is_bare_failure(lower) by {
        assert(p =~= lower.take(p.len() as int));
        assert(lower.skip(p.len() as int) =~= rest);
    }
}

/// An endpoint is its address and its port with a colon between, the address in brackets where it
/// has colons of its own.
pub proof fn law_an_endpoint_names_address_and_port(ip: Seq<char>, port: u16)
    ensures
        !contains_text(ip, ":"@) ==> endpoint_of(ip, port) == ip + ":"@ + decimal(port as nat),
        contains_text(ip, ":"@) ==> endpoint_of(ip, port) == "["@ + ip + "]:"@ + decimal(
            port as nat,
        ),
{
}

/// A phone may be listed under its endpoint, and under the name of its service where that is known,
/// and under no other serial.
pub proof fn law_a_phone_has_its_serials(
    endpoint: Seq<char>,
    service: Option<Seq<char>>,
    serial: Seq<char>,
)
    ensures
        serials_of(endpoint, service).contains(serial) <==> serial == endpoint || (service matches Some(
            name,
        ) && name.len() > 0 && serial == name + "._adb-tls-connect._tcp"@),
        serials_of(endpoint, service)[0] == endpoint,
{
    let list = serials_of(endpoint, service);
    assert(list[0] == endpoint);
    if service is Some && service->0.len() > 0 {
        assert(list[1] == service->0 + "._adb-tls-connect._tcp"@);
    }
}

/// What is shown of a phone that is not connected names its endpoint, its state and the reason, and
/// no serial.
pub proof fn law_an_unconnected_phone_has_no_serial(
    endpoint: Option<Seq<char>>,
    state: AdbState,
    detail: Option<Seq<char>>,
)
    ensures
        unconnected(endpoint, state, detail).endpoint == endpoint,
        unconnected(endpoint, state, detail).serial is None,
        unconnected(endpoint, state, detail).state == state,
        unconnected(endpoint, state, detail).detail == detail,
{
}

/// What the host's list says of a phone is an entry of the list under one of the phone's serials:
/// the first ready one, or the first of all where none is ready. Nothing is said exactly where no
/// entry is the phone's.
pub proof fn law_the_list_tells_of_the_phone(ds: Seq<DeviceModel>, serials: Seq<Seq<char>>)
    ensures
        match listed_as(ds, serials) {
            Some((serial, state)) => exists|i: int|
                0 <= i < ds.len() && (#[trigger] ds[i]).serial == serial && ds[i].state == state
                    && serials.contains(serial) && forall|j: int|
                    0 <= j < i ==> !(serials.contains((#[trigger] ds[j]).serial) && (state
                        != "device"@ || ds[j].state == "device"@)),
            None => forall|i: int| 0 <= i < ds.len() ==> !serials.contains((#[trigger] ds[i]).serial),
        },
{
    lemma_first_listed(ds, serials, true);
    lemma_first_listed(ds, serials, false);
    lemma_first_ready(ds, serials);
}

proof fn lemma_first_listed(ds: Seq<DeviceModel>, serials: Seq<Seq<char>>, ready_only: bool)
    ensures
        match first_listed(ds, serials, ready_only) {
            Some((serial, state)) => exists|i: int|
                0 <= i < ds.len() && (#[trigger] ds[i]).serial == serial && ds[i].state == state
                    && serials.contains(serial) && (ready_only ==> state == "device"@) && forall|j: int|
                    0 <= j < i ==> !(serials.contains((#[trigger] ds[j]).serial) && (!ready_only
                        || ds[j].state == "device"@)),
            None => forall|i: int|
                0 <= i < ds.len() ==> !(serials.contains((#[trigger] ds[i]).serial) && (!ready_only
                    || ds[i].state == "device"@)),
        },
    decreases ds.len(),
{
    if ds.len() > 0 {
        if serials.contains(ds[0].serial) && (!ready_only || ds[0].state == "device"@) {
            assert(ds[0].serial == ds[0].serial);
        } else {
            let rest = ds.skip(1);
            lemma_first_listed(rest, serials, ready_only);
            match first_listed(rest, serials, ready_only) {
                Some((serial, state)) => {
                    let i = choose|i: int|
                        0 <= i < rest.len() && (#[trigger] rest[i]).serial == serial && rest[i].state
                            == state && serials.contains(serial) && (ready_only ==> state
                            == "device"@) && forall|j: int|
                            0 <= j < i ==> !(serials.contains((#[trigger] rest[j]).serial) && (
                            !ready_only || rest[j].state == "device"@));
                    assert(ds[i + 1] == rest[i]);
                    assert forall|j: int| 0 <= j < i + 1 implies !(serials.contains(
                        (#[trigger] ds[j]).serial,
                    ) && (!ready_only || ds[j].state == "device"@)) by {
                        if j > 0 {
                            assert(ds[j] == rest[j - 1]);
                        }
                    }
                },
                None => {
                    assert forall|i: int| 0 <= i < ds.len() implies !(serials.contains(
                        (#[trigger] ds[i]).serial,
                    ) && (!ready_only || ds[i].state == "device"@)) by {
                        if i > 0 {
                            assert(ds[i] == rest[i - 1]);
                        }
                    }
                },
            }
        }
    }
}

/// The states have words of their own.
pub proof fn law_states_have_their_words(s: AdbState)
    ensures
        s is Off ==> s.word() == "off"@,
        s is Available ==> s.word() == "available"@,
        s is Connecting ==> s.word() == "connecting"@,
        s is Connected ==> s.word() == "connected"@,
        s is NeedsPairing ==> s.word() == "needs_pairing"@,
        s is BlockedLocalNetwork ==> s.word() == "blocked_local_network"@,
        s is AdbNotFound ==> s.word() == "adb_not_found"@,
        s is Error ==> s.word() == "error"@,
{
}

/// A failure is waited out for thirty seconds at first and for five minutes at the most, and the
/// delay is that of the failure that it follows.
pub proof fn law_the_first_delay_is_short(now: u64)
    requires
        now + 300_000 <= u64::MAX,
    ensures
        ({
            let b = (Backoff { delay: FIRST_RETRY_MS, not_before: None }).after_failure(now);
            &&& b.not_before == Some((now + 30_000) as u64)
            &&& b.delay == 60_000
            &&& b.after_failure(now).delay == 120_000
            &&& b.after_failure(now).after_failure(now).delay == 240_000
            &&& b.after_failure(now).after_failure(now).after_failure(now).delay == 300_000
        }),
{
}

/// Only a path behind `~/` is looked for in the home directory: it is the home's own parts and then
/// the path's, without the sign for the home.
pub proof fn law_only_the_own_home_is_expanded(path: Seq<char>, home: Seq<char>)
    ensures
        home_expanded(path, None) == path,
        !"~/"@.is_prefix_of(path) ==> home_expanded(path, Some(home)) == path,
        "~/"@.is_prefix_of(path) ==> home_expanded(path, Some(home)) == path_of(
            is_rooted(home),
            components(home) + components(path).skip(1),
        ),
        home_expanded("~"@, Some(home)) == "~"@,
{
    reveal_strlit("~");
    reveal_strlit("~/");
}

/// Where adb is by default: in the SDK's platform tools, and the SDK where each system has it.
pub proof fn law_adbs_default_places(home: Seq<char>)
    ensures
        default_adb(home, true) == inside(
            inside(home, "Library/Android/sdk"@),
            "platform-tools/adb"@,
        ),
        default_adb(home, false) == inside(inside(home, "Android/Sdk"@), "platform-tools/adb"@),
{
}

/// A report is checked exactly where the phone's address is known, wireless debugging is on and has
/// a port, and no check is under way: at that address and port, under the phone's serials. Only
/// a new endpoint has an old one to disconnect, and may be connected whatever failed before.
pub proof fn law_a_report_is_checked_at_its_endpoint(
    link: Link,
    addr: Option<Seq<char>>,
    report: AdbReport,
    shown: Option<Seq<char>>,
    now: u64,
    next: Link,
    r: ReportPlan,
)
    requires
        takes_in(link, addr, report, shown, now, next, r),
    ensures
        r is Check <==> addr is Some && report.wifi_enabled && report.port is Some && !link.busy,
        !(r is Check) ==> next == link,
        r is Show <==> addr is Some && !(report.wifi_enabled && report.port is Some),
        r matches ReportPlan::Show(s) ==> s.state == AdbState::Off && s.endpoint is None,
        r matches ReportPlan::Check { endpoint, previous, may_connect, .. } ==> {
            &&& endpoint@ == endpoint_of(addr->0, report.port->0)
            &&& next.busy && next.endpoint is Some && next.endpoint->0@ == endpoint@
            &&& link.endpoint is Some && link.endpoint->0@ == endpoint@ ==> previous is None && (
            may_connect <==> link.backoff.allows(now)) && next.backoff == link.backoff
            &&& link.endpoint is Some && link.endpoint->0@ != endpoint@ ==> previous == link.endpoint
                && may_connect
            &&& link.endpoint is None ==> previous is None && may_connect
        },
{
}

/// After a check that failed, the same endpoint is not connected before the delay is over; after
/// one that found the phone it may be at once.
pub proof fn law_a_check_decides_on_the_next_one(
    link: Link,
    outcome: AdbState,
    now: u64,
    addr: Seq<char>,
    report: AdbReport,
    shown: Option<Seq<char>>,
    later: u64,
    next: Link,
    r: ReportPlan,
)
    requires
        link.backoff.wf(),
        now + MAX_RETRY_MS <= u64::MAX,
        report.wifi_enabled,
        report.port is Some,
        opt_view(link.endpoint) == Some(endpoint_of(addr, report.port->0)),
        takes_in(after_check(link, Some(outcome), now), Some(addr), report, shown, later, next, r),
    ensures
        r is Check,
        outcome is Connected || outcome is Available ==> r->may_connect,
        !(outcome is Connected) && !(outcome is Available) ==> (r->may_connect <==> later >= now
            + link.backoff.delay),
{
}

/// A phone that the host lists as ready is shown as connected under the serial of the list, and one
/// that it lists as not authorised as not paired; neither is connected again. Any other is
/// connected where that is allowed, and else waited for.
pub proof fn law_a_listed_phone_is_not_connected_again(
    listed: Option<(Seq<char>, Seq<char>)>,
    ep: Seq<char>,
    may_connect: bool,
    r: Drive,
)
    requires
        drives(listed, ep, may_connect, r),
    ensures
        r is Connect <==> may_connect && !(listed matches Some((serial, state)) && (state == "device"@
            || state == "unauthorized"@)),
        r is Wait <==> !may_connect && !(listed matches Some((serial, state)) && (state == "device"@
            || state == "unauthorized"@)),
        r matches Drive::Show(s) ==> match listed {
            Some((serial, state)) => {
                &&& s.endpoint is Some && s.endpoint->0@ == ep
                &&& state == "device"@ ==> s.state == AdbState::Connected && s.serial is Some
                    && s.serial->0@ == serial
                &&& state == "unauthorized"@ ==> s.state == AdbState::NeedsPairing && s.serial is None
            },
            None => false,
        },
{
    reveal_strlit("device");
    reveal_strlit("unauthorized");
    assert("device"@.len() != "unauthorized"@.len());
}

} // verus!
