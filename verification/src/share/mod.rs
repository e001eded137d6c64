//! Sharing a host's attached devices with other machines.
//!
//! A share proxies a local device endpoint (the adb server) to the network. What it exposes is
//! named in its configuration and enforced for each connection by [`adb`]; who may use it is
//! decided by the [`handshake`], which [`server`] and [`client`] speak.

pub mod adb;
pub mod client;
pub mod dice;
pub mod handshake;
pub mod server;

use vstd::prelude::*;

pub use adb::Targets;

use dice::Dice;

use crate::text;
#[allow(unused_imports)]
use crate::text::{
    after_prefix, contains_text, decimal, opt_view, pieces, small, trimmed, trimmed_end,
    trimmed_start, views,
};

verus! {

/// What kind of device endpoint is being shared.
#[derive(Debug, Clone, Copy, PartialEq, Eq, Structural)]
pub enum Profile {
    /// The Android debug bridge server (`adb`).
    Adb,
}

/// The profile that `s` names.
pub open spec fn profile_named(s: Seq<char>) -> Option<Profile> {
    let name = small(trimmed(s));
    if name == "adb"@ || name == "android"@ {
        Some(Profile::Adb)
    } else {
        None
    }
}

impl Profile {
    /// The word for this profile on the wire.
    pub open spec fn word(self) -> Seq<char> {
        match self {
            Profile::Adb => "adb"@,
        }
    }

    /// The word for this profile on the wire, and in `dialf devices share --adb`.
    pub fn as_str(self) -> (r: &'static str)
        ensures
            r@ == self.word(),
    {
        match self {
            Profile::Adb => "adb",
        }
    }

    /// The word for this profile, as a string of its own.
    pub fn to_string(self) -> (r: String)
        ensures
            r@ == self.word(),
    {
        self.as_str().to_owned()
    }

    /// The profile that `s` names, in any case and with white space round it.
    pub fn parse(s: &str) -> (r: Result<Profile, String>)
        ensures
            match r {
                Ok(p) => profile_named(s@) == Some(p),
                Err(e) => profile_named(s@) is None && e@ == "unknown share profile `"@ + small(
                    trimmed(s@),
                ) + "` (known: adb)"@,
            },
    {
        let name = text::to_small(text::trim(s));
        if text::same(&name, "adb") || text::same(&name, "android") {
            Ok(Profile::Adb)
        } else {
            let mut e = "unknown share profile `".to_owned();
            e.append(&name);
            e.append("` (known: adb)");
            Err(e)
        }
    }

    /// Where this profile's endpoint lives when the configuration does not say.
    pub fn default_upstream(self) -> (r: Upstream)
        ensures
            r matches Upstream::Tcp(a) && a@ == "127.0.0.1:5037"@,
    {
        match self {
            Profile::Adb => Upstream::Tcp("127.0.0.1:5037".to_owned()),
        }
    }

    /// Default port that a share listens on.
    #[verifier::allow_in_spec]
    pub fn default_port(self) -> u16
        returns
            5939u16,
    {
        match self {
            Profile::Adb => 5939,
        }
    }

    /// Default port of the client shim, distinct from [`Profile::default_port`] so that both
    /// ends can run on one machine.
    #[verifier::allow_in_spec]
    pub fn default_client_port(self) -> u16
        returns
            5038u16,
    {
        match self {
            // One above adb's own 5037, so a shim and a local adb server coexist.
            Profile::Adb => 5038,
        }
    }
}

/// The ports of a share and of its shim never collide.
pub proof fn law_share_and_shim_ports_differ(p: Profile)
    ensures
        p.default_port() != p.default_client_port(),
{
}

impl std::str::FromStr for Profile {
    type Err = String;

    fn from_str(s: &str) -> (r: Result<Self, Self::Err>)
        ensures
            match r {
                Ok(p) => profile_named(s@) == Some(p),
                Err(e) => profile_named(s@) is None && e@ == "unknown share profile `"@ + small(
                    trimmed(s@),
                ) + "` (known: adb)"@,
            },
    {
        Profile::parse(s)
    }
}

/// The local endpoint that a share proxies to.
#[derive(Debug, Clone, PartialEq, Eq)]
pub enum Upstream {
    /// `tcp:host:port`: the adb server.
    Tcp(String),
    /// `unix:/path`: reserved for usbmuxd.
    Unix(String),
}

/// The text of an endpoint, as it stands in a configuration.
pub open spec fn upstream_text(u: Upstream) -> Seq<char> {
    match u {
        Upstream::Tcp(a) => "tcp:"@ + a@,
        Upstream::Unix(p) => "unix:"@ + p@,
    }
}

/// Why `s` names no endpoint, if it names none.
pub open spec fn upstream_error(s: Seq<char>) -> Option<Seq<char>> {
    let t = trimmed(s);
    if let Some(rest) = after_prefix(t, "tcp:"@) {
        if rest.len() == 0 {
            Some("upstream `"@ + t + "` has no address after `tcp:`"@)
        } else if !contains_text(rest, ":"@) {
            Some("upstream `"@ + t + "` needs a port, e.g. tcp:127.0.0.1:5037"@)
        } else {
            None
        }
    } else if let Some(rest) = after_prefix(t, "unix:"@) {
        if rest.len() == 0 {
            Some("upstream `"@ + t + "` has no path after `unix:`"@)
        } else {
            None
        }
    } else {
        Some("upstream `"@ + t + "` must start with `tcp:` or `unix:`"@)
    }
}

impl Upstream {
    /// The text of this endpoint, as it stands in a configuration.
    pub fn to_string(&self) -> (r: String)
        ensures
            r@ == upstream_text(*self),
    {
        match self {
            Upstream::Tcp(a) => {
                let mut s = "tcp:".to_owned();
                s.append(a);
                s
            },
            Upstream::Unix(p) => {
                let mut s = "unix:".to_owned();
                s.append(p);
                s
            },
        }
    }

    /// Reads `tcp:host:port` or `unix:/path`.
    pub fn parse(s: &str) -> (r: Result<Upstream, String>)
        ensures
            match r {
                Ok(u) => upstream_error(s@) is None && upstream_text(u) == trimmed(s@),
                Err(e) => upstream_error(s@) == Some(e@),
            },
            r matches Ok(u) ==> (u is Tcp <==> "tcp:"@.is_prefix_of(trimmed(s@))),
    {
        let t = text::trim(s);
        if let Some(rest) = text::strip_prefix(t, "tcp:") {
            if rest.is_empty() {
                return Err(upstream_refusal(t, "` has no address after `tcp:`"));
            }
            if !text::contains(rest, ":") {
                return Err(upstream_refusal(t, "` needs a port, e.g. tcp:127.0.0.1:5037"));
            }
            assert("tcp:"@ + rest@ =~= t@);
            return Ok(Upstream::Tcp(rest.to_owned()));
        }
        if let Some(rest) = text::strip_prefix(t, "unix:") {
            if rest.is_empty() {
                return Err(upstream_refusal(t, "` has no path after `unix:`"));
            }
            assert("unix:"@ + rest@ =~= t@);
            return Ok(Upstream::Unix(rest.to_owned()));
        }
        Err(upstream_refusal(t, "` must start with `tcp:` or `unix:`"))
    }
}

fn upstream_refusal(t: &str, why: &str) -> (r: String)
    ensures
        r@ == "upstream `"@ + t@ + why@,
{
    let mut s = "upstream `".to_owned();
    s.append(t);
    s.append(why);
    s
}

impl std::str::FromStr for Upstream {
    type Err = String;

    fn from_str(s: &str) -> (r: Result<Self, Self::Err>)
        ensures
            match r {
                Ok(u) => upstream_error(s@) is None && upstream_text(u) == trimmed(s@),
                Err(e) => upstream_error(s@) == Some(e@),
            },
            r matches Ok(u) ==> (u is Tcp <==> "tcp:"@.is_prefix_of(trimmed(s@))),
    {
        Upstream::parse(s)
    }
}

proof fn lemma_trimmed_is_trimmed(s: Seq<char>)
    ensures
        trimmed(trimmed(s)) == trimmed(s),
{
    let a = trimmed_start(s);
    text::lemma_trimmed_start_len(s);
    let b = trimmed_end(a);
    lemma_trimmed_end_keeps_start(a);
    lemma_trimmed_end_stops(a);
}

proof fn lemma_trimmed_end_keeps_start(a: Seq<char>)
    requires
        a.len() > 0 ==> !text::is_space(a[0]),
    ensures
        trimmed_end(a).len() > 0 ==> !text::is_space(trimmed_end(a)[0]),
    decreases a.len(),
{
    if a.len() > 0 && text::is_space(a.last()) {
        lemma_trimmed_end_keeps_start(a.drop_last());
    }
}

proof fn lemma_trimmed_end_stops(a: Seq<char>)
    ensures
        trimmed_end(trimmed_end(a)) == trimmed_end(a),
    decreases a.len(),
{
    if a.len() > 0 && text::is_space(a.last()) {
        lemma_trimmed_end_stops(a.drop_last());
    }
}

/// The text of an endpoint that was read can be read again, and names the same endpoint: a
/// status line can be pasted back into the configuration.
pub proof fn law_upstream_round_trip(s: Seq<char>, u: Upstream)
    requires
        upstream_error(s) is None,
        upstream_text(u) == trimmed(s),
    ensures
        upstream_error(upstream_text(u)) is None,
        trimmed(upstream_text(u)) == upstream_text(u),
{
    lemma_trimmed_is_trimmed(s);
}

/// An IPv4 address.
#[derive(Debug, Clone, Copy, PartialEq, Eq, Structural)]
pub struct Ipv4 {
    pub a: u8,
    pub b: u8,
    pub c: u8,
    pub d: u8,
}

/// Whether another machine can be told to dial this address: neither loopback nor link-local.
pub open spec fn dialable(ip: Ipv4) -> bool {
    ip.a != 127 && !(ip.a == 169 && ip.b == 254)
}

/// The dialable addresses among `found`, each once, in the order of their first appearance.
pub open spec fn distinct_dialable(found: Seq<Ipv4>) -> Seq<Ipv4>
    decreases found.len(),
{
    if found.len() == 0 {
        Seq::empty()
    } else {
        let rest = distinct_dialable(found.drop_last());
        if dialable(found.last()) && !rest.contains(found.last()) {
            rest.push(found.last())
        } else {
            rest
        }
    }
}

/// Whether `ip` belongs to an overlay network (which use 100.64/10).
pub open spec fn is_overlay(ip: Ipv4) -> bool {
    ip.a == 100
}

/// Where to tell the user to connect: this host's dialable addresses, those of overlay networks
/// first, for on a mesh they are the ones that reach the other machine.
pub fn local_addresses(found: &Vec<Ipv4>) -> (r: Vec<Ipv4>)
    ensures
        r@ == distinct_dialable(found@).filter(|ip: Ipv4| is_overlay(ip))
            + distinct_dialable(found@).filter(|ip: Ipv4| !is_overlay(ip)),
{
    broadcast use Seq::filter_distributes_over_add;

    let mut seen: Vec<Ipv4> = Vec::new();
    let mut overlay: Vec<Ipv4> = Vec::new();
    let mut other: Vec<Ipv4> = Vec::new();
    let mut i: usize = 0;
    while i < found.len()
        invariant
            i <= found.len(),
            seen@ == distinct_dialable(found@.take(i as int)),
            overlay@ == seen@.filter(|ip: Ipv4| is_overlay(ip)),
            other@ == seen@.filter(|ip: Ipv4| !is_overlay(ip)),
        decreases found.len() - i,
    {
        let ip: Ipv4 = found[i];
        proof {
            assert(found@.take(i + 1).drop_last() =~= found@.take(i as int));
            assert(found@.take(i + 1).last() == ip);
        }
        if ip.a != 127 && !(ip.a == 169 && ip.b == 254) && !holds(&seen, ip) {
            proof {
                lemma_filter_push(seen@, ip);
            }
            seen.push(ip);
            if ip.a == 100 {
                overlay.push(ip);
            } else {
                other.push(ip);
            }
        }
        i += 1;
    }
    proof {
        assert(found@.take(i as int) =~= found@);
    }
    overlay.append(&mut other);
    overlay
}

proof fn lemma_filter_push(s: Seq<Ipv4>, ip: Ipv4)
    ensures
        s.push(ip).filter(|ip: Ipv4| is_overlay(ip)) == (if is_overlay(ip) {
            s.filter(|ip: Ipv4| is_overlay(ip)).push(ip)
        } else {
            s.filter(|ip: Ipv4| is_overlay(ip))
        }),
        s.push(ip).filter(|ip: Ipv4| !is_overlay(ip)) == (if is_overlay(ip) {
            s.filter(|ip: Ipv4| !is_overlay(ip))
        } else {
            s.filter(|ip: Ipv4| !is_overlay(ip)).push(ip)
        }),
{
    reveal(Seq::filter);
    assert(s.push(ip).drop_last() =~= s);
}

fn holds(v: &Vec<Ipv4>, ip: Ipv4) -> (r: bool)
    ensures
        r == v@.contains(ip),
{
    let mut i: usize = 0;
    while i < v.len()
        invariant
            i <= v.len(),
            forall|j: int| 0 <= j < i ==> v@[j] != ip,
        decreases v.len() - i,
    {
        if v[i] == ip {
            return true;
        }
        i += 1;
    }
    false
}

/// A listen address that was parsed.
#[derive(Debug, Clone, PartialEq, Eq)]
pub struct Bind {
    /// The address as `host:port`.
    pub addr: String,
    pub port: u16,
    /// Whether only this machine can reach it.
    pub loopback: bool,
}

/// A validated share configuration: the shape that the listener runs from.
#[derive(Debug)]
pub struct ResolvedShare {
    pub profile: Profile,
    pub bind: Bind,
    pub upstream: Upstream,
    /// Which devices this share exposes.
    pub targets: Targets,
    /// The secret that this share hands out, when one was asked for. `None` means an open share.
    pub token: Option<String>,
    /// Seconds before the share stops itself. `None` never expires.
    pub expires_after: Option<u64>,
    /// Ports of this host that are proxied beside the adb port.
    pub forward_ports: Vec<u16>,
}

impl ResolvedShare {
    /// Whether the listener is reachable from other machines.
    pub fn is_public(&self) -> (r: bool)
        ensures
            r == !self.bind.loopback,
    {
        !self.bind.loopback
    }

    /// Whether connections must pass the handshake: whether a token was issued.
    pub fn require_auth(&self) -> (r: bool)
        ensures
            r == (self.token is Some),
    {
        self.token.is_some()
    }
}

/// One hour: long enough for a work session, short enough that forgetting is survivable.
pub const DEFAULT_EXPIRE_AFTER: i64 = 3600;

/// Beyond this, an expiry is long enough to be worth a second look.
pub const LONG_EXPIRY_WARN: i64 = 86400;

/// Sharing settings as they appear in the configuration.
#[derive(Debug, Clone)]
pub struct ShareConfig {
    /// Start this share when the daemon starts.
    pub enabled: bool,
    /// `host:port` to listen on.
    pub bind: Option<String>,
    /// The endpoint being shared (`tcp:host:port` or `unix:/path`), where not the default.
    pub upstream: Option<String>,
    /// Device serials to expose.
    pub targets: Vec<String>,
    /// Expose every attached device, including ones plugged in later.
    pub all: bool,
    /// Seconds before the share stops itself. Zero or negative never expires.
    pub expire_after: i64,
    /// Ports of this host to proxy beside the adb port.
    pub forward_ports: Vec<u16>,
}

impl Default for ShareConfig {
    fn default() -> (r: Self)
        ensures
            !r.enabled,
            r.bind is None,
            r.upstream is None,
            r.targets@.len() == 0,
            !r.all,
            r.expire_after == DEFAULT_EXPIRE_AFTER,
            r.forward_ports@.len() == 0,
    {
        ShareConfig {
            enabled: false,
            bind: None,
            upstream: None,
            targets: Vec::new(),
            all: false,
            expire_after: DEFAULT_EXPIRE_AFTER,
            forward_ports: Vec::new(),
        }
    }
}

/// The serials that `list` names: trimmed, blanks left out.
pub open spec fn named_serials(list: Seq<Seq<char>>) -> Seq<Seq<char>>
    decreases list.len(),
{
    if list.len() == 0 {
        Seq::empty()
    } else {
        let rest = named_serials(list.drop_last());
        if trimmed(list.last()).len() > 0 {
            rest.push(trimmed(list.last()))
        } else {
            rest
        }
    }
}

impl ShareConfig {
    /// Why the devices to expose are ambiguous, if they are.
    pub open spec fn targets_error(self) -> Option<Seq<char>> {
        let named = named_serials(views(self.targets@));
        if self.all && named.len() > 0 {
            Some("set either `all: true` or `targets:`, not both"@)
        } else if !self.all && named.len() == 0 {
            Some(
                "no devices named — list serials under `targets:` (or set `all: true`); `dialf devices share --list` shows what is attached"@,
            )
        } else {
            None
        }
    }

    /// Whether `t` is what this configuration exposes.
    pub open spec fn exposes(self, t: Targets) -> bool {
        match t {
            Targets::All => self.all,
            Targets::Only(list) => !self.all && views(list@) == named_serials(
                views(self.targets@),
            ),
        }
    }

    /// Where the share listens, as text.
    pub open spec fn bind_spec(self, profile: Profile) -> Seq<char> {
        match self.bind {
            Some(b) => b@,
            None => "0.0.0.0:"@ + decimal(profile.default_port() as nat),
        }
    }

    /// Why a forward port could not work on this listen address, if one could not.
    pub open spec fn forward_error(self, bind: Bind) -> Option<Seq<char>> {
        if self.forward_ports@.contains(bind.port) {
            Some("forward port "@ + decimal(bind.port as nat) + " is the share's own port"@)
        } else if bind.loopback && self.forward_ports@.len() > 0 {
            Some(
                "forward ports need a network bind — on loopback, `adb forward` already owns the port; tunnel it with `ssh -L` instead"@,
            )
        } else {
            None
        }
    }

    /// Why this share must not listen, if it must not: a bad listen address first, then a bad
    /// endpoint, then its devices, then its forward ports.
    pub open spec fn refusal(self, profile: Profile, bind: Option<Bind>) -> Option<Seq<char>> {
        match bind {
            None => Some(
                "parse share bind `"@ + self.bind_spec(profile) + "` (want host:port)"@,
            ),
            Some(b) => if self.upstream is Some && upstream_error(self.upstream->0@) is Some {
                upstream_error(self.upstream->0@)
            } else if self.targets_error() is Some {
                self.targets_error()
            } else {
                self.forward_error(b)
            },
        }
    }

    /// Which devices to expose, refusing the ambiguous cases. Silence means nothing, not
    /// everything.
    pub fn resolve_targets(&self) -> (r: Result<Targets, String>)
        ensures
            match r {
                Ok(t) => self.targets_error() is None && self.exposes(t),
                Err(e) => self.targets_error() == Some(e@),
            },
    {
        let mut named: Vec<String> = Vec::new();
        let mut i: usize = 0;
        while i < self.targets.len()
            invariant
                i <= self.targets.len(),
                views(named@) == named_serials(views(self.targets@).take(i as int)),
            decreases self.targets.len() - i,
        {
            proof {
                let all = views(self.targets@);
                assert(all.take(i + 1).drop_last() =~= all.take(i as int));
                assert(all.take(i + 1).last() == self.targets@[i as int]@);
            }
            let t = text::trim(&self.targets[i]);
            if !t.is_empty() {
                let s = t.to_owned();
                proof {
                    text::lemma_views_push(named@, s);
                }
                named.push(s);
            }
            i += 1;
        }
        proof {
            assert(views(self.targets@).take(i as int) =~= views(self.targets@));
            assert(views(named@).len() == named@.len());
        }
        if self.all {
            if named.len() == 0 {
                Ok(Targets::All)
            } else {
                Err("set either `all: true` or `targets:`, not both".to_owned())
            }
        } else if named.len() > 0 {
            Ok(Targets::Only(named))
        } else {
            Err(
                "no devices named — list serials under `targets:` (or set `all: true`); `dialf devices share --list` shows what is attached".to_owned(),
            )
        }
    }

    /// Where the share listens, as text: configured, or every interface on the profile's port.
    pub fn bind_text(&self, profile: Profile) -> (r: String)
        ensures
            r@ == self.bind_spec(profile),
    {
        match &self.bind {
            Some(b) => b.clone(),
            None => {
                let mut s = "0.0.0.0:".to_owned();
                s.append(&text::decimal_of(profile.default_port() as u64));
                s
            },
        }
    }

    /// Validates and fills in defaults, or explains why this share must not listen.
    ///
    /// `bind` is what parsing [`ShareConfig::bind_text`] as a socket address gave. `with_token`
    /// issues a fresh secret, drawn of `dice`, which lives in the returned value only.
    pub fn resolve(
        &self,
        profile: Profile,
        with_token: bool,
        bind: Option<Bind>,
        dice: &mut Dice,
    ) -> (r: Result<ResolvedShare, String>)
        ensures
            match r {
                Err(e) => self.refusal(profile, bind) == Some(e@) && final(dice).log() == old(
                    dice,
                ).log(),
                Ok(s) => {
                    &&& self.refusal(profile, bind) is None
                    &&& s.profile == profile
                    &&& bind == Some(s.bind)
                    &&& match self.upstream {
                        Some(u) => upstream_text(s.upstream) == trimmed(u@),
                        None => upstream_text(s.upstream) == "tcp:127.0.0.1:5037"@,
                    }
                    &&& self.exposes(s.targets)
                    &&& match s.token {
                        Some(t) => with_token && handshake::is_issued(t@)
                            && handshake::draws_token(old(dice).log(), final(dice).log(), t@),
                        None => !with_token && final(dice).log() == old(dice).log(),
                    }
                    &&& s.expires_after == (if self.expire_after > 0 {
                        Some(self.expire_after as u64)
                    } else {
                        None
                    })
                    &&& s.forward_ports@ == self.forward_ports@
                },
            },
    {
        let at = match bind {
            Some(b) => b,
            None => {
                let mut e = "parse share bind `".to_owned();
                e.append(&self.bind_text(profile));
                e.append("` (want host:port)");
                return Err(e);
            },
        };
        let upstream = match &self.upstream {
            Some(u) => match Upstream::parse(u) {
                Ok(u) => u,
                Err(e) => {
                    return Err(e);
                },
            },
            None => {
                proof {
                    reveal_strlit("tcp:");
                    reveal_strlit("127.0.0.1:5037");
                    reveal_strlit("tcp:127.0.0.1:5037");
                    assert("tcp:"@ + "127.0.0.1:5037"@ =~= "tcp:127.0.0.1:5037"@);
                }
                profile.default_upstream()
            },
        };
        let targets = match self.resolve_targets() {
            Ok(t) => t,
            Err(e) => {
                return Err(e);
            },
        };
        let mut forward_ports: Vec<u16> = Vec::new();
        let mut i: usize = 0;
        while i < self.forward_ports.len()
            invariant
                i <= self.forward_ports.len(),
                forward_ports@ == self.forward_ports@.take(i as int),
                forall|j: int| 0 <= j < i ==> self.forward_ports@[j] != at.port,
                bind == Some(at),
                self.refusal(profile, Some(at)) == self.forward_error(at),
            decreases self.forward_ports.len() - i,
        {
            let port: u16 = self.forward_ports[i];
            if port == at.port {
                assert(self.forward_ports@[i as int] == at.port);
                let mut e = "forward port ".to_owned();
                e.append(&text::decimal_of(port as u64));
                e.append(" is the share's own port");
                return Err(e);
            }
            forward_ports.push(port);
            i += 1;
            assert(forward_ports@ =~= self.forward_ports@.take(i as int));
        }
        proof {
            assert(self.forward_ports@.take(i as int) =~= self.forward_ports@);
        }
        if at.loopback && forward_ports.len() > 0 {
            return Err(
                "forward ports need a network bind — on loopback, `adb forward` already owns the port; tunnel it with `ssh -L` instead".to_owned(),
            );
        }
        let token = if with_token {
            Some(handshake::new_token(dice))
        } else {
            None
        };
        let expires_after: Option<u64> = if self.expire_after > 0 {
            Some(self.expire_after as u64)
        } else {
            None
        };
        Ok(
            ResolvedShare {
                profile,
                bind: at,
                upstream,
                targets,
                token,
                expires_after,
                forward_ports,
            },
        )
    }
}

/// A share never exposes a device that its configuration does not name, unless it exposes all.
pub proof fn law_a_share_exposes_what_is_named(cfg: ShareConfig, t: Targets, serial: Seq<char>)
    requires
        cfg.targets_error() is None,
        cfg.exposes(t),
        t.permits(serial),
        !cfg.all,
    ensures
        named_serials(views(cfg.targets@)).contains(serial),
{
}

/// A configuration that names no device and does not expose all is refused.
pub proof fn law_silence_shares_nothing(cfg: ShareConfig, profile: Profile, bind: Option<Bind>)
    requires
        !cfg.all,
        named_serials(views(cfg.targets@)).len() == 0,
    ensures
        cfg.refusal(profile, bind) is Some,
{
}

/// The addresses that are told are those that were found and can be dialled, each once: neither
/// loopback (127/8) nor link-local (169.254/16).
pub proof fn law_told_addresses_can_be_dialled(found: Seq<Ipv4>, ip: Ipv4)
    ensures
        distinct_dialable(found).contains(ip) <==> found.contains(ip) && ip.a != 127 && !(ip.a == 169
            && ip.b == 254),
        distinct_dialable(found).no_duplicates(),
    decreases found.len(),
{
    if found.len() > 0 {
        let init = found.drop_last();
        let rest = distinct_dialable(init);
        let last = found.last();
        law_told_addresses_can_be_dialled(init, ip);
        law_told_addresses_can_be_dialled(init, last);
        assert(found.contains(ip) <==> (init.contains(ip) || ip == last)) by {
            if init.contains(ip) {
                let j = choose|j: int| 0 <= j < init.len() && init[j] == ip;
                assert(found[j] == ip);
            }
            if found.contains(ip) {
                let j = choose|j: int| 0 <= j < found.len() && found[j] == ip;
                if j < init.len() {
                    assert(init[j] == ip);
                }
            }
            assert(found[found.len() - 1] == last);
        }
        let now = distinct_dialable(found);
        if now != rest {
            assert(now == rest.push(last));
            if rest.contains(ip) {
                let j = choose|j: int| 0 <= j < rest.len() && rest[j] == ip;
                assert(now[j] == ip);
            }
            assert(now[rest.len() as int] == last);
            if now.contains(ip) {
                let j = choose|j: int| 0 <= j < now.len() && now[j] == ip;
                if j < rest.len() {
                    assert(rest[j] == ip);
                }
            }
        }
    }
}

/// Addresses of an overlay network are those whose first part is 100.
pub proof fn law_overlay_addresses(ip: Ipv4)
    ensures
        is_overlay(ip) <==> ip.a == 100,
        is_overlay(ip) ==> dialable(ip),
{
}

/// A profile is told by its name or by that of its devices, in small letters or capitals and with
/// white space round it, and by nothing else.
pub proof fn law_profiles_are_told_by_name(s: Seq<char>)
    ensures
        profile_named(s) is Some <==> small(trimmed(s)) == "adb"@ || small(trimmed(s)) == "android"@,
        profile_named(s) is Some ==> profile_named(s)->0 is Adb,
        Profile::Adb.word() == "adb"@,
{
}

/// An endpoint is one that names a host and a port behind `tcp:`, or a path behind `unix:`; it is of
/// the kind that it begins with, and the rest is its address.
pub proof fn law_an_endpoint_is_read_as_written(s: Seq<char>, rest: Seq<char>, u: Upstream)
    requires
        upstream_text(u) == trimmed(s),
    ensures
        trimmed(s) == "tcp:"@ + rest ==> {
            &&& upstream_error(s) is None <==> contains_text(rest, ":"@)
            &&& u matches Upstream::Tcp(a) && a@ == rest
        },
        trimmed(s) == "unix:"@ + rest ==> {
            &&& upstream_error(s) is None <==> rest.len() > 0
            &&& u matches Upstream::Unix(p) && p@ == rest
        },
        !"tcp:"@.is_prefix_of(trimmed(s)) && !"unix:"@.is_prefix_of(trimmed(s)) ==> upstream_error(s)
            is Some,
{
    reveal_strlit("tcp:");
    reveal_strlit("unix:");
    reveal_strlit(":");
    let t = trimmed(s);
    if t == "tcp:"@ + rest {
        assert(t.take(4) =~= "tcp:"@);
        assert(t.skip(4) =~= rest);
        assert(t[0] == 't');
        assert(u is Tcp) by {
            if u is Unix {
                assert(upstream_text(u)[0] == 'u');
            }
        }
        assert(upstream_text(u).skip(4) =~= u->Tcp_0@);
        if rest.len() == 0 && contains_text(rest, ":"@) {
            let i = choose|i: int| text::occurs_at(rest, ":"@, i);
            assert(false);
        }
    }
    if t == "unix:"@ + rest {
        assert(t.take(5) =~= "unix:"@);
        assert(t.skip(5) =~= rest);
        assert(t[0] == 'u');
        assert(!"tcp:"@.is_prefix_of(t)) by {
            if "tcp:"@.is_prefix_of(t) {
                assert(t[0] == "tcp:"@[0]);
            }
        }
        assert(u is Unix) by {
            if u is Tcp {
                assert(upstream_text(u)[0] == 't');
            }
        }
        assert(upstream_text(u).skip(5) =~= u->Unix_0@);
    }
}

/// The serials that a list names are its entries without the white space round them, in order and
/// without the blank ones.
pub proof fn law_blank_serials_name_nothing(list: Seq<Seq<char>>, serial: Seq<char>)
    ensures
        named_serials(list).contains(serial) <==> serial.len() > 0 && exists|i: int|
            0 <= i < list.len() && trimmed(#[trigger] list[i]) == serial,
        named_serials(list).len() <= list.len(),
    decreases list.len(),
{
    if list.len() > 0 {
        let init = list.drop_last();
        law_blank_serials_name_nothing(init, serial);
        let rest = named_serials(init);
        let last = trimmed(list.last());
        let now = named_serials(list);
        if last.len() > 0 {
            assert(now == rest.push(last));
            assert(now[rest.len() as int] == last);
            if rest.contains(serial) {
                let j = choose|j: int| 0 <= j < rest.len() && rest[j] == serial;
                assert(now[j] == serial);
            }
            if now.contains(serial) && serial != last {
                let j = choose|j: int| 0 <= j < now.len() && now[j] == serial;
                assert(rest[j] == serial);
            }
        }
        if exists|i: int| 0 <= i < init.len() && trimmed(#[trigger] init[i]) == serial {
            let i = choose|i: int| 0 <= i < init.len() && trimmed(#[trigger] init[i]) == serial;
            assert(list[i] == init[i]);
        }
        if exists|i: int| 0 <= i < list.len() && trimmed(#[trigger] list[i]) == serial {
            let i = choose|i: int| 0 <= i < list.len() && trimmed(#[trigger] list[i]) == serial;
            if i < init.len() {
                assert(init[i] == list[i]);
            }
        }
        assert(list[list.len() - 1] == list.last());
    }
}

/// A share listens only where it can: its address can be read, its endpoint names one, it exposes
/// either all devices or the ones that it names, and no forward port is its own or stands on
/// loopback. What it exposes is what it says.
pub proof fn law_a_share_listens_where_it_can(cfg: ShareConfig, profile: Profile, b: Bind, t: Targets)
    requires
        cfg.exposes(t),
    ensures
        cfg.refusal(profile, None) is Some,
        cfg.refusal(profile, Some(b)) is None <==> {
            &&& cfg.upstream matches Some(u) ==> upstream_error(u@) is None
            &&& cfg.all <==> named_serials(views(cfg.targets@)).len() == 0
            &&& !cfg.forward_ports@.contains(b.port)
            &&& b.loopback ==> cfg.forward_ports@.len() == 0
        },
        cfg.all <==> t is All,
        t matches Targets::Only(list) ==> views(list@) == named_serials(views(cfg.targets@)),
        cfg.bind is None ==> cfg.bind_spec(profile) == "0.0.0.0:"@ + decimal(5939),
        cfg.bind matches Some(text) ==> cfg.bind_spec(profile) == text@,
{
}

/// A share that must not listen says why, for the first reason that there is: its address, its
/// endpoint, its devices, or a forward port.
pub proof fn law_a_refused_share_says_why(cfg: ShareConfig, profile: Profile, b: Bind)
    ensures
        cfg.refusal(profile, None) == Some(
            "parse share bind `"@ + cfg.bind_spec(profile) + "` (want host:port)"@,
        ),
        cfg.upstream is Some && upstream_error(cfg.upstream->0@) is Some ==> cfg.refusal(
            profile,
            Some(b),
        ) == upstream_error(cfg.upstream->0@),
        cfg.upstream is None && cfg.all && named_serials(views(cfg.targets@)).len() > 0 ==> cfg.refusal(
            profile,
            Some(b),
        ) == Some("set either `all: true` or `targets:`, not both"@),
        cfg.upstream is None && cfg.all && named_serials(views(cfg.targets@)).len() == 0
            && cfg.forward_ports@.contains(b.port) ==> cfg.refusal(profile, Some(b)) == Some(
            "forward port "@ + decimal(b.port as nat) + " is the share's own port"@,
        ),
{
}

} // verus!
