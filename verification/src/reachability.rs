//! Why a phone cannot find or reach the daemon, and the fix for this host.
//!
//! The phone needs two things of the host: an mDNS responder that advertises the daemon, and a
//! firewall that lets the phone in on the WebSocket port and on the mDNS port. Detection is
//! conservative: a rule set that cannot be read is reported as one that may block, and one that
//! cannot be understood is not reported at all.

use vstd::prelude::*;

use crate::share::Ipv4;
use crate::table;
#[allow(unused_imports)]
use crate::table::first_of;
use crate::text;
#[allow(unused_imports)]
use crate::text::{
    after_prefix, after_text, before_text, char_replaced, contains_text, decimal, first_at, joined,
    lines, parsed_up_to, pieces, small, trimmed, views, without_quotes, words,
};

verus! {

pub const MDNS_PORT: u16 = 5353;

/// One thing standing between the phone and the daemon, with how to remove it.
#[derive(Debug, Clone, PartialEq, Eq)]
pub struct Finding {
    pub problem: String,
    pub fix: String,
}

/// A [`Finding`] with its texts as characters.
pub struct FindingModel {
    pub problem: Seq<char>,
    pub fix: Seq<char>,
}

impl View for Finding {
    type V = FindingModel;

    open spec fn view(&self) -> FindingModel {
        FindingModel { problem: self.problem@, fix: self.fix@ }
    }
}

/// The findings of a list, each as a model.
pub open spec fn found(v: Seq<Finding>) -> Seq<FindingModel> {
    v.map_values(|f: Finding| f@)
}

#[derive(Debug, Clone, Copy, PartialEq, Eq, Structural)]
pub enum Distro {
    NixOs,
    Debian,
    Arch,
    Fedora,
    Suse,
    Other,
}

/// The distribution that a word of `/etc/os-release` names.
pub open spec fn distro_named(word: Seq<char>) -> Option<Distro> {
    if word == "nixos"@ {
        Some(Distro::NixOs)
    } else if word == "debian"@ || word == "ubuntu"@ {
        Some(Distro::Debian)
    } else if word == "arch"@ {
        Some(Distro::Arch)
    } else if word == "fedora"@ || word == "rhel"@ || word == "centos"@ {
        Some(Distro::Fedora)
    } else if word == "suse"@ || word == "opensuse"@ {
        Some(Distro::Suse)
    } else {
        None
    }
}

/// The first distribution that some words name.
pub open spec fn first_distro(ws: Seq<Seq<char>>) -> Distro
    decreases ws.len(),
{
    if ws.len() == 0 {
        Distro::Other
    } else {
        match distro_named(ws[0]) {
            Some(d) => d,
            None => first_distro(ws.skip(1)),
        }
    }
}

/// The value of the first `key=value` line: unquoted, in small letters, empty where there is none.
pub open spec fn field_value(ls: Seq<Seq<char>>, key: Seq<char>) -> Seq<char>
    decreases ls.len(),
{
    if ls.len() == 0 {
        Seq::empty()
    } else {
        match after_prefix(ls[0], key + "="@) {
            Some(v) => small(without_quotes(trimmed(v))),
            None => field_value(ls.skip(1), key),
        }
    }
}

/// The distribution that the text of `/etc/os-release` names: by its `ID`, then by the words of
/// its `ID_LIKE`.
pub open spec fn classified(text: Seq<char>) -> Distro {
    let ls = lines(text);
    first_distro(seq![field_value(ls, "ID"@)] + words(field_value(ls, "ID_LIKE"@)))
}

fn distro_by_name(word: &str) -> (r: Option<Distro>)
    ensures
        r == distro_named(word@),
{
    if text::same(word, "nixos") {
        Some(Distro::NixOs)
    } else if text::same(word, "debian") || text::same(word, "ubuntu") {
        Some(Distro::Debian)
    } else if text::same(word, "arch") {
        Some(Distro::Arch)
    } else if text::same(word, "fedora") || text::same(word, "rhel") || text::same(word, "centos") {
        Some(Distro::Fedora)
    } else if text::same(word, "suse") || text::same(word, "opensuse") {
        Some(Distro::Suse)
    } else {
        None
    }
}

fn field(ls: &Vec<String>, key: &str) -> (r: String)
    ensures
        r@ == field_value(views(ls@), key@),
{
    let start = text::cat(key, "=");
    let ghost all = views(ls@);
    let mut i: usize = 0;
    proof {
        assert(all.skip(0) =~= all);
    }
    while i < ls.len()
        invariant
            i <= ls.len(),
            all == views(ls@),
            start@ == key@ + "="@,
            field_value(all.skip(i as int), key@) == field_value(all, key@),
        decreases ls.len() - i,
    {
        proof {
            assert(all.skip(i as int)[0] == ls@[i as int]@);
            assert(all.skip(i as int).skip(1) =~= all.skip(i + 1));
        }
        if let Some(v) = text::strip_prefix(&ls[i], &start) {
            return text::to_small(text::unquote(text::trim(v)));
        }
        i += 1;
    }
    proof {
        assert(all.skip(i as int) =~= Seq::<Seq<char>>::empty());
    }
    String::new()
}

/// Classifies a distribution by the text of `/etc/os-release`.
pub fn parse_os_release(text: &str) -> (r: Distro)
    ensures
        r == classified(text@),
{
    let ls = text::split_lines(text);
    let id = field(&ls, "ID");
    let like = text::split_words(&field(&ls, "ID_LIKE"));
    let ghost all = seq![id@] + views(like@);
    proof {
        assert(all.skip(1) =~= views(like@));
    }
    if let Some(d) = distro_by_name(&id) {
        return d;
    }
    let mut i: usize = 0;
    while i < like.len()
        invariant
            i <= like.len(),
            all == seq![id@] + views(like@),
            first_distro(all.skip(i + 1)) == first_distro(all),
            first_distro(all) == classified(text@),
        decreases like.len() - i,
    {
        proof {
            assert(all.skip(i + 1)[0] == like@[i as int]@);
            assert(all.skip(i + 1).skip(1) =~= all.skip(i + 2));
        }
        if let Some(d) = distro_by_name(&like[i]) {
            return d;
        }
        i += 1;
    }
    proof {
        assert(all.skip(i + 1) =~= Seq::<Seq<char>>::empty());
    }
    Distro::Other
}

/// This host's distribution: NixOS by its marker file, others by `/etc/os-release`.
pub fn distro(nixos_marker: bool, os_release: Option<&str>) -> (r: Distro)
    ensures
        r == (if nixos_marker {
            Distro::NixOs
        } else {
            match os_release {
                Some(t) => classified(t@),
                None => Distro::Other,
            }
        }),
{
    if nixos_marker {
        return Distro::NixOs;
    }
    match os_release {
        Some(t) => parse_os_release(t),
        None => Distro::Other,
    }
}

const NIXOS_FIX: &'static str = "add to configuration.nix: services.avahi = { enable = true; openFirewall = true; publish = { enable = true; userServices = true; }; }; then `sudo nixos-rebuild switch`";

/// The daemon advertises once, at its start, so every fix of the responder ends with this.
const RESTART: &'static str = ", then `dialf service restart`";

/// How to get a responder on a distribution.
pub open spec fn avahi_install(d: Distro) -> Seq<char> {
    match d {
        Distro::NixOs => "add to configuration.nix: services.avahi = { enable = true; openFirewall = true; publish = { enable = true; userServices = true; }; }; then `sudo nixos-rebuild switch`"@,
        Distro::Debian => "sudo apt install avahi-daemon avahi-utils && sudo systemctl enable --now avahi-daemon"@,
        Distro::Arch => "sudo pacman -S avahi && sudo systemctl enable --now avahi-daemon"@,
        Distro::Fedora => "sudo dnf install avahi-tools && sudo systemctl enable --now avahi-daemon"@,
        Distro::Suse => "sudo zypper install avahi-utils && sudo systemctl enable --now avahi-daemon"@,
        Distro::Other => "install avahi (the daemon plus the `avahi-publish` tool) and start avahi-daemon"@,
    }
}

/// How to get a working `avahi-publish`: the tool and a running daemon that it can talk to.
pub fn avahi_install_fix(d: Distro) -> (r: String)
    ensures
        r@ == avahi_install(d) + ", then `dialf service restart`"@,
{
    let fix = match d {
        Distro::NixOs => NIXOS_FIX,
        Distro::Debian => "sudo apt install avahi-daemon avahi-utils && sudo systemctl enable --now avahi-daemon",
        Distro::Arch => "sudo pacman -S avahi && sudo systemctl enable --now avahi-daemon",
        Distro::Fedora => "sudo dnf install avahi-tools && sudo systemctl enable --now avahi-daemon",
        Distro::Suse => "sudo zypper install avahi-utils && sudo systemctl enable --now avahi-daemon",
        Distro::Other => "install avahi (the daemon plus the `avahi-publish` tool) and start avahi-daemon",
    };
    text::cat(fix, RESTART)
}

/// The cause and the fix behind what `avahi-publish` said when it stopped.
pub open spec fn avahi_cause(said: Seq<char>, d: Distro) -> FindingModel {
    if contains_text(said, "Daemon not running"@) {
        FindingModel {
            problem: "avahi-daemon is not running, so dialfd cannot advertise itself over mDNS and phones cannot discover it"@,
            fix: match d {
                Distro::NixOs => avahi_install(d),
                Distro::Other => "start avahi-daemon"@,
                _ => "sudo systemctl enable --now avahi-daemon"@,
            },
        }
    } else if contains_text(said, "Not permitted"@) || contains_text(said, "Access denied"@) {
        FindingModel {
            problem: "avahi-daemon refuses to publish services for non-root users, so phones cannot discover dialfd"@,
            fix: match d {
                Distro::NixOs => "set services.avahi.publish = { enable = true; userServices = true; }; then `sudo nixos-rebuild switch`"@,
                _ => "in /etc/avahi/avahi-daemon.conf under [publish] set disable-publishing=no and disable-user-service-publishing=no, then sudo systemctl restart avahi-daemon"@,
            },
        }
    } else {
        FindingModel {
            problem: "avahi-publish stopped, so phones cannot discover dialfd: "@ + (if said.len()
                == 0 {
                "(it printed nothing)"@
            } else {
                said
            }),
            fix: "check `systemctl status avahi-daemon`"@,
        }
    }
}

/// Turns what `avahi-publish` said on its way out into a cause and a fix.
pub fn avahi_failure(stderr: &str, d: Distro) -> (r: Finding)
    ensures
        r.problem@ == avahi_cause(trimmed(stderr@), d).problem,
        r.fix@ == avahi_cause(trimmed(stderr@), d).fix + ", then `dialf service restart`"@,
{
    let said = text::trim(stderr);
    let (problem, fix) = if text::contains(said, "Daemon not running") {
        (
            "avahi-daemon is not running, so dialfd cannot advertise itself over mDNS and phones cannot discover it".to_owned(),
            match d {
                Distro::NixOs => NIXOS_FIX,
                Distro::Other => "start avahi-daemon",
                _ => "sudo systemctl enable --now avahi-daemon",
            },
        )
    } else if text::contains(said, "Not permitted") || text::contains(said, "Access denied") {
        (
            "avahi-daemon refuses to publish services for non-root users, so phones cannot discover dialfd".to_owned(),
            match d {
                Distro::NixOs => "set services.avahi.publish = { enable = true; userServices = true; }; then `sudo nixos-rebuild switch`",
                _ => "in /etc/avahi/avahi-daemon.conf under [publish] set disable-publishing=no and disable-user-service-publishing=no, then sudo systemctl restart avahi-daemon",
            },
        )
    } else {
        (
            text::cat(
                "avahi-publish stopped, so phones cannot discover dialfd: ",
                if said.is_empty() {
                    "(it printed nothing)"
                } else {
                    said
                },
            ),
            "check `systemctl status avahi-daemon`",
        )
    };
    Finding { problem, fix: text::cat(fix, RESTART) }
}

// ---------------------------------------------------------------------------
// Firewalls
// ---------------------------------------------------------------------------

/// Whether a port is let in by a rule set.
#[derive(Debug, Clone, PartialEq, Eq)]
pub enum Open {
    Yes,
    /// Only on these interfaces: usually those of a private network, where the phone is not.
    OnlyOn(Vec<String>),
    No,
    /// The rules could not be read.
    Unknown,
}

/// An [`Open`] with its texts as characters.
pub enum OpenModel {
    Yes,
    OnlyOn(Seq<Seq<char>>),
    No,
    Unknown,
}

impl View for Open {
    type V = OpenModel;

    open spec fn view(&self) -> OpenModel {
        match *self {
            Open::Yes => OpenModel::Yes,
            Open::OnlyOn(v) => OpenModel::OnlyOn(views(v@)),
            Open::No => OpenModel::No,
            Open::Unknown => OpenModel::Unknown,
        }
    }
}

/// What a port's state means, phrased for a person; none where there is nothing to report.
pub open spec fn blocked_text(
    what: Seq<char>,
    proto: Seq<char>,
    port: u16,
    fw: Seq<char>,
    open: OpenModel,
) -> Option<Seq<char>> {
    let subject = proto + " "@ + decimal(port as nat) + " ("@ + what + ")"@;
    match open {
        OpenModel::Yes => None,
        OpenModel::No => Some("the "@ + fw + " firewall blocks "@ + subject),
        OpenModel::OnlyOn(ifs) => Some(
            "the "@ + fw + " firewall allows "@ + subject + " only on "@ + joined(ifs, ", "@)
                + " — not on the network the phone is on"@,
        ),
        OpenModel::Unknown => Some(
            "the "@ + fw + " firewall is active and may block "@ + subject
                + "; its rules could not be read without root"@,
        ),
    }
}

fn blocked(what: &str, proto: &str, port: u16, fw: &str, open: &Open) -> (r: Option<String>)
    ensures
        text::opt_view(r) == blocked_text(what@, proto@, port, fw@, open@),
{
    let mut subject = text::cat3(proto, " ", &text::decimal_of(port as u64));
    subject.append(" (");
    subject.append(what);
    subject.append(")");
    let mut s = text::cat("the ", fw);
    match open {
        Open::Yes => None,
        Open::No => {
            s.append(" firewall blocks ");
            s.append(&subject);
            Some(s)
        },
        Open::OnlyOn(ifs) => {
            proof {
                assert(open@ == OpenModel::OnlyOn(views(ifs@)));
            }
            s.append(" firewall allows ");
            s.append(&subject);
            s.append(" only on ");
            s.append(&text::join(ifs, ", "));
            s.append(" — not on the network the phone is on");
            Some(s)
        },
        Open::Unknown => {
            s.append(" firewall is active and may block ");
            s.append(&subject);
            s.append("; its rules could not be read without root");
            Some(s)
        },
    }
}

/// The finding for a problem, if there is one.
pub open spec fn finding_for(problem: Option<Seq<char>>, fix: Seq<char>) -> Seq<FindingModel> {
    match problem {
        Some(p) => seq![FindingModel { problem: p, fix }],
        None => Seq::empty(),
    }
}

/// The findings about the two ports behind a firewall: that of the phone's connection, and that
/// of its discovery.
pub open spec fn port_findings(
    ws_port: u16,
    fw: Seq<char>,
    tcp: OpenModel,
    udp: OpenModel,
    tcp_fix: Seq<char>,
    udp_fix: Seq<char>,
) -> Seq<FindingModel> {
    finding_for(
        blocked_text("the phone's connection to dialfd"@, "TCP"@, ws_port, fw, tcp),
        tcp_fix,
    ) + finding_for(
        blocked_text("mDNS, how the phone discovers dialfd"@, "UDP"@, MDNS_PORT, fw, udp),
        udp_fix,
    )
}

fn list_findings(
    ws_port: u16,
    fw: &str,
    tcp: &Open,
    udp: &Open,
    tcp_fix: String,
    udp_fix: String,
) -> (r: Vec<Finding>)
    ensures
        found(r@) == port_findings(ws_port, fw@, tcp@, udp@, tcp_fix@, udp_fix@),
{
    let mut out: Vec<Finding> = Vec::new();
    if let Some(problem) = blocked("the phone's connection to dialfd", "TCP", ws_port, fw, tcp) {
        out.push(Finding { problem, fix: tcp_fix });
    }
    if let Some(problem) = blocked(
        "mDNS, how the phone discovers dialfd",
        "UDP",
        MDNS_PORT,
        fw,
        udp,
    ) {
        out.push(Finding { problem, fix: udp_fix });
    }
    proof {
        assert(found(out@) =~= port_findings(ws_port, fw@, tcp@, udp@, tcp_fix@, udp_fix@));
    }
    out
}

/// The decimal digits of the mDNS port.
pub open spec fn mdns_digits() -> Seq<char> {
    decimal(MDNS_PORT as nat)
}

/// The findings behind the firewall of NixOS.
pub fn nixos_findings(ws_port: u16, tcp: Open, udp: Open) -> (r: Vec<Finding>)
    ensures
        found(r@) == port_findings(
            ws_port,
            "NixOS"@,
            tcp@,
            udp@,
            "add to configuration.nix: networking.firewall.allowedTCPPorts = [ "@ + decimal(
                ws_port as nat,
            ) + " ]; then `sudo nixos-rebuild switch`"@,
            avahi_install(Distro::NixOs) + ", then `dialf service restart`"@,
        ),
{
    let tcp_fix = text::cat3(
        "add to configuration.nix: networking.firewall.allowedTCPPorts = [ ",
        &text::decimal_of(ws_port as u64),
        " ]; then `sudo nixos-rebuild switch`",
    );
    list_findings(ws_port, "NixOS", &tcp, &udp, tcp_fix, avahi_install_fix(Distro::NixOs))
}

/// The findings behind ufw.
pub fn ufw_findings(ws_port: u16, tcp: Open, udp: Open) -> (r: Vec<Finding>)
    ensures
        found(r@) == port_findings(
            ws_port,
            "ufw"@,
            tcp@,
            udp@,
            "sudo ufw allow "@ + decimal(ws_port as nat) + "/tcp"@,
            "sudo ufw allow "@ + mdns_digits() + "/udp"@,
        ),
{
    let tcp_fix = text::cat3("sudo ufw allow ", &text::decimal_of(ws_port as u64), "/tcp");
    let udp_fix = text::cat3("sudo ufw allow ", &text::decimal_of(MDNS_PORT as u64), "/udp");
    list_findings(ws_port, "ufw", &tcp, &udp, tcp_fix, udp_fix)
}

/// How to add a rule to the nftables configuration.
pub open spec fn nft_fix(proto: Seq<char>, port: u16) -> Seq<char> {
    "add `"@ + proto + " dport "@ + decimal(port as nat)
        + " accept` to the input chain in /etc/nftables.conf, then sudo systemctl reload nftables"@
}

fn nft_fix_text(proto: &str, port: u16) -> (r: String)
    ensures
        r@ == nft_fix(proto@, port),
{
    let mut s = text::cat3("add `", proto, " dport ");
    s.append(&text::decimal_of(port as u64));
    s.append(
        " accept` to the input chain in /etc/nftables.conf, then sudo systemctl reload nftables",
    );
    s
}

/// The findings behind nftables.
pub fn nft_findings(ws_port: u16, tcp: Open, udp: Open) -> (r: Vec<Finding>)
    ensures
        found(r@) == port_findings(
            ws_port,
            "nftables"@,
            tcp@,
            udp@,
            nft_fix("tcp"@, ws_port),
            nft_fix("udp"@, MDNS_PORT),
        ),
{
    list_findings(
        ws_port,
        "nftables",
        &tcp,
        &udp,
        nft_fix_text("tcp", ws_port),
        nft_fix_text("udp", MDNS_PORT),
    )
}

/// How to add a rule to the iptables rules.
pub open spec fn iptables_fix(proto: Seq<char>, port: u16) -> Seq<char> {
    "add `-A INPUT -p "@ + proto + " --dport "@ + decimal(port as nat)
        + " -j ACCEPT` to /etc/iptables/iptables.rules, then sudo systemctl restart iptables"@
}

fn iptables_fix_text(proto: &str, port: u16) -> (r: String)
    ensures
        r@ == iptables_fix(proto@, port),
{
    let mut s = text::cat3("add `-A INPUT -p ", proto, " --dport ");
    s.append(&text::decimal_of(port as u64));
    s.append(" -j ACCEPT` to /etc/iptables/iptables.rules, then sudo systemctl restart iptables");
    s
}

/// The findings behind iptables.
pub fn iptables_findings(ws_port: u16, tcp: Open, udp: Open) -> (r: Vec<Finding>)
    ensures
        found(r@) == port_findings(
            ws_port,
            "iptables"@,
            tcp@,
            udp@,
            iptables_fix("tcp"@, ws_port),
            iptables_fix("udp"@, MDNS_PORT),
        ),
{
    list_findings(
        ws_port,
        "iptables",
        &tcp,
        &udp,
        iptables_fix_text("tcp", ws_port),
        iptables_fix_text("udp", MDNS_PORT),
    )
}

/// What follows `path=` in the first word that starts with it.
pub open spec fn exec_path(ws: Seq<Seq<char>>) -> Option<Seq<char>>
    decreases ws.len(),
{
    if ws.len() == 0 {
        None
    } else {
        match after_prefix(ws[0], "path="@) {
            Some(p) => Some(p),
            None => exec_path(ws.skip(1)),
        }
    }
}

/// The path in what systemd shows of a unit's command: `{ path=… ; argv[]=… }`.
pub fn parse_exec_start_path(s: &str) -> (r: Option<String>)
    ensures
        text::opt_view(r) == exec_path(words(s@)),
{
    let ws = text::split_words(s);
    let ghost all = views(ws@);
    let mut i: usize = 0;
    proof {
        assert(all.skip(0) =~= all);
    }
    while i < ws.len()
        invariant
            i <= ws.len(),
            all == views(ws@),
            all == words(s@),
            exec_path(all.skip(i as int)) == exec_path(all),
        decreases ws.len() - i,
    {
        proof {
            assert(all.skip(i as int)[0] == ws@[i as int]@);
            assert(all.skip(i as int).skip(1) =~= all.skip(i + 1));
        }
        if let Some(p) = text::strip_prefix(&ws[i], "path=") {
            return Some(p.to_owned());
        }
        i += 1;
    }
    proof {
        assert(all.skip(i as int) =~= Seq::<Seq<char>>::empty());
    }
    None
}

/// Where a range's two ends part: the first `:` or `-`.
pub open spec fn range_at(s: Seq<char>) -> nat {
    let a = first_at(s, ':');
    let b = first_at(s, '-');
    if a < b {
        a
    } else {
        b
    }
}

/// Whether one part of a port list covers a port: a port, or a range of ports.
pub open spec fn part_covers(part: Seq<char>, port: u16) -> bool {
    let k = range_at(part) as int;
    if k < part.len() {
        match (parsed_up_to(part.take(k), 65535), parsed_up_to(part.skip(k + 1), 65535)) {
            (Some(lo), Some(hi)) => lo <= port <= hi,
            _ => false,
        }
    } else {
        parsed_up_to(part, 65535) == Some(port as nat)
    }
}

/// Whether a port list covers a port: `8765`, `8000:9000`, `8000-9000`, or several with commas.
pub open spec fn list_covers(spec_text: Seq<char>, port: u16) -> bool {
    exists|i: int|
        0 <= i < pieces(spec_text, ',').len() && part_covers(
            trimmed(#[trigger] pieces(spec_text, ',')[i]),
            port,
        )
}

fn part_covers_port(part: &str, port: u16) -> (r: bool)
    ensures
        r == part_covers(part@, port),
{
    let a: usize = text::index_of(part, ':');
    let b: usize = text::index_of(part, '-');
    let k: usize = if a < b {
        a
    } else {
        b
    };
    let n: usize = part.unicode_len();
    if k < n {
        proof {
            assert(part@.subrange(0, k as int) =~= part@.take(k as int));
            assert(part@.subrange(k + 1, n as int) =~= part@.skip(k + 1));
        }
        match (
            text::parse_u16(part.substring_char(0, k)),
            text::parse_u16(part.substring_char(k + 1, n)),
        ) {
            (Some(lo), Some(hi)) => lo <= port && port <= hi,
            _ => false,
        }
    } else {
        match text::parse_u16(part) {
            Some(p) => p == port,
            None => false,
        }
    }
}

/// Whether a port list covers a port.
pub fn ports_cover(spec_text: &str, port: u16) -> (r: bool)
    ensures
        r == list_covers(spec_text@, port),
{
    let parts = text::split(spec_text, ',');
    let ghost all = pieces(spec_text@, ',');
    let mut i: usize = 0;
    while i < parts.len()
        invariant
            i <= parts.len(),
            views(parts@) == all,
            all == pieces(spec_text@, ','),
            forall|j: int| 0 <= j < i ==> !part_covers(trimmed(#[trigger] all[j]), port),
        decreases parts.len() - i,
    {
        proof {
            assert(all[i as int] == parts@[i as int]@);
        }
        if part_covers_port(text::trim(&parts[i]), port) {
            return true;
        }
        i += 1;
    }
    false
}

/// What stands behind a flag in a rule.
pub open spec fn arg_of(t: Seq<Seq<char>>, flag: Seq<char>) -> Option<Seq<char>> {
    let i = first_of(t, flag) as int;
    if i + 1 < t.len() {
        Some(t[i + 1])
    } else {
        None
    }
}

fn arg<'a>(t: &'a Vec<String>, flag: &str) -> (r: Option<&'a String>)
    ensures
        (match r {
            Some(s) => Some(s@),
            None => None,
        }) == arg_of(views(t@), flag@),
{
    let mut i: usize = 0;
    while i < t.len() && !text::same(&t[i], flag)
        invariant
            i <= t.len(),
            forall|j: int| 0 <= j < i ==> views(t@)[j] != flag@,
        decreases t.len() - i,
    {
        i += 1;
    }
    proof {
        table::lemma_first_of(views(t@), flag@, i as int);
    }
    if i < t.len() && i + 1 < t.len() {
        Some(&t[i + 1])
    } else {
        None
    }
}

/// What one line of an iptables rule list says of a port.
pub enum RuleSays {
    Nothing,
    Open,
    OpenOn(Seq<char>),
}

/// Whether a rule names a source or a destination, under any of the spellings of iptables.
pub open spec fn is_addressed(t: Seq<Seq<char>>) -> bool {
    ||| t.contains("-s"@) || t.contains("--source"@) || t.contains("--src"@)
    ||| t.contains("-d"@) || t.contains("--destination"@) || t.contains("--dst"@)
}

/// Whether a rule is narrowed to some traffic: by its source, destination, state or the like. Such
/// a rule does not open a port to an arbitrary phone.
pub open spec fn is_narrowed(t: Seq<Seq<char>>) -> bool {
    is_addressed(t) || t.contains("--ctstate"@) || t.contains("--state"@) || t.contains(
        "--icmp-type"@,
    ) || t.contains("--sport"@)
}

/// Whether a rule's protocol and ports match.
pub open spec fn rule_matches(t: Seq<Seq<char>>, proto: Seq<char>, port: u16) -> bool {
    let dports = match arg_of(t, "--dport"@) {
        Some(p) => Some(p),
        None => arg_of(t, "--dports"@),
    };
    match (arg_of(t, "-p"@), dports) {
        (None, None) => true,
        (Some(p), None) => p == proto,
        (None, Some(list)) => list_covers(list, port),
        (Some(p), Some(list)) => p == proto && list_covers(list, port),
    }
}

/// What one line of an iptables rule list says of a port: the chain's policy, or a rule that
/// sends matching traffic to the accepting target, possibly on one interface only.
pub open spec fn rule_says(
    t: Seq<Seq<char>>,
    chain: Seq<char>,
    target: Seq<char>,
    proto: Seq<char>,
    port: u16,
) -> RuleSays {
    if t.len() > 0 && after_prefix(t[0], ":"@) == Some(chain) {
        if t.len() > 1 && t[1] == "ACCEPT"@ {
            RuleSays::Open
        } else {
            RuleSays::Nothing
        }
    } else if arg_of(t, "-A"@) != Some(chain) || arg_of(t, "-j"@) != Some(target) {
        RuleSays::Nothing
    } else if is_narrowed(t) || !rule_matches(t, proto, port) {
        RuleSays::Nothing
    } else {
        match arg_of(t, "-i"@) {
            None => RuleSays::Open,
            Some(i) => if i == "lo"@ {
                RuleSays::Nothing
            } else {
                RuleSays::OpenOn(i)
            },
        }
    }
}

/// What an iptables rule list says of a port, from some line on. `only_on` are the interfaces on
/// which earlier lines open it.
pub open spec fn rules_say(
    ls: Seq<Seq<char>>,
    only_on: Seq<Seq<char>>,
    chain: Seq<char>,
    target: Seq<char>,
    proto: Seq<char>,
    port: u16,
) -> OpenModel
    decreases ls.len(),
{
    if ls.len() == 0 {
        if only_on.len() == 0 {
            OpenModel::No
        } else {
            OpenModel::OnlyOn(only_on)
        }
    } else {
        match rule_says(words(ls[0]), chain, target, proto, port) {
            RuleSays::Nothing => rules_say(ls.skip(1), only_on, chain, target, proto, port),
            RuleSays::Open => OpenModel::Yes,
            RuleSays::OpenOn(i) => rules_say(
                ls.skip(1),
                if only_on.contains(i) {
                    only_on
                } else {
                    only_on.push(i)
                },
                chain,
                target,
                proto,
                port,
            ),
        }
    }
}

enum Says {
    Nothing,
    Open,
    OpenOn(String),
}

fn is_chain_policy(first: &str, chain: &str) -> (r: bool)
    ensures
        r == (after_prefix(first@, ":"@) == Some(chain@)),
{
    match text::strip_prefix(first, ":") {
        Some(rest) => text::same(rest, chain),
        None => false,
    }
}

fn is_arg(a: Option<&String>, want: &str) -> (r: bool)
    ensures
        r == (a is Some && a->0@ == want@),
{
    match a {
        Some(s) => text::same(s, want),
        None => false,
    }
}

fn names_address(t: &Vec<String>) -> (r: bool)
    ensures
        r == is_addressed(views(t@)),
{
    text::holds(t, "-s") || text::holds(t, "--source") || text::holds(t, "--src") || text::holds(
        t,
        "-d",
    ) || text::holds(t, "--destination") || text::holds(t, "--dst")
}

fn says_of_rule(t: &Vec<String>, chain: &str, target: &str, proto: &str, port: u16) -> (r: Says)
    ensures
        (match r {
            Says::Nothing => RuleSays::Nothing,
            Says::Open => RuleSays::Open,
            Says::OpenOn(i) => RuleSays::OpenOn(i@),
        }) == rule_says(views(t@), chain@, target@, proto@, port),
{
    let ghost all = views(t@);
    proof {
        assert(all.len() == t@.len());
    }
    if t.len() > 0 && is_chain_policy(&t[0], chain) {
        return if t.len() > 1 && text::same(&t[1], "ACCEPT") {
            Says::Open
        } else {
            Says::Nothing
        };
    }
    if !is_arg(arg(t, "-A"), chain) || !is_arg(arg(t, "-j"), target) {
        return Says::Nothing;
    }
    if names_address(t) || text::holds(t, "--ctstate") || text::holds(t, "--state") || text::holds(
        t,
        "--icmp-type",
    ) || text::holds(t, "--sport") {
        return Says::Nothing;
    }
    let dports = match arg(t, "--dport") {
        Some(p) => Some(p),
        None => arg(t, "--dports"),
    };
    let matching = match (arg(t, "-p"), dports) {
        (None, None) => true,
        (Some(p), None) => text::same(p, proto),
        (None, Some(list)) => ports_cover(list, port),
        (Some(p), Some(list)) => text::same(p, proto) && ports_cover(list, port),
    };
    if !matching {
        return Says::Nothing;
    }
    match arg(t, "-i") {
        None => Says::Open,
        Some(i) => if text::same(i, "lo") {
            Says::Nothing
        } else {
            Says::OpenOn(i.clone())
        },
    }
}

/// Whether an iptables rule list accepts a port into a chain.
pub fn iptables_open(rules: &str, chain: &str, target: &str, proto: &str, port: u16) -> (r: Open)
    ensures
        r@ == rules_say(lines(rules@), Seq::empty(), chain@, target@, proto@, port),
{
    let ls = text::split_lines(rules);
    let ghost all = lines(rules@);
    let mut only_on: Vec<String> = Vec::new();
    let mut i: usize = 0;
    proof {
        assert(all.skip(0) =~= all);
        assert(views(only_on@) =~= Seq::<Seq<char>>::empty());
    }
    while i < ls.len()
        invariant
            i <= ls.len(),
            views(ls@) == all,
            all == lines(rules@),
            rules_say(all.skip(i as int), views(only_on@), chain@, target@, proto@, port)
                == rules_say(lines(rules@), Seq::empty(), chain@, target@, proto@, port),
        decreases ls.len() - i,
    {
        proof {
            assert(all.skip(i as int)[0] == ls@[i as int]@);
            assert(all.skip(i as int).skip(1) =~= all.skip(i + 1));
        }
        let t = text::split_words(&ls[i]);
        match says_of_rule(&t, chain, target, proto, port) {
            Says::Nothing => {},
            Says::Open => {
                return Open::Yes;
            },
            Says::OpenOn(iface) => if !text::holds(&only_on, &iface) {
                proof {
                    text::lemma_views_push(only_on@, iface);
                }
                only_on.push(iface);
            },
        }
        i += 1;
    }
    proof {
        assert(all.skip(i as int) =~= Seq::<Seq<char>>::empty());
        assert(views(only_on@).len() == only_on@.len());
    }
    if only_on.len() == 0 {
        Open::No
    } else {
        Open::OnlyOn(only_on)
    }
}

/// Whether ufw is on and blocks what no rule allows: a permissive default policy blocks nothing,
/// whatever the rules say.
pub open spec fn ufw_blocks(conf: Option<Seq<char>>, defaults: Option<Seq<char>>) -> bool {
    &&& conf matches Some(c) && exists|i: int|
        0 <= i < lines(c).len() && small(trimmed(#[trigger] lines(c)[i])) == "enabled=yes"@
    &&& !(defaults matches Some(d) && contains_text(d, "DEFAULT_INPUT_POLICY=\"ACCEPT\""@))
}

/// Whether ufw is on and blocks what no rule allows, by its two configuration files.
pub fn ufw_enabled(conf: Option<&str>, defaults: Option<&str>) -> (r: bool)
    ensures
        r == ufw_blocks(crate::config::opt_text(conf), crate::config::opt_text(defaults)),
{
    let on = match conf {
        Some(c) => {
            let ls = text::split_lines(c);
            let ghost all = lines(c@);
            let mut on = false;
            let mut i: usize = 0;
            while i < ls.len()
                invariant
                    i <= ls.len(),
                    views(ls@) == all,
                    on <==> exists|j: int|
                        0 <= j < i && small(trimmed(#[trigger] all[j])) == "enabled=yes"@,
                decreases ls.len() - i,
            {
                proof {
                    assert(all[i as int] == ls@[i as int]@);
                }
                if text::same(&text::to_small(text::trim(&ls[i])), "enabled=yes") {
                    proof {
                        assert(small(trimmed(all[i as int])) == "enabled=yes"@);
                    }
                    on = true;
                }
                i += 1;
            }
            on
        },
        None => false,
    };
    let accepts_all = match defaults {
        Some(d) => text::contains(d, "DEFAULT_INPUT_POLICY=\"ACCEPT\""),
        None => false,
    };
    on && !accepts_all
}

/// Whether firewalld runs, by what it says of its state.
pub fn firewalld_running(state: &str) -> (r: bool)
    ensures
        r == (trimmed(state@) == "running"@),
{
    text::same(text::trim(state), "running")
}

/// Whether one entry of firewalld's port list, `ports/protocol`, covers a port.
pub open spec fn entry_covers(entry: Seq<char>, proto: Seq<char>, port: u16) -> bool {
    let k = first_at(entry, '/') as int;
    k < entry.len() && entry.skip(k + 1) == proto && list_covers(entry.take(k), port)
}

/// Whether firewalld's port list covers a port.
pub open spec fn listing_covers(ports: Seq<char>, proto: Seq<char>, port: u16) -> bool {
    exists|i: int|
        0 <= i < words(ports).len() && entry_covers(#[trigger] words(ports)[i], proto, port)
}

fn listing_has(ports: &Vec<String>, proto: &str, port: u16) -> (r: bool)
    ensures
        r == exists|i: int|
            0 <= i < views(ports@).len() && entry_covers(
                #[trigger] views(ports@)[i],
                proto@,
                port,
            ),
{
    let mut i: usize = 0;
    while i < ports.len()
        invariant
            i <= ports.len(),
            forall|j: int|
                0 <= j < i ==> !entry_covers(#[trigger] views(ports@)[j], proto@, port),
        decreases ports.len() - i,
    {
        let hit = match text::split_once(&ports[i], '/') {
            Some((list, pr)) => text::same(pr, proto) && ports_cover(list, port),
            None => false,
        };
        proof {
            assert(hit == entry_covers(views(ports@)[i as int], proto@, port));
        }
        if hit {
            return true;
        }
        i += 1;
    }
    false
}

/// The open state that a yes or no stands for.
pub open spec fn open_if(b: bool) -> OpenModel {
    if b {
        OpenModel::Yes
    } else {
        OpenModel::No
    }
}

/// The findings behind firewalld, from its lists of open ports and services.
pub fn firewalld_findings_from(ws_port: u16, zone: &str, ports: &str, services: &str) -> (r: Vec<
    Finding,
>)
    ensures
        found(r@) == port_findings(
            ws_port,
            "firewalld (zone "@ + zone@ + ")"@,
            open_if(listing_covers(ports@, "tcp"@, ws_port)),
            open_if(
                listing_covers(ports@, "udp"@, MDNS_PORT) || words(services@).contains("mdns"@),
            ),
            "sudo firewall-cmd --permanent --add-port="@ + decimal(ws_port as nat)
                + "/tcp && sudo firewall-cmd --reload"@,
            "sudo firewall-cmd --permanent --add-service=mdns && sudo firewall-cmd --reload"@,
        ),
{
    let ps = text::split_words(ports);
    let ss = text::split_words(services);
    let tcp = if listing_has(&ps, "tcp", ws_port) {
        Open::Yes
    } else {
        Open::No
    };
    let udp = if listing_has(&ps, "udp", MDNS_PORT) || text::holds(&ss, "mdns") {
        Open::Yes
    } else {
        Open::No
    };
    let fw = text::cat3("firewalld (zone ", zone, ")");
    let tcp_fix = text::cat3(
        "sudo firewall-cmd --permanent --add-port=",
        &text::decimal_of(ws_port as u64),
        "/tcp && sudo firewall-cmd --reload",
    );
    let udp_fix =
        "sudo firewall-cmd --permanent --add-service=mdns && sudo firewall-cmd --reload".to_owned();
    list_findings(ws_port, &fw, &tcp, &udp, tcp_fix, udp_fix)
}

/// The port that a word of an nftables rule names.
pub open spec fn nft_port(w: Seq<char>) -> Option<nat> {
    if w == "mdns"@ {
        Some(MDNS_PORT as nat)
    } else {
        parsed_up_to(w, 65535)
    }
}

/// Whether a word of an nftables rule covers a port: a port, or a range of ports.
pub open spec fn nft_word_covers(w: Seq<char>, port: u16) -> bool {
    let k = first_at(w, '-') as int;
    if k < w.len() {
        match (nft_port(w.take(k)), nft_port(w.skip(k + 1))) {
            (Some(lo), Some(hi)) => lo <= port <= hi,
            _ => false,
        }
    } else {
        nft_port(w) == Some(port as nat)
    }
}

/// What stands before a line's comment.
pub open spec fn uncommented(line: Seq<char>) -> Seq<char> {
    line.take(first_at(line, '#') as int)
}

/// What an nftables rule names behind `dport`: for the protocol, or for both protocols.
pub open spec fn nft_dport(line: Seq<char>, proto: Seq<char>) -> Option<Seq<char>> {
    match after_text(line, proto + " dport"@) {
        Some(rest) => Some(rest),
        None => after_text(line, "th dport"@),
    }
}

/// The ports that an nftables rule names, without braces and commas.
pub open spec fn nft_words(rest: Seq<char>) -> Seq<Seq<char>> {
    pieces(
        char_replaced(
            char_replaced(char_replaced(before_text(rest, "accept"@), '{', ' '), '}', ' '),
            ',',
            ' ',
        ),
        ' ',
    )
}

/// Whether one of the words, other than an empty one, covers a port.
pub open spec fn nft_names(ws: Seq<Seq<char>>, port: u16) -> bool {
    exists|i: int| 0 <= i < ws.len() && ws[i].len() > 0 && nft_word_covers(#[trigger] ws[i], port)
}

/// Whether a line of an nftables configuration accepts a port.
pub open spec fn nft_line_opens(raw: Seq<char>, proto: Seq<char>, port: u16) -> bool {
    let line = uncommented(raw);
    contains_text(line, "accept"@) && match nft_dport(line, proto) {
        Some(rest) => nft_names(nft_words(rest), port),
        None => false,
    }
}

/// Whether a line of an nftables configuration holds a statement that drops or rejects. A chain's
/// policy is no statement, and a comment holds none.
pub open spec fn nft_line_blocks(raw: Seq<char>) -> bool {
    let l = trimmed(uncommented(raw));
    ||| l == "drop"@
    ||| l == "reject"@
    ||| " drop"@.is_suffix_of(l) && !"policy drop"@.is_suffix_of(l)
    ||| contains_text(l, " reject"@)
}

/// The words of an nftables configuration, without its comments.
pub open spec fn nft_vocabulary(ls: Seq<Seq<char>>) -> Seq<Seq<char>>
    decreases ls.len(),
{
    if ls.len() == 0 {
        Seq::empty()
    } else {
        nft_vocabulary(ls.drop_last()) + words(uncommented(ls.last()))
    }
}

/// Whether the chain that the words end in filters what comes in: the last hook that they name is
/// `input`. A chain whose hook is not named counts as one.
pub open spec fn nft_input_chain(ws: Seq<Seq<char>>) -> bool
    decreases ws.len(),
{
    if ws.len() < 2 {
        true
    } else if ws[ws.len() - 2] == "hook"@ {
        "input"@.is_prefix_of(ws.last())
    } else {
        nft_input_chain(ws.drop_last())
    }
}

/// Whether the word at `k` begins a chain's policy to drop what comes in.
pub open spec fn nft_policy_at(ws: Seq<Seq<char>>, k: int) -> bool {
    &&& 0 <= k < ws.len() - 1
    &&& "policy"@.is_suffix_of(ws[k])
    &&& "drop"@.is_prefix_of(ws[k + 1])
    &&& nft_input_chain(ws.take(k))
}

/// Whether some chain's policy drops what comes in.
pub open spec fn nft_drops_input(ws: Seq<Seq<char>>) -> bool {
    exists|k: int| nft_policy_at(ws, k)
}

/// Whether an nftables configuration lets a port in: some line accepts it, or no policy drops what
/// comes in and no statement drops or rejects.
pub open spec fn nft_lets_in(conf: Seq<char>, proto: Seq<char>, port: u16) -> bool {
    ||| exists|i: int| 0 <= i < lines(conf).len() && nft_line_opens(#[trigger] lines(conf)[i], proto, port)
    ||| !nft_drops_input(nft_vocabulary(lines(conf))) && !exists|i: int|
        0 <= i < lines(conf).len() && nft_line_blocks(#[trigger] lines(conf)[i])
}

fn nft_port_of(w: &str) -> (r: Option<u16>)
    ensures
        (match r {
            Some(n) => Some(n as nat),
            None => None,
        }) == nft_port(w@),
{
    if text::same(w, "mdns") {
        Some(MDNS_PORT)
    } else {
        text::parse_u16(w)
    }
}

fn nft_covers(w: &str, port: u16) -> (r: bool)
    ensures
        r == nft_word_covers(w@, port),
{
    match text::split_once(w, '-') {
        Some((lo, hi)) => match (nft_port_of(lo), nft_port_of(hi)) {
            (Some(lo), Some(hi)) => lo <= port && port <= hi,
            _ => false,
        },
        None => match nft_port_of(w) {
            Some(p) => p == port,
            None => false,
        },
    }
}

fn nft_opens(raw: &str, proto: &str, port: u16) -> (r: bool)
    ensures
        r == nft_line_opens(raw@, proto@, port),
{
    let line = text::before_char(raw, '#');
    if !text::contains(line, "accept") {
        return false;
    }
    let rest = match text::after(line, &text::cat(proto, " dport")) {
        Some(rest) => rest,
        None => match text::after(line, "th dport") {
            Some(rest) => rest,
            None => {
                return false;
            },
        },
    };
    let named = text::before(&rest, "accept");
    let named = text::replace_char(&named, '{', ' ');
    let named = text::replace_char(&named, '}', ' ');
    let named = text::replace_char(&named, ',', ' ');
    let ws = text::split(&named, ' ');
    let ghost all = nft_words(rest@);
    proof {
        assert(views(ws@) == all);
    }
    let mut i: usize = 0;
    while i < ws.len()
        invariant
            i <= ws.len(),
            views(ws@) == all,
            all == nft_words(rest@),
            nft_dport(line@, proto@) == Some(rest@),
            line@ == uncommented(raw@),
            contains_text(line@, "accept"@),
            forall|j: int|
                0 <= j < i ==> !(all[j].len() > 0 && nft_word_covers(#[trigger] all[j], port)),
        decreases ws.len() - i,
    {
        proof {
            assert(all[i as int] == ws@[i as int]@);
        }
        if !ws[i].as_str().is_empty() && nft_covers(&ws[i], port) {
            proof {
                assert(nft_word_covers(all[i as int], port));
            }
            return true;
        }
        i += 1;
    }
    false
}

fn nft_blocks(raw: &str) -> (r: bool)
    ensures
        r == nft_line_blocks(raw@),
{
    let l = text::trim(text::before_char(raw, '#'));
    text::same(l, "drop") || text::same(l, "reject") || (text::ends_with(l, " drop")
        && !text::ends_with(l, "policy drop")) || text::contains(l, " reject")
}

/// The words of the configuration's lines.
fn nft_vocabulary_of(ls: &Vec<String>) -> (r: Vec<String>)
    ensures
        views(r@) == nft_vocabulary(views(ls@)),
{
    let mut ws: Vec<String> = Vec::new();
    let ghost all = views(ls@);
    let mut i: usize = 0;
    proof {
        assert(views(ws@) == nft_vocabulary(all.take(0)));
    }
    while i < ls.len()
        invariant
            i <= ls.len(),
            all == views(ls@),
            views(ws@) == nft_vocabulary(all.take(i as int)),
        decreases ls.len() - i,
    {
        let mut more = text::split_words(text::before_char(&ls[i], '#'));
        let ghost here = views(ws@);
        let ghost there = views(more@);
        ws.append(&mut more);
        i += 1;
        proof {
            assert(views(ws@) =~= here + there);
            assert(all.take(i as int).drop_last() =~= all.take(i - 1));
            assert(all.take(i as int).last() == ls@[i - 1]@);
        }
    }
    proof {
        assert(all.take(i as int) =~= all);
    }
    ws
}

fn nft_input_dropped(ws: &Vec<String>) -> (r: bool)
    ensures
        r == nft_drops_input(views(ws@)),
{
    let ghost all = views(ws@);
    let mut input = true;
    let mut k: usize = 0;
    while k < ws.len()
        invariant
            k <= ws.len(),
            all == views(ws@),
            input == nft_input_chain(all.take(k as int)),
            forall|j: int| 0 <= j < k ==> !nft_policy_at(all, j),
        decreases ws.len() - k,
    {
        proof {
            assert(all[k as int] == ws@[k as int]@);
            assert(k + 1 < ws.len() ==> all[k + 1] == ws@[k + 1]@);
        }
        if input && k + 1 < ws.len() && text::ends_with(&ws[k], "policy") && text::starts_with(
            &ws[k + 1],
            "drop",
        ) {
            proof {
                assert(nft_policy_at(all, k as int));
            }
            return true;
        }
        if k > 0 && text::same(&ws[k - 1], "hook") {
            input = text::starts_with(&ws[k], "input");
        }
        k += 1;
        proof {
            let here = all.take(k as int);
            assert(here.drop_last() =~= all.take(k - 1));
            assert(here.last() == all[k - 1]);
            assert(k >= 2 ==> here[k - 2] == ws@[k - 2]@);
        }
    }
    false
}

/// Whether an nftables configuration accepts a port. One that drops nothing blocks nothing,
/// however few ports it names.
pub fn nft_open(conf: &str, proto: &str, port: u16) -> (r: Open)
    ensures
        r@ == open_if(nft_lets_in(conf@, proto@, port)),
{
    let ls = text::split_lines(conf);
    let ghost all = lines(conf@);
    let mut blocks = false;
    let mut i: usize = 0;
    while i < ls.len()
        invariant
            i <= ls.len(),
            views(ls@) == all,
            all == lines(conf@),
            forall|j: int| 0 <= j < i ==> !nft_line_opens(#[trigger] all[j], proto@, port),
            blocks <==> exists|j: int| 0 <= j < i && nft_line_blocks(#[trigger] all[j]),
        decreases ls.len() - i,
    {
        proof {
            assert(all[i as int] == ls@[i as int]@);
        }
        if nft_opens(&ls[i], proto, port) {
            return Open::Yes;
        }
        if nft_blocks(&ls[i]) {
            proof {
                assert(nft_line_blocks(all[i as int]));
            }
            blocks = true;
        }
        i += 1;
    }
    let dropped = nft_input_dropped(&nft_vocabulary_of(&ls));
    if blocks || dropped {
        Open::No
    } else {
        Open::Yes
    }
}

/// Whether the macOS firewall is on, by what it says of its state.
pub open spec fn macos_on(global: Seq<char>) -> bool {
    contains_text(global, "enabled"@) || contains_text(global, "State = 1"@) || contains_text(
        global,
        "State = 2"@,
    )
}

/// How to let the program through the macOS firewall.
pub open spec fn macos_allow(exe: Seq<char>) -> Seq<char> {
    "sudo /usr/libexec/ApplicationFirewall/socketfilterfw --add '"@ + exe
        + "' && sudo /usr/libexec/ApplicationFirewall/socketfilterfw --unblockapp '"@ + exe
        + "' (repeat after every dialf upgrade: the path is versioned)"@
}

/// The findings behind the macOS firewall.
pub open spec fn macos_findings(
    exe: Seq<char>,
    global: Seq<char>,
    block_all: Seq<char>,
    app: Seq<char>,
) -> Seq<FindingModel> {
    if !macos_on(global) {
        Seq::empty()
    } else if contains_text(block_all, "enabled"@) && !contains_text(block_all, "disabled"@) {
        seq![
            FindingModel {
                problem: "the macOS firewall is set to block ALL incoming connections, so the phone cannot connect to dialfd"@,
                fix: "sudo /usr/libexec/ApplicationFirewall/socketfilterfw --setblockall off, then "@
                    + macos_allow(exe),
            },
        ]
    } else if contains_text(app, "permitted"@) {
        Seq::empty()
    } else if contains_text(app, "blocked"@) {
        seq![
            FindingModel {
                problem: "the macOS firewall blocks incoming connections to dialf, so the phone cannot connect"@,
                fix: macos_allow(exe),
            },
        ]
    } else {
        seq![
            FindingModel {
                problem: "the macOS firewall is on and dialf is not in its allow list; incoming phone connections may be refused"@,
                fix: macos_allow(exe),
            },
        ]
    }
}

/// Interprets the answers of the macOS firewall. The responder is always let through, so only the
/// phone's connection is at risk; the permission goes by the program's path, which every upgrade
/// changes.
pub fn macos_findings_from(exe: &str, global: &str, block_all: &str, app: &str) -> (r: Vec<
    Finding,
>)
    ensures
        found(r@) == macos_findings(exe@, global@, block_all@, app@),
{
    let mut out: Vec<Finding> = Vec::new();
    if !(text::contains(global, "enabled") || text::contains(global, "State = 1") || text::contains(
        global,
        "State = 2",
    )) {
        proof {
            assert(found(out@) =~= Seq::<FindingModel>::empty());
        }
        return out;
    }
    let mut allow = text::cat3(
        "sudo /usr/libexec/ApplicationFirewall/socketfilterfw --add '",
        exe,
        "' && sudo /usr/libexec/ApplicationFirewall/socketfilterfw --unblockapp '",
    );
    allow.append(exe);
    allow.append("' (repeat after every dialf upgrade: the path is versioned)");
    if text::contains(block_all, "enabled") && !text::contains(block_all, "disabled") {
        out.push(
            Finding {
                problem: "the macOS firewall is set to block ALL incoming connections, so the phone cannot connect to dialfd".to_owned(),
                fix: text::cat(
                    "sudo /usr/libexec/ApplicationFirewall/socketfilterfw --setblockall off, then ",
                    &allow,
                ),
            },
        );
    } else if !text::contains(app, "permitted") {
        let problem = if text::contains(app, "blocked") {
            "the macOS firewall blocks incoming connections to dialf, so the phone cannot connect".to_owned()
        } else {
            "the macOS firewall is on and dialf is not in its allow list; incoming phone connections may be refused".to_owned()
        };
        out.push(Finding { problem, fix: allow });
    }
    proof {
        assert(found(out@) =~= macos_findings(exe@, global@, block_all@, app@));
    }
    out
}

/// A host's firewall, with the rules that could be read of it.
#[derive(Debug)]
pub enum Firewall {
    /// The generated script of the NixOS firewall.
    NixOs { rules: Option<String> },
    /// NixOS with nftables, whose generated rules are not read.
    NixOsNft,
    /// The user rules of ufw.
    Ufw { rules: Option<String> },
    /// A running firewalld's default zone, with its lists.
    Firewalld { zone: String, ports: String, services: String },
    /// The configuration of nftables.
    Nft { conf: Option<String> },
    /// The rules of iptables.
    Iptables { rules: Option<String> },
    /// The answers of the macOS firewall.
    MacOs { exe: String, global: String, block_all: String, app: String },
    Absent,
}

/// What rules that may not have been readable say of a port.
pub open spec fn said_of_port(
    rules: Option<String>,
    chain: Seq<char>,
    target: Seq<char>,
    proto: Seq<char>,
    port: u16,
) -> OpenModel {
    match rules {
        Some(r) => rules_say(lines(r@), Seq::empty(), chain, target, proto, port),
        None => OpenModel::Unknown,
    }
}

fn open_by_rules(rules: &Option<String>, chain: &str, target: &str, proto: &str, port: u16) -> (r:
    Open)
    ensures
        r@ == said_of_port(*rules, chain@, target@, proto@, port),
{
    match rules {
        Some(t) => iptables_open(t, chain, target, proto, port),
        None => Open::Unknown,
    }
}

fn open_by_nft(conf: &Option<String>, proto: &str, port: u16) -> (r: Open)
    ensures
        r@ == (match *conf {
            Some(c) => open_if(nft_lets_in(c@, proto@, port)),
            None => OpenModel::Unknown,
        }),
{
    match conf {
        Some(c) => nft_open(c, proto, port),
        None => Open::Unknown,
    }
}

/// Everything that this host's firewall is known or likely to block for the phone: nothing where
/// there is none, or where it lets both ports through.
pub fn firewall_findings(ws_port: u16, fw: &Firewall) -> (r: Vec<Finding>)
    ensures
        found(r@) == (match *fw {
            Firewall::NixOs { rules } => port_findings(
                ws_port,
                "NixOS"@,
                said_of_port(rules, "nixos-fw"@, "nixos-fw-accept"@, "tcp"@, ws_port),
                said_of_port(rules, "nixos-fw"@, "nixos-fw-accept"@, "udp"@, MDNS_PORT),
                "add to configuration.nix: networking.firewall.allowedTCPPorts = [ "@ + decimal(
                    ws_port as nat,
                ) + " ]; then `sudo nixos-rebuild switch`"@,
                avahi_install(Distro::NixOs) + ", then `dialf service restart`"@,
            ),
            Firewall::NixOsNft => port_findings(
                ws_port,
                "NixOS"@,
                OpenModel::Unknown,
                OpenModel::Unknown,
                "add to configuration.nix: networking.firewall.allowedTCPPorts = [ "@ + decimal(
                    ws_port as nat,
                ) + " ]; then `sudo nixos-rebuild switch`"@,
                avahi_install(Distro::NixOs) + ", then `dialf service restart`"@,
            ),
            Firewall::Ufw { rules } => port_findings(
                ws_port,
                "ufw"@,
                said_of_port(rules, "ufw-user-input"@, "ACCEPT"@, "tcp"@, ws_port),
                said_of_port(rules, "ufw-user-input"@, "ACCEPT"@, "udp"@, MDNS_PORT),
                "sudo ufw allow "@ + decimal(ws_port as nat) + "/tcp"@,
                "sudo ufw allow "@ + mdns_digits() + "/udp"@,
            ),
            Firewall::Firewalld { zone, ports, services } => port_findings(
                ws_port,
                "firewalld (zone "@ + zone@ + ")"@,
                open_if(listing_covers(ports@, "tcp"@, ws_port)),
                open_if(
                    listing_covers(ports@, "udp"@, MDNS_PORT) || words(services@).contains(
                        "mdns"@,
                    ),
                ),
                "sudo firewall-cmd --permanent --add-port="@ + decimal(ws_port as nat)
                    + "/tcp && sudo firewall-cmd --reload"@,
                "sudo firewall-cmd --permanent --add-service=mdns && sudo firewall-cmd --reload"@,
            ),
            Firewall::Nft { conf } => port_findings(
                ws_port,
                "nftables"@,
                match conf {
                    Some(c) => open_if(nft_lets_in(c@, "tcp"@, ws_port)),
                    None => OpenModel::Unknown,
                },
                match conf {
                    Some(c) => open_if(nft_lets_in(c@, "udp"@, MDNS_PORT)),
                    None => OpenModel::Unknown,
                },
                nft_fix("tcp"@, ws_port),
                nft_fix("udp"@, MDNS_PORT),
            ),
            Firewall::Iptables { rules } => port_findings(
                ws_port,
                "iptables"@,
                said_of_port(rules, "INPUT"@, "ACCEPT"@, "tcp"@, ws_port),
                said_of_port(rules, "INPUT"@, "ACCEPT"@, "udp"@, MDNS_PORT),
                iptables_fix("tcp"@, ws_port),
                iptables_fix("udp"@, MDNS_PORT),
            ),
            Firewall::MacOs { exe, global, block_all, app } => macos_findings(
                exe@,
                global@,
                block_all@,
                app@,
            ),
            Firewall::Absent => Seq::empty(),
        }),
{
    match fw {
        Firewall::NixOs { rules } => nixos_findings(
            ws_port,
            open_by_rules(rules, "nixos-fw", "nixos-fw-accept", "tcp", ws_port),
            open_by_rules(rules, "nixos-fw", "nixos-fw-accept", "udp", MDNS_PORT),
        ),
        Firewall::NixOsNft => nixos_findings(ws_port, Open::Unknown, Open::Unknown),
        Firewall::Ufw { rules } => ufw_findings(
            ws_port,
            open_by_rules(rules, "ufw-user-input", "ACCEPT", "tcp", ws_port),
            open_by_rules(rules, "ufw-user-input", "ACCEPT", "udp", MDNS_PORT),
        ),
        Firewall::Firewalld { zone, ports, services } => firewalld_findings_from(
            ws_port,
            zone,
            ports,
            services,
        ),
        Firewall::Nft { conf } => nft_findings(
            ws_port,
            open_by_nft(conf, "tcp", ws_port),
            open_by_nft(conf, "udp", MDNS_PORT),
        ),
        Firewall::Iptables { rules } => iptables_findings(
            ws_port,
            open_by_rules(rules, "INPUT", "ACCEPT", "tcp", ws_port),
            open_by_rules(rules, "INPUT", "ACCEPT", "udp", MDNS_PORT),
        ),
        Firewall::MacOs { exe, global, block_all, app } => macos_findings_from(
            exe,
            global,
            block_all,
            app,
        ),
        Firewall::Absent => {
            let out: Vec<Finding> = Vec::new();
            proof {
                assert(found(out@) =~= Seq::<FindingModel>::empty());
            }
            out
        },
    }
}

/// Which firewall of a Linux host counts, where several may be there.
#[derive(Debug, Clone, Copy, PartialEq, Eq, Structural)]
pub enum FirewallKind {
    NixOs,
    NixOsNft,
    Ufw,
    Firewalld,
    Nft,
    Iptables,
    Absent,
}

/// Decides which firewall of a Linux host counts.
pub fn pick_firewall(
    d: Distro,
    firewall_unit: bool,
    nft_unit: bool,
    ufw: bool,
    firewalld: bool,
    iptables_unit: bool,
) -> (r: FirewallKind)
    ensures
        r == (if firewall_unit && d == Distro::NixOs {
            FirewallKind::NixOs
        } else if nft_unit && d == Distro::NixOs {
            FirewallKind::NixOsNft
        } else if ufw {
            FirewallKind::Ufw
        } else if firewalld {
            FirewallKind::Firewalld
        } else if nft_unit {
            FirewallKind::Nft
        } else if iptables_unit {
            FirewallKind::Iptables
        } else {
            FirewallKind::Absent
        }),
{
    if firewall_unit && d == Distro::NixOs {
        FirewallKind::NixOs
    } else if nft_unit && d == Distro::NixOs {
        FirewallKind::NixOsNft
    } else if ufw {
        FirewallKind::Ufw
    } else if firewalld {
        FirewallKind::Firewalld
    } else if nft_unit {
        FirewallKind::Nft
    } else if iptables_unit {
        FirewallKind::Iptables
    } else {
        FirewallKind::Absent
    }
}

// ---------------------------------------------------------------------------
// Report
// ---------------------------------------------------------------------------

/// One fix and every problem that it solves.
#[derive(Debug, PartialEq, Eq)]
pub struct Step {
    pub problems: Vec<String>,
    pub fix: String,
}

/// A [`Step`] with its texts as characters.
pub struct StepModel {
    pub problems: Seq<Seq<char>>,
    pub fix: Seq<char>,
}

impl View for Step {
    type V = StepModel;

    open spec fn view(&self) -> StepModel {
        StepModel { problems: views(self.problems@), fix: self.fix@ }
    }
}

/// The steps of a list, each as a model.
pub open spec fn steps_of(v: Seq<Step>) -> Seq<StepModel> {
    v.map_values(|s: Step| s@)
}

/// The index of the first step with a fix, or the number of steps.
pub open spec fn step_with(steps: Seq<StepModel>, fix: Seq<char>) -> nat
    decreases steps.len(),
{
    if steps.len() == 0 || steps[0].fix == fix {
        0
    } else {
        1 + step_with(steps.skip(1), fix)
    }
}

/// Findings grouped by their fix, in the order in which the fixes first appear.
pub open spec fn grouped(findings: Seq<FindingModel>) -> Seq<StepModel>
    decreases findings.len(),
{
    if findings.len() == 0 {
        Seq::empty()
    } else {
        let rest = grouped(findings.drop_last());
        let f = findings.last();
        let i = step_with(rest, f.fix) as int;
        if i < rest.len() {
            rest.update(
                i,
                StepModel { problems: rest[i].problems.push(f.problem), fix: rest[i].fix },
            )
        } else {
            rest.push(StepModel { problems: seq![f.problem], fix: f.fix })
        }
    }
}

proof fn lemma_step_with(steps: Seq<StepModel>, fix: Seq<char>, k: int)
    requires
        0 <= k <= steps.len(),
        forall|j: int| 0 <= j < k ==> (#[trigger] steps[j]).fix != fix,
        k < steps.len() ==> steps[k].fix == fix,
    ensures
        step_with(steps, fix) == k,
    decreases k,
{
    if k > 0 {
        assert(steps[0].fix != fix);
        assert forall|j: int| 0 <= j < k - 1 implies (#[trigger] steps.skip(1)[j]).fix != fix by {
            assert(steps.skip(1)[j] == steps[j + 1]);
        }
        lemma_step_with(steps.skip(1), fix, k - 1);
    }
}

proof fn lemma_step_with_finds(steps: Seq<StepModel>, fix: Seq<char>)
    ensures
        step_with(steps, fix) <= steps.len(),
        step_with(steps, fix) < steps.len() ==> steps[step_with(steps, fix) as int].fix == fix,
        forall|j: int| 0 <= j < step_with(steps, fix) ==> (#[trigger] steps[j]).fix != fix,
    decreases steps.len(),
{
    if steps.len() > 0 && steps[0].fix != fix {
        lemma_step_with_finds(steps.skip(1), fix);
        assert forall|j: int| 0 <= j < step_with(steps, fix) implies (#[trigger] steps[j]).fix
            != fix by {
            if j > 0 {
                assert(steps[j] == steps.skip(1)[j - 1]);
            }
        }
    }
}

/// Groups findings by fix, so that no step is printed twice.
pub fn group_by_fix(findings: Vec<Finding>) -> (r: Vec<Step>)
    ensures
        steps_of(r@) == grouped(found(findings@)),
{
    let ghost all = found(findings@);
    let mut out: Vec<Step> = Vec::new();
    let mut i: usize = 0;
    proof {
        assert(all.take(0) =~= Seq::<FindingModel>::empty());
        assert(steps_of(out@) =~= Seq::<StepModel>::empty());
    }
    while i < findings.len()
        invariant
            i <= findings.len(),
            all == found(findings@),
            steps_of(out@) == grouped(all.take(i as int)),
        decreases findings.len() - i,
    {
        let ghost had = steps_of(out@);
        proof {
            assert(all.take(i + 1).drop_last() =~= all.take(i as int));
            assert(all.take(i + 1).last() == findings@[i as int]@);
        }
        let mut k: usize = 0;
        while k < out.len() && !text::same(&out[k].fix, &findings[i].fix)
            invariant
                k <= out.len(),
                i < findings.len(),
                had == steps_of(out@),
                forall|j: int| 0 <= j < k ==> (#[trigger] had[j]).fix != findings@[i as int].fix@,
            decreases out.len() - k,
        {
            proof {
                assert(had[k as int].fix == out@[k as int].fix@);
            }
            k += 1;
        }
        proof {
            if k < out.len() {
                assert(had[k as int].fix == out@[k as int].fix@);
            }
            lemma_step_with(had, findings@[i as int].fix@, k as int);
        }
        let problem = findings[i].problem.clone();
        if k < out.len() {
            let mut problems = text::copy_list(&out[k].problems);
            proof {
                text::lemma_views_push(problems@, problem);
            }
            problems.push(problem);
            let step = Step { problems, fix: out[k].fix.clone() };
            proof {
                assert(steps_of(out@.update(k as int, step)) =~= had.update(k as int, step@));
            }
            out.set(k, step);
        } else {
            let mut problems: Vec<String> = Vec::new();
            problems.push(problem);
            let step = Step { problems, fix: findings[i].fix.clone() };
            proof {
                assert(views(problems@) =~= seq![problem@]);
                assert(steps_of(out@.push(step)) =~= had.push(step@));
            }
            out.push(step);
        }
        i += 1;
    }
    proof {
        assert(all.take(i as int) =~= all);
    }
    out
}

/// The lines about the problems that a step solves.
pub open spec fn problem_lines(problems: Seq<Seq<char>>) -> Seq<char>
    decreases problems.len(),
{
    if problems.len() == 0 {
        Seq::empty()
    } else {
        problem_lines(problems.drop_last()) + ("  ✗ "@ + problems.last() + "\n"@)
    }
}

/// The lines about some steps.
pub open spec fn step_lines(steps: Seq<StepModel>) -> Seq<char>
    decreases steps.len(),
{
    if steps.len() == 0 {
        Seq::empty()
    } else {
        step_lines(steps.drop_last()) + (problem_lines(steps.last().problems) + "    fix: "@
            + steps.last().fix + "\n"@)
    }
}

/// The lines of a checklist.
pub open spec fn check_lines(list: Seq<Seq<char>>) -> Seq<char>
    decreases list.len(),
{
    if list.len() == 0 {
        Seq::empty()
    } else {
        check_lines(list.drop_last()) + ("  - "@ + list.last() + "\n"@)
    }
}

/// The report about a host without phones. Where nothing was found it claims no more than that:
/// an unknown firewall or the router can still be in the way.
pub open spec fn no_phones_report(findings: Seq<FindingModel>, checklist: Seq<Seq<char>>) -> Seq<char> {
    let steps = grouped(findings);
    "No phones connected.\n"@ + (if steps.len() == 0 {
        "No problems detected on this host.\n"@
    } else {
        "This host is keeping them out:\n"@ + step_lines(steps)
    }) + (if checklist.len() == 0 {
        Seq::empty()
    } else {
        "Also check:\n"@ + check_lines(checklist)
    })
}

fn write_problems(problems: &Vec<String>) -> (r: String)
    ensures
        r@ == problem_lines(views(problems@)),
{
    let mut s = String::new();
    let mut i: usize = 0;
    let ghost all = views(problems@);
    proof {
        assert(s@ =~= problem_lines(all.take(0)));
    }
    while i < problems.len()
        invariant
            i <= problems.len(),
            all == views(problems@),
            s@ == problem_lines(all.take(i as int)),
        decreases problems.len() - i,
    {
        proof {
            assert(all.take(i + 1).drop_last() =~= all.take(i as int));
            assert(all.take(i + 1).last() == problems@[i as int]@);
        }
        s.append(&text::cat3("  ✗ ", &problems[i], "\n"));
        i += 1;
    }
    proof {
        assert(all.take(i as int) =~= all);
    }
    s
}

fn write_steps(steps: &Vec<Step>) -> (r: String)
    ensures
        r@ == step_lines(steps_of(steps@)),
{
    let mut s = String::new();
    let mut i: usize = 0;
    let ghost all = steps_of(steps@);
    proof {
        assert(s@ =~= step_lines(all.take(0)));
    }
    while i < steps.len()
        invariant
            i <= steps.len(),
            all == steps_of(steps@),
            s@ == step_lines(all.take(i as int)),
        decreases steps.len() - i,
    {
        proof {
            assert(all.take(i + 1).drop_last() =~= all.take(i as int));
            assert(all.take(i + 1).last() == steps@[i as int]@);
        }
        let mut one = text::cat3(&write_problems(&steps[i].problems), "    fix: ", &steps[i].fix);
        one.append("\n");
        s.append(&one);
        i += 1;
    }
    proof {
        assert(all.take(i as int) =~= all);
    }
    s
}

fn write_checks(list: &[String]) -> (r: String)
    ensures
        r@ == check_lines(views(list@)),
{
    let mut s = String::new();
    let mut i: usize = 0;
    let ghost all = views(list@);
    proof {
        assert(s@ =~= check_lines(all.take(0)));
    }
    while i < list.len()
        invariant
            i <= list.len(),
            all == views(list@),
            s@ == check_lines(all.take(i as int)),
        decreases list.len() - i,
    {
        proof {
            assert(all.take(i + 1).drop_last() =~= all.take(i as int));
            assert(all.take(i + 1).last() == list@[i as int]@);
        }
        s.append(&text::cat3("  - ", &list[i], "\n"));
        i += 1;
    }
    proof {
        assert(all.take(i as int) =~= all);
    }
    s
}

/// The report about a host without phones.
pub fn render_no_phones(findings: Vec<Finding>, checklist: &[String]) -> (r: String)
    ensures
        r@ == no_phones_report(found(findings@), views(checklist@)),
{
    let mut s = "No phones connected.\n".to_owned();
    let steps = group_by_fix(findings);
    proof {
        assert(steps_of(steps@).len() == steps@.len());
        assert(views(checklist@).len() == checklist@.len());
    }
    if steps.len() == 0 {
        s.append("No problems detected on this host.\n");
    } else {
        s.append(&text::cat("This host is keeping them out:\n", &write_steps(&steps)));
    }
    if checklist.len() > 0 {
        s.append(&text::cat("Also check:\n", &write_checks(checklist)));
    } else {
        proof {
            assert(s@ + Seq::<char>::empty() =~= s@);
        }
    }
    s
}

/// Whether a phone on the wireless network can be at an address: neither an overlay address nor
/// one of a container bridge.
pub open spec fn phone_reachable(ip: Ipv4) -> bool {
    !(ip.a == 100 && 64 <= ip.b < 128) && !(ip.a == 172 && ip.b == 17)
}

/// An address with a port, as text.
pub open spec fn addr_text(ip: Ipv4, port: u16) -> Seq<char> {
    decimal(ip.a as nat) + "."@ + decimal(ip.b as nat) + "."@ + decimal(ip.c as nat) + "."@
        + decimal(ip.d as nat) + ":"@ + decimal(port as nat)
}

/// The reachable ones among some addresses, with a port, as texts.
pub open spec fn reachable_texts(found_ips: Seq<Ipv4>, port: u16) -> Seq<Seq<char>>
    decreases found_ips.len(),
{
    if found_ips.len() == 0 {
        Seq::empty()
    } else {
        let rest = reachable_texts(found_ips.drop_last(), port);
        if phone_reachable(found_ips.last()) {
            rest.push(addr_text(found_ips.last(), port))
        } else {
            rest
        }
    }
}

/// The hints that do not depend on detection: what only the person who holds the phone can check,
/// and the address to type in, which sidesteps discovery.
pub fn checklist(ws_port: u16, local: &Vec<Ipv4>) -> (r: Vec<String>)
    ensures
        ({
            let addrs = reachable_texts(local@, ws_port);
            views(r@) == seq![
                "the phone must be on the same subnet: a guest network or a router with client/AP isolation blocks phone-to-computer traffic (2.4 GHz vs 5 GHz on the same router is fine)"@,
                "to skip discovery, type this machine's address into the app's \"dialfd address\" field: "@
                    + (if addrs.len() == 0 {
                    "<this machine's LAN IP>:"@ + decimal(ws_port as nat)
                } else {
                    joined(addrs, " or "@)
                }),
                "if the phone reaches dialfd but is refused, the shared keys differ — look for close code 4001 in the dialfd log"@,
            ]
        }),
{
    let mut addrs: Vec<String> = Vec::new();
    let mut i: usize = 0;
    proof {
        assert(views(addrs@) =~= reachable_texts(local@.take(0), ws_port));
    }
    while i < local.len()
        invariant
            i <= local.len(),
            views(addrs@) == reachable_texts(local@.take(i as int), ws_port),
        decreases local.len() - i,
    {
        let ip: Ipv4 = local[i];
        proof {
            assert(local@.take(i + 1).drop_last() =~= local@.take(i as int));
            assert(local@.take(i + 1).last() == ip);
        }
        if !(ip.a == 100 && 64 <= ip.b && ip.b < 128) && !(ip.a == 172 && ip.b == 17) {
            let mut s = text::cat3(&text::decimal_of(ip.a as u64), ".", &text::decimal_of(ip.b as u64));
            s.append(".");
            s.append(&text::decimal_of(ip.c as u64));
            s.append(".");
            s.append(&text::decimal_of(ip.d as u64));
            s.append(":");
            s.append(&text::decimal_of(ws_port as u64));
            proof {
                text::lemma_views_push(addrs@, s);
            }
            addrs.push(s);
        }
        i += 1;
    }
    proof {
        assert(local@.take(i as int) =~= local@);
        assert(views(addrs@).len() == addrs@.len());
    }
    let place = if addrs.len() == 0 {
        text::cat("<this machine's LAN IP>:", &text::decimal_of(ws_port as u64))
    } else {
        text::join(&addrs, " or ")
    };
    let mut out: Vec<String> = Vec::new();
    out.push(
        "the phone must be on the same subnet: a guest network or a router with client/AP isolation blocks phone-to-computer traffic (2.4 GHz vs 5 GHz on the same router is fine)".to_owned(),
    );
    out.push(
        text::cat(
            "to skip discovery, type this machine's address into the app's \"dialfd address\" field: ",
            &place,
        ),
    );
    out.push(
        "if the phone reaches dialfd but is refused, the shared keys differ — look for close code 4001 in the dialfd log".to_owned(),
    );
    proof {
        assert(views(out@) =~= seq![out@[0]@, out@[1]@, out@[2]@]);
    }
    out
}

/// No fix is listed twice.
pub proof fn law_each_fix_is_listed_once(findings: Seq<FindingModel>, i: int, j: int)
    requires
        0 <= i < j < grouped(findings).len(),
    ensures
        grouped(findings)[i].fix != grouped(findings)[j].fix,
    decreases findings.len(),
{
    if findings.len() > 0 {
        let rest = grouped(findings.drop_last());
        lemma_step_with_finds(rest, findings.last().fix);
        let k = step_with(rest, findings.last().fix) as int;
        if k < rest.len() || j < rest.len() {
            law_each_fix_is_listed_once(findings.drop_last(), i, j);
        } else {
            assert(grouped(findings)[i] == rest[i]);
        }
    }
}

/// Every finding's problem is listed under its fix.
pub proof fn law_every_problem_is_listed(findings: Seq<FindingModel>, n: int)
    requires
        0 <= n < findings.len(),
    ensures
        exists|i: int|
            0 <= i < grouped(findings).len() && (#[trigger] grouped(findings)[i]).fix
                == findings[n].fix && grouped(findings)[i].problems.contains(findings[n].problem),
    decreases findings.len(),
{
    let rest = grouped(findings.drop_last());
    let all = grouped(findings);
    let f = findings.last();
    lemma_step_with_finds(rest, f.fix);
    let k = step_with(rest, f.fix) as int;
    if n == findings.len() - 1 {
        if k < rest.len() {
            let p = rest[k].problems.push(f.problem);
            assert(p[rest[k].problems.len() as int] == f.problem);
            assert(all[k].problems == p);
            assert(all[k].fix == f.fix);
        } else {
            assert(all[rest.len() as int].problems[0] == f.problem);
        }
    } else {
        law_every_problem_is_listed(findings.drop_last(), n);
        assert(findings.drop_last()[n] == findings[n]);
        let i = choose|i: int|
            0 <= i < rest.len() && (#[trigger] rest[i]).fix == findings[n].fix
                && rest[i].problems.contains(findings[n].problem);
        if k < rest.len() && i == k {
            let q = rest[i].problems;
            let m = choose|m: int| 0 <= m < q.len() && q[m] == findings[n].problem;
            assert(all[i].problems[m] == findings[n].problem);
        } else {
            assert(all[i] == rest[i]);
        }
    }
}

/// A host that lets both ports in has nothing to report.
pub proof fn law_an_open_host_has_no_findings(
    ws_port: u16,
    fw: Seq<char>,
    tcp_fix: Seq<char>,
    udp_fix: Seq<char>,
)
    ensures
        port_findings(ws_port, fw, OpenModel::Yes, OpenModel::Yes, tcp_fix, udp_fix).len() == 0,
{
}

/// The words by which distributions name themselves, and those that they name as their kin.
pub proof fn law_distributions_are_told_by_their_words(word: Seq<char>)
    ensures
        distro_named("nixos"@) == Some(Distro::NixOs),
        distro_named("debian"@) == Some(Distro::Debian),
        distro_named("ubuntu"@) == Some(Distro::Debian),
        distro_named("arch"@) == Some(Distro::Arch),
        distro_named("fedora"@) == Some(Distro::Fedora),
        distro_named("rhel"@) == Some(Distro::Fedora),
        distro_named("centos"@) == Some(Distro::Fedora),
        distro_named("suse"@) == Some(Distro::Suse),
        distro_named("opensuse"@) == Some(Distro::Suse),
        distro_named(word) is Some ==> word == "nixos"@ || word == "debian"@ || word == "ubuntu"@
            || word == "arch"@ || word == "fedora"@ || word == "rhel"@ || word == "centos"@ || word
            == "suse"@ || word == "opensuse"@,
{
    reveal_strlit("nixos");
    reveal_strlit("debian");
    reveal_strlit("ubuntu");
    reveal_strlit("arch");
    reveal_strlit("fedora");
    reveal_strlit("rhel");
    reveal_strlit("centos");
    reveal_strlit("suse");
    reveal_strlit("opensuse");
    assert("debian"@[0] == 'd' && "ubuntu"@[0] == 'u' && "fedora"@[0] == 'f' && "centos"@[0] == 'c');
    assert("arch"@[0] == 'a' && "rhel"@[0] == 'r' && "suse"@[0] == 's');
    assert("opensuse"@.len() == 8 && "nixos"@.len() == 5);
    assert("arch"@.len() == 4 && "rhel"@.len() == 4 && "suse"@.len() == 4);
    assert("debian"@.len() == 6 && "ubuntu"@.len() == 6 && "fedora"@.len() == 6);
    assert("centos"@.len() == 6);
}

/// The first word that names a distribution decides; the system's own name goes before its kin.
pub proof fn law_the_first_known_word_decides(ws: Seq<Seq<char>>, k: int)
    requires
        0 <= k <= ws.len(),
        forall|j: int| 0 <= j < k ==> distro_named(#[trigger] ws[j]) is None,
        k < ws.len() ==> distro_named(ws[k]) is Some,
    ensures
        k < ws.len() ==> first_distro(ws) == distro_named(ws[k])->0,
        k == ws.len() ==> first_distro(ws) == Distro::Other,
    decreases k,
{
    if k > 0 {
        let rest = ws.skip(1);
        assert forall|j: int| 0 <= j < k - 1 implies distro_named(#[trigger] rest[j]) is None by {
            assert(rest[j] == ws[j + 1]);
        }
        assert(distro_named(ws[0]) is None);
        law_the_first_known_word_decides(rest, k - 1);
    }
}

/// A field of the file is the value behind its name on the first line that has it, without white
/// space and quotation marks round it, in small letters.
pub proof fn law_a_field_is_read_off_its_line(
    ls: Seq<Seq<char>>,
    key: Seq<char>,
    value: Seq<char>,
    k: int,
)
    requires
        0 <= k < ls.len(),
        ls[k] == key + "="@ + value,
        forall|j: int| 0 <= j < k ==> !(key + "="@).is_prefix_of(#[trigger] ls[j]),
    ensures
        field_value(ls, key) == small(without_quotes(trimmed(value))),
    decreases k,
{
    if k > 0 {
        let rest = ls.skip(1);
        assert forall|j: int| 0 <= j < k - 1 implies !(key + "="@).is_prefix_of(#[trigger] rest[j]) by {
            assert(rest[j] == ls[j + 1]);
        }
        assert(!(key + "="@).is_prefix_of(ls[0]));
        law_a_field_is_read_off_its_line(rest, key, value, k - 1);
    } else {
        let p = key + "="@;
        assert(p =~= ls[0].take(p.len() as int));
        assert(ls[0].skip(p.len() as int) =~= value);
    }
}

/// A single port covers itself, and a range of ports all from its first to its last, whether it is
/// written with a colon or with a dash.
pub proof fn law_ports_cover_what_they_name(a: u16, b: u16, port: u16)
    ensures
        part_covers(decimal(a as nat), port) <==> a == port,
        part_covers(decimal(a as nat) + seq![':'] + decimal(b as nat), port) <==> a <= port <= b,
        part_covers(decimal(a as nat) + seq!['-'] + decimal(b as nat), port) <==> a <= port <= b,
{
    let x = decimal(a as nat);
    let y = decimal(b as nat);
    text::law_numbers_read_back(a as nat, 0, 65535, 0, 0);
    text::law_numbers_read_back(b as nat, 0, 65535, 0, 0);
    text::lemma_decimal_value(a as nat);
    text::lemma_decimal_value(b as nat);
    let n = x.len() as int;
    assert forall|i: int| 0 <= i < n implies x[i] != ':' && x[i] != '-' by {
        assert(text::is_digit(x[i]));
    }
    text::lemma_first_at(x, ':', n);
    text::lemma_first_at(x, '-', n);
    let p = x + seq![':'] + y;
    let q = x + seq!['-'] + y;
    assert forall|i: int| 0 <= i < n implies p[i] == x[i] && q[i] == x[i] by {}
    assert forall|i: int| 0 <= i < y.len() implies y[i] != ':' && y[i] != '-' by {
        assert(text::is_digit(y[i]));
    }
    assert forall|i: int| 0 <= i < p.len() implies p[i] != '-' by {
        if i > n {
            assert(p[i] == y[i - n - 1]);
        }
    }
    assert forall|i: int| 0 <= i < q.len() implies q[i] != ':' by {
        if i > n {
            assert(q[i] == y[i - n - 1]);
        }
    }
    text::lemma_first_at(p, ':', n);
    text::lemma_first_at(p, '-', p.len() as int);
    text::lemma_first_at(q, '-', n);
    text::lemma_first_at(q, ':', q.len() as int);
    assert(p.take(n) =~= x && q.take(n) =~= x);
    assert(p.skip(n + 1) =~= y && q.skip(n + 1) =~= y);
}

/// A list of ports covers what any of its parts covers.
pub proof fn law_a_list_covers_what_its_parts_do(a: Seq<char>, b: Seq<char>, port: u16)
    ensures
        list_covers(a + seq![','] + b, port) <==> list_covers(a, port) || list_covers(b, port),
        (forall|i: int| 0 <= i < a.len() ==> a[i] != ',') ==> (list_covers(a, port) <==> part_covers(
            trimmed(a),
            port,
        )),
{
    let s = a + seq![','] + b;
    let x = pieces(a, ',');
    let y = pieces(b, ',');
    text::lemma_pieces_concat(a, b, ',');
    let all = pieces(s, ',');
    if list_covers(s, port) {
        let i = choose|i: int| 0 <= i < all.len() && part_covers(trimmed(#[trigger] all[i]), port);
        if i < x.len() {
            assert(all[i] == x[i]);
        } else {
            assert(all[i] == y[i - x.len()]);
        }
    }
    if list_covers(a, port) {
        let i = choose|i: int| 0 <= i < x.len() && part_covers(trimmed(#[trigger] x[i]), port);
        assert(all[i] == x[i]);
    }
    if list_covers(b, port) {
        let i = choose|i: int| 0 <= i < y.len() && part_covers(trimmed(#[trigger] y[i]), port);
        assert(all[i + x.len()] == y[i]);
    }
    if forall|i: int| 0 <= i < a.len() ==> a[i] != ',' {
        text::lemma_first_at(a, ',', a.len() as int);
        assert(x =~= seq![a]);
        assert(x[0] == a);
    }
}

/// The argument of a flag is the word behind its first place.
pub proof fn law_an_argument_stands_behind_its_flag(t: Seq<Seq<char>>, flag: Seq<char>, i: int)
    requires
        0 <= i <= t.len(),
        i < t.len() ==> t[i] == flag,
        forall|j: int| 0 <= j < i ==> t[j] != flag,
    ensures
        i + 1 < t.len() ==> arg_of(t, flag) == Some(t[i + 1]),
        i + 1 >= t.len() ==> arg_of(t, flag) is None,
{
    table::lemma_first_of(t, flag, i);
}

/// A line of a rule list lets a port in only where it speaks of the chain and the target that are
/// asked for, of the protocol and the port or of all of them, and of no source, destination, state
/// or source port. It lets it in everywhere, or, where it names an interface other than the
/// loopback, on that one; or it is the chain's policy to accept.
pub proof fn law_a_rule_lets_in_what_it_names(
    t: Seq<Seq<char>>,
    chain: Seq<char>,
    target: Seq<char>,
    proto: Seq<char>,
    port: u16,
)
    ensures
        ({
            let policy = t.len() > 0 && ":"@.is_prefix_of(t[0]) && t[0].skip(1) == chain;
            let says = rule_says(t, chain, target, proto, port);
            let list = if arg_of(t, "--dport"@) is Some {
                arg_of(t, "--dport"@)
            } else {
                arg_of(t, "--dports"@)
            };
            &&& policy ==> (says is Open <==> t.len() > 1 && t[1] == "ACCEPT"@) && !(says is OpenOn)
            &&& !policy && !(says is Nothing) ==> {
                &&& arg_of(t, "-A"@) == Some(chain)
                &&& arg_of(t, "-j"@) == Some(target)
                &&& arg_of(t, "-p"@) matches Some(p) ==> p == proto
                &&& list matches Some(l) ==> list_covers(l, port)
                &&& !t.contains("-s"@) && !t.contains("--source"@) && !t.contains("--src"@)
                &&& !t.contains("-d"@) && !t.contains("--destination"@) && !t.contains("--dst"@)
                &&& !t.contains("--ctstate"@) && !t.contains("--state"@)
                &&& !t.contains("--icmp-type"@) && !t.contains("--sport"@)
            }
            &&& !policy && says is Open ==> arg_of(t, "-i"@) is None
            &&& !policy && says is OpenOn ==> arg_of(t, "-i"@) == Some(says->OpenOn_0)
                && says->OpenOn_0 != "lo"@
            &&& !policy && arg_of(t, "-A"@) == Some(chain) && arg_of(t, "-j"@) == Some(target)
                && !is_narrowed(t) && (arg_of(t, "-p"@) matches Some(p) ==> p == proto) && (
            list matches Some(l) ==> list_covers(l, port)) && arg_of(t, "-i"@) is None ==> says is Open
        }),
{
    reveal_strlit(":");
}

/// A rule list lets a port in everywhere exactly where one of its lines does. Otherwise it lets it
/// in on the interfaces that its lines name, each once, and where they name none it does not.
pub proof fn law_a_rule_list_says_what_its_lines_say(
    ls: Seq<Seq<char>>,
    chain: Seq<char>,
    target: Seq<char>,
    proto: Seq<char>,
    port: u16,
)
    ensures
        ({
            let said = rules_say(ls, Seq::empty(), chain, target, proto, port);
            &&& said is Yes <==> exists|i: int|
                0 <= i < ls.len() && rule_says(
                    words(#[trigger] ls[i]),
                    chain,
                    target,
                    proto,
                    port,
                ) is Open
            &&& said is No ==> forall|i: int|
                0 <= i < ls.len() ==> rule_says(
                    words(#[trigger] ls[i]),
                    chain,
                    target,
                    proto,
                    port,
                ) is Nothing
            &&& said is OnlyOn ==> said->OnlyOn_0.no_duplicates() && forall|n: Seq<char>| #[trigger]
                said->OnlyOn_0.contains(n) <==> exists|i: int|
                    0 <= i < ls.len() && rule_says(
                        words(#[trigger] ls[i]),
                        chain,
                        target,
                        proto,
                        port,
                    ) == RuleSays::OpenOn(n)
            &&& !(said is Unknown)
        }),
{
    lemma_rules_say(ls, Seq::empty(), chain, target, proto, port);
}

proof fn lemma_rules_say(
    ls: Seq<Seq<char>>,
    only_on: Seq<Seq<char>>,
    chain: Seq<char>,
    target: Seq<char>,
    proto: Seq<char>,
    port: u16,
)
    requires
        only_on.no_duplicates(),
    ensures
        ({
            let said = rules_say(ls, only_on, chain, target, proto, port);
            &&& said is Yes <==> exists|i: int|
                0 <= i < ls.len() && rule_says(
                    words(#[trigger] ls[i]),
                    chain,
                    target,
                    proto,
                    port,
                ) is Open
            &&& said is No ==> only_on.len() == 0 && forall|i: int|
                0 <= i < ls.len() ==> rule_says(
                    words(#[trigger] ls[i]),
                    chain,
                    target,
                    proto,
                    port,
                ) is Nothing
            &&& said is OnlyOn ==> said->OnlyOn_0.no_duplicates() && forall|n: Seq<char>| #[trigger]
                said->OnlyOn_0.contains(n) <==> only_on.contains(n) || exists|i: int|
                    0 <= i < ls.len() && rule_says(
                        words(#[trigger] ls[i]),
                        chain,
                        target,
                        proto,
                        port,
                    ) == RuleSays::OpenOn(n)
            &&& !(said is Unknown)
        }),
    decreases ls.len(),
{
    if ls.len() > 0 {
        let rest = ls.skip(1);
        let first = rule_says(words(ls[0]), chain, target, proto, port);
        let now = match first {
            RuleSays::OpenOn(i) => if only_on.contains(i) {
                only_on
            } else {
                only_on.push(i)
            },
            _ => only_on,
        };
        assert(now.no_duplicates()) by {
            if now != only_on {
                assert forall|a: int, b: int| 0 <= a < b < now.len() implies now[a] != now[b] by {
                    if b == only_on.len() {
                        assert(only_on.contains(only_on[a]));
                    }
                }
            }
        }
        lemma_rules_say(rest, now, chain, target, proto, port);
        assert forall|i: int| 0 <= i < rest.len() implies rest[i] == #[trigger] ls[i + 1] by {}
        let said = rules_say(ls, only_on, chain, target, proto, port);
        if exists|i: int|
            0 <= i < rest.len() && rule_says(words(#[trigger] rest[i]), chain, target, proto, port)
                is Open {
            let i = choose|i: int|
                0 <= i < rest.len() && rule_says(words(#[trigger] rest[i]), chain, target, proto, port)
                    is Open;
            assert(ls[i + 1] == rest[i]);
        }
        if exists|i: int|
            0 <= i < ls.len() && rule_says(words(#[trigger] ls[i]), chain, target, proto, port) is Open {
            let i = choose|i: int|
                0 <= i < ls.len() && rule_says(words(#[trigger] ls[i]), chain, target, proto, port)
                    is Open;
            if i > 0 {
                assert(rest[i - 1] == ls[i]);
            }
        }
        if said is No {
            assert forall|i: int| 0 <= i < ls.len() implies rule_says(
                words(#[trigger] ls[i]),
                chain,
                target,
                proto,
                port,
            ) is Nothing by {
                if i > 0 {
                    assert(rest[i - 1] == ls[i]);
                } else if first is OpenOn {
                    assert(now.len() > 0) by {
                        if only_on.contains(first->OpenOn_0) {
                            let j = choose|j: int|
                                0 <= j < only_on.len() && only_on[j] == first->OpenOn_0;
                            assert(only_on.len() > 0);
                        }
                    }
                }
            }
        }
        if said is OnlyOn {
            assert forall|n: Seq<char>| #[trigger] said->OnlyOn_0.contains(n) <==> only_on.contains(n)
                || exists|i: int|
                0 <= i < ls.len() && rule_says(words(#[trigger] ls[i]), chain, target, proto, port)
                    == RuleSays::OpenOn(n) by {
                let later = exists|i: int|
                    0 <= i < rest.len() && rule_says(
                        words(#[trigger] rest[i]),
                        chain,
                        target,
                        proto,
                        port,
                    ) == RuleSays::OpenOn(n);
                assert(said->OnlyOn_0.contains(n) <==> now.contains(n) || later);
                if now != only_on {
                    if only_on.contains(n) {
                        let j = choose|j: int| 0 <= j < only_on.len() && only_on[j] == n;
                        assert(now[j] == n);
                    }
                    if now.contains(n) {
                        let j = choose|j: int| 0 <= j < now.len() && now[j] == n;
                        if j < only_on.len() {
                            assert(only_on[j] == n);
                        }
                    }
                    assert(now[only_on.len() as int] == first->OpenOn_0);
                }
                if later {
                    let i = choose|i: int|
                        0 <= i < rest.len() && rule_says(
                            words(#[trigger] rest[i]),
                            chain,
                            target,
                            proto,
                            port,
                        ) == RuleSays::OpenOn(n);
                    assert(ls[i + 1] == rest[i]);
                }
                if exists|i: int|
                    0 <= i < ls.len() && rule_says(words(#[trigger] ls[i]), chain, target, proto, port)
                        == RuleSays::OpenOn(n) {
                    let i = choose|i: int|
                        0 <= i < ls.len() && rule_says(
                            words(#[trigger] ls[i]),
                            chain,
                            target,
                            proto,
                            port,
                        ) == RuleSays::OpenOn(n);
                    if i > 0 {
                        assert(rest[i - 1] == ls[i]);
                    }
                }
            }
        }
    }
}

/// What is said of a port names it and what it is for, and why it may be closed; nothing is said
/// of one that is open.
pub proof fn law_a_closed_port_is_named(
    what: Seq<char>,
    proto: Seq<char>,
    port: u16,
    fw: Seq<char>,
    ifs: Seq<Seq<char>>,
)
    ensures
        ({
            let subject = proto + " "@ + decimal(port as nat) + " ("@ + what + ")"@;
            &&& blocked_text(what, proto, port, fw, OpenModel::Yes) is None
            &&& blocked_text(what, proto, port, fw, OpenModel::No) == Some(
                "the "@ + fw + " firewall blocks "@ + subject,
            )
            &&& blocked_text(what, proto, port, fw, OpenModel::OnlyOn(ifs)) == Some(
                "the "@ + fw + " firewall allows "@ + subject + " only on "@ + joined(ifs, ", "@)
                    + " — not on the network the phone is on"@,
            )
            &&& blocked_text(what, proto, port, fw, OpenModel::Unknown) == Some(
                "the "@ + fw + " firewall is active and may block "@ + subject
                    + "; its rules could not be read without root"@,
            )
        }),
{
}

/// A host is found wanting for each of the two ports that is not open: the daemon's own, over TCP,
/// and that of mDNS, over UDP, each with its own fix.
pub proof fn law_each_closed_port_has_its_fix(
    ws_port: u16,
    fw: Seq<char>,
    tcp: OpenModel,
    udp: OpenModel,
    tcp_fix: Seq<char>,
    udp_fix: Seq<char>,
)
    ensures
        ({
            let f = port_findings(ws_port, fw, tcp, udp, tcp_fix, udp_fix);
            let n: int = if tcp is Yes {
                0
            } else {
                1
            };
            &&& f.len() == n + if udp is Yes {
                0int
            } else {
                1
            }
            &&& !(tcp is Yes) ==> f[0].fix == tcp_fix && Some(f[0].problem) == blocked_text(
                "the phone's connection to dialfd"@,
                "TCP"@,
                ws_port,
                fw,
                tcp,
            )
            &&& !(udp is Yes) ==> f[n].fix == udp_fix && Some(f[n].problem) == blocked_text(
                "mDNS, how the phone discovers dialfd"@,
                "UDP"@,
                5353,
                fw,
                udp,
            )
        }),
{
}

/// An entry of a firewall's listing covers a port where it names its protocol behind the slash and
/// covers the port before it.
pub proof fn law_a_listed_port_names_its_protocol(
    list: Seq<char>,
    named: Seq<char>,
    proto: Seq<char>,
    port: u16,
)
    requires
        forall|i: int| 0 <= i < list.len() ==> list[i] != '/',
    ensures
        entry_covers(list + seq!['/'] + named, proto, port) <==> named == proto && list_covers(list, port),
        !entry_covers(list, proto, port),
{
    let e = list + seq!['/'] + named;
    let n = list.len() as int;
    assert forall|i: int| 0 <= i < n implies e[i] != '/' by {
        assert(e[i] == list[i]);
    }
    text::lemma_first_at(e, '/', n);
    text::lemma_first_at(list, '/', n);
    assert(e.take(n) =~= list);
    assert(e.skip(n + 1) =~= named);
}

/// A word of an nftables rule covers a port as others do, and may name that of mDNS by its word.
pub proof fn law_nftables_words_cover_their_ports(a: u16, b: u16, port: u16)
    ensures
        nft_word_covers(decimal(a as nat), port) <==> a == port,
        nft_word_covers(decimal(a as nat) + seq!['-'] + decimal(b as nat), port) <==> a <= port <= b,
        nft_word_covers("mdns"@, port) <==> port == 5353,
{
    let x = decimal(a as nat);
    let y = decimal(b as nat);
    text::law_numbers_read_back(a as nat, 0, 65535, 0, 0);
    text::law_numbers_read_back(b as nat, 0, 65535, 0, 0);
    text::lemma_decimal_value(a as nat);
    text::lemma_decimal_value(b as nat);
    reveal_strlit("mdns");
    assert(text::is_digit(x[0]) && text::is_digit(y[0]));
    assert(x != "mdns"@ && y != "mdns"@);
    let n = x.len() as int;
    assert forall|i: int| 0 <= i < n implies x[i] != '-' by {
        assert(text::is_digit(x[i]));
    }
    text::lemma_first_at(x, '-', n);
    let q = x + seq!['-'] + y;
    assert forall|i: int| 0 <= i < n implies q[i] != '-' by {
        assert(q[i] == x[i]);
    }
    text::lemma_first_at(q, '-', n);
    assert(q.take(n) =~= x);
    assert(q.skip(n + 1) =~= y);
    text::lemma_first_at("mdns"@, '-', 4);
}

/// What stands behind the sign for a comment does not count.
pub proof fn law_comments_do_not_count(rule: Seq<char>, comment: Seq<char>)
    requires
        forall|i: int| 0 <= i < rule.len() ==> rule[i] != '#',
    ensures
        uncommented(rule) == rule,
        uncommented(rule + seq!['#'] + comment) == rule,
{
    let n = rule.len() as int;
    text::lemma_first_at(rule, '#', n);
    assert(rule.take(n) =~= rule);
    let s = rule + seq!['#'] + comment;
    assert forall|i: int| 0 <= i < n implies s[i] != '#' by {
        assert(s[i] == rule[i]);
    }
    text::lemma_first_at(s, '#', n);
    assert(s.take(n) =~= rule);
}

/// An nftables configuration lets a port in where one of its lines accepts it, or where nothing in
/// it drops what comes in.
pub proof fn law_nftables_lets_in_what_it_accepts(conf: Seq<char>, proto: Seq<char>, port: u16, i: int)
    ensures
        0 <= i < lines(conf).len() && nft_line_opens(lines(conf)[i], proto, port) ==> nft_lets_in(
            conf,
            proto,
            port,
        ),
        nft_lets_in(conf, proto, port) ==> (exists|k: int|
            0 <= k < lines(conf).len() && nft_line_opens(#[trigger] lines(conf)[k], proto, port)) || (
        !nft_drops_input(nft_vocabulary(lines(conf))) && forall|k: int|
            0 <= k < lines(conf).len() ==> !nft_line_blocks(#[trigger] lines(conf)[k])),
        0 <= i < lines(conf).len() && nft_line_blocks(lines(conf)[i]) && nft_lets_in(conf, proto, port)
            ==> exists|k: int|
            0 <= k < lines(conf).len() && nft_line_opens(#[trigger] lines(conf)[k], proto, port),
{
}

/// The macOS firewall is in the way where it is on and blocks everything, or names the program as
/// blocked, or does not name it at all; never where it is off, or permits it.
pub proof fn law_the_macos_firewall_is_in_the_way(
    exe: Seq<char>,
    global: Seq<char>,
    block_all: Seq<char>,
    app: Seq<char>,
)
    ensures
        ({
            let on = contains_text(global, "enabled"@) || contains_text(global, "State = 1"@)
                || contains_text(global, "State = 2"@);
            let all = contains_text(block_all, "enabled"@) && !contains_text(block_all, "disabled"@);
            let f = macos_findings(exe, global, block_all, app);
            &&& f.len() == 1 <==> on && (all || !contains_text(app, "permitted"@))
            &&& f.len() == 0 <==> !on || (!all && contains_text(app, "permitted"@))
            &&& on && !all && !contains_text(app, "permitted"@) ==> f[0].fix == macos_allow(exe)
            &&& on && !all && !contains_text(app, "permitted"@) && contains_text(app, "blocked"@) ==> f[0].problem
                == "the macOS firewall blocks incoming connections to dialf, so the phone cannot connect"@
            &&& on && all ==> f[0].fix
                == "sudo /usr/libexec/ApplicationFirewall/socketfilterfw --setblockall off, then "@
                + macos_allow(exe)
            &&& macos_allow(exe)
                == "sudo /usr/libexec/ApplicationFirewall/socketfilterfw --add '"@ + exe
                + "' && sudo /usr/libexec/ApplicationFirewall/socketfilterfw --unblockapp '"@ + exe
                + "' (repeat after every dialf upgrade: the path is versioned)"@
        }),
{
}

/// ufw blocks where a line of its configuration enables it and its default is not to accept.
pub proof fn law_ufw_blocks_where_it_is_enabled(conf: Seq<char>, defaults: Seq<char>, i: int)
    ensures
        !ufw_blocks(None, Some(defaults)),
        0 <= i < lines(conf).len() && small(trimmed(lines(conf)[i])) == "enabled=yes"@ ==> ufw_blocks(
            Some(conf),
            None,
        ) && (ufw_blocks(Some(conf), Some(defaults)) <==> !contains_text(
            defaults,
            "DEFAULT_INPUT_POLICY=\"ACCEPT\""@,
        )),
        (forall|k: int|
            0 <= k < lines(conf).len() ==> small(trimmed(#[trigger] lines(conf)[k])) != "enabled=yes"@)
            ==> !ufw_blocks(Some(conf), Some(defaults)) && !ufw_blocks(Some(conf), None),
{
    if 0 <= i < lines(conf).len() && small(trimmed(lines(conf)[i])) == "enabled=yes"@ {
        assert(exists|k: int|
            0 <= k < lines(conf).len() && small(trimmed(#[trigger] lines(conf)[k]))
                == "enabled=yes"@);
        assert(ufw_blocks(Some(conf), None));
        assert(ufw_blocks(Some(conf), Some(defaults)) <==> !contains_text(
            defaults,
            "DEFAULT_INPUT_POLICY=\"ACCEPT\""@,
        ));
    }
}

/// The fixes name the protocol and the port that they open.
pub proof fn law_a_fix_names_its_port(proto: Seq<char>, port: u16)
    ensures
        nft_fix(proto, port) == "add `"@ + proto + " dport "@ + decimal(port as nat)
            + " accept` to the input chain in /etc/nftables.conf, then sudo systemctl reload nftables"@,
        iptables_fix(proto, port) == "add `-A INPUT -p "@ + proto + " --dport "@ + decimal(
            port as nat,
        )
            + " -j ACCEPT` to /etc/iptables/iptables.rules, then sudo systemctl restart iptables"@,
        mdns_digits() == decimal(5353),
{
}

/// How each distribution installs and starts the responder.
pub proof fn law_each_distribution_has_its_installer()
    ensures
        avahi_install(Distro::Debian)
            == "sudo apt install avahi-daemon avahi-utils && sudo systemctl enable --now avahi-daemon"@,
        avahi_install(Distro::Arch)
            == "sudo pacman -S avahi && sudo systemctl enable --now avahi-daemon"@,
        avahi_install(Distro::Fedora)
            == "sudo dnf install avahi-tools && sudo systemctl enable --now avahi-daemon"@,
        avahi_install(Distro::Suse)
            == "sudo zypper install avahi-utils && sudo systemctl enable --now avahi-daemon"@,
        avahi_install(Distro::Other)
            == "install avahi (the daemon plus the `avahi-publish` tool) and start avahi-daemon"@,
{
}

/// What a stopped responder said tells why it stopped: it does not run, it refuses, or else its own
/// words.
pub proof fn law_a_stopped_responder_is_explained(said: Seq<char>, d: Distro)
    ensures
        ({
            let down = contains_text(said, "Daemon not running"@);
            let refused = contains_text(said, "Not permitted"@) || contains_text(
                said,
                "Access denied"@,
            );
            let f = avahi_cause(said, d);
            &&& down ==> f.problem
                == "avahi-daemon is not running, so dialfd cannot advertise itself over mDNS and phones cannot discover it"@
            &&& down && d is NixOs ==> f.fix == avahi_install(Distro::NixOs)
            &&& down && (d is Debian || d is Arch || d is Fedora || d is Suse) ==> f.fix
                == "sudo systemctl enable --now avahi-daemon"@
            &&& !down && refused ==> f.problem
                == "avahi-daemon refuses to publish services for non-root users, so phones cannot discover dialfd"@
            &&& !down && !refused && said.len() > 0 ==> f.problem
                == "avahi-publish stopped, so phones cannot discover dialfd: "@ + said
            &&& !down && !refused ==> f.fix == "check `systemctl status avahi-daemon`"@
        }),
{
}

/// A report tells of no problem exactly where nothing was found.
pub proof fn law_nothing_found_is_no_problem(findings: Seq<FindingModel>, checklist: Seq<Seq<char>>)
    ensures
        grouped(findings).len() == 0 <==> findings.len() == 0,
        findings.len() == 0 && checklist.len() == 0 ==> no_phones_report(findings, checklist)
            =~= "No phones connected.\n"@ + "No problems detected on this host.\n"@,
        findings.len() > 0 && checklist.len() == 0 ==> no_phones_report(findings, checklist)
            =~= "No phones connected.\n"@ + ("This host is keeping them out:\n"@ + step_lines(
            grouped(findings),
        )),
{
    if findings.len() > 0 {
        let rest = grouped(findings.drop_last());
        lemma_step_with_finds(rest, findings.last().fix);
    }
}

/// A report shows each problem on a line of its own, and behind those of a step the fix for them.
pub proof fn law_a_report_shows_problems_and_fixes(
    steps: Seq<StepModel>,
    s: StepModel,
    problems: Seq<Seq<char>>,
    p: Seq<char>,
)
    ensures
        problem_lines(problems.push(p)) == problem_lines(problems) + ("  ✗ "@ + p + "\n"@),
        step_lines(steps.push(s)) == step_lines(steps) + (problem_lines(s.problems) + "    fix: "@
            + s.fix + "\n"@),
{
    assert(problems.push(p).drop_last() =~= problems);
    assert(steps.push(s).drop_last() =~= steps);
}

/// A phone cannot reach a carrier's or an overlay's addresses (100.64/10), nor those of a container
/// bridge (172.17/16); every other one is told, with the port.
pub proof fn law_told_addresses_can_be_reached(ips: Seq<Ipv4>, port: u16, ip: Ipv4)
    ensures
        phone_reachable(ip) <==> !(ip.a == 100 && 64 <= ip.b <= 127) && !(ip.a == 172 && ip.b == 17),
        phone_reachable(ip) ==> reachable_texts(ips.push(ip), port) == reachable_texts(ips, port).push(
            decimal(ip.a as nat) + "."@ + decimal(ip.b as nat) + "."@ + decimal(ip.c as nat) + "."@
                + decimal(ip.d as nat) + ":"@ + decimal(port as nat),
        ),
        !phone_reachable(ip) ==> reachable_texts(ips.push(ip), port) == reachable_texts(ips, port),
{
    assert(ips.push(ip).drop_last() =~= ips);
}

/// A port that a listing covers is open, and one that it does not is not; rules that could not be
/// read say nothing of any port.
pub proof fn law_unread_rules_say_nothing(
    rules: String,
    chain: Seq<char>,
    target: Seq<char>,
    proto: Seq<char>,
    port: u16,
)
    ensures
        open_if(true) is Yes,
        open_if(false) is No,
        said_of_port(None, chain, target, proto, port) is Unknown,
        said_of_port(Some(rules), chain, target, proto, port) == rules_say(
            lines(rules@),
            Seq::empty(),
            chain,
            target,
            proto,
            port,
        ),
{
}

/// nftables drops what comes in where a chain's policy is to drop, unless the chain is hooked in
/// elsewhere than at the input.
pub proof fn law_a_dropping_policy_is_seen(ws: Seq<Seq<char>>, k: int)
    requires
        0 <= k < ws.len() - 1,
        "policy"@.is_suffix_of(ws[k]),
        "drop"@.is_prefix_of(ws[k + 1]),
    ensures
        nft_input_chain(ws.take(k)) ==> nft_drops_input(ws),
        k < 2 ==> nft_drops_input(ws),
        k >= 2 && ws[k - 2] == "hook"@ ==> (nft_policy_at(ws, k) <==> "input"@.is_prefix_of(ws[k - 1])),
{
    if nft_input_chain(ws.take(k)) {
        assert(nft_policy_at(ws, k));
    }
    if k >= 2 {
        assert(ws.take(k)[k - 2] == ws[k - 2]);
        assert(ws.take(k).last() == ws[k - 1]);
    }
}

/// Where no chain's policy is to drop, nothing is dropped by one.
pub proof fn law_without_a_policy_nothing_is_dropped(ws: Seq<Seq<char>>)
    requires
        forall|k: int|
            0 <= k < ws.len() - 1 && "policy"@.is_suffix_of(#[trigger] ws[k]) ==> !"drop"@.is_prefix_of(
                ws[k + 1],
            ),
    ensures
        !nft_drops_input(ws),
{
}

/// A line of nftables accepts a port only where it says so, names its protocol, or none in
/// particular, before the ports, and names the port before the word that accepts.
pub proof fn law_an_accepting_line_names_the_port(raw: Seq<char>, proto: Seq<char>, port: u16)
    ensures
        ({
            let line = uncommented(raw);
            let named = if text::text_at(line, proto + " dport"@) is Some {
                after_text(line, proto + " dport"@)
            } else {
                after_text(line, "th dport"@)
            };
            &&& nft_line_opens(raw, proto, port) ==> contains_text(line, "accept"@) && named is Some
                && nft_names(nft_words(named->0), port)
            &&& contains_text(line, "accept"@) && named is Some && nft_names(
                nft_words(named->0),
                port,
            ) ==> nft_line_opens(raw, proto, port)
        }),
{
}

/// A line of nftables blocks where it drops or rejects, but for the policy of a chain, which is seen
/// elsewhere.
pub proof fn law_a_blocking_line_drops_or_rejects(raw: Seq<char>)
    ensures
        ({
            let l = trimmed(uncommented(raw));
            &&& l == "drop"@ || l == "reject"@ || contains_text(l, " reject"@) ==> nft_line_blocks(raw)
            &&& " drop"@.is_suffix_of(l) && !"policy drop"@.is_suffix_of(l) ==> nft_line_blocks(raw)
            &&& nft_line_blocks(raw) ==> l == "drop"@ || l == "reject"@ || " drop"@.is_suffix_of(l)
                || contains_text(l, " reject"@)
        }),
{
}

} // verus!
