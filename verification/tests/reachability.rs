use dialf::reachability::{
    avahi_failure, avahi_install_fix, checklist, distro, firewall_findings, firewalld_findings_from,
    firewalld_running, group_by_fix, iptables_findings, iptables_open, macos_findings_from,
    nft_findings, nft_open, nixos_findings, parse_exec_start_path, parse_os_release, pick_firewall,
    ports_cover, render_no_phones, ufw_enabled, ufw_findings, Distro, Finding, Firewall,
    FirewallKind, Open,
};
use dialf::share::Ipv4;

#[test]
fn os_release_is_classified_by_id_then_id_like() {
    assert_eq!(parse_os_release("ID=nixos\n"), Distro::NixOs);
    assert_eq!(parse_os_release("ID=ubuntu\nID_LIKE=debian\n"), Distro::Debian);
    assert_eq!(parse_os_release("ID=linuxmint\nID_LIKE=\"ubuntu debian\"\n"), Distro::Debian);
    assert_eq!(parse_os_release("ID=arch\n"), Distro::Arch);
    assert_eq!(parse_os_release("ID=endeavouros\nID_LIKE=arch\n"), Distro::Arch);
    assert_eq!(parse_os_release("ID=\"rocky\"\nID_LIKE=\"rhel centos fedora\"\n"), Distro::Fedora);
    assert_eq!(parse_os_release("ID=\"opensuse-tumbleweed\"\nID_LIKE=\"opensuse suse\"\n"), Distro::Suse);
    assert_eq!(parse_os_release("ID=alpine\n"), Distro::Other);
    // VERSION_ID must not be mistaken for ID.
    assert_eq!(parse_os_release("VERSION_ID=arch\nID=alpine\n"), Distro::Other);
}

#[test]
fn avahi_fixes_name_each_distros_packages() {
    assert!(avahi_install_fix(Distro::Debian).contains("apt install avahi-daemon avahi-utils"));
    assert!(avahi_install_fix(Distro::Arch).contains("pacman -S avahi"));
    assert!(avahi_install_fix(Distro::Fedora).contains("avahi-tools"));
    let nix = avahi_install_fix(Distro::NixOs);
    assert!(nix.contains("userServices = true") && nix.contains("nixos-rebuild"), "{nix}");
    assert!(!nix.contains("apt"), "{nix}");
}

#[test]
fn avahi_errors_map_to_their_cause() {
    let down = avahi_failure("Failed to create client object: Daemon not running\n", Distro::Arch);
    assert!(down.problem.contains("not running"), "{down:?}");
    assert!(down.fix.contains("systemctl enable --now avahi-daemon"), "{down:?}");

    let denied = avahi_failure("Failed to add service: Not permitted\n", Distro::Debian);
    assert!(denied.fix.contains("disable-user-service-publishing=no"), "{denied:?}");
    let denied_nix = avahi_failure("Failed to add service: Not permitted\n", Distro::NixOs);
    assert!(denied_nix.fix.contains("userServices"), "{denied_nix:?}");

    let other = avahi_failure("something new\n", Distro::Other);
    assert!(other.problem.contains("something new"), "{other:?}");
}

/// Lines as they appear in NixOS's generated firewall-start script.
const NIXOS_FW: &str = "\
ip46tables -A nixos-fw -i lo -j nixos-fw-accept
ip46tables -A nixos-fw -m conntrack --ctstate ESTABLISHED,RELATED -j nixos-fw-accept
ip46tables -A nixos-fw -p tcp --dport 22 -j nixos-fw-accept
ip46tables -A nixos-fw -p udp --dport 5353 -j nixos-fw-accept -i wt0
ip46tables -A nixos-fw -p udp --dport 60000:61000 -j nixos-fw-accept
ip6tables -A nixos-fw -d fe80::/64 -p udp --dport 546 -j nixos-fw-accept
";

#[test]
fn nixos_rules_are_read_per_port_and_interface() {
    let chk = |proto, port| iptables_open(NIXOS_FW, "nixos-fw", "nixos-fw-accept", proto, port);
    assert_eq!(chk("tcp", 22), Open::Yes);
    // This exact machine's state: mDNS open only on the VPN, dialfd's port shut.
    assert_eq!(chk("udp", 5353), Open::OnlyOn(vec!["wt0".into()]));
    assert_eq!(chk("tcp", 8765), Open::No);
    assert_eq!(chk("udp", 60500), Open::Yes);
    // A port rule for tcp does not open udp.
    assert_eq!(chk("udp", 22), Open::No);
    // Link-local-destination rule is not a general opening.
    assert_eq!(chk("udp", 546), Open::No);

    let open = format!("{NIXOS_FW}ip46tables -A nixos-fw -p tcp --dport 8765 -j nixos-fw-accept\n");
    assert_eq!(iptables_open(&open, "nixos-fw", "nixos-fw-accept", "tcp", 8765), Open::Yes);
    // A trusted interface opens everything, but only there.
    let trusted = "ip46tables -A nixos-fw -i wt0 -j nixos-fw-accept\n";
    assert_eq!(
        iptables_open(trusted, "nixos-fw", "nixos-fw-accept", "tcp", 8765),
        Open::OnlyOn(vec!["wt0".into()])
    );
}

#[test]
fn a_rule_for_some_addresses_opens_nothing() {
    for narrowed in ["-s 10.0.0.0/8", "--source 10.0.0.0/8", "--src 10.0.0.2", "--destination 10.0.0.1", "--dst 10.0.0.1"] {
        let rule = format!("-A INPUT {narrowed} -p tcp --dport 8765 -j ACCEPT\n");
        assert_eq!(iptables_open(&rule, "INPUT", "ACCEPT", "tcp", 8765), Open::No, "{rule}");
    }
}

#[test]
fn nixos_findings_say_what_to_put_in_configuration_nix() {
    let f = nixos_findings(8765, Open::No, Open::OnlyOn(vec!["wt0".into()]));
    assert_eq!(f.len(), 2, "{f:?}");
    assert!(f[0].problem.contains("TCP 8765"), "{f:?}");
    assert!(f[0].fix.contains("allowedTCPPorts = [ 8765 ]"), "{f:?}");
    assert!(f[1].problem.contains("only on wt0"), "{f:?}");
    assert!(f[1].fix.contains("openFirewall = true"), "{f:?}");
    assert!(nixos_findings(8765, Open::Yes, Open::Yes).is_empty());
}

#[test]
fn exec_start_path_is_extracted() {
    let s = "{ path=/nix/store/abc-firewall-start/bin/firewall-start ; argv[]=firewall-start ; ignore_errors=no }";
    assert_eq!(
        parse_exec_start_path(s).as_deref(),
        Some("/nix/store/abc-firewall-start/bin/firewall-start")
    );
    assert_eq!(parse_exec_start_path(""), None);
}

#[test]
fn ufw_user_rules_are_read() {
    let rules = "\
*filter
:ufw-user-input - [0:0]
-A ufw-user-input -p tcp --dport 22 -j ACCEPT
-A ufw-user-input -p udp --dport 5353 -j ACCEPT
-A ufw-user-input -p tcp -m multiport --dports 8000:9000,443 -j ACCEPT
COMMIT
";
    let chk = |proto, port| iptables_open(rules, "ufw-user-input", "ACCEPT", proto, port);
    assert_eq!(chk("udp", 5353), Open::Yes);
    assert_eq!(chk("tcp", 8765), Open::Yes, "multiport range");
    assert_eq!(chk("tcp", 7000), Open::No);
    let f = ufw_findings(7000, Open::No, Open::Unknown);
    assert_eq!(f[0].fix, "sudo ufw allow 7000/tcp");
    assert!(f[1].problem.contains("could not be read"), "{f:?}");
    assert_eq!(f[1].fix, "sudo ufw allow 5353/udp");
}

#[test]
fn plain_iptables_policy_and_rules() {
    let rules = ":INPUT DROP [0:0]\n-A INPUT -p tcp --dport 22 -j ACCEPT\n";
    assert_eq!(iptables_open(rules, "INPUT", "ACCEPT", "tcp", 8765), Open::No);
    assert_eq!(iptables_open(":INPUT ACCEPT [0:0]\n", "INPUT", "ACCEPT", "tcp", 8765), Open::Yes);
}

#[test]
fn firewalld_reads_ranges_and_the_mdns_service() {
    // Fedora Workstation's default zone opens every high port and mdns.
    let fedora = firewalld_findings_from(
        8765,
        "FedoraWorkstation",
        "1025-65535/udp 1025-65535/tcp\n",
        "dhcpv6-client mdns samba-client ssh\n",
    );
    assert!(fedora.is_empty(), "{fedora:?}");

    let public = firewalld_findings_from(8765, "public", "", "ssh dhcpv6-client\n");
    assert_eq!(public.len(), 2, "{public:?}");
    assert!(public[0].fix.contains("--add-port=8765/tcp"), "{public:?}");
    assert!(public[1].fix.contains("--add-service=mdns"), "{public:?}");
}

#[test]
fn nftables_config_is_read() {
    // Arch's shipped /etc/nftables.conf, abridged.
    let arch = "\
table inet filter {
  chain input {
    type filter hook input priority filter
    policy drop
    ct state invalid drop comment \"early drop of invalid connections\"
    ct state {established, related} accept
    iif lo accept
    tcp dport ssh accept
    pkttype host limit rate 5/second counter reject with icmpx type admin-prohibited
    counter
  }
}
";
    assert_eq!(nft_open(arch, "tcp", 8765), Open::No);
    assert_eq!(nft_open(arch, "udp", 5353), Open::No);
    let opened = arch.replace(
        "tcp dport ssh accept",
        "tcp dport { ssh, 8000-9000 } accept\n    udp dport mdns accept",
    );
    assert_eq!(nft_open(&opened, "tcp", 8765), Open::Yes);
    assert_eq!(nft_open(&opened, "udp", 5353), Open::Yes);
    // Nothing dropped: nothing blocked.
    assert_eq!(nft_open("table inet filter { chain input { type filter hook input priority 0; } }", "tcp", 8765), Open::Yes);
    // A comment is no rule.
    let commented = "table inet filter {\n  # policy drop\n  chain input {\n  }\n}\n";
    assert_eq!(nft_open(commented, "tcp", 8765), Open::Yes);
    let dropped = "chain input {\n  type filter hook input priority 0; policy drop; # all\n}\n";
    assert_eq!(nft_open(dropped, "tcp", 8765), Open::No);
    // What is only forwarded does not concern the phone.
    let forwarded = "chain input {\n  type filter hook input priority 0;\n}\n\
        chain forward {\n  type filter hook forward priority 0\n  policy drop\n}\n";
    assert_eq!(nft_open(forwarded, "tcp", 8765), Open::Yes);
    let one_line = "chain forward { type filter hook forward priority 0; policy drop; } \
        chain input { type filter hook input priority 0;policy drop; }";
    assert_eq!(nft_open(one_line, "tcp", 8765), Open::No);
    assert!(nft_findings(8765, Open::No, Open::Yes)[0].fix.contains("tcp dport 8765 accept"));
}

#[test]
fn one_fix_is_listed_once() {
    let missing = Finding {
        problem: "avahi-publish is not installed".into(),
        fix: avahi_install_fix(Distro::NixOs),
    };
    let firewall = nixos_findings(8765, Open::No, Open::No);
    let steps = group_by_fix([vec![missing], firewall].concat());
    // avahi+5353 share the NixOS avahi block; the TCP port is its own step.
    assert_eq!(steps.len(), 2, "{steps:?}");
    assert_eq!(steps[0].problems.len(), 2, "{steps:?}");
    assert!(steps[0].problems[0].contains("avahi-publish"), "{steps:?}");
    assert!(steps[0].problems[1].contains("UDP 5353"), "{steps:?}");
    assert!(steps[1].problems[0].contains("TCP 8765"), "{steps:?}");
}

#[test]
fn the_report_lists_each_cause_once_under_its_fix() {
    let f = |p: &str, fix: &str| Finding { problem: p.into(), fix: fix.into() };
    let out = render_no_phones(
        vec![f("no avahi", "enable avahi"), f("5353 shut", "enable avahi"), f("8765 shut", "open 8765")],
        &["same subnet".into()],
    );
    assert_eq!(
        out,
        "No phones connected.\n\
         This host is keeping them out:\n  \
           ✗ no avahi\n  \
           ✗ 5353 shut\n    \
             fix: enable avahi\n  \
           ✗ 8765 shut\n    \
             fix: open 8765\n\
         Also check:\n  \
           - same subnet\n"
    );
    assert_eq!(out.matches("No phones connected").count(), 1);
}

#[test]
fn a_clean_host_claims_only_what_was_checked() {
    let out = render_no_phones(Vec::new(), &["same subnet".into()]);
    assert!(out.starts_with("No phones connected.\nNo problems detected on this host.\n"), "{out}");
    assert!(!out.contains("ready"), "{out}");
    // No checklist (loopback bind): no dangling heading.
    assert!(!render_no_phones(Vec::new(), &[]).contains("Also check"));
}

#[test]
fn port_specs() {
    assert!(ports_cover("8765", 8765));
    assert!(ports_cover("8000:9000", 8765));
    assert!(ports_cover("8000-9000", 8765));
    assert!(ports_cover("22,443,8765", 8765));
    assert!(!ports_cover("22,443", 8765));
    assert!(!ports_cover("ssh", 22));
}

#[test]
fn macos_application_firewall() {
    let exe = "/x/vendor/dialf-0.3.12-darwin-arm64/dialf";
    let off = "Firewall is disabled. (State = 0)\n";
    let on = "Firewall is enabled. (State = 1)\n";
    let no_block_all = "Firewall has block all state set to disabled.\n";
    assert!(macos_findings_from(exe, off, "", "").is_empty());
    assert!(macos_findings_from(
        exe, on, no_block_all,
        &format!("The application {exe} is permitted to receive incoming connections\n")
    )
    .is_empty());

    let blocked = macos_findings_from(
        exe, on, no_block_all,
        &format!("The application {exe} is blocked from receiving incoming connections\n"),
    );
    assert!(blocked[0].problem.contains("blocks incoming"), "{blocked:?}");
    assert!(blocked[0].fix.contains("--unblockapp '/x/vendor/dialf-0.3.12"), "{blocked:?}");
    assert!(blocked[0].fix.contains("every dialf upgrade"), "{blocked:?}");

    let unlisted = macos_findings_from(exe, on, no_block_all, "The application is not part of the firewall\n");
    assert!(unlisted[0].problem.contains("may be refused"), "{unlisted:?}");

    let all = macos_findings_from(exe, on, "Firewall has block all state set to enabled.\n", "");
    assert!(all[0].fix.contains("--setblockall off"), "{all:?}");
}

#[test]
fn a_marker_file_beats_the_release_file() {
    assert_eq!(distro(true, Some("ID=arch\n")), Distro::NixOs);
    assert_eq!(distro(false, Some("ID=arch\n")), Distro::Arch);
    assert_eq!(distro(false, None), Distro::Other);
}

#[test]
fn the_first_running_firewall_counts() {
    assert_eq!(
        pick_firewall(Distro::NixOs, true, false, true, false, false),
        FirewallKind::NixOs
    );
    assert_eq!(
        pick_firewall(Distro::Debian, false, false, true, true, false),
        FirewallKind::Ufw
    );
    assert_eq!(
        pick_firewall(Distro::Fedora, false, false, false, true, true),
        FirewallKind::Firewalld
    );
    assert_eq!(
        pick_firewall(Distro::Arch, false, false, false, false, false),
        FirewallKind::Absent
    );
}

#[test]
fn ufw_and_firewalld_are_read_for_whether_they_run() {
    assert!(ufw_enabled(Some("ENABLED=yes\n"), Some("DEFAULT_INPUT_POLICY=\"DROP\"\n")));
    assert!(!ufw_enabled(Some("ENABLED=no\n"), Some("DEFAULT_INPUT_POLICY=\"DROP\"\n")));
    assert!(!ufw_enabled(None, None));
    assert!(firewalld_running("running\n"));
    assert!(!firewalld_running("not running\n"));
}

#[test]
fn a_firewall_that_blocks_is_found() {
    let fw = Firewall::Ufw { rules: Some("-A ufw-user-input -p tcp --dport 22 -j ACCEPT\n".into()) };
    let f = firewall_findings(8765, &fw);
    assert_eq!(f.len(), 2, "{f:?}");
    assert_eq!(f[0].fix, "sudo ufw allow 8765/tcp");
    let shut = iptables_findings(8765, Open::No, Open::Yes);
    assert_eq!(shut.len(), 1);
    assert!(shut[0].problem.contains("8765"), "{shut:?}");
}

#[test]
fn the_checklist_names_addresses_where_a_phone_may_be() {
    let at = |a, b, c, d| Ipv4 { a, b, c, d };
    let l = checklist(8765, &vec![at(192, 168, 1, 7), at(100, 64, 0, 2), at(172, 17, 0, 1)]);
    assert_eq!(l.len(), 3);
    assert!(l[1].ends_with("192.168.1.7:8765"), "{}", l[1]);
    let l = checklist(8765, &Vec::new());
    assert!(l[1].ends_with("<this machine's LAN IP>:8765"), "{}", l[1]);
}
