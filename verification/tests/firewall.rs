//! Advice on host firewalls.

use portmanager::firewall::{
    advisory, detect_script, diagnose, select_firewall, udp_failure_message, AdvisePort, Firewall,
};

#[test]
fn ufw_command_range_and_single() {
    assert!(
        advisory(Some(Firewall::Ufw), &AdvisePort::Range(60000, 61000))
            .contains("sudo ufw allow 60000:61000/udp")
    );
    assert!(
        advisory(Some(Firewall::Ufw), &AdvisePort::Single(51820))
            .contains("sudo ufw allow 51820/udp")
    );
}

#[test]
fn firewalld_and_iptables_and_nft_commands() {
    assert!(
        advisory(Some(Firewall::Firewalld), &AdvisePort::Range(60000, 61000))
            .contains("--add-port=60000-61000/udp")
    );
    assert!(
        advisory(Some(Firewall::Iptables), &AdvisePort::Range(60000, 61000))
            .contains("--dport 60000:61000 -j ACCEPT")
    );
    assert!(
        advisory(Some(Firewall::Nftables), &AdvisePort::Single(53))
            .contains("udp dport 53 accept")
    );
}

#[test]
fn no_firewall_points_at_cloud() {
    let a = advisory(None, &AdvisePort::Range(60000, 61000));
    assert!(a.contains("cloud security group"));
    assert!(a.contains("UDP 60000-61000"));
}

#[test]
fn choose_prefers_managing_frontend() {
    // ufw wins even when iptables is present (ufw manages it).
    assert_eq!(
        select_firewall("active:ufw\nhave:iptables\nhave:nft"),
        Some(Firewall::Ufw)
    );
    assert_eq!(
        select_firewall("active:firewalld\nhave:iptables"),
        Some(Firewall::Firewalld)
    );
    assert_eq!(select_firewall("have:iptables"), Some(Firewall::Iptables));
    assert_eq!(select_firewall(""), None);
}

#[test]
fn a_probe_that_failed_names_no_firewall() {
    let port = AdvisePort::Single(51820);
    assert_eq!(
        diagnose(None, &port),
        "Could not inspect the remote firewall. Ensure UDP 51820 is allowed inbound \
         (host firewall and any cloud security group)."
    );
    assert_eq!(diagnose(Some("have:nft\n"), &port), advisory(Some(Firewall::Nftables), &port));
    assert!(detect_script().contains("ufw"));
    assert_eq!(port.human(), "UDP 51820");
    assert_eq!(AdvisePort::Range(1, 2).colon(), "1:2");
    assert_eq!(AdvisePort::Range(1, 2).dash(), "1-2");
    assert_eq!(Firewall::Firewalld.label(), "firewalld");
}

#[test]
fn a_silent_agent_has_three_ways_out() {
    let port = AdvisePort::Single(60001);
    assert_eq!(
        udp_failure_message("box", None, &port),
        "could not reach the agent on box over UDP 60001.\nCould not inspect the remote firewall. \
         Ensure UDP 60001 is allowed inbound (host firewall and any cloud security group).\nOr name \
         a port that is open with --remote-udp 0.0.0.0:PORT, or carry the data over SSH with \
         --via-ssh."
    );
}
