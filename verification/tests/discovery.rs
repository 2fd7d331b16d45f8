//! Discovered listeners and automatic forwards.

use portmanager::client::{ForwardSet, Origin};
use portmanager::config::AutoForwardRule;
use portmanager::discovery::{
    active_namespaces, consider, fallback, is_wanted, merge_rows, owner_of, scanned, SocketRow, parse_netns_link, parse_watch_list,
    same_names, spec_for_listener, watch_line, Listener, ListenerProc, SocketOwner,
};
use portmanager::forward::{ForwardSpec, NsSpec};
use portmanager::net::IpAddr;

fn found(ns: &str, ip: &str, port: u16, pid: Option<i32>) -> Listener {
    Listener {
        ns: ns.into(),
        ip: ip.into(),
        port,
        process: pid.map(|pid| ListenerProc { pid, name: "p".into() }),
    }
}

fn rule(ns: &str, ports: &str, local: &str) -> AutoForwardRule {
    AutoForwardRule { ns: ns.into(), ports: ports.into(), local: local.into() }
}

fn set() -> ForwardSet {
    ForwardSet::new(None, IpAddr::localhost())
}

#[test]
fn a_watch_list_reads_back() {
    let names = vec!["host".to_string(), "podman:web".to_string()];
    let line = watch_line(&names);
    let read = parse_watch_list(&line);
    assert_eq!(read, vec![NsSpec::Host, NsSpec::Podman("web".into())]);
    assert!(same_names(&names, &names.clone()));
    assert!(!same_names(&names, &vec!["host".to_string()]));
}

#[test]
fn namespace_links_hold_a_number() {
    assert_eq!(parse_netns_link("net:[4026531840]"), Some(4026531840));
    assert_eq!(parse_netns_link("mnt:[1]"), None);
    assert_eq!(parse_netns_link("net:[x]"), None);
}

#[test]
fn sockets_belong_to_processes() {
    let owners = vec![
        SocketOwner { netns: 1, inode: 5, process: ListenerProc { pid: 7, name: "a".into() } },
        SocketOwner { netns: 2, inode: 5, process: ListenerProc { pid: 8, name: "b".into() } },
    ];
    assert_eq!(owner_of(&owners, 2, 5).unwrap().pid, 8);
    assert!(owner_of(&owners, 3, 5).is_none());
}

#[test]
fn only_listening_sockets_are_found() {
    let row = |port: u16, listening: bool, netns: Option<u64>| SocketRow {
        ns: "".into(),
        ip: "0.0.0.0".into(),
        port,
        listening,
        netns,
        inode: 5,
    };
    let owners = vec![
        SocketOwner { netns: 1, inode: 5, process: ListenerProc { pid: 7, name: "a".into() } },
        SocketOwner { netns: 1, inode: 5, process: ListenerProc { pid: 8, name: "b".into() } },
    ];
    let rows = vec![
        row(90, true, Some(1)),
        row(80, false, Some(1)),
        row(70, true, Some(2)),
        row(60, true, None),
    ];
    let got: Vec<(u16, Option<i32>)> = scanned(&rows, &owners)
        .iter()
        .map(|l| (l.port, l.process.as_ref().map(|p| p.pid)))
        .collect();
    assert_eq!(got, vec![(60, None), (70, None), (90, Some(7))]);
}

#[test]
fn rows_are_merged_and_sorted() {
    let rows = vec![
        found("", "::", 90, None),
        found("", "0.0.0.0", 80, None),
        found("", "0.0.0.0", 80, Some(7)),
        found("", "0.0.0.0", 80, None),
    ];
    let merged = merge_rows(&rows);
    assert_eq!(merged.len(), 2);
    assert_eq!(merged[0], found("", "0.0.0.0", 80, Some(7)));
    assert_eq!(merged[1], found("", "::", 90, None));
}

#[test]
fn watched_namespaces_come_from_forwards_and_rules() {
    let mut s = set();
    let f: ForwardSpec = "docker:api@80->18000".parse().unwrap();
    s.add(f, Origin::UserAdded, IpAddr::localhost(), 18000).unwrap();
    let rules = vec![rule("podman:web", "*", "same"), rule("host", "*", "same")];
    assert_eq!(active_namespaces(&s, &rules), vec!["docker:api", "host", "podman:web"]);
}

#[test]
fn a_listener_on_all_addresses_is_dialed_on_loopback() {
    let f = spec_for_listener(&found("podman:web", "0.0.0.0", 80, None), IpAddr::localhost());
    let f = f.unwrap();
    assert_eq!((f.remote_host.as_str(), f.remote_port, f.local_port), ("127.0.0.1", 80, 80));
    assert_eq!(f.ns, NsSpec::Podman("web".into()));
    assert!(f.local_port_auto && !f.ns_inherited);
    let f = spec_for_listener(&found("", "10.0.0.1", 80, None), IpAddr::localhost()).unwrap();
    assert_eq!(f.remote_host, "10.0.0.1");
    assert!(spec_for_listener(&found("lxc:x", "::", 80, None), IpAddr::localhost()).is_err());
}

#[test]
fn rules_decide_what_is_forwarded() {
    let mut s = set();
    let rules = vec![rule("host", "80,81", "same"), rule("host", "*", "auto")];
    let l = found("", "0.0.0.0", 80, None);
    let f = consider(&l, &s, &rules, None).unwrap().unwrap();
    assert_eq!(f.local_port, 80);
    assert_eq!(consider(&l, &s, &rules, Some(9999)).unwrap().unwrap().local_port, 9999);
    let other = found("", "0.0.0.0", 99, None);
    assert_eq!(consider(&other, &s, &rules, None).unwrap().unwrap().local_port, 0);
    assert!(consider(&found("pid:1", "::", 80, None), &s, &rules, None).unwrap().is_none());
    let bad = vec![rule("lxc:x", "*", "same")];
    assert!(consider(&found("lxc:x", "::", 80, None), &s, &bad, None).is_err());
    s.add(f.clone(), Origin::AutoForwarded, IpAddr::localhost(), 80).unwrap();
    assert!(consider(&l, &s, &rules, None).unwrap().is_none(), "it is forwarded already");
    assert_eq!(fallback(&f).unwrap().local_port, 0);
    assert!(fallback(&fallback(&f).unwrap()).is_none());
}

#[test]
fn watching_needs_a_rule_or_a_looker() {
    assert!(!is_wanted(&Vec::new(), false));
    assert!(is_wanted(&Vec::new(), true));
    assert!(is_wanted(&vec![rule("host", "*", "same")], false));
}
