//! Reverse forwards.

use portmanager::client::{new_health_handle, Origin};
use portmanager::forward::ReverseSpec;
use portmanager::reverse::{
    bind_result, epoch_check, plan_bind, read_registration, registration_line, watch_step, ConnKind,
    EpochEnd, ReverseError, ReverseSet, ReverseSnapshot, WatchAction,
};

fn spec(s: &str) -> ReverseSpec {
    s.parse().unwrap()
}

#[test]
fn an_endpoint_is_taken_once() {
    let mut set = ReverseSet::new();
    let id = set.add(spec("3000->3000"), Origin::UserAdded).unwrap();
    assert!(set.add(spec("3001->3000"), Origin::UserAdded).unwrap() != id);
    let e = set.add(spec("3000->4000"), Origin::UserAdded).unwrap_err();
    assert_eq!(e.message(), "reverse forward on remote 127.0.0.1:3000 already exists");
    // Another address is another endpoint.
    assert!(set.add(spec("0.0.0.0:3000->4000"), Origin::UserAdded).is_ok());
    assert_eq!(set.version(), 3);
}

#[test]
fn entries_are_removed_by_port_or_spec() {
    let mut set = ReverseSet::new();
    set.add(spec("3000->3000"), Origin::UserAdded).unwrap();
    set.add(spec("3001->3000"), Origin::UserAdded).unwrap();
    assert_eq!(set.remove(" 3001 ").unwrap(), spec("3001->3000"));
    assert_eq!(set.remove("127.0.0.1:3000->1").unwrap(), spec("3000->3000"));
    assert!(set.is_empty());
    assert!(matches!(set.remove("3000"), Err(ReverseError::NoMatch(_))));
    assert!(matches!(set.remove("x->y"), Err(ReverseError::BadSpec(_))));
    assert_eq!(set.clear(), 0);
    assert_eq!(set.version(), 4, "clearing nothing changes nothing");
}

#[test]
fn the_list_is_in_the_order_of_the_ports() {
    let mut set = ReverseSet::new();
    for s in ["3002->1", "3000->1", "0.0.0.0:3000->2", "3001->1"] {
        set.add(spec(s), Origin::UserAdded).unwrap();
    }
    let shown: Vec<String> = set.list().iter().map(|e| e.spec.to_spec_string()).collect();
    assert_eq!(shown, vec!["3000->1", "0.0.0.0:3000->2", "3001->1", "3002->1"]);
    let (specs, version) = set.registration();
    assert_eq!((specs[0].as_str(), version), ("3002->1", 4));
}

#[test]
fn the_agent_binds_in_its_own_namespace_only() {
    assert_eq!(plan_bind("3000->3000"), Ok(spec("3000->3000")));
    assert!(plan_bind("3000").unwrap_err().starts_with("bad reverse spec: "));
    assert_eq!(
        plan_bind("podman:web@5432->5432").unwrap_err(),
        "reverse forwarding inside a namespace (podman:web) is not supported yet"
    );
    let r = bind_result("3000->3000", Err("in use".into()));
    assert_eq!((r.ok, r.error.as_deref()), (false, Some("in use")));
    assert!(bind_result("3000->3000", Ok(())).ok);
}

#[test]
fn reports_reach_the_entries() {
    let mut set = ReverseSet::new();
    let a = set.add(spec("3000->1"), Origin::UserAdded).unwrap();
    let b = set.add(spec("3001->2"), Origin::UserAdded).unwrap();
    let mut silent = bind_result("3001->2", Err(String::new()));
    silent.error = None;
    let reports = vec![
        bind_result("3000->1", Err("in use".into())),
        silent,
        bind_result("3000->1", Ok(())),
        bind_result("nonsense", Ok(())),
        bind_result("9->9", Ok(())),
    ];
    let u = set.apply_results(&reports);
    let got: Vec<(u64, Option<&str>)> = u.iter().map(|u| (u.id, u.last_error.as_deref())).collect();
    assert_eq!(
        got,
        vec![(a, Some("in use")), (b, Some("remote bind failed")), (a, None)]
    );
    assert_eq!(set.health_for("127.0.0.1", 2), Some(b));
    assert_eq!(set.health_for("127.0.0.1", 9), None);
    let s = ReverseSnapshot::of(&set.list()[0], &new_health_handle());
    assert_eq!(s.spec, spec("3000->1"));
}

#[test]
fn registration_waits_for_the_right_transport() {
    assert_eq!(watch_step(ConnKind::Down, false, false), WatchAction::WaitConn);
    assert_eq!(watch_step(ConnKind::Ssh, false, false), WatchAction::WarnAndWaitConn);
    assert_eq!(watch_step(ConnKind::Ssh, false, true), WatchAction::WaitConn);
    assert_eq!(watch_step(ConnKind::Quic, true, false), WatchAction::WaitEither);
    assert_eq!(watch_step(ConnKind::Quic, false, false), WatchAction::Register);
    assert_eq!(epoch_check(3, 3, false), None);
    assert_eq!(epoch_check(3, 4, false), Some(EpochEnd::Changed));
    assert_eq!(epoch_check(3, 4, true), Some(EpochEnd::ConnEnded));
}

#[test]
fn registration_line_is_read_back() {
    let specs: Vec<String> = vec!["3000->3000".to_string(), "quote \" and \\ and é".to_string()];
    let line = registration_line(&specs);
    assert_eq!(line, "[\"3000->3000\",\"quote \\\" and \\\\ and é\"]\n");
    assert_eq!(read_registration(&line), Ok(specs));
    assert_eq!(registration_line(&Vec::new()), "[]\n");
    assert_eq!(read_registration("  []  "), Ok(Vec::new()));
    let e = read_registration("{").unwrap_err();
    assert!(e.starts_with("decoding reverse registration: "), "{e}");
    assert!(read_registration("[1]").is_err());
}
