//! The set of forwards, where listeners may bind, and how a connection gets its stream.

use portmanager::client::{
    attach_deadline, attach_step, bind_step, fallback_ports, header_for, new_health_handle,
    rebind_step, ActiveForward, AttachAction, AttachEvent, AttachFailure, AttachPhase, BindStep,
    ForwardError, ForwardSet, ForwardSnapshot, Origin, Rebind, RebindStep, LOCAL_PORT_STEP,
};
use portmanager::forward::{ForwardKind, ForwardSpec, NsSpec};
use portmanager::net::IpAddr;

fn spec(local_port: u16, local_port_auto: bool) -> ForwardSpec {
    ForwardSpec {
        ns: NsSpec::Host,
        ns_inherited: false,
        remote_host: "127.0.0.1".into(),
        remote_port: local_port,
        local_addr: IpAddr::localhost(),
        local_port,
        local_port_auto,
        kind: ForwardKind::default(),
    }
}

fn empty() -> ForwardSet {
    ForwardSet::new(None, IpAddr::localhost())
}

/// Binds as the system would: not on a busy port, and on `ephemeral` where any will do.
fn bind(set: &mut ForwardSet, s: ForwardSpec, busy: &[u16], ephemeral: u16) -> Option<u16> {
    let ports = set.plan_add(&s).ok()?;
    let port = ports.into_iter().find(|p| !busy.contains(p))?;
    let port = if port == 0 { ephemeral } else { port };
    let addr = s.local_addr;
    set.add(s, Origin::UserAdded, addr, port).ok()?;
    Some(port)
}

#[test]
fn fallback_ladder_bumps_thousands_until_it_overflows() {
    let rungs: Vec<u16> = fallback_ports(80).into_iter().take(4).collect();
    assert_eq!(rungs, vec![80, 1080, 2080, 3080]);

    // Last reachable rung keeps the suffix, then stops before overflowing.
    let all: Vec<u16> = fallback_ports(80);
    assert_eq!(*all.last().unwrap(), 65080);

    // A preferred port whose next rung would overflow yields only itself.
    assert_eq!(fallback_ports(65000), vec![65000]);
}

#[test]
fn omitted_local_port_falls_back_to_next_rung_when_preferred_is_busy() {
    let preferred = 18000;
    let mut forwards = empty();
    let local = bind(&mut forwards, spec(preferred, true), &[preferred], 40000).unwrap();
    assert_eq!(local, preferred + LOCAL_PORT_STEP);
    forwards.remove(local).unwrap();
}

#[test]
fn omitted_local_port_falls_back_when_preferred_port_is_busy() {
    let preferred = 18000;
    let mut forwards = empty();
    let local = bind(&mut forwards, spec(preferred, true), &[preferred], 40000).unwrap();
    assert_ne!(local, preferred);
    let active = forwards.list();
    assert_eq!(active[0].spec.local_port, local);
    assert!(active[0].spec.local_port_auto);
    forwards.remove(local).unwrap();
}

#[test]
fn a_full_ladder_ends_in_a_port_that_the_system_picks() {
    let mut forwards = empty();
    let rungs = fallback_ports(64000);
    assert_eq!(rungs, vec![64000, 65000]);
    assert_eq!(bind(&mut forwards, spec(64000, true), &rungs, 40000), Some(40000));
}

#[test]
fn clear_removes_all_forwards() {
    let mut forwards = empty();
    // Two distinct ephemeral forwards (port 0 -> free port each).
    assert_eq!(bind(&mut forwards, spec(0, false), &[], 40001), Some(40001));
    assert_eq!(bind(&mut forwards, spec(0, false), &[], 40000), Some(40000));
    assert_eq!(forwards.list().len(), 2);
    assert_eq!(forwards.list()[0].local_port, 40000);

    assert_eq!(forwards.clear(), 2);
    assert!(forwards.list().is_empty());
}

fn find_port(list: &[ActiveForward], port: u16) -> &ActiveForward {
    list.iter()
        .find(|s| s.local_port == port)
        .expect("forward should still be bound on its original local port")
}

/// Re-points the set; every forward can be bound again where it was.
fn repoint(set: &mut ForwardSet, ns: Option<NsSpec>) -> (usize, Vec<String>) {
    let outcomes: Vec<Rebind> = set
        .plan_repoint(&ns)
        .into_iter()
        .map(|port| Rebind::Moved { addr: IpAddr::localhost(), port })
        .collect();
    set.repoint_default_ns(ns, &outcomes)
}

#[test]
fn later_adds_inherit_the_session_default_ns_and_are_repointed() {
    let mut set = ForwardSet::new(Some(NsSpec::Pid(4242)), IpAddr::localhost());
    assert_eq!(set.default_ns(), Some(NsSpec::Pid(4242)));

    let bare = set.parse_spec("18080").unwrap();
    assert_eq!(bare.ns, NsSpec::Pid(4242), "bare spec should inherit");
    assert!(bare.ns_inherited);
    let bare_local = bind(&mut set, bare, &[], 40000).unwrap();

    // An explicit namespace still wins, and stays put across re-points.
    let explicit = set.parse_spec("pid:999@18081").unwrap();
    assert_eq!(explicit.ns, NsSpec::Pid(999));
    assert!(!explicit.ns_inherited);
    let explicit_local = bind(&mut set, explicit, &[], 40000).unwrap();

    // Re-point: the inherited forward moves, on the same local port.
    let (moved, errors) = repoint(&mut set, Some(NsSpec::Podman("web".into())));
    assert_eq!((moved, errors.len()), (1, 0));
    let list = set.list();
    let repointed = find_port(&list, bare_local);
    assert_eq!(repointed.spec.ns, NsSpec::Podman("web".into()));
    assert!(repointed.spec.ns_inherited, "still an inherited namespace");
    assert_eq!(
        find_port(&list, explicit_local).spec.ns,
        NsSpec::Pid(999),
        "an explicitly-namespaced forward must not be re-pointed"
    );

    // Clearing sends inherited forwards back to the agent's own namespace.
    let (moved, errors) = repoint(&mut set, None);
    assert_eq!((moved, errors.len()), (1, 0));
    assert_eq!(set.default_ns(), None);
    assert_eq!(find_port(&set.list(), bare_local).spec.ns, NsSpec::Host);
}

#[test]
fn repoint_rescues_bare_forwards_added_without_any_default() {
    let mut set = empty();
    let bare = set.parse_spec("18090").unwrap();
    assert_eq!(bare.ns, NsSpec::Host);
    let local = bind(&mut set, bare, &[], 40000).unwrap();

    let (moved, errors) = repoint(&mut set, Some(NsSpec::Pid(856182)));
    assert_eq!((moved, errors.len()), (1, 0));
    assert_eq!(find_port(&set.list(), local).spec.ns, NsSpec::Pid(856182));
}

#[test]
fn repoint_reports_what_did_not_move() {
    let mut set = empty();
    let a = set.parse_spec("18090").unwrap();
    bind(&mut set, a, &[], 0).unwrap();
    let b = set.parse_spec("18091").unwrap();
    bind(&mut set, b, &[], 0).unwrap();
    let ns = Some(NsSpec::Pid(1));
    assert_eq!(set.plan_repoint(&ns), vec![18090, 18091]);
    let (new, now) = set.repointed_spec(18090, &ns).unwrap();
    assert_eq!((new.ns, now.ns), (NsSpec::Pid(1), NsSpec::Host));
    let outcomes = vec![
        Rebind::Kept { addr: IpAddr::localhost(), port: 18090, error: "in use".into() },
        Rebind::Lost { error: "gone".into(), restore_error: "still gone".into() },
    ];
    let (moved, errors) = set.repoint_default_ns(ns, &outcomes);
    assert_eq!(moved, 0);
    assert_eq!(errors[0], "local port 18090: in use (kept previous)");
    assert_eq!(errors[1], "local port 18091: gone; restore failed: still gone");
    assert_eq!(set.list().len(), 1);
    assert_eq!(set.list()[0].spec.ns, NsSpec::Host);
    assert_eq!((set.list()[0].local_port, set.list()[0].spec.local_port), (18090, 18090));
}

#[test]
fn the_list_names_the_ports_that_are_bound() {
    let mut set = empty();
    for (wanted, ephemeral) in [(0, 40002), (18001, 0), (0, 40001)] {
        bind(&mut set, spec(wanted, false), &[], ephemeral).unwrap();
    }
    repoint(&mut set, Some(NsSpec::Pid(7)));
    set.remove(18001).unwrap();
    let ports: Vec<(u16, u16)> =
        set.list().iter().map(|f| (f.local_port, f.spec.local_port)).collect();
    assert_eq!(ports, vec![(40001, 40001), (40002, 40002)]);
}

#[test]
fn snapshots_pair_forwards_with_their_health() {
    let mut set = empty();
    bind(&mut set, spec(18001, false), &[], 0).unwrap();
    bind(&mut set, spec(18000, false), &[], 0).unwrap();
    let mut h = new_health_handle();
    h.record_error("refused".into());
    h.bytes_up = 3;
    h.bytes_down = 4;
    let shown = set.snapshots(&vec![(18001, h)]);
    assert_eq!(shown.len(), 2);
    assert_eq!((shown[0].local_port, shown[0].last_error.as_deref()), (18000, None));
    assert_eq!((shown[0].bytes_up, shown[0].bytes_down), (0, 0));
    assert_eq!((shown[1].local_port, shown[1].last_error.as_deref()), (18001, Some("refused")));
    assert_eq!((shown[1].bytes_up, shown[1].bytes_down), (3, 4));
}

/// Binds one of `ports`, of which those in `busy` cannot be had.
fn run(ports: &[u16], busy: &[u16]) -> (Result<(IpAddr, u16), String>, Vec<u16>) {
    let ports = ports.to_vec();
    let mut tried = Vec::new();
    let mut last = None;
    loop {
        match bind_step(&ports, tried.len(), last) {
            BindStep::Done(r) => return (r, tried),
            BindStep::Try(p) => {
                tried.push(p);
                last = Some(if busy.contains(&p) {
                    Err(format!("{p} in use"))
                } else {
                    Ok((IpAddr::localhost(), p))
                });
            }
        }
    }
}

#[test]
fn the_first_port_that_binds_is_taken() {
    assert_eq!(run(&[1, 2, 3], &[1]), (Ok((IpAddr::localhost(), 2)), vec![1, 2]));
    assert_eq!(run(&[1], &[]), (Ok((IpAddr::localhost(), 1)), vec![1]));
    assert_eq!(run(&[1, 2], &[1, 2]), (Err("2 in use".into()), vec![1, 2]));
}

#[test]
fn a_forward_that_cannot_move_is_bound_as_it_was() {
    let at = (IpAddr::localhost(), 18090);
    assert!(matches!(
        rebind_step(Ok(at), None),
        RebindStep::Done(Rebind::Moved { port: 18090, .. })
    ));
    assert!(matches!(rebind_step(Err("a".into()), None), RebindStep::Restore));
    assert!(matches!(
        rebind_step(Err("a".into()), Some(Ok(at))),
        RebindStep::Done(Rebind::Kept { port: 18090, error, .. }) if error == "a"
    ));
    assert!(matches!(
        rebind_step(Err("a".into()), Some(Err("b".into()))),
        RebindStep::Done(Rebind::Lost { error, restore_error }) if error == "a" && restore_error == "b"
    ));
}

#[test]
fn explicit_local_port_stays_strict_when_busy() {
    let preferred = 18000;
    let mut forwards = empty();
    assert!(bind(&mut forwards, spec(preferred, false), &[preferred], 40000).is_none());
}

#[test]
fn a_port_is_forwarded_once() {
    let mut forwards = empty();
    bind(&mut forwards, spec(18000, false), &[], 0).unwrap();
    let e = forwards.plan_add(&spec(18000, false)).unwrap_err();
    assert_eq!(e, ForwardError::AlreadyForwarded(18000));
    assert_eq!(e.message(), "local port 18000 is already forwarded");
    let e = forwards.remove(1).unwrap_err();
    assert_eq!(e.message(), "no forward on local port 1");
    // A port that may fall back skips what the set has.
    assert_eq!(forwards.plan_add(&spec(18000, true)).unwrap()[0], 19000);
}

#[test]
fn add_then_remove_leaves_the_set_as_it_was() {
    let mut forwards = empty();
    bind(&mut forwards, spec(18000, false), &[], 0).unwrap();
    bind(&mut forwards, spec(18001, false), &[], 0).unwrap();
    assert!(forwards.contains(18001));
    assert!(forwards.targets("", 18001));
    forwards.remove(18001).unwrap();
    assert!(!forwards.contains(18001));
    let ports: Vec<u16> = forwards.list().iter().map(|a| a.local_port).collect();
    assert_eq!(ports, vec![18000]);
}

#[test]
fn attach_deadline_takes_positive_numbers() {
    assert_eq!(attach_deadline(None), 10);
    assert_eq!(attach_deadline(Some("30")), 30);
    assert_eq!(attach_deadline(Some("0")), 10);
    assert_eq!(attach_deadline(Some("soon")), 10);
}

#[test]
fn a_connection_is_served_once_its_stream_is_open() {
    let (phase, action) = attach_step(AttachPhase::Looking, AttachEvent::Live, true);
    assert_eq!((phase, action), (AttachPhase::Opening, AttachAction::Open));
    let (_, action) = attach_step(phase, AttachEvent::Opened, true);
    assert_eq!(action, AttachAction::Serve { socks_ok: true });
    // A stale connection is replaced, until the deadline.
    let (phase, action) = attach_step(phase, AttachEvent::OpenFailed, false);
    assert_eq!((phase, action), (AttachPhase::Replacing, AttachAction::WaitForChange));
    let why = AttachFailure::NotReestablished;
    let (_, action) = attach_step(phase, AttachEvent::Deadline, false);
    assert_eq!(action, AttachAction::Fail { why, socks_reply: false });
    assert_eq!(why.message(), "agent connection lost and not re-established in time");
}

#[test]
fn a_connection_waits_until_the_deadline() {
    let (phase, action) = attach_step(AttachPhase::Looking, AttachEvent::Down, true);
    assert_eq!((phase, action), (AttachPhase::Waiting, AttachAction::WaitForChange));
    let why = AttachFailure::NoConnection;
    let (_, action) = attach_step(phase, AttachEvent::Deadline, true);
    assert_eq!(action, AttachAction::Fail { why, socks_reply: true });
    assert_eq!(why.message(), "no agent connection within attach deadline");
    let why = AttachFailure::SessionEnded;
    let (_, action) = attach_step(phase, AttachEvent::SessionEnded, true);
    assert_eq!(action, AttachAction::Fail { why, socks_reply: false });
}

#[test]
fn stream_headers_name_the_target() {
    let f: ForwardSpec = "podman:web@10.88.0.5:5432->15432".parse().unwrap();
    let h = header_for(&f, None);
    assert_eq!((h.ns.as_str(), h.host.as_str(), h.port), ("podman:web", "10.88.0.5", 5432));
    let s: ForwardSpec = "socks".parse().unwrap();
    let h = header_for(&s, Some(("db.internal".into(), 80)));
    assert_eq!((h.ns.as_str(), h.host.as_str(), h.port), ("", "db.internal", 80));
}

#[test]
fn health_counts_and_remembers() {
    let mut h = new_health_handle();
    h.record_ok();
    h.record_error("refused".into());
    assert_eq!(h.ok_connections, 1);
    assert_eq!(h.last_error.as_deref(), Some("refused"));
    let a = ActiveForward {
        spec: spec(80, false),
        local_addr: IpAddr::localhost(),
        local_port: 80,
        origin: Origin::AutoForwarded,
    };
    let s = ForwardSnapshot::of(&a, &h);
    assert_eq!((s.local_port, s.ok_connections), (80, 1));
    assert_eq!(s.origin.label(), "auto");
    assert_eq!(Origin::UserAdded.label(), "user");
    assert_eq!(Origin::Remembered.label(), "remembered");
}
