//! What a running session answers.

use portmanager::client::{
    new_health_handle, ForwardHealth, ForwardSet, ForwardSnapshot, Origin, Rebind,
};
use portmanager::config::{Config, HostState, PersistTarget};
use portmanager::control::{
    dispatch, display_spec, finish_add, finish_repoint, health_label, requested_ns,
    reverse_health_label, session_record, state_text, Dispatch, Reply, Request, Response,
    SessionView,
};
use portmanager::forward::{ForwardKind, ForwardSpec, NsSpec, ReverseSpec};
use portmanager::net::IpAddr;
use portmanager::reverse::{ReverseSet, ReverseSnapshot};
use portmanager::supervisor::Status;

/// A session whose listeners can always be bound.
struct Session {
    forwards: ForwardSet,
    reverse: ReverseSet,
    status: Status,
    can_stop: bool,
    state: HostState,
    /// How many connections each forward has served, by local port.
    health: Vec<(u64, u64)>,
    /// How many each reverse forward has, by id.
    reverse_health: Vec<(u64, u64)>,
}

/// The health of a forward that has served `n` connections.
fn served(n: u64) -> ForwardHealth {
    let mut h = new_health_handle();
    h.ok_connections = n;
    h
}

impl Session {
    fn new(default_ns: Option<NsSpec>) -> Session {
        Session {
            forwards: ForwardSet::new(default_ns, IpAddr::localhost()),
            reverse: ReverseSet::new(),
            status: Status::Connected,
            can_stop: false,
            state: HostState::default(),
            health: Vec::new(),
            reverse_health: Vec::new(),
        }
    }

    fn ask(&mut self, req: Request) -> Reply {
        let view = SessionView {
            status: self.status,
            agent_version: "test-agent".into(),
            can_stop: self.can_stop,
            health: self.health.iter().map(|(k, n)| (*k, served(*n))).collect(),
            reverse_health: self.reverse_health.iter().map(|(k, n)| (*k, served(*n))).collect(),
        };
        let reply = match dispatch(&req, &mut self.forwards, &mut self.reverse, &view) {
            Dispatch::Answered(reply) => reply,
            Dispatch::Bind { spec, ports } => {
                let at = (spec.local_addr, ports[0]);
                finish_add(&mut self.forwards, spec, Ok(at), &self.status)
            }
            Dispatch::Repoint { ns, ports } => {
                let outcomes: Vec<Rebind> = ports
                    .into_iter()
                    .map(|port| Rebind::Moved { addr: IpAddr::localhost(), port })
                    .collect();
                finish_repoint(&mut self.forwards, ns, &outcomes)
            }
        };
        if reply.persist {
            let record = session_record(&self.forwards, &self.reverse);
            let target = PersistTarget::HostState { host: "h".into() };
            let mut config = Config::default();
            target.save_forwards(&mut self.state, &mut config, record).unwrap();
        }
        reply
    }

    fn done(&mut self, req: Request) -> String {
        match self.ask(req).response {
            Response::Done { message } => message,
            other => panic!("{other:?}"),
        }
    }

    fn error(&mut self, req: Request) -> String {
        let reply = self.ask(req);
        assert!(!reply.persist && !reply.shutdown);
        match reply.response {
            Response::Error { message } => message,
            other => panic!("{other:?}"),
        }
    }
}

fn add(spec: &str) -> Request {
    Request::Add { spec: spec.into() }
}

#[test]
fn display_spec_roundtrips_through_parser() {
    for raw in [
        "8888",
        "192.168.4.2:8080->8080",
        "podman:web@10.88.0.5:5432->15432",
    ] {
        let spec: ForwardSpec = raw.parse().unwrap();
        let shown = display_spec(&spec, IpAddr::localhost());
        let back: ForwardSpec = shown.parse().unwrap();
        assert_eq!(
            spec, back,
            "display form {shown:?} must reparse identically"
        );
    }
}

#[test]
fn auto_port_fallback_is_not_frozen_on_persist() {
    // Simulate an auto forward (`9001`) that fell back to an ephemeral local
    // port at bind time: local_port_auto stays true but local_port != remote.
    let spec = ForwardSpec {
        ns: NsSpec::Host,
        ns_inherited: true,
        remote_host: "127.0.0.1".into(),
        remote_port: 9001,
        local_addr: IpAddr::localhost(),
        local_port: 45000,
        local_port_auto: true,
        kind: ForwardKind::Direct,
    };
    // Persisted form must be the short (preferred) form, not `->45000`.
    let shown = display_spec(&spec, IpAddr::localhost());
    assert_eq!(shown, "127.0.0.1:9001");
    let back: ForwardSpec = shown.parse().unwrap();
    assert!(back.local_port_auto, "reparsed spec must stay auto");
    assert_eq!(back.local_port, 9001, "must re-prefer the original port");
}

#[test]
fn control_socket_add_drop_list_status() {
    let mut s = Session::new(None);
    let port = 18000;
    let spec = format!("127.0.0.1:7->{port}");
    assert_eq!(s.done(add(&spec)), "forward up on 127.0.0.1:18000");

    // list shows it
    match s.ask(Request::List).response {
        Response::Forwards { entries, reverse, default_ns } => {
            assert_eq!(entries.len(), 1);
            assert!(entries[0].local.ends_with(&format!(":{port}")));
            assert_eq!(entries[0].spec, spec);
            assert_eq!(entries[0].health, "idle");
            assert!(reverse.is_empty());
            assert!(default_ns.is_empty());
        }
        other => panic!("unexpected list response: {other:?}"),
    }

    // status reports connected + the forward
    match s.ask(Request::Status).response {
        Response::StatusIs { state, agent_version, entries, reverse, default_ns } => {
            assert_eq!(state, "connected");
            assert_eq!(agent_version, "test-agent");
            assert_eq!(entries.len(), 1);
            assert!(reverse.is_empty());
            assert!(default_ns.is_empty(), "no --ns was given for this session");
        }
        other => panic!("unexpected status response: {other:?}"),
    }

    // persistence: the state remembers the forward
    assert_eq!(s.state.forwards, vec![spec.clone()]);

    // drop by local port
    assert_eq!(s.done(Request::Drop { spec: port.to_string() }), format!("dropped {spec}"));
    assert!(s.forwards.list().is_empty());

    // persistence reflects the drop
    assert!(s.state.forwards.is_empty());
}

#[test]
fn control_socket_inherits_and_repoints_the_default_namespace() {
    let mut s = Session::new(Some(NsSpec::Pid(4242)));
    let (bare_port, explicit_port) = (18000, 18001);
    s.done(add(&format!("9000->{bare_port}")));
    // ...while an explicit namespace on the spec wins over the default.
    s.done(add(&format!("pid:999@9001->{explicit_port}")));

    let list = s.forwards.list();
    assert_eq!(list[0].spec.ns, NsSpec::Pid(4242), "add should inherit --ns");
    assert!(list[0].spec.ns_inherited);
    assert_eq!(list[1].spec.ns, NsSpec::Pid(999));
    assert!(!list[1].spec.ns_inherited);

    // `list` reports the active default so a bare spec's namespace is visible.
    match s.ask(Request::List).response {
        Response::Forwards { default_ns, .. } => assert_eq!(default_ns, "pid:4242"),
        other => panic!("unexpected list response: {other:?}"),
    }

    // Persistence: the inherited forward is remembered *without* the namespace,
    // and a pid default is not remembered at all (it cannot survive a restart).
    assert!(s.state.forwards.contains(&format!("127.0.0.1:9000->{bare_port}")));
    assert!(s.state.forwards.contains(&format!("pid:999@127.0.0.1:9001->{explicit_port}")));
    assert_eq!(s.state.default_ns, "", "a pid default must not be remembered");

    // Re-point: the inherited forward moves to the new namespace on the same
    // local port, the explicit one does not.
    let said = s.done(Request::SetNs { ns: Some("podman:web".into()) });
    assert_eq!(said, "default namespace is now podman:web; re-pointed 1 forward(s)");
    let list = s.forwards.list();
    assert_eq!(list[0].local_port, bare_port);
    assert_eq!(list[0].spec.ns, NsSpec::Podman("web".into()));
    assert_eq!(list[1].spec.ns, NsSpec::Pid(999));

    // A container-name default *is* re-resolvable, so it is remembered.
    assert_eq!(s.state.default_ns, "podman:web");
}

#[test]
fn the_answer_tells_when_a_forward_will_carry() {
    let mut s = Session::new(None);
    s.status = Status::Reconnecting { attempt: 3 };
    assert_eq!(
        s.done(add("18000")),
        "forward bound on 127.0.0.1:18000 (session reconnecting, attempt 3 — \
         will carry once restored)"
    );
    s.status = Status::Bootstrapping;
    assert_eq!(
        s.done(add("18001")),
        "forward bound on 127.0.0.1:18001 (session bootstrapping — will carry once connected)"
    );
    assert_eq!(state_text(&Status::Reconnecting { attempt: 3 }), "reconnecting (attempt 3)");
    assert_eq!(state_text(&Status::Bootstrapping), "bootstrapping");
}

#[test]
fn refused_requests_change_nothing() {
    let mut s = Session::new(None);
    s.done(add("18000->18000"));
    assert!(s.error(add("abc")).starts_with("invalid port 'abc'"));
    assert_eq!(s.error(add("80->18000")), "local port 18000 is already forwarded");
    assert_eq!(s.error(Request::Drop { spec: " 1 ".into() }), "no forward on local port 1");
    assert!(s.error(Request::Drop { spec: "x".into() }).contains("invalid port"));
    assert!(s.error(Request::AddReverse { spec: "3000".into() }).contains("malformed"));
    assert_eq!(
        s.error(Request::DropReverse { spec: "3000".into() }),
        "no reverse forward matching \"3000\""
    );
    assert!(s.error(Request::SetNs { ns: Some("lxc:x".into()) }).contains("bad namespace"));
    assert_eq!(s.error(Request::Stop), "this session does not support remote shutdown");
    assert_eq!(s.forwards.list().len(), 1);
    let failed: Result<(IpAddr, u16), String> = Err("address in use".into());
    let spec: ForwardSpec = "80".parse().unwrap();
    let reply = finish_add(&mut s.forwards, spec, failed, &Status::Connected);
    assert!(matches!(reply.response, Response::Error { message } if message == "address in use"));
}

#[test]
fn reverse_forwards_come_and_go() {
    let mut s = Session::new(None);
    let spec = "0.0.0.0:8080->192.168.1.5:80";
    assert_eq!(
        s.done(Request::AddReverse { spec: spec.into() }),
        "reverse forward bound on remote 0.0.0.0:8080"
    );
    assert_eq!(
        s.error(Request::AddReverse { spec: spec.into() }),
        "reverse forward on remote 0.0.0.0:8080 already exists"
    );
    match s.ask(Request::List).response {
        Response::Forwards { reverse, .. } => {
            assert_eq!(reverse[0].spec, spec);
            assert_eq!(reverse[0].local, "R:0.0.0.0:8080");
        }
        other => panic!("{other:?}"),
    }
    assert_eq!(s.state.reverse_forwards, vec![spec]);
    assert_eq!(
        s.done(Request::DropReverse { spec: "8080".into() }),
        format!("dropped reverse {spec}")
    );
    assert!(s.reverse.is_empty());
}

#[test]
fn clear_drops_both_directions() {
    let mut s = Session::new(None);
    s.done(add("18000"));
    s.done(add("18001"));
    s.done(Request::AddReverse { spec: "3000->3000".into() });
    assert_eq!(s.done(Request::Clear), "dropped 3 forward(s)");
    assert!(s.forwards.list().is_empty() && s.reverse.is_empty());
    assert!(s.state.forwards.is_empty() && s.state.reverse_forwards.is_empty());
}

#[test]
fn what_is_listed_is_what_the_session_has() {
    let mut s = Session::new(None);
    s.done(add("18001"));
    s.done(add("18000"));
    s.done(Request::AddReverse { spec: "4000->1".into() });
    s.done(Request::AddReverse { spec: "3000->2".into() });
    let id = s.reverse.list()[0].id;
    // Health that belongs to no forward is not shown, and the first of two counts.
    s.health = vec![(9, 9), (18001, 2), (18001, 7)];
    s.reverse_health = vec![(id, 5)];
    match s.ask(Request::List).response {
        Response::Forwards { entries, reverse, .. } => {
            let shown: Vec<(&str, &str)> =
                entries.iter().map(|e| (e.local.as_str(), e.health.as_str())).collect();
            assert_eq!(
                shown,
                vec![("127.0.0.1:18000", "idle"), ("127.0.0.1:18001", "ok (2 conns)")]
            );
            let shown: Vec<(&str, &str)> =
                reverse.iter().map(|e| (e.local.as_str(), e.health.as_str())).collect();
            assert_eq!(
                shown,
                vec![("R:127.0.0.1:3000", "ok (5 conns)"), ("R:127.0.0.1:4000", "idle")]
            );
        }
        other => panic!("{other:?}"),
    }
    s.done(Request::Clear);
    match s.ask(Request::Status).response {
        Response::StatusIs { entries, reverse, .. } => {
            assert!(entries.is_empty() && reverse.is_empty());
        }
        other => panic!("{other:?}"),
    }
}

#[test]
fn a_session_that_can_be_stopped_is() {
    let mut s = Session::new(None);
    s.can_stop = true;
    let reply = s.ask(Request::Stop);
    assert!(reply.shutdown && !reply.persist);
    assert!(matches!(reply.response, Response::Done { message } if message == "shutting down"));
}

#[test]
fn a_namespace_that_could_not_be_entered_is_reported() {
    let mut s = Session::new(None);
    s.done(add("18000"));
    let outcomes = vec![Rebind::Kept {
        addr: IpAddr::localhost(),
        port: 18000,
        error: "in use".into(),
    }];
    let reply = finish_repoint(&mut s.forwards, Some(NsSpec::Pid(7)), &outcomes);
    match reply.response {
        Response::Done { message } => assert_eq!(
            message,
            "default namespace is now pid:7; re-pointed 0 forward(s); \
             local port 18000: in use (kept previous)"
        ),
        other => panic!("{other:?}"),
    }
    assert_eq!(requested_ns(&Some(" host ".into())), Ok(None));
    assert_eq!(requested_ns(&Some("".into())), Ok(None));
    assert_eq!(requested_ns(&None), Ok(None));
}

#[test]
fn a_session_resumes_where_it_ended() {
    let mut s = Session::new(Some(NsSpec::Podman("web".into())));
    for spec in ["18000", "db.internal:5432->18001", "docker:api@80->0.0.0.0:18002", "socks"] {
        s.done(add(spec));
    }
    let ns = s.state.parsed_default_ns();
    let back = s.state.parsed_forwards(IpAddr::localhost(), ns.as_ref());
    let had: Vec<ForwardSpec> = s.forwards.list().into_iter().map(|a| a.spec).collect();
    assert_eq!(back, had);
}

#[test]
fn health_is_told_in_words() {
    let snap = |ok: u64, error: Option<&str>| {
        let spec: ReverseSpec = "3000->3000".parse().unwrap();
        ReverseSnapshot {
            spec,
            origin: Origin::UserAdded,
            ok_connections: ok,
            last_error: error.map(|e| e.to_string()),
            bytes_up: 0,
            bytes_down: 0,
        }
    };
    assert_eq!(reverse_health_label(false, &snap(1, None)), "session reconnecting");
    assert_eq!(reverse_health_label(true, &snap(0, None)), "idle");
    assert_eq!(reverse_health_label(true, &snap(0, Some("x"))), "last error: x");
    assert_eq!(reverse_health_label(true, &snap(3, None)), "ok (3 conns)");
    assert_eq!(
        reverse_health_label(true, &snap(3, Some("x"))),
        "ok (3 conns); last error: x"
    );
    let f = ForwardSnapshot {
        spec: "80".parse().unwrap(),
        local_addr: IpAddr::localhost(),
        local_port: 80,
        origin: Origin::UserAdded,
        ok_connections: 1,
        last_error: None,
        bytes_up: 0,
        bytes_down: 0,
    };
    assert_eq!(health_label(true, &f), "ok (1 conns)");
}
