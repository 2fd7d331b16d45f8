//! The remote side.

use portmanager::agent::{
    agent_state, classify, grace_step, refused_message, route, token_ok, Admission, Clients,
    ExitReason, GraceAction, GraceEvent, GracePhase, Route,
};
use portmanager::conn::{preamble, OP_KEEPALIVE, OP_SHUTDOWN, OP_STREAM};
use portmanager::forward::NsSpec;
use portmanager::handshake::Token;
use portmanager::proto::StreamHeader;
use portmanager::tunnel::{forward_spec, readiness, tunnel_args, Readiness};

#[test]
fn the_token_gates_every_connection() {
    let token = Token::from_bytes([7; 32]);
    assert!(token_ok(&token, [7; 32]));
    assert!(!token_ok(&token, [8; 32]));
    assert_eq!(classify(&token, [8; 32], OP_SHUTDOWN), Admission::Rejected);
    assert_eq!(classify(&token, [7; 32], OP_STREAM), Admission::Stream);
    assert_eq!(classify(&token, [7; 32], OP_KEEPALIVE), Admission::Keepalive);
    assert_eq!(classify(&token, [7; 32], OP_SHUTDOWN), Admission::Shutdown);
    assert_eq!(classify(&token, [7; 32], 0x7f), Admission::Unknown(0x7f));
    let p = preamble(&token, OP_STREAM);
    assert_eq!(p.len(), 33);
    assert_eq!((&p[..32], p[32]), (&[7u8; 32][..], OP_STREAM));
}

fn header(ns: &str, host: &str) -> StreamHeader {
    StreamHeader { ns: ns.into(), host: host.into(), port: 80 }
}

#[test]
fn streams_are_routed_by_host_and_namespace() {
    assert!(matches!(route(&header("", "@discovery")), Route::Discovery));
    assert!(matches!(route(&header("", "@reverse")), Route::Reverse));
    assert!(matches!(route(&header("", "db")), Route::Dial));
    assert!(matches!(route(&header("pid:7", "db")), Route::DialIn(NsSpec::Pid(7))));
    match route(&header("lxc:x", "db")) {
        Route::Refused(e) => assert!(refused_message("lxc:x", &e)
            .starts_with("bad namespace selector \"lxc:x\": bad namespace 'lxc:x': ")),
        other => panic!("{other:?}"),
    }
}

#[test]
fn the_grace_window_opens_when_the_last_client_leaves() {
    let mut c = Clients::none();
    let attached = GracePhase::Attached;
    assert_eq!(grace_step(attached, GraceEvent::Changed, c), GraceAction::OpenWindow);
    c.attach();
    assert_eq!(grace_step(GracePhase::Alone, GraceEvent::Changed, c), GraceAction::WaitChange);
    c.detach(false);
    assert_eq!(grace_step(attached, GraceEvent::Changed, c), GraceAction::OpenWindow);
    assert_eq!(
        grace_step(GracePhase::Alone, GraceEvent::Expired, c),
        GraceAction::Exit(ExitReason::GraceExpired)
    );
    c.attach();
    c.detach(true);
    assert_eq!(
        grace_step(attached, GraceEvent::Changed, c),
        GraceAction::Exit(ExitReason::ShutdownRequested)
    );
    assert_eq!(
        grace_step(attached, GraceEvent::Closed, Clients::none()),
        GraceAction::Exit(ExitReason::Closed)
    );
}

#[test]
fn the_record_of_an_agent_is_what_the_script_reads() {
    assert_eq!(
        agent_state(42, 60000, "0.1.0", 1),
        "{\"pid\":42,\"udp_port\":60000,\"version\":\"0.1.0\",\"clients\":1}"
    );
}

#[test]
fn the_tunnel_is_a_local_forward() {
    assert_eq!(forward_spec(4000, 5000), "127.0.0.1:4000:127.0.0.1:5000");
    let args = tunnel_args("h", 4000, 5000);
    assert_eq!(args.last().unwrap(), "h");
    assert!(args.contains(&"ExitOnForwardFailure=yes".to_string()));
    assert_eq!(readiness(true, true, true), Readiness::Ready);
    assert_eq!(readiness(false, true, true), Readiness::Exited);
    assert_eq!(readiness(false, false, true), Readiness::TimedOut);
    assert_eq!(readiness(false, false, false), Readiness::Pending);
}
