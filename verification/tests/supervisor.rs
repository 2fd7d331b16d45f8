//! The session that never gives up.

use portmanager::firewall::AdvisePort;
use portmanager::supervisor::{
    advise_port, backoff_delay, jittered_delay, listen_candidate, step, Action, Event, Phase,
    Status, BACKOFF_CAP,
};

#[test]
fn backoff_is_capped_and_jittered() {
    for attempt in 1..40 {
        let d = backoff_delay(attempt);
        assert!(d <= BACKOFF_CAP, "attempt {attempt} exceeded cap: {d:?}");
    }
}

#[test]
fn backoff_doubles_up_to_the_cap() {
    // The bound of the first attempt is 1000 ms, that of late ones the cap.
    assert_eq!(jittered_delay(1, 999), 999);
    assert_eq!(jittered_delay(1, 1000), 0);
    assert_eq!(jittered_delay(2, 1999), 1999);
    assert_eq!(jittered_delay(39, 29999), 29999);
    assert_eq!(jittered_delay(39, 30000), 0);
}

#[test]
fn a_dead_connection_is_dialed_again_and_bootstrapped_now_and_then() {
    let s = step(Phase::Watching, Event::Died, false);
    assert_eq!(s.action, Action::Uninstall);
    let mut phase = s.phase;
    let mut bootstraps = 0;
    for attempt in 1..=12 {
        let s = step(phase, Event::NoShutdown, false);
        assert_eq!(s.action, Action::Connect { attempt });
        assert_eq!(s.status, Some(Status::Reconnecting { attempt }));
        let s = step(s.phase, Event::Failed, false);
        assert_eq!(s.rebind, attempt % 2 == 0);
        phase = s.phase;
        if attempt % 6 == 0 {
            assert_eq!(s.action, Action::Bootstrap);
            assert_eq!(s.status, Some(Status::Bootstrapping));
            bootstraps += 1;
            phase = step(phase, Event::Failed, false).phase;
        } else {
            assert_eq!(s.action, Action::Pause { attempt });
        }
        phase = step(phase, Event::Elapsed, false).phase;
    }
    assert_eq!(bootstraps, 2);
}

#[test]
fn a_fresh_agent_restores_the_session() {
    let s = step(Phase::Bootstrapping { attempt: 6 }, Event::Bootstrapped, false);
    assert_eq!(s.action, Action::ConnectFresh);
    let s = step(s.phase, Event::Connected, false);
    assert_eq!((s.phase, s.action), (Phase::Watching, Action::Install));
    assert_eq!(s.status, Some(Status::Connected));
}

#[test]
fn a_shutdown_is_honoured() {
    assert_eq!(step(Phase::Watching, Event::Shutdown, false).action, Action::CloseAndExit);
    for phase in [Phase::Checking { attempt: 3 }, Phase::BackingOff { attempt: 3 }] {
        let s = step(phase, Event::Shutdown, true);
        assert_eq!((s.phase, s.action), (Phase::Ended, Action::Exit));
    }
}

#[test]
fn the_tunnel_has_no_socket_to_bind_anew() {
    assert!(!step(Phase::Attaching { attempt: 2 }, Event::Failed, true).rebind);
}

#[test]
fn the_agent_listens_on_one_port_of_the_range() {
    assert_eq!(listen_candidate(None, 0).as_deref(), Some("0.0.0.0:60000"));
    assert_eq!(listen_candidate(None, 1000).as_deref(), Some("0.0.0.0:61000"));
    assert_eq!(listen_candidate(None, 1001), None);
    assert_eq!(listen_candidate(Some("1.2.3.4:5"), 0).as_deref(), Some("1.2.3.4:5"));
    assert_eq!(listen_candidate(Some("1.2.3.4:5"), 1), None);
}

#[test]
fn the_port_to_open_is_the_one_that_was_asked_for() {
    assert_eq!(advise_port(None), AdvisePort::Range(60000, 61000));
    assert_eq!(advise_port(Some("0.0.0.0:51820")), AdvisePort::Single(51820));
    assert_eq!(advise_port(Some("nowhere")), AdvisePort::Range(60000, 61000));
}
