//! Changes of the network path.

use portmanager::net::{IpAddr, Ipv4Addr};
use portmanager::netwatch::{
    coalesce_step, path_step, Coalesce, PathAction, RouteAction, RouteEvent, DEBOUNCE, POLL_INTERVAL,
};

/// The actions for a run of events.
fn run(events: &[RouteEvent]) -> Vec<RouteAction> {
    let mut state = Coalesce::Idle;
    let mut out = Vec::new();
    for e in events {
        let (next, action) = coalesce_step(state, *e);
        state = next;
        out.push(action);
    }
    out
}

fn ticks(actions: &[RouteAction]) -> usize {
    actions.iter().filter(|a| matches!(a, RouteAction::Tick | RouteAction::TickAndEnd)).count()
}

#[test]
fn coalesce_collapses_burst_to_one_tick() {
    // A burst of events (mirrors interface churn) before the window is over.
    let mut events = vec![RouteEvent::Raw; 10];
    events.push(RouteEvent::WindowOver);
    // Exactly one consolidated tick should emerge from the burst.
    assert_eq!(ticks(&run(&events)), 1);
    events.push(RouteEvent::WindowOver);
    assert_eq!(ticks(&run(&events)), 1, "the burst should not produce a second tick");
}

#[test]
fn coalesce_emits_again_for_a_later_event() {
    let events = [
        RouteEvent::Raw,
        RouteEvent::WindowOver,
        RouteEvent::Raw,
        RouteEvent::WindowOver,
    ];
    assert_eq!(ticks(&run(&events)), 2);
}

#[test]
fn a_pending_tick_is_not_lost_at_the_end() {
    let a = run(&[RouteEvent::Raw, RouteEvent::Closed, RouteEvent::WindowOver]);
    assert_eq!(a[2], RouteAction::TickAndEnd);
    assert_eq!(run(&[RouteEvent::Closed]), vec![RouteAction::End]);
}

#[test]
fn the_connection_moves_with_the_path() {
    let a = Some(IpAddr::V4(Ipv4Addr::new(10, 0, 0, 1)));
    let b = Some(IpAddr::V4(Ipv4Addr::new(192, 168, 0, 2)));
    assert_eq!(path_step(a, b), (PathAction::Migrate, b));
    assert_eq!(path_step(a, a), (PathAction::Stay, a));
    assert_eq!(path_step(a, None), (PathAction::Lost, None));
    assert_eq!(path_step(None, b), (PathAction::Restored, b));
    assert_eq!(path_step(None, None), (PathAction::Stay, None));
    assert!(DEBOUNCE < POLL_INTERVAL);
}
