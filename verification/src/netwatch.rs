//! Network changes: when the path to the agent has changed, and when to look.
//!
//! The local address that the system would use to reach the agent tells the path. It
//! is looked up when the system reports a routing change, and now and again besides.

use crate::net::IpAddr;
use vstd::prelude::*;

verus! {

/// Milliseconds between two looks where the system reports no changes.
pub const POLL_INTERVAL: u64 = 2000;

/// Milliseconds to wait after the first report of a change before looking, so that a
/// burst of reports leads to one look.
pub const DEBOUNCE: u64 = 400;

/// What a look at the path asks for.
#[derive(Debug, Clone, Copy, PartialEq, Eq, Structural)]
pub enum PathAction {
    /// The path changed: move the connection to a fresh socket.
    Migrate,
    /// There is a path again.
    Restored,
    /// There is no path any more.
    Lost,
    /// Nothing.
    Stay,
}

/// What a look at the path asks for: `last` is the local address at the last look,
/// `now` the one at this look.
pub open spec fn path_action(last: Option<IpAddr>, now: Option<IpAddr>) -> PathAction {
    match (last, now) {
        (Some(old), Some(new)) => if old != new {
            PathAction::Migrate
        } else {
            PathAction::Stay
        },
        (None, Some(_)) => PathAction::Restored,
        (Some(_), None) => PathAction::Lost,
        (None, None) => PathAction::Stay,
    }
}

/// What a look at the path asks for, and what to hold the next one against.
pub fn path_step(last: Option<IpAddr>, now: Option<IpAddr>) -> (r: (PathAction, Option<IpAddr>))
    ensures
        r.0 == path_action(last, now),
        r.1 == now,
{
    match (last, now) {
        (Some(old), Some(new)) => {
            if old == new {
                (PathAction::Stay, last)
            } else {
                (PathAction::Migrate, now)
            }
        },
        (None, Some(_)) => (PathAction::Restored, now),
        (Some(_), None) => (PathAction::Lost, None),
        (None, None) => (PathAction::Stay, None),
    }
}

/// The connection is moved exactly where one address has taken the place of another:
/// not while there is no path, and not when the path comes back.
pub proof fn law_migrates_on_change(last: Option<IpAddr>, now: Option<IpAddr>)
    ensures
        path_action(last, now) is Migrate <==> last is Some && now is Some && last != now,
{
}

// ---- reports of changes ------------------------------------------------

/// What becomes of reports of changes.
#[derive(Debug, Clone, Copy, PartialEq, Eq, Structural)]
pub enum Coalesce {
    /// None is pending.
    Idle,
    /// One has come, and what follows is waited for.
    Settling,
    /// The same, and none will come after it.
    SettlingLast,
    /// None will come.
    Over,
}

/// What happens around reports of changes.
#[derive(Debug, Clone, Copy, PartialEq, Eq, Structural)]
pub enum RouteEvent {
    /// A report.
    Raw,
    /// The time to wait is over.
    WindowOver,
    /// No more reports will come.
    Closed,
}

/// What to do.
#[derive(Debug, Clone, Copy, PartialEq, Eq, Structural)]
pub enum RouteAction {
    /// Begin to wait.
    StartWindow,
    /// Ask for one look.
    Tick,
    /// Ask for one look, and end.
    TickAndEnd,
    /// End.
    End,
    /// Nothing.
    Pass,
}

/// How reports become looks.
pub open spec fn coalesced(s: Coalesce, e: RouteEvent) -> (Coalesce, RouteAction) {
    match (s, e) {
        (Coalesce::Idle, RouteEvent::Raw) => (Coalesce::Settling, RouteAction::StartWindow),
        (Coalesce::Idle, RouteEvent::Closed) => (Coalesce::Over, RouteAction::End),
        (Coalesce::Settling, RouteEvent::WindowOver) => (Coalesce::Idle, RouteAction::Tick),
        (Coalesce::Settling, RouteEvent::Closed) => (Coalesce::SettlingLast, RouteAction::Pass),
        (Coalesce::SettlingLast, RouteEvent::WindowOver) => (
            Coalesce::Over,
            RouteAction::TickAndEnd,
        ),
        _ => (s, RouteAction::Pass),
    }
}

/// How reports become looks.
pub fn coalesce_step(s: Coalesce, e: RouteEvent) -> (r: (Coalesce, RouteAction))
    ensures
        r == coalesced(s, e),
{
    match (s, e) {
        (Coalesce::Idle, RouteEvent::Raw) => (Coalesce::Settling, RouteAction::StartWindow),
        (Coalesce::Idle, RouteEvent::Closed) => (Coalesce::Over, RouteAction::End),
        (Coalesce::Settling, RouteEvent::WindowOver) => (Coalesce::Idle, RouteAction::Tick),
        (Coalesce::Settling, RouteEvent::Closed) => (Coalesce::SettlingLast, RouteAction::Pass),
        (Coalesce::SettlingLast, RouteEvent::WindowOver) => (
            Coalesce::Over,
            RouteAction::TickAndEnd,
        ),
        _ => (s, RouteAction::Pass),
    }
}

/// The state after a number of reports in a row.
pub open spec fn after_burst(s: Coalesce, n: nat) -> Coalesce
    decreases n,
{
    if n == 0 {
        s
    } else {
        coalesced(after_burst(s, (n - 1) as nat), RouteEvent::Raw).0
    }
}

/// A burst of reports, however long, starts one wait, and leads to one look and no
/// more; a report that comes later leads to another.
pub proof fn law_burst_is_one_look(n: nat)
    requires
        n > 0,
    ensures
        after_burst(Coalesce::Idle, n) == Coalesce::Settling,
        coalesced(Coalesce::Settling, RouteEvent::Raw).1 == RouteAction::Pass,
        coalesced(after_burst(Coalesce::Idle, n), RouteEvent::WindowOver) == (
            Coalesce::Idle,
            RouteAction::Tick,
        ),
        coalesced(Coalesce::Idle, RouteEvent::Raw) == (
            Coalesce::Settling,
            RouteAction::StartWindow,
        ),
    decreases n,
{
    if n > 1 {
        law_burst_is_one_look((n - 1) as nat);
    } else {
        assert(after_burst(Coalesce::Idle, 0) == Coalesce::Idle);
    }
}

/// A path that comes back is told from one that goes, and where nothing changed nothing
/// is done.
pub proof fn law_path_changes(last: Option<IpAddr>, now: Option<IpAddr>)
    ensures
        path_action(last, now) is Restored <==> last is None && now is Some,
        path_action(last, now) is Lost <==> last is Some && now is None,
        path_action(last, now) is Stay <==> last == now,
{
}

/// A look is asked for only at the end of a wait, and no report that was waited on is
/// lost when the reports end; once they ended, nothing follows.
pub proof fn law_no_report_is_lost(s: Coalesce, e: RouteEvent)
    ensures
        coalesced(s, e).1 == RouteAction::Tick || coalesced(s, e).1 == RouteAction::TickAndEnd
            ==> e == RouteEvent::WindowOver,
        coalesced(s, e).1 == RouteAction::StartWindow ==> s == Coalesce::Idle && e
            == RouteEvent::Raw,
        coalesced(coalesced(Coalesce::Settling, RouteEvent::Closed).0, RouteEvent::WindowOver) == (
            Coalesce::Over,
            RouteAction::TickAndEnd,
        ),
        coalesced(Coalesce::Settling, RouteEvent::Closed).1 == RouteAction::Pass,
        coalesced(Coalesce::Idle, RouteEvent::Closed) == (Coalesce::Over, RouteAction::End),
        coalesced(Coalesce::Over, e) == (Coalesce::Over, RouteAction::Pass),
        coalesced(s, e).0 == Coalesce::Over && s != Coalesce::Over ==> coalesced(s, e).1
            == RouteAction::End || coalesced(s, e).1 == RouteAction::TickAndEnd,
{
}

} // verus!
