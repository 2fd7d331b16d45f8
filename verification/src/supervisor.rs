//! Never-give-up session supervisor.
//!
//! Owns the logical session (decoupled from any single connection) and the
//! recovery ladder: re-attach to the agent that the grace window keeps alive,
//! and, after a cycle of failed attempts, bootstrap a new agent over SSH. The
//! loop never abandons the session: capped exponential backoff with full jitter,
//! forever. Local listeners stay bound throughout.
//!
//! The two transports (QUIC and the SSH tunnel) share one machine: it says what
//! to do next, the caller does it and reports how it went.

use crate::firewall::AdvisePort;
use crate::handshake::random_bytes;
use crate::text::{dec, parse_unsigned, rsplit_once, trim};
use vstd::arithmetic::power2::pow2;
use vstd::prelude::*;

verus! {

/// First and last port of the default remote UDP range.
pub const DEFAULT_UDP_PORT_START: u16 = 60000;

pub const DEFAULT_UDP_PORT_END: u16 = 61000;

/// Re-attach attempts per cycle before a new agent is bootstrapped.
pub const REATTACH_ATTEMPTS_PER_CYCLE: u32 = 6;

/// Backoff parameters, in milliseconds.
pub const BACKOFF_BASE: u64 = 500;

pub const BACKOFF_CAP: u64 = 30000;

/// Observable session state, for status output.
#[derive(Debug, Clone, Copy, PartialEq, Eq, Structural)]
pub enum Status {
    Connected,
    Reconnecting { attempt: u32 },
    Bootstrapping,
}

/// What the supervisor is waiting for.
#[derive(Debug, Clone, Copy, PartialEq, Eq, Structural)]
pub enum Phase {
    /// The live connection, to die.
    Watching,
    /// The answer whether a shutdown was asked for, after this many attempts.
    Checking { attempt: u32 },
    /// The outcome of a re-attach.
    Attaching { attempt: u32 },
    /// The outcome of a bootstrap over SSH.
    Bootstrapping { attempt: u32 },
    /// The outcome of the first connection to a freshly bootstrapped agent.
    AttachingFresh { attempt: u32 },
    /// The end of the pause between two attempts.
    BackingOff { attempt: u32 },
    /// Nothing: the session is over.
    Ended,
}

/// What happened.
#[derive(Debug, Clone, Copy, PartialEq, Eq, Structural)]
pub enum Event {
    /// The live connection died.
    Died,
    /// The user asked to end the session.
    Shutdown,
    /// Nobody asked to end the session.
    NoShutdown,
    /// The connection was made.
    Connected,
    /// The bootstrap produced a new agent that can be dialed.
    Bootstrapped,
    /// What was tried did not work.
    Failed,
    /// The pause is over.
    Elapsed,
}

/// What to do next.
#[derive(Debug, Clone, Copy, PartialEq, Eq, Structural)]
pub enum Action {
    /// Install the connection for the forwards, and wait for it to die or for a
    /// shutdown.
    Install,
    /// Take the dead connection away from the forwards, and look whether a
    /// shutdown was asked for.
    Uninstall,
    /// Look whether a shutdown was asked for.
    CheckShutdown,
    /// Dial the agent, as attempt number `attempt` of this outage.
    Connect { attempt: u32 },
    /// Bootstrap a new agent over SSH.
    Bootstrap,
    /// Dial the agent that was just bootstrapped.
    ConnectFresh,
    /// Pause as [`backoff_delay`] says for `attempt`, unless a shutdown is asked for.
    Pause { attempt: u32 },
    /// Tell the agent to exit now, and stop.
    CloseAndExit,
    /// Stop.
    Exit,
    /// The event does not belong to this phase: go on waiting.
    Wait,
}

/// One step of the supervisor.
#[derive(Debug, Clone, Copy, PartialEq, Eq, Structural)]
pub struct Step {
    pub phase: Phase,
    pub action: Action,
    /// The status to publish, where it changes.
    pub status: Option<Status>,
    /// Whether to bind a fresh local socket first: the old one may sit on a dead
    /// interface after sleep.
    pub rebind: bool,
}

/// Whether the number of an attempt is a multiple of `k`.
pub open spec fn every(attempt: u32, k: int) -> bool {
    attempt as int % k == 0
}

/// What the supervisor does in `phase` when `event` happens. `tunnel` says whether
/// the data channel is the SSH tunnel, which has no local socket to bind anew.
pub open spec fn next_step(phase: Phase, event: Event, tunnel: bool) -> Step {
    let quiet = |phase: Phase, action: Action| Step { phase, action, status: None, rebind: false };
    let restored = Step {
        phase: Phase::Watching,
        action: Action::Install,
        status: Some(Status::Connected),
        rebind: false,
    };
    match (phase, event) {
        (Phase::Watching, Event::Died) => quiet(
            Phase::Checking { attempt: 0 },
            Action::Uninstall,
        ),
        (Phase::Watching, Event::Shutdown) => quiet(Phase::Ended, Action::CloseAndExit),
        (Phase::Checking { attempt }, Event::Shutdown) => quiet(Phase::Ended, Action::Exit),
        (Phase::Checking { attempt }, Event::NoShutdown) => {
            let n = if attempt == u32::MAX { 0u32 } else { (attempt + 1) as u32 };
            Step {
                phase: Phase::Attaching { attempt: n },
                action: Action::Connect { attempt: n },
                status: Some(Status::Reconnecting { attempt: n }),
                rebind: false,
            }
        },
        (Phase::Attaching { attempt }, Event::Connected) => restored,
        (Phase::Attaching { attempt }, Event::Failed) => {
            let rebind = !tunnel && every(attempt, 2);
            if every(attempt, REATTACH_ATTEMPTS_PER_CYCLE as int) {
                Step {
                    phase: Phase::Bootstrapping { attempt },
                    action: Action::Bootstrap,
                    status: Some(Status::Bootstrapping),
                    rebind,
                }
            } else {
                Step {
                    phase: Phase::BackingOff { attempt },
                    action: Action::Pause { attempt },
                    status: None,
                    rebind,
                }
            }
        },
        (Phase::Bootstrapping { attempt }, Event::Bootstrapped) => quiet(
            Phase::AttachingFresh { attempt },
            Action::ConnectFresh,
        ),
        (Phase::Bootstrapping { attempt }, Event::Failed) => quiet(
            Phase::BackingOff { attempt },
            Action::Pause { attempt },
        ),
        (Phase::AttachingFresh { attempt }, Event::Connected) => restored,
        (Phase::AttachingFresh { attempt }, Event::Failed) => quiet(
            Phase::BackingOff { attempt },
            Action::Pause { attempt },
        ),
        (Phase::BackingOff { attempt }, Event::Elapsed) => quiet(
            Phase::Checking { attempt },
            Action::CheckShutdown,
        ),
        (Phase::BackingOff { attempt }, Event::Shutdown) => quiet(Phase::Ended, Action::Exit),
        _ => quiet(phase, Action::Wait),
    }
}

fn quiet_step(phase: Phase, action: Action) -> (r: Step)
    ensures
        r == (Step { phase, action, status: None, rebind: false }),
{
    Step { phase, action, status: None, rebind: false }
}

fn restored_step() -> (r: Step)
    ensures
        r == (Step {
            phase: Phase::Watching,
            action: Action::Install,
            status: Some(Status::Connected),
            rebind: false,
        }),
{
    Step {
        phase: Phase::Watching,
        action: Action::Install,
        status: Some(Status::Connected),
        rebind: false,
    }
}

/// What the supervisor does in `phase` when `event` happens.
pub fn step(phase: Phase, event: Event, tunnel: bool) -> (r: Step)
    ensures
        r == next_step(phase, event, tunnel),
{
    match (phase, event) {
        (Phase::Watching, Event::Died) => quiet_step(
            Phase::Checking { attempt: 0 },
            Action::Uninstall,
        ),
        (Phase::Watching, Event::Shutdown) => quiet_step(Phase::Ended, Action::CloseAndExit),
        (Phase::Checking { .. }, Event::Shutdown) => quiet_step(Phase::Ended, Action::Exit),
        (Phase::Checking { attempt }, Event::NoShutdown) => {
            let n: u32 = if attempt == u32::MAX {
                0
            } else {
                attempt + 1
            };
            Step {
                phase: Phase::Attaching { attempt: n },
                action: Action::Connect { attempt: n },
                status: Some(Status::Reconnecting { attempt: n }),
                rebind: false,
            }
        },
        (Phase::Attaching { .. }, Event::Connected) => restored_step(),
        (Phase::Attaching { attempt }, Event::Failed) => {
            let rebind = !tunnel && attempt % 2 == 0;
            if attempt % REATTACH_ATTEMPTS_PER_CYCLE == 0 {
                Step {
                    phase: Phase::Bootstrapping { attempt },
                    action: Action::Bootstrap,
                    status: Some(Status::Bootstrapping),
                    rebind,
                }
            } else {
                Step {
                    phase: Phase::BackingOff { attempt },
                    action: Action::Pause { attempt },
                    status: None,
                    rebind,
                }
            }
        },
        (Phase::Bootstrapping { attempt }, Event::Bootstrapped) => quiet_step(
            Phase::AttachingFresh { attempt },
            Action::ConnectFresh,
        ),
        (Phase::Bootstrapping { attempt }, Event::Failed) => quiet_step(
            Phase::BackingOff { attempt },
            Action::Pause { attempt },
        ),
        (Phase::AttachingFresh { .. }, Event::Connected) => restored_step(),
        (Phase::AttachingFresh { attempt }, Event::Failed) => quiet_step(
            Phase::BackingOff { attempt },
            Action::Pause { attempt },
        ),
        (Phase::BackingOff { attempt }, Event::Elapsed) => quiet_step(
            Phase::Checking { attempt },
            Action::CheckShutdown,
        ),
        (Phase::BackingOff { .. }, Event::Shutdown) => quiet_step(Phase::Ended, Action::Exit),
        _ => quiet_step(phase, Action::Wait),
    }
}

/// The session is only ever given up because the user asked for it.
pub proof fn law_never_gives_up(phase: Phase, event: Event, tunnel: bool)
    requires
        phase != Phase::Ended,
        event != Event::Shutdown,
    ensures
        next_step(phase, event, tunnel).phase != Phase::Ended,
{
}

/// The supervisor stops only when the user asks for it, over either transport.
pub proof fn law_exits_only_on_request(phase: Phase, event: Event, tunnel: bool)
    ensures
        ({
            let s = next_step(phase, event, tunnel);
            &&& s.action == Action::Exit || s.action == Action::CloseAndExit ==> event
                == Event::Shutdown
            &&& s.action == Action::CloseAndExit ==> phase == Phase::Watching
            &&& s.phase == Phase::Ended && phase != Phase::Ended ==> s.action == Action::Exit
                || s.action == Action::CloseAndExit
        }),
{
}

/// An attempt that fails is followed by a pause with its number, or, where its number
/// is a multiple of six, by a bootstrap; a bootstrap that does not end in a connection
/// is followed by the pause.
pub proof fn law_failure_backs_off(attempt: u32, tunnel: bool)
    ensures
        ({
            let s = next_step(Phase::Attaching { attempt }, Event::Failed, tunnel);
            let b = next_step(Phase::Bootstrapping { attempt }, Event::Failed, tunnel);
            let f = next_step(Phase::AttachingFresh { attempt }, Event::Failed, tunnel);
            let pause = Action::Pause { attempt };
            let pausing = Phase::BackingOff { attempt };
            &&& attempt % 6 != 0 ==> s.action == pause && s.phase == pausing && s.status is None
            &&& attempt % 6 == 0 ==> s.action == Action::Bootstrap && s.phase
                == (Phase::Bootstrapping { attempt }) && s.status == Some(Status::Bootstrapping)
            &&& b.action == pause && b.phase == pausing && b.status is None
            &&& f.action == pause && f.phase == pausing && f.status is None
        }),
{
}

/// After the pause the next attempt is dialed, with the next number, unless a shutdown
/// was asked for; what was bootstrapped is dialed at once.
pub proof fn law_tries_again(attempt: u32, tunnel: bool)
    requires
        attempt < u32::MAX,
    ensures
        ({
            let look = next_step(Phase::BackingOff { attempt }, Event::Elapsed, tunnel);
            let dial = next_step(look.phase, Event::NoShutdown, tunnel);
            let n = (attempt + 1) as u32;
            let fresh = next_step(Phase::Bootstrapping { attempt }, Event::Bootstrapped, tunnel);
            &&& look.action == Action::CheckShutdown
            &&& dial.action == (Action::Connect { attempt: n })
            &&& dial.phase == (Phase::Attaching { attempt: n })
            &&& dial.status == Some(Status::Reconnecting { attempt: n })
            &&& fresh.action == Action::ConnectFresh
            &&& fresh.phase == (Phase::AttachingFresh { attempt })
        }),
{
}

/// A connection that dies is taken from the forwards before anything else, and the
/// outage starts with its first attempt.
pub proof fn law_outage_starts(tunnel: bool)
    ensures
        ({
            let s = next_step(Phase::Watching, Event::Died, tunnel);
            let dial = next_step(s.phase, Event::NoShutdown, tunnel);
            &&& s.action == Action::Uninstall
            &&& dial.action == (Action::Connect { attempt: 1 })
        }),
{
}

/// The two transports differ in nothing but the fresh local socket, which the tunnel
/// has not: there it is bound after every second failed attempt and at no other time.
pub proof fn law_transports_agree(phase: Phase, event: Event)
    ensures
        ({
            let quic = next_step(phase, event, false);
            let ssh = next_step(phase, event, true);
            &&& ssh.phase == quic.phase
            &&& ssh.action == quic.action
            &&& ssh.status == quic.status
            &&& !ssh.rebind
            &&& quic.rebind <==> event == Event::Failed && (phase matches Phase::Attaching { attempt }
                && attempt % 2 == 0)
        }),
{
}

/// The status that is published is that of the phase that follows, and it is published
/// where dialing, bootstrapping or a restored connection begins.
pub proof fn law_status_is_true(phase: Phase, event: Event, tunnel: bool)
    ensures
        ({
            let s = next_step(phase, event, tunnel);
            &&& s.status == Some(Status::Connected) <==> s.action == Action::Install
            &&& s.action == Action::Install ==> s.phase == Phase::Watching && event
                == Event::Connected
            &&& s.status == Some(Status::Bootstrapping) <==> s.action == Action::Bootstrap
            &&& s.status matches Some(Status::Reconnecting { attempt }) ==> s.action
                == (Action::Connect { attempt }) && s.phase == (Phase::Attaching { attempt })
            &&& s.action is Connect ==> s.status is Some
        }),
{
}

/// An event that does not belong to a phase changes nothing.
pub proof fn law_stray_events_change_nothing(phase: Phase, event: Event, tunnel: bool)
    ensures
        ({
            let s = next_step(phase, event, tunnel);
            &&& s.action == Action::Wait ==> s.phase == phase && s.status is None && !s.rebind
            &&& phase == Phase::Ended ==> s.action == Action::Wait
            &&& phase == Phase::Watching ==> (s.action != Action::Wait <==> event == Event::Died
                || event == Event::Shutdown)
            &&& phase is Attaching || phase is AttachingFresh ==> (s.action != Action::Wait <==> event
                == Event::Connected || event == Event::Failed)
        }),
{
}

/// A shutdown is honoured while the session is up and in the middle of an outage.
/// Only a live connection is told to close.
pub proof fn law_shutdown_honoured(phase: Phase, tunnel: bool)
    requires
        phase is Watching || phase is Checking || phase is BackingOff,
    ensures
        next_step(phase, Event::Shutdown, tunnel).phase == Phase::Ended,
        next_step(phase, Event::Shutdown, tunnel).action == (if phase is Watching {
            Action::CloseAndExit
        } else {
            Action::Exit
        }),
{
}

/// A connection restores the session whenever one was being tried for.
pub proof fn law_connection_restores(phase: Phase, tunnel: bool)
    requires
        phase is Attaching || phase is AttachingFresh,
    ensures
        ({
            let s = next_step(phase, Event::Connected, tunnel);
            s.phase == Phase::Watching && s.action == Action::Install && s.status == Some(
                Status::Connected,
            )
        }),
{
}

/// One whole round of an outage in which nothing works: look for a shutdown, dial,
/// bootstrap where it is time to, pause.
pub open spec fn failed_round(phase: Phase, tunnel: bool) -> Phase {
    let p1 = next_step(phase, Event::NoShutdown, tunnel).phase;
    let p2 = next_step(p1, Event::Failed, tunnel).phase;
    let p3 = if p2 is Bootstrapping {
        next_step(p2, Event::Failed, tunnel).phase
    } else {
        p2
    };
    next_step(p3, Event::Elapsed, tunnel).phase
}

/// The phase after `n` rounds of an outage in which nothing worked.
pub open spec fn after_rounds(n: nat, tunnel: bool) -> Phase
    decreases n,
{
    if n == 0 {
        next_step(Phase::Watching, Event::Died, tunnel).phase
    } else {
        failed_round(after_rounds((n - 1) as nat, tunnel), tunnel)
    }
}

/// Through an outage of whatever length the supervisor dials once per round, and
/// bootstraps a new agent on every sixth failed attempt and on no other.
pub proof fn law_recovery_ladder(n: nat, tunnel: bool)
    requires
        n < u32::MAX,
    ensures
        after_rounds(n, tunnel) == (Phase::Checking { attempt: n as u32 }),
        ({
            let tries = next_step(after_rounds(n, tunnel), Event::NoShutdown, tunnel);
            let k = (n + 1) as u32;
            &&& tries.action == (Action::Connect { attempt: k })
            &&& tries.status == Some(Status::Reconnecting { attempt: k })
            &&& (next_step(tries.phase, Event::Failed, tunnel).action == Action::Bootstrap) == ((n
                + 1) % 6 == 0)
        }),
    decreases n,
{
    if n > 0 {
        law_recovery_ladder((n - 1) as nat, tunnel);
    }
}

// ---- backoff -----------------------------------------------------------

/// The upper bound of the pause after `attempt`, in milliseconds: it doubles with
/// every attempt, up to a cap.
pub open spec fn backoff_bound(attempt: int) -> int {
    let n = if attempt < 16 { attempt } else { 16 };
    let exp = BACKOFF_BASE * pow2(n as nat);
    if exp < BACKOFF_CAP {
        exp
    } else {
        BACKOFF_CAP as int
    }
}

fn bound_of(attempt: u32) -> (r: u64)
    ensures
        r == backoff_bound(attempt as int),
        100 <= r <= BACKOFF_CAP,
{
    let n: u32 = if attempt < 16 {
        attempt
    } else {
        16
    };
    let mut exp: u64 = BACKOFF_BASE;
    let mut i: u32 = 0;
    proof {
        vstd::arithmetic::power2::lemma2_to64();
    }
    while i < n
        invariant
            i <= n <= 16,
            exp == BACKOFF_BASE * pow2(i as nat),
            i == 0 ==> exp == 500,
            500 <= exp <= 500 * 65536,
            pow2(16) == 65536,
        decreases n - i,
    {
        proof {
            vstd::arithmetic::power2::lemma_pow2_unfold((i + 1) as nat);
            lemma_pow2_mono((i + 1) as nat, 16);
            assert(BACKOFF_BASE * (2 * pow2(i as nat)) == 2 * (BACKOFF_BASE * pow2(i as nat)))
                by (nonlinear_arith);
            assert(BACKOFF_BASE * pow2((i + 1) as nat) <= BACKOFF_BASE * 65536) by (nonlinear_arith)
                requires
                    pow2((i + 1) as nat) <= 65536,
            ;
        }
        exp = exp * 2;
        i = i + 1;
    }
    if exp < BACKOFF_CAP {
        exp
    } else {
        BACKOFF_CAP
    }
}

proof fn lemma_pow2_mono(a: nat, b: nat)
    requires
        a <= b,
    ensures
        pow2(a) <= pow2(b),
{
    if a < b {
        vstd::arithmetic::power2::lemma_pow2_strictly_increases(a, b);
    }
}

/// The pause after `attempt`, in milliseconds, drawn by the random number `r`.
pub fn jittered_delay(attempt: u32, r: u64) -> (d: u64)
    ensures
        d == r as int % backoff_bound(attempt as int),
        d < BACKOFF_CAP,
{
    r % bound_of(attempt)
}

/// A number from its eight bytes, the low one first.
pub open spec fn le64(b: Seq<u8>) -> int {
    b[0] as int + 0x100 * (b[1] as int) + 0x1_0000 * (b[2] as int) + 0x100_0000 * (b[3] as int)
        + 0x1_0000_0000 * (b[4] as int) + 0x100_0000_0000 * (b[5] as int) + 0x1_0000_0000_0000 * (
    b[6] as int) + 0x100_0000_0000_0000 * (b[7] as int)
}

fn from_le64(b: &Vec<u8>) -> (r: u64)
    requires
        b@.len() == 8,
    ensures
        r == le64(b@),
{
    b[0] as u64 + 0x100 * (b[1] as u64) + 0x1_0000 * (b[2] as u64) + 0x100_0000 * (b[3] as u64)
        + 0x1_0000_0000 * (b[4] as u64) + 0x100_0000_0000 * (b[5] as u64) + 0x1_0000_0000_0000 * (
    b[6] as u64) + 0x100_0000_0000_0000 * (b[7] as u64)
}

/// Full-jitter exponential backoff, in milliseconds: uniform below a bound that
/// doubles with every attempt up to a cap. Without randomness a fixed number
/// takes its place.
pub fn backoff_delay(attempt: u32) -> (d: u64)
    ensures
        0 <= d < backoff_bound(attempt as int),
        d < BACKOFF_CAP,
{
    let r: u64 = match random_bytes(8) {
        Ok(b) => from_le64(&b),
        Err(_) => 0x9e37_79b9_7f4a_7c15,
    };
    proof {
        law_backoff_capped(attempt as int);
    }
    jittered_delay(attempt, r)
}

/// The pause never exceeds the cap, and its bound never shrinks from one attempt
/// to the next.
pub proof fn law_backoff_capped(attempt: int)
    requires
        0 <= attempt,
    ensures
        BACKOFF_BASE <= backoff_bound(attempt) <= BACKOFF_CAP,
        backoff_bound(attempt) <= backoff_bound(attempt + 1),
        attempt >= 6 ==> backoff_bound(attempt) == BACKOFF_CAP,
{
    vstd::arithmetic::power2::lemma2_to64();
    let n = if attempt < 16 { attempt } else { 16 };
    let m = if attempt + 1 < 16 { attempt + 1 } else { 16 };
    lemma_pow2_mono(n as nat, m as nat);
    lemma_pow2_mono(0, n as nat);
    assert(BACKOFF_BASE * pow2(n as nat) <= BACKOFF_BASE * pow2(m as nat)) by (nonlinear_arith)
        requires
            pow2(n as nat) <= pow2(m as nat),
    ;
    assert(BACKOFF_BASE * pow2(n as nat) >= BACKOFF_BASE) by (nonlinear_arith)
        requires
            pow2(n as nat) >= 1,
    ;
    if attempt >= 6 {
        lemma_pow2_mono(6, n as nat);
        assert(BACKOFF_BASE * pow2(n as nat) >= BACKOFF_BASE * 64) by (nonlinear_arith)
            requires
                pow2(n as nat) >= 64,
        ;
    }
}

/// The bound starts at half a second, doubles with every attempt, and stops at thirty
/// seconds.
pub proof fn law_backoff_doubles(attempt: int)
    requires
        0 <= attempt,
    ensures
        backoff_bound(0) == 500,
        backoff_bound(attempt + 1) == (if 2 * backoff_bound(attempt) < 30000 {
            2 * backoff_bound(attempt)
        } else {
            30000
        }),
{
    vstd::arithmetic::power2::lemma2_to64();
    law_backoff_capped(attempt);
    law_backoff_capped(attempt + 1);
    if attempt < 15 {
        let p = pow2(attempt as nat);
        vstd::arithmetic::power2::lemma_pow2_unfold((attempt + 1) as nat);
        assert(BACKOFF_BASE * (2 * p) == 2 * (BACKOFF_BASE * p)) by (nonlinear_arith);
    }
}

// ---- where the agent listens -------------------------------------------

/// The port to advise opening when the agent cannot be reached.
pub open spec fn advised_port(listen: Option<Seq<char>>) -> AdvisePort {
    let range = AdvisePort::Range(DEFAULT_UDP_PORT_START, DEFAULT_UDP_PORT_END);
    match listen {
        None => range,
        Some(l) => {
            let last = match crate::text::cut_last(l, ":"@) {
                Some((a, b)) => b,
                None => l,
            };
            match crate::text::unsigned_value(crate::text::trimmed(last), 65535) {
                Ok(p) => AdvisePort::Single(p as u16),
                Err(_) => range,
            }
        },
    }
}

/// Which UDP port (or the default range) to advise opening when the connection
/// fails: an explicit listen address `HOST:PORT` names one port.
pub fn advise_port(listen: Option<&str>) -> (r: AdvisePort)
    ensures
        r == advised_port(
            match listen {
                Some(l) => Some(l@),
                None => None,
            },
        ),
{
    match listen {
        None => AdvisePort::Range(DEFAULT_UDP_PORT_START, DEFAULT_UDP_PORT_END),
        Some(l) => {
            let last: &str = match rsplit_once(l, ":") {
                Some((_, b)) => b,
                None => l,
            };
            match parse_unsigned(trim(last), 65535) {
                Ok(p) => AdvisePort::Single(p as u16),
                Err(_) => AdvisePort::Range(DEFAULT_UDP_PORT_START, DEFAULT_UDP_PORT_END),
            }
        },
    }
}

/// How many listen addresses are tried in turn.
pub open spec fn listen_count(explicit: bool) -> int {
    if explicit {
        1
    } else {
        DEFAULT_UDP_PORT_END - DEFAULT_UDP_PORT_START + 1
    }
}

/// The listen address that the agent is asked to use after `tried` others did not
/// work: the explicit one, or one port after the other of the default range.
pub fn listen_candidate(listen: Option<&str>, tried: usize) -> (r: Option<String>)
    ensures
        r is Some <==> tried < listen_count(listen is Some),
        r matches Some(s) ==> s@ == (match listen {
            Some(l) => l@,
            None => "0.0.0.0:"@ + crate::text::decimal(DEFAULT_UDP_PORT_START + tried),
        }),
{
    match listen {
        Some(l) => {
            if tried == 0 {
                Some(l.to_owned())
            } else {
                None
            }
        },
        None => {
            if tried <= (DEFAULT_UDP_PORT_END - DEFAULT_UDP_PORT_START) as usize {
                Some(
                    String::from_str("0.0.0.0:").concat(
                        dec(DEFAULT_UDP_PORT_START as u64 + tried as u64).as_str(),
                    ),
                )
            } else {
                None
            }
        },
    }
}

/// The port that is advised is the one of the listen address; without one that has a port
/// it is the range that is tried.
pub proof fn law_advised_port(host: Seq<char>, p: int)
    requires
        0 <= p <= 65535,
    ensures
        advised_port(Some(host + ":"@ + crate::text::decimal(p))) == AdvisePort::Single(p as u16),
        advised_port(Some(crate::text::decimal(p))) == AdvisePort::Single(p as u16),
        advised_port(None) == AdvisePort::Range(60000, 61000),
        advised_port(Some(host + ":"@)) == AdvisePort::Range(60000, 61000),
{
    reveal_strlit(":");
    let d = crate::text::decimal(p);
    crate::text::lemma_decimal_digits(p);
    crate::text::lemma_decimal_roundtrip(p, 65535);
    assert(!d.contains(':')) by {
        assert forall|i: int| 0 <= i < d.len() implies d[i] != ':' by {
            assert(crate::text::is_digit(d[i]));
        }
    }
    assert(crate::text::is_digit(d[0]));
    assert(crate::text::is_digit(d[d.len() - 1]));
    crate::text::lemma_trim_tight(d);
    crate::text::lemma_cut_last_char(host, ":"@, d);
    crate::text::lemma_cut_none(d, ":"@);
    let none = Seq::<char>::empty();
    crate::text::lemma_cut_last_char(host, ":"@, none);
    assert(host + ":"@ + none =~= host + ":"@);
    crate::text::lemma_trim_tight(none);
}

/// A listen address that was given is tried alone; else every port of the range is tried.
pub proof fn law_listen_count()
    ensures
        listen_count(true) == 1,
        listen_count(false) == 1001,
{
}

} // verus!
