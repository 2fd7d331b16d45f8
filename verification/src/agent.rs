//! Remote agent: which connections it serves, where their streams go, and how
//! long it lives.
//!
//! The session is held while any client connection is live, and for a grace
//! window after the last one drops. The agent ends itself when that window
//! expires with no client attached, or when a client asks for it.

use crate::conn::{OP_KEEPALIVE, OP_SHUTDOWN, OP_STREAM};
use crate::discovery::DISCOVERY_HOST;
use crate::error::SpecError;
use crate::forward::{debug_str, Ns, NsSpec};
use crate::handshake::Token;
use crate::proto::StreamHeader;
use crate::reverse::REVERSE_HOST;
use crate::text::{dec, str_eq};
use vstd::prelude::*;

verus! {

/// Application close code meaning "shut the session down now".
pub const CLOSE_SHUTDOWN: u32 = 0x10;

// ---- admission ---------------------------------------------------------

/// What becomes of a connection through the SSH tunnel.
#[derive(Debug, Clone, Copy, PartialEq, Eq, Structural)]
pub enum Admission {
    /// It does not know the session token.
    Rejected,
    /// It carries a stream.
    Stream,
    /// It is the liveness connection.
    Keepalive,
    /// It asks for the end of the session.
    Shutdown,
    /// It asks for something unknown.
    Unknown(u8),
}

/// What becomes of a connection that opened with these token bytes and opcode.
pub open spec fn admission_of(token: Seq<u8>, received: Seq<u8>, opcode: u8) -> Admission {
    if received != token {
        Admission::Rejected
    } else if opcode == OP_STREAM {
        Admission::Stream
    } else if opcode == OP_KEEPALIVE {
        Admission::Keepalive
    } else if opcode == OP_SHUTDOWN {
        Admission::Shutdown
    } else {
        Admission::Unknown(opcode)
    }
}

/// Whether the bytes that a connection opened with are the session token. Only
/// then its opcode is read.
pub fn token_ok(token: &Token, received: [u8; 32]) -> (r: bool)
    ensures
        r == (received@ == token@),
{
    Token::from_bytes(received).ct_eq(token)
}

/// What becomes of a connection that opened with these token bytes and opcode.
pub fn classify(token: &Token, received: [u8; 32], opcode: u8) -> (r: Admission)
    ensures
        r == admission_of(token@, received@, opcode),
{
    if !token_ok(token, received) {
        Admission::Rejected
    } else if opcode == OP_STREAM {
        Admission::Stream
    } else if opcode == OP_KEEPALIVE {
        Admission::Keepalive
    } else if opcode == OP_SHUTDOWN {
        Admission::Shutdown
    } else {
        Admission::Unknown(opcode)
    }
}

/// A connection without the session token is never served, whatever it asks for;
/// one that opens with the preamble of the session is.
pub proof fn law_token_gates(token: Seq<u8>, received: Seq<u8>, opcode: u8)
    requires
        token.len() == 32,
    ensures
        received != token ==> admission_of(token, received, opcode) == Admission::Rejected,
        ({
            let p = crate::conn::preamble_of(token, opcode);
            admission_of(token, p.take(32), p[32]) != Admission::Rejected
        }),
{
    let p = crate::conn::preamble_of(token, opcode);
    assert(p.take(32) =~= token);
}

// ---- routing -----------------------------------------------------------

/// Where a stream goes.
#[derive(Debug)]
pub enum Route {
    /// To the port scanner.
    Discovery,
    /// To the registration of reverse forwards.
    Reverse,
    /// To a target in the agent's own namespace.
    Dial,
    /// To a target in another namespace.
    DialIn(NsSpec),
    /// Nowhere: its namespace selector is none.
    Refused(SpecError),
}

/// Where a stream with this header goes: the reserved hosts first, then by its
/// namespace.
pub fn route(header: &StreamHeader) -> (r: Route)
    ensures
        match r {
            Route::Discovery => header.host@ == DISCOVERY_HOST@,
            Route::Reverse => header.host@ != DISCOVERY_HOST@ && header.host@ == REVERSE_HOST@,
            Route::Dial => header.host@ != DISCOVERY_HOST@ && header.host@ != REVERSE_HOST@
                && header.ns@.len() == 0,
            Route::DialIn(ns) => header.host@ != DISCOVERY_HOST@ && header.host@ != REVERSE_HOST@
                && header.ns@.len() > 0 && crate::forward::ns_of_wire(header.ns@) == Ok::<
                Ns,
                crate::error::SpecFault,
            >(ns@),
            Route::Refused(e) => header.host@ != DISCOVERY_HOST@ && header.host@ != REVERSE_HOST@
                && crate::forward::ns_of_wire(header.ns@) == Err::<Ns, crate::error::SpecFault>(
                e@,
            ),
        },
{
    if str_eq(header.host.as_str(), DISCOVERY_HOST) {
        Route::Discovery
    } else if str_eq(header.host.as_str(), REVERSE_HOST) {
        Route::Reverse
    } else if header.ns.as_str().is_empty() {
        Route::Dial
    } else {
        match NsSpec::from_wire(header.ns.as_str()) {
            Ok(ns) => Route::DialIn(ns),
            Err(e) => Route::Refused(e),
        }
    }
}

/// What is said of a stream whose namespace selector is none.
pub fn refused_message(ns: &str, e: &SpecError) -> (r: String)
    ensures
        r@ == "bad namespace selector "@ + crate::forward::debug_text(ns@) + ": "@ + e@.text(),
{
    String::from_str("bad namespace selector ").concat(debug_str(ns).as_str()).concat(
        ": ",
    ).concat(e.message().as_str())
}

// ---- the clients and the grace window ----------------------------------

/// The live client connections of an agent, and whether one asked for the end.
#[derive(Debug, Clone, Copy, PartialEq, Eq, Structural)]
pub struct Clients {
    pub count: usize,
    pub shutdown: bool,
}

impl Clients {
    /// An agent without clients.
    pub fn none() -> (r: Clients)
        ensures
            r == (Clients { count: 0, shutdown: false }),
    {
        Clients { count: 0, shutdown: false }
    }

    /// One more client.
    pub fn attach(&mut self)
        requires
            old(self).count < usize::MAX,
        ensures
            *final(self) == (Clients { count: (old(self).count + 1) as usize, ..*old(self) }),
    {
        self.count = self.count + 1;
    }

    /// One client less; `shutdown` says whether it left with the request to end the
    /// session. Such a request is never forgotten.
    pub fn detach(&mut self, shutdown: bool)
        requires
            old(self).count > 0,
        ensures
            *final(self) == (Clients {
                count: (old(self).count - 1) as usize,
                shutdown: old(self).shutdown || shutdown,
            }),
    {
        self.count = self.count - 1;
        self.shutdown = self.shutdown || shutdown;
    }

    /// A request to end the session.
    pub fn request_shutdown(&mut self)
        ensures
            *final(self) == (Clients { shutdown: true, ..*old(self) }),
    {
        self.shutdown = true;
    }
}

/// What the agent is waiting for.
#[derive(Debug, Clone, Copy, PartialEq, Eq, Structural)]
pub enum GracePhase {
    /// A change, while clients are attached (and at the very start).
    Attached,
    /// A client, until the grace window expires.
    Alone,
}

/// What happened.
#[derive(Debug, Clone, Copy, PartialEq, Eq, Structural)]
pub enum GraceEvent {
    /// The clients changed (or the agent has just started).
    Changed,
    /// The grace window expired.
    Expired,
    /// There can be no more clients.
    Closed,
}

/// Why the agent ends.
#[derive(Debug, Clone, Copy, PartialEq, Eq, Structural)]
pub enum ExitReason {
    ShutdownRequested,
    GraceExpired,
    Closed,
}

/// What the agent does next.
#[derive(Debug, Clone, Copy, PartialEq, Eq, Structural)]
pub enum GraceAction {
    /// Wait for the clients to change.
    WaitChange,
    /// Open the grace window, and wait for a client or its end.
    OpenWindow,
    /// Go on waiting in the window that is open.
    StayInWindow,
    /// End.
    Exit(ExitReason),
}

/// What the agent does in `phase` when `event` happens and its clients are
/// `clients`.
pub open spec fn grace_next(phase: GracePhase, event: GraceEvent, clients: Clients) -> GraceAction {
    if clients.shutdown && !(phase is Attached && event is Closed) {
        GraceAction::Exit(ExitReason::ShutdownRequested)
    } else {
        match (phase, event) {
            (GracePhase::Attached, GraceEvent::Closed) => GraceAction::Exit(ExitReason::Closed),
            (GracePhase::Attached, _) => if clients.count == 0 {
                GraceAction::OpenWindow
            } else {
                GraceAction::WaitChange
            },
            (GracePhase::Alone, GraceEvent::Changed) => if clients.count > 0 {
                GraceAction::WaitChange
            } else {
                GraceAction::StayInWindow
            },
            (GracePhase::Alone, _) => GraceAction::Exit(ExitReason::GraceExpired),
        }
    }
}

/// What the agent does in `phase` when `event` happens and its clients are
/// `clients`.
pub fn grace_step(phase: GracePhase, event: GraceEvent, clients: Clients) -> (r: GraceAction)
    ensures
        r == grace_next(phase, event, clients),
{
    match (phase, event) {
        (GracePhase::Attached, GraceEvent::Closed) => GraceAction::Exit(ExitReason::Closed),
        (GracePhase::Attached, _) => {
            if clients.shutdown {
                GraceAction::Exit(ExitReason::ShutdownRequested)
            } else if clients.count == 0 {
                GraceAction::OpenWindow
            } else {
                GraceAction::WaitChange
            }
        },
        (GracePhase::Alone, GraceEvent::Changed) => {
            if clients.shutdown {
                GraceAction::Exit(ExitReason::ShutdownRequested)
            } else if clients.count > 0 {
                GraceAction::WaitChange
            } else {
                GraceAction::StayInWindow
            }
        },
        (GracePhase::Alone, _) => {
            if clients.shutdown {
                GraceAction::Exit(ExitReason::ShutdownRequested)
            } else {
                GraceAction::Exit(ExitReason::GraceExpired)
            }
        },
    }
}

/// While clients are attached the agent stays, unless one of them asks for the end
/// (or the listener is gone). Alone, it ends only when the window is over; a
/// change that brings no client does not open the window anew.
pub proof fn law_grace(event: GraceEvent, clients: Clients)
    requires
        !clients.shutdown,
    ensures
        clients.count > 0 && event != GraceEvent::Closed ==> grace_next(
            GracePhase::Attached,
            event,
            clients,
        ) == GraceAction::WaitChange,
        event == GraceEvent::Changed ==> !(grace_next(GracePhase::Alone, event, clients) is Exit),
        event == GraceEvent::Changed && clients.count == 0 ==> grace_next(
            GracePhase::Alone,
            event,
            clients,
        ) == GraceAction::StayInWindow,
        event == GraceEvent::Expired ==> grace_next(GracePhase::Alone, event, clients)
            == GraceAction::Exit(ExitReason::GraceExpired),
{
}

/// A request to end the session ends it at once, attached or alone.
pub proof fn law_shutdown_ends(phase: GracePhase, clients: Clients)
    requires
        clients.shutdown,
    ensures
        grace_next(phase, GraceEvent::Changed, clients) == GraceAction::Exit(
            ExitReason::ShutdownRequested,
        ),
{
}

// ---- what the agent leaves for the next client -------------------------

/// The record of a running agent.
pub open spec fn state_text(pid: int, udp_port: int, version: Seq<char>, clients: int) -> Seq<
    char,
> {
    "{\"pid\":"@ + crate::text::decimal(pid) + ",\"udp_port\":"@ + crate::text::decimal(udp_port)
        + ",\"version\":\""@ + version + "\",\"clients\":"@ + crate::text::decimal(clients) + "}"@
}

/// The record of a running agent, by which a later client can tell a stale version
/// and evict it when it is idle.
pub fn agent_state(pid: u32, udp_port: u16, version: &str, clients: usize) -> (r: String)
    ensures
        r@ == state_text(pid as int, udp_port as int, version@, clients as int),
{
    String::from_str("{\"pid\":").concat(dec(pid as u64).as_str()).concat(
        ",\"udp_port\":",
    ).concat(dec(udp_port as u64).as_str()).concat(",\"version\":\"").concat(version).concat(
        "\",\"clients\":",
    ).concat(dec(clients as u64).as_str()).concat("}")
}

/// A connection that knows the token gets what its opcode asks for.
pub proof fn law_opcodes(token: Seq<u8>, opcode: u8)
    ensures
        admission_of(token, token, 1) == Admission::Stream,
        admission_of(token, token, 2) == Admission::Keepalive,
        admission_of(token, token, 3) == Admission::Shutdown,
        opcode == 0 || opcode > 3 ==> admission_of(token, token, opcode) == Admission::Unknown(
            opcode,
        ),
{
}

/// The agent ends for a reason that holds: because a client asked for it, because the
/// window expired while it was alone, or because there can be no more clients. A change
/// of the clients alone never ends it.
pub proof fn law_ends_for_a_reason(phase: GracePhase, event: GraceEvent, clients: Clients)
    ensures
        grace_next(phase, event, clients) matches GraceAction::Exit(why) ==> {
            &&& why == ExitReason::ShutdownRequested <==> clients.shutdown && !(phase
                == GracePhase::Attached && event == GraceEvent::Closed)
            &&& why == ExitReason::GraceExpired ==> phase == GracePhase::Alone && event
                != GraceEvent::Changed
            &&& why == ExitReason::Closed ==> phase == GracePhase::Attached && event
                == GraceEvent::Closed
        },
        grace_next(GracePhase::Attached, GraceEvent::Closed, clients) is Exit,
        !clients.shutdown && phase == GracePhase::Attached && event == GraceEvent::Expired
            ==> !(grace_next(phase, event, clients) is Exit),
{
}

/// The window opens when the last client is gone, and closes when one comes back.
pub proof fn law_window(clients: Clients)
    requires
        !clients.shutdown,
    ensures
        clients.count == 0 ==> grace_next(GracePhase::Attached, GraceEvent::Changed, clients)
            == GraceAction::OpenWindow,
        clients.count > 0 ==> grace_next(GracePhase::Attached, GraceEvent::Changed, clients)
            == GraceAction::WaitChange,
        clients.count > 0 ==> grace_next(GracePhase::Alone, GraceEvent::Changed, clients)
            == GraceAction::WaitChange,
        clients.count == 0 ==> grace_next(GracePhase::Alone, GraceEvent::Changed, clients)
            == GraceAction::StayInWindow,
{
}

/// The record of an agent holds what the next client looks for in it, each behind its name.
pub proof fn law_record(pid: int, udp_port: int, version: Seq<char>, clients: int)
    ensures
        crate::text::has_part(
            state_text(pid, udp_port, version, clients),
            "\"pid\":"@ + crate::text::decimal(pid),
        ),
        crate::text::has_part(
            state_text(pid, udp_port, version, clients),
            "\"udp_port\":"@ + crate::text::decimal(udp_port),
        ),
        crate::text::has_part(
            state_text(pid, udp_port, version, clients),
            "\"version\":\""@ + version + "\""@,
        ),
        crate::text::has_part(
            state_text(pid, udp_port, version, clients),
            "\"clients\":"@ + crate::text::decimal(clients),
        ),
{
    reveal_strlit("{\"pid\":");
    reveal_strlit("\"pid\":");
    reveal_strlit(",\"udp_port\":");
    reveal_strlit("\"udp_port\":");
    reveal_strlit(",\"version\":\"");
    reveal_strlit("\"version\":\"");
    reveal_strlit("\",\"clients\":");
    reveal_strlit("\"clients\":");
    reveal_strlit("\"");
    reveal_strlit("}");
    let s = state_text(pid, udp_port, version, clients);
    let a = crate::text::decimal(pid);
    let b = crate::text::decimal(udp_port);
    let c = crate::text::decimal(clients);
    let n1: int = 1;
    let t1 = "\"pid\":"@ + a;
    assert(s.subrange(n1, n1 + t1.len()) =~= t1);
    assert(crate::text::occurs_at(s, t1, n1));
    let n2: int = n1 + t1.len() + 1;
    let t2 = "\"udp_port\":"@ + b;
    assert(s.subrange(n2, n2 + t2.len()) =~= t2);
    assert(crate::text::occurs_at(s, t2, n2));
    let n3: int = n2 + t2.len() + 1;
    let t3 = "\"version\":\""@ + version + "\""@;
    assert(s.subrange(n3, n3 + t3.len()) =~= t3);
    assert(crate::text::occurs_at(s, t3, n3));
    let n4: int = n3 + t3.len() + 1;
    let t4 = "\"clients\":"@ + c;
    assert(s.subrange(n4, n4 + t4.len()) =~= t4);
    assert(crate::text::occurs_at(s, t4, n4));
}

} // verus!
