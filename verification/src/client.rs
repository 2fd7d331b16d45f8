//! Client-side forwards: which local listeners there are, where they may bind,
//! and how one accepted connection gets its stream.
//!
//! Listeners are decoupled from any single agent connection: they stay bound
//! across reconnects, while each accepted TCP connection takes whatever
//! connection is live, waiting up to a deadline during outages.

use crate::error::{outcome, SpecError};
use crate::forward::{Forward, ForwardSpec, Ns, NsSpec};
use crate::net::IpAddr;
use crate::proto::{Header, StreamHeader};
use crate::text::{dec, parse_unsigned, str_eq};
use vstd::prelude::*;

verus! {

/// Default seconds an accepted local connection waits for a live agent connection
/// before being dropped.
pub const ATTACH_DEADLINE_DEFAULT_SECS: u64 = 10;

/// How long an accepted local connection waits for a live agent connection, in
/// seconds, where the environment says `configured`: any positive number.
pub fn attach_deadline(configured: Option<&str>) -> (r: u64)
    ensures
        r == (match configured {
            None => ATTACH_DEADLINE_DEFAULT_SECS as int,
            Some(s) => match crate::text::unsigned_value(s@, u64::MAX as int) {
                Ok(n) => if n > 0 {
                    n
                } else {
                    ATTACH_DEADLINE_DEFAULT_SECS as int
                },
                Err(_) => ATTACH_DEADLINE_DEFAULT_SECS as int,
            },
        }),
{
    match configured {
        None => ATTACH_DEADLINE_DEFAULT_SECS,
        Some(s) => match parse_unsigned(s, u64::MAX) {
            Ok(n) => {
                if n > 0 {
                    n
                } else {
                    ATTACH_DEADLINE_DEFAULT_SECS
                }
            },
            Err(_) => ATTACH_DEADLINE_DEFAULT_SECS,
        },
    }
}

// ---- health ------------------------------------------------------------

/// Live health of one forward, updated as connections through it succeed or fail.
#[derive(Debug)]
pub struct ForwardHealth {
    /// Connections that opened a stream and were served to their end.
    pub ok_connections: u64,
    /// Most recent connection failure (full cause chain), if any.
    pub last_error: Option<String>,
    /// Cumulative bytes sent client->agent.
    pub bytes_up: u64,
    /// Cumulative bytes received agent->client.
    pub bytes_down: u64,
}

/// The text of an optional string.
pub open spec fn opt_text(s: Option<String>) -> Option<Seq<char>> {
    match s {
        Some(t) => Some(t@),
        None => None,
    }
}

/// The model of a [`ForwardHealth`].
#[verifier::ext_equal]
pub struct Health {
    pub ok: int,
    pub error: Option<Seq<char>>,
    pub up: int,
    pub down: int,
}

impl View for ForwardHealth {
    type V = Health;

    open spec fn view(&self) -> Health {
        Health {
            ok: self.ok_connections as int,
            error: opt_text(self.last_error),
            up: self.bytes_up as int,
            down: self.bytes_down as int,
        }
    }
}

/// The health that a list has first under `key`; that of a forward that has served
/// nothing yet where it has none.
pub open spec fn health_at(v: Seq<(u64, ForwardHealth)>, key: int) -> Health
    decreases v.len(),
{
    if v.len() == 0 {
        Health { ok: 0, error: None, up: 0, down: 0 }
    } else if v[0].0 == key {
        v[0].1@
    } else {
        health_at(v.drop_first(), key)
    }
}

/// The health that a list has first under `key`; that of a forward that has served
/// nothing yet where it has none.
pub fn find_health(v: &Vec<(u64, ForwardHealth)>, key: u64) -> (r: ForwardHealth)
    ensures
        r@ == health_at(v@, key as int),
{
    let mut i: usize = 0;
    proof {
        assert(v@.skip(0) =~= v@);
    }
    while i < v.len()
        invariant
            i <= v@.len(),
            health_at(v@, key as int) == health_at(v@.skip(i as int), key as int),
        decreases v@.len() - i,
    {
        proof {
            assert(v@.skip(i as int)[0] == v@[i as int]);
            assert(v@.skip(i as int).drop_first() =~= v@.skip(i + 1));
        }
        if v[i].0 == key {
            let h: &ForwardHealth = &v[i].1;
            return ForwardHealth {
                ok_connections: h.ok_connections,
                last_error: clone_opt(&h.last_error),
                bytes_up: h.bytes_up,
                bytes_down: h.bytes_down,
            };
        }
        i = i + 1;
    }
    new_health_handle()
}

/// Copies an optional string.
pub fn clone_opt(s: &Option<String>) -> (r: Option<String>)
    ensures
        opt_text(r) == opt_text(*s),
{
    match s {
        Some(t) => Some(t.clone()),
        None => None,
    }
}

/// Creates the health of a forward that has served nothing yet.
pub fn new_health_handle() -> (r: ForwardHealth)
    ensures
        r.ok_connections == 0,
        r.last_error is None,
        r.bytes_up == 0,
        r.bytes_down == 0,
{
    ForwardHealth { ok_connections: 0, last_error: None, bytes_up: 0, bytes_down: 0 }
}

impl ForwardHealth {
    /// Counts one served connection.
    pub fn record_ok(&mut self)
        requires
            old(self).ok_connections < u64::MAX,
        ensures
            *final(self) == (ForwardHealth {
                ok_connections: (old(self).ok_connections + 1) as u64,
                ..*old(self)
            }),
    {
        self.ok_connections = self.ok_connections + 1;
    }

    /// Remembers the most recent failure.
    pub fn record_error(&mut self, error: String)
        ensures
            *final(self) == (ForwardHealth { last_error: Some(error), ..*old(self) }),
    {
        self.last_error = Some(error);
    }
}

/// How a forward came to be. Runtime-only; not part of the spec and not persisted.
#[derive(Debug, Clone, Copy, PartialEq, Eq, Structural)]
pub enum Origin {
    /// Added explicitly at launch or on the live session.
    UserAdded,
    /// Restored from the host's remembered state or a named profile at launch.
    Remembered,
    /// Bound automatically by discovery against an auto-forward rule.
    AutoForwarded,
}

impl Origin {
    /// Short label for display.
    pub open spec fn text(self) -> Seq<char> {
        match self {
            Origin::UserAdded => "user"@,
            Origin::Remembered => "remembered"@,
            Origin::AutoForwarded => "auto"@,
        }
    }

    /// Short label for display.
    pub fn label(self) -> (r: &'static str)
        ensures
            r@ == self.text(),
    {
        match self {
            Origin::UserAdded => "user",
            Origin::Remembered => "remembered",
            Origin::AutoForwarded => "auto",
        }
    }
}

// ---- the fallback ladder -----------------------------------------------

/// Step between successive fallback ports. Keeps the low digits of the preferred
/// port intact, so a bumped port is still recognizable.
pub const LOCAL_PORT_STEP: u16 = 1000;

/// The preferred port, then one thousand more, and so on, as long as it is a port.
pub open spec fn ladder(preferred: int) -> Seq<int> {
    Seq::new(
        ((65535 - preferred) / 1000 + 1) as nat,
        |i: int| preferred + LOCAL_PORT_STEP * i,
    )
}

/// The numbers of a list of ports.
pub open spec fn port_ints(v: Seq<u16>) -> Seq<int> {
    v.map_values(|p: u16| p as int)
}

/// Fallback ports for a preferred local port: the port itself, then +1000, +2000
/// and so on, up to the last value that still is a port.
pub fn fallback_ports(preferred: u16) -> (r: Vec<u16>)
    ensures
        port_ints(r@) == ladder(preferred as int),
{
    let mut v: Vec<u16> = Vec::new();
    let mut p: u16 = preferred;
    loop
        invariant_except_break
            p == preferred + LOCAL_PORT_STEP * v.len(),
            forall|j: int| 0 <= j < v.len() ==> v@[j] == preferred + LOCAL_PORT_STEP * j,
        ensures
            forall|j: int| 0 <= j < v.len() ==> v@[j] == preferred + LOCAL_PORT_STEP * j,
            v.len() == (65535 - preferred) / 1000 + 1,
        decreases 65535 - p,
    {
        v.push(p);
        if p > u16::MAX - LOCAL_PORT_STEP {
            break ;
        }
        p = p + LOCAL_PORT_STEP;
    }
    proof {
        assert(port_ints(v@) =~= ladder(preferred as int));
    }
    v
}

// ---- the set of forwards -----------------------------------------------

/// One live forward: its spec, where it actually bound, and where it came from.
#[derive(Debug)]
pub struct ActiveForward {
    pub spec: ForwardSpec,
    pub local_addr: IpAddr,
    pub local_port: u16,
    pub origin: Origin,
}

/// The model of an [`ActiveForward`].
#[verifier::ext_equal]
pub struct Entry {
    pub spec: Forward,
    pub addr: IpAddr,
    pub port: int,
    pub origin: Origin,
}

impl View for ActiveForward {
    type V = Entry;

    open spec fn view(&self) -> Entry {
        Entry {
            spec: self.spec@,
            addr: self.local_addr,
            port: self.local_port as int,
            origin: self.origin,
        }
    }
}

impl Clone for ActiveForward {
    fn clone(&self) -> (r: Self)
        ensures
            r@ == self@,
    {
        ActiveForward {
            spec: self.spec.clone(),
            local_addr: self.local_addr,
            local_port: self.local_port,
            origin: self.origin,
        }
    }
}

/// The models of a list of forwards.
pub open spec fn entries_of(v: Seq<ActiveForward>) -> Seq<Entry> {
    v.map_values(|a: ActiveForward| a@)
}

/// The ports of a list of forwards ascend without repetition.
pub open spec fn ascending(s: Seq<Entry>) -> bool {
    forall|i: int, j: int| 0 <= i < j < s.len() ==> (#[trigger] s[i]).port < (#[trigger] s[j]).port
}

/// Some forward of the list is on `port`.
pub open spec fn has_port(s: Seq<Entry>, port: int) -> bool {
    exists|i: int| 0 <= i < s.len() && (#[trigger] s[i]).port == port
}

/// The forward of the list that is on `port`.
pub open spec fn on_port(s: Seq<Entry>, port: int) -> Entry {
    s[choose|i: int| 0 <= i < s.len() && (#[trigger] s[i]).port == port]
}

/// The forwards of a list, by local port.
pub open spec fn by_port(s: Seq<Entry>) -> Map<int, Entry> {
    Map::new(|p: int| has_port(s, p), |p: int| on_port(s, p))
}

/// The model of a [`ForwardSet`]: its forwards in the order of their local ports,
/// and the session's defaults.
#[verifier::ext_equal]
pub struct Forwards {
    pub entries: Seq<Entry>,
    pub default_ns: Option<Ns>,
    pub default_bind: IpAddr,
}

/// Every forward of the list has a port, and its spec names that port.
pub open spec fn ports_named(s: Seq<Entry>) -> bool {
    forall|i: int|
        0 <= i < s.len() ==> (#[trigger] s[i]).spec.local_port == s[i].port && s[i].port != 0
}

impl Forwards {
    /// One forward per local port, which is the one that its spec names and is not
    /// 0, and no default that is the host's namespace.
    pub open spec fn wf(self) -> bool {
        ascending(self.entries) && ports_named(self.entries) && self.default_ns != Some(Ns::Host)
    }

    /// The forwards by local port.
    pub open spec fn map(self) -> Map<int, Entry> {
        by_port(self.entries)
    }

    /// The namespace of a spec that names none.
    pub open spec fn effective_ns(self) -> Ns {
        match self.default_ns {
            Some(ns) => ns,
            None => Ns::Host,
        }
    }
}

/// The runtime-managed collection behind launch arguments, live changes and
/// auto-detection. All mutation goes through here.
#[derive(Debug)]
pub struct ForwardSet {
    active: Vec<ActiveForward>,
    default_ns: Option<NsSpec>,
    default_bind: IpAddr,
}

impl View for ForwardSet {
    type V = Forwards;

    closed spec fn view(&self) -> Forwards {
        Forwards {
            entries: entries_of(self.active@),
            default_ns: crate::forward::ns_view(
                match &self.default_ns {
                    Some(n) => Some(n),
                    None => None,
                },
            ),
            default_bind: self.default_bind,
        }
    }
}

/// What can go wrong with the set of forwards.
#[derive(Debug, Clone, Copy, PartialEq, Eq, Structural)]
pub enum ForwardError {
    /// A forward is already on this local port.
    AlreadyForwarded(u16),
    /// No forward is on this local port.
    NoForward(u16),
}

impl ForwardError {
    /// The message for this error.
    pub open spec fn text(self) -> Seq<char> {
        match self {
            ForwardError::AlreadyForwarded(p) => "local port "@ + crate::text::decimal(p as int)
                + " is already forwarded"@,
            ForwardError::NoForward(p) => "no forward on local port "@ + crate::text::decimal(
                p as int,
            ),
        }
    }

    /// The message for this error.
    pub fn message(self) -> (r: String)
        ensures
            r@ == self.text(),
    {
        match self {
            ForwardError::AlreadyForwarded(p) => String::from_str("local port ").concat(
                dec(p as u64).as_str(),
            ).concat(" is already forwarded"),
            ForwardError::NoForward(p) => String::from_str("no forward on local port ").concat(
                dec(p as u64).as_str(),
            ),
        }
    }
}

proof fn lemma_on_port(s: Seq<Entry>, i: int)
    requires
        ascending(s),
        0 <= i < s.len(),
    ensures
        has_port(s, s[i].port),
        on_port(s, s[i].port) == s[i],
{
    let k = choose|k: int| 0 <= k < s.len() && (#[trigger] s[k]).port == s[i].port;
    assert(s[k].port == s[i].port);
    if k < i {
        assert(s[k].port < s[i].port);
    } else if i < k {
        assert(s[i].port < s[k].port);
    }
}

/// Inserting at the right place keeps the order and adds one entry.
proof fn lemma_insert(s: Seq<Entry>, i: int, e: Entry)
    requires
        ascending(s),
        0 <= i <= s.len(),
        forall|j: int| 0 <= j < i ==> (#[trigger] s[j]).port < e.port,
        forall|j: int| i <= j < s.len() ==> (#[trigger] s[j]).port > e.port,
    ensures
        ascending(s.insert(i, e)),
        by_port(s.insert(i, e)) == by_port(s).insert(e.port, e),
{
    let t = s.insert(i, e);
    assert forall|a: int, b: int| 0 <= a < b < t.len() implies (#[trigger] t[a]).port < (
    #[trigger] t[b]).port by {
        if a < i && b > i {
            assert(s[a].port < s[b - 1].port);
        } else if b < i {
            assert(s[a].port < s[b].port);
        } else if a > i {
            assert(s[a - 1].port < s[b - 1].port);
        } else if b == i {
            assert(s[a].port < e.port);
        } else {
            assert(s[b - 1].port > e.port);
        }
    }
    assert(t[i] == e);
    assert forall|p: int| has_port(t, p) <==> has_port(s, p) || p == e.port by {
        if has_port(s, p) {
            let k = choose|k: int| 0 <= k < s.len() && (#[trigger] s[k]).port == p;
            if k < i {
                assert(t[k] == s[k]);
            } else {
                assert(t[k + 1] == s[k]);
            }
        }
        if has_port(t, p) {
            let k = choose|k: int| 0 <= k < t.len() && (#[trigger] t[k]).port == p;
            if k < i {
                assert(t[k] == s[k]);
            } else if k > i {
                assert(t[k] == s[k - 1]);
            }
        }
        if p == e.port {
            assert(t[i].port == p);
        }
    }
    assert forall|p: int| has_port(t, p) implies #[trigger] on_port(t, p) == by_port(s).insert(
        e.port,
        e,
    )[p] by {
        let k = choose|k: int| 0 <= k < t.len() && (#[trigger] t[k]).port == p;
        assert(t[k].port == p);
        if k == i {
        } else if k < i {
            assert(t[k] == s[k]);
            lemma_on_port(s, k);
        } else {
            assert(t[k] == s[k - 1]);
            lemma_on_port(s, k - 1);
        }
    }
    assert(by_port(t) =~= by_port(s).insert(e.port, e));
}

/// Removing one entry keeps the order and the others.
proof fn lemma_remove(s: Seq<Entry>, i: int)
    requires
        ascending(s),
        0 <= i < s.len(),
    ensures
        ascending(s.remove(i)),
        by_port(s.remove(i)) == by_port(s).remove(s[i].port),
        forall|j: int| 0 <= j < i ==> (#[trigger] s.remove(i)[j]).port < s[i].port,
        forall|j: int| i <= j < s.len() - 1 ==> (#[trigger] s.remove(i)[j]).port > s[i].port,
{
    let t = s.remove(i);
    let e = s[i];
    assert forall|a: int, b: int| 0 <= a < b < t.len() implies (#[trigger] t[a]).port < (
    #[trigger] t[b]).port by {
        let x = if a < i { a } else { a + 1 };
        let y = if b < i { b } else { b + 1 };
        assert(s[x].port < s[y].port);
    }
    assert forall|p: int| has_port(t, p) <==> has_port(s, p) && p != e.port by {
        if has_port(s, p) && p != e.port {
            let k = choose|k: int| 0 <= k < s.len() && (#[trigger] s[k]).port == p;
            if k < i {
                assert(t[k] == s[k]);
            } else {
                assert(t[k - 1] == s[k]);
            }
        }
        if has_port(t, p) {
            let k = choose|k: int| 0 <= k < t.len() && (#[trigger] t[k]).port == p;
            if k < i {
                assert(t[k] == s[k]);
                assert(s[k].port < s[i].port);
            } else {
                assert(t[k] == s[k + 1]);
                assert(s[i].port < s[k + 1].port);
            }
        }
    }
    assert forall|p: int| has_port(t, p) implies #[trigger] on_port(t, p) == on_port(s, p) by {
        let k = choose|k: int| 0 <= k < t.len() && (#[trigger] t[k]).port == p;
        assert(t[k].port == p);
        if k < i {
            assert(t[k] == s[k]);
            lemma_on_port(s, k);
        } else {
            assert(t[k] == s[k + 1]);
            lemma_on_port(s, k + 1);
        }
    }
    assert(by_port(t) =~= by_port(s).remove(e.port));
    assert forall|j: int| 0 <= j < i implies (#[trigger] t[j]).port < e.port by {
        assert(s[j].port < s[i].port);
    }
    assert forall|j: int| i <= j < s.len() - 1 implies (#[trigger] t[j]).port > e.port by {
        assert(s[i].port < s[j + 1].port);
    }
}

/// The ports that binding a forward is tried on, in turn: for a port that may
/// fall back, the rungs of the ladder that are not in use, then one that the
/// system picks; else that port alone.
pub open spec fn bind_plan(set: Forwards, f: Forward) -> Result<Seq<int>, ForwardError> {
    if f.local_port_auto && f.local_port != 0 {
        Ok(ladder(f.local_port).filter(|p: int| !has_port(set.entries, p)).push(0))
    } else if f.local_port != 0 && has_port(set.entries, f.local_port) {
        Err(ForwardError::AlreadyForwarded(f.local_port as u16))
    } else {
        Ok(seq![f.local_port])
    }
}

/// The outcome of binding a forward anew in another namespace.
#[derive(Debug)]
pub enum Rebind {
    /// It is bound there.
    Moved { addr: IpAddr, port: u16 },
    /// It could not be bound there and was bound as before.
    Kept { addr: IpAddr, port: u16, error: String },
    /// It could be bound neither there nor as before.
    Lost { error: String, restore_error: String },
}

/// A listener that was bound anew has a port.
pub open spec fn has_place(out: Rebind) -> bool {
    match out {
        Rebind::Moved { addr, port } => port != 0,
        Rebind::Kept { addr, port, error } => port != 0,
        Rebind::Lost { error, restore_error } => true,
    }
}

/// Every listener of the list that was bound anew has a port.
pub open spec fn have_places(outs: Seq<Rebind>) -> bool {
    forall|i: int| 0 <= i < outs.len() ==> has_place(#[trigger] outs[i])
}

/// The forwards after the one on `port` was bound anew.
pub open spec fn rebound(m: Map<int, Entry>, port: int, out: Rebind, ns: Ns) -> Map<int, Entry> {
    match out {
        Rebind::Moved { addr, port: p } => m.remove(port).insert(
            p as int,
            Entry {
                spec: Forward { ns, local_port: p as int, ..m[port].spec },
                addr,
                port: p as int,
                origin: m[port].origin,
            },
        ),
        Rebind::Kept { addr, port: p, error } => m.remove(port).insert(
            p as int,
            Entry {
                spec: Forward { local_port: p as int, ..m[port].spec },
                addr,
                port: p as int,
                origin: m[port].origin,
            },
        ),
        Rebind::Lost { error, restore_error } => m.remove(port),
    }
}

/// The forwards after the first `n` of `ports` were bound anew.
pub open spec fn all_rebound(
    m: Map<int, Entry>,
    ports: Seq<int>,
    outs: Seq<Rebind>,
    ns: Ns,
    n: nat,
) -> Map<int, Entry>
    decreases n,
{
    if n == 0 {
        m
    } else {
        rebound(
            all_rebound(m, ports, outs, ns, (n - 1) as nat),
            ports[n - 1],
            outs[n - 1],
            ns,
        )
    }
}

/// What is reported of a forward that could not be moved.
pub open spec fn rebind_message(port: int, out: Rebind) -> Option<Seq<char>> {
    match out {
        Rebind::Moved { addr, port: p } => None,
        Rebind::Kept { addr, port: p, error } => Some(
            "local port "@ + crate::text::decimal(port) + ": "@ + error@ + " (kept previous)"@,
        ),
        Rebind::Lost { error, restore_error } => Some(
            "local port "@ + crate::text::decimal(port) + ": "@ + error@ + "; restore failed: "@
                + restore_error@,
        ),
    }
}

/// What is reported of the first `n` forwards bound anew: how many moved, and a
/// message for each of the others.
pub open spec fn rebind_report(ports: Seq<int>, outs: Seq<Rebind>, n: nat) -> (
    int,
    Seq<Seq<char>>,
)
    decreases n,
{
    if n == 0 {
        (0, Seq::empty())
    } else {
        let (moved, errors) = rebind_report(ports, outs, (n - 1) as nat);
        match rebind_message(ports[n - 1], outs[n - 1]) {
            None => (moved + 1, errors),
            Some(m) => (moved, errors.push(m)),
        }
    }
}

/// The forwards that follow a change of the default namespace to `ns`: those
/// whose spec named none and that dial elsewhere.
pub open spec fn follows(e: Entry, ns: Ns) -> bool {
    e.spec.ns_inherited && e.spec.ns != ns
}

/// The local ports of the forwards that follow a change of the default namespace.
pub open spec fn following_ports(s: Seq<Entry>, ns: Ns) -> Seq<int>
    decreases s.len(),
{
    if s.len() == 0 {
        Seq::empty()
    } else {
        let p = following_ports(s.drop_last(), ns);
        if follows(s.last(), ns) {
            p.push(s.last().port)
        } else {
            p
        }
    }
}

/// The namespace that a request to change the default asks for; the host's is no
/// default.
pub open spec fn as_default(ns: Option<Ns>) -> Option<Ns> {
    if ns == Some(Ns::Host) {
        None
    } else {
        ns
    }
}

/// The namespace of an optional selector.
pub open spec fn opt_ns(ns: Option<NsSpec>) -> Option<Ns> {
    match ns {
        Some(n) => Some(n@),
        None => None,
    }
}

/// The texts of a list of strings.
pub open spec fn string_texts(v: Seq<String>) -> Seq<Seq<char>> {
    v.map_values(|s: String| s@)
}

fn drop_host(ns: Option<NsSpec>) -> (r: Option<NsSpec>)
    ensures
        opt_ns(r) == as_default(opt_ns(ns)),
{
    match ns {
        Some(n) => {
            if n.is_host() {
                None
            } else {
                Some(n)
            }
        },
        None => None,
    }
}

impl ForwardSet {
    /// An empty set. `default_ns` is the namespace of specs that name none
    /// (`None` = the agent's own), `default_bind` the address of listeners whose
    /// spec gives none.
    pub fn new(default_ns: Option<NsSpec>, default_bind: IpAddr) -> (r: ForwardSet)
        ensures
            r@.wf(),
            r@ == (Forwards {
                entries: Seq::empty(),
                default_ns: as_default(opt_ns(default_ns)),
                default_bind,
            }),
    {
        let r = ForwardSet {
            active: Vec::new(),
            default_ns: drop_host(default_ns),
            default_bind,
        };
        proof {
            assert(entries_of(r.active@) =~= Seq::<Entry>::empty());
        }
        r
    }

    /// The session-default namespace, if one is set.
    pub fn default_ns(&self) -> (r: Option<NsSpec>)
        ensures
            opt_ns(r) == self@.default_ns,
    {
        match &self.default_ns {
            Some(n) => Some(n.clone()),
            None => None,
        }
    }

    /// The default bind address.
    pub fn default_bind(&self) -> (r: IpAddr)
        ensures
            r == self@.default_bind,
    {
        self.default_bind
    }

    /// Parses a spec against this session's defaults. Every spec that comes while
    /// the session lives goes through here.
    pub fn parse_spec(&self, raw: &str) -> (r: Result<ForwardSpec, SpecError>)
        ensures
            outcome(r) == crate::forward::forward_of(
                raw@,
                self@.default_bind,
                self@.default_ns,
            ),
    {
        match &self.default_ns {
            Some(n) => ForwardSpec::parse_with_defaults(raw, self.default_bind, Some(n)),
            None => ForwardSpec::parse_with_defaults(raw, self.default_bind, None),
        }
    }

    /// Whether a forward is on `port`.
    pub fn contains(&self, port: u16) -> (r: bool)
        ensures
            r == has_port(self@.entries, port as int),
    {
        self.find(port).is_some()
    }

    fn find(&self, port: u16) -> (r: Option<usize>)
        ensures
            match r {
                Some(i) => i < self.active@.len() && self@.entries[i as int].port == port,
                None => !has_port(self@.entries, port as int),
            },
    {
        let mut i: usize = 0;
        while i < self.active.len()
            invariant
                i <= self.active@.len(),
                forall|j: int|
                    0 <= j < i ==> (#[trigger] entries_of(self.active@)[j]).port != port as int,
            decreases self.active@.len() - i,
        {
            assert(entries_of(self.active@)[i as int] == self.active@[i as int]@);
            if self.active[i].local_port == port {
                return Some(i);
            }
            i = i + 1;
        }
        None
    }

    /// The ports that binding `spec` is to be tried on, in this order. The first
    /// that binds is the one to report to [`ForwardSet::add`]; 0 lets the system
    /// pick one.
    pub fn plan_add(&self, spec: &ForwardSpec) -> (r: Result<Vec<u16>, ForwardError>)
        ensures
            match r {
                Ok(v) => bind_plan(self@, spec@) == Ok::<Seq<int>, ForwardError>(port_ints(v@))
                    && v@.len() > 0,
                Err(e) => bind_plan(self@, spec@) == Err::<Seq<int>, ForwardError>(e),
            },
    {
        if spec.local_port_auto && spec.local_port != 0 {
            let rungs: Vec<u16> = fallback_ports(spec.local_port);
            let ghost l = ladder(spec.local_port as int);
            let ghost entries = self@.entries;
            let ghost free = |p: int| !has_port(entries, p);
            let mut v: Vec<u16> = Vec::new();
            let mut i: usize = 0;
            proof {
                assert(l.take(0) =~= Seq::<int>::empty());
                reveal(Seq::filter);
                assert(port_ints(v@) =~= Seq::<int>::empty());
            }
            while i < rungs.len()
                invariant
                    i <= rungs@.len(),
                    port_ints(rungs@) == l,
                    entries == self@.entries,
                    free == (|p: int| !has_port(entries, p)),
                    port_ints(v@) == l.take(i as int).filter(free),
                decreases rungs.len() - i,
            {
                let ghost before = port_ints(v@);
                proof {
                    reveal(Seq::filter);
                    assert(l.take(i + 1).drop_last() =~= l.take(i as int));
                    assert(l.take(i + 1).last() == rungs@[i as int] as int);
                }
                if !self.contains(rungs[i]) {
                    v.push(rungs[i]);
                    proof {
                        assert(port_ints(v@) =~= before.push(rungs@[i as int] as int));
                    }
                }
                i = i + 1;
            }
            let ghost before = port_ints(v@);
            v.push(0);
            proof {
                assert(l.take(i as int) =~= l);
                assert(port_ints(v@) =~= before.push(0));
            }
            return Ok(v);
        }
        if spec.local_port != 0 && self.contains(spec.local_port) {
            return Err(ForwardError::AlreadyForwarded(spec.local_port));
        }
        let mut v: Vec<u16> = Vec::new();
        v.push(spec.local_port);
        proof {
            assert(port_ints(v@) =~= seq![spec.local_port as int]);
        }
        Ok(v)
    }

    fn put(&mut self, a: ActiveForward)
        requires
            old(self)@.wf(),
            a.spec.local_port == a.local_port,
            a.local_port != 0,
        ensures
            final(self)@.wf(),
            final(self)@.map() == old(self)@.map().insert(a@.port, a@),
            final(self)@.default_ns == old(self)@.default_ns,
            final(self)@.default_bind == old(self)@.default_bind,
    {
        let ghost s0 = self@.entries;
        let ghost e = a@;
        let mut i: usize = 0;
        while i < self.active.len() && self.active[i].local_port < a.local_port
            invariant
                i <= self.active@.len(),
                self@ == old(self)@,
                s0 == self@.entries,
                forall|j: int| 0 <= j < i ==> (#[trigger] s0[j]).port < a.local_port as int,
            decreases self.active@.len() - i,
        {
            assert(s0[i as int] == self.active@[i as int]@);
            i = i + 1;
        }
        if i < self.active.len() && self.active[i].local_port == a.local_port {
            assert(s0[i as int] == self.active@[i as int]@);
            let _ = self.active.remove(i);
            proof {
                assert(entries_of(self.active@) =~= s0.remove(i as int));
                lemma_remove(s0, i as int);
            }
        } else {
            proof {
                if i < self.active@.len() {
                    assert(s0[i as int] == self.active@[i as int]@);
                }
            }
        }
        let ghost s1 = self@.entries;
        proof {
            assert forall|j: int| i <= j < s1.len() implies (#[trigger] s1[j]).port > e.port by {
                if s1 == s0 && j > i {
                    assert(s0[i as int].port < s0[j].port);
                }
            }
        }
        self.active.insert(i, a);
        proof {
            assert(entries_of(self.active@) =~= s1.insert(i as int, e));
            lemma_insert(s1, i as int, e);
            assert(ports_named(s1.insert(i as int, e)));
            assert(self@.map() =~= old(self)@.map().insert(e.port, e));
        }
    }

    fn take(&mut self, port: u16) -> (r: Option<ActiveForward>)
        requires
            old(self)@.wf(),
        ensures
            final(self)@.wf(),
            final(self)@.default_ns == old(self)@.default_ns,
            final(self)@.default_bind == old(self)@.default_bind,
            match r {
                Some(a) => {
                    &&& has_port(old(self)@.entries, port as int)
                    &&& a@ == old(self)@.map()[port as int]
                    &&& final(self)@.map() == old(self)@.map().remove(port as int)
                },
                None => !has_port(old(self)@.entries, port as int) && final(self)@ == old(self)@,
            },
    {
        let ghost s0 = self@.entries;
        match self.find(port) {
            None => None,
            Some(i) => {
                proof {
                    lemma_remove(s0, i as int);
                    lemma_on_port(s0, i as int);
                    assert(s0[i as int] == self.active@[i as int]@);
                }
                let a = self.active.remove(i);
                proof {
                    assert(entries_of(self.active@) =~= s0.remove(i as int));
                    assert(ports_named(s0.remove(i as int)));
                }
                Some(a)
            },
        }
    }

    /// Records a forward whose listener is bound at `addr:port`. Fails, and changes
    /// nothing, where a forward is already on that port.
    pub fn add(&mut self, spec: ForwardSpec, origin: Origin, addr: IpAddr, port: u16) -> (r: Result<
        (),
        ForwardError,
    >)
        requires
            old(self)@.wf(),
            port != 0,
        ensures
            final(self)@.wf(),
            final(self)@.default_ns == old(self)@.default_ns,
            final(self)@.default_bind == old(self)@.default_bind,
            r == (if has_port(old(self)@.entries, port as int) {
                Err::<(), ForwardError>(ForwardError::AlreadyForwarded(spec.local_port))
            } else {
                Ok(())
            }),
            r is Err ==> final(self)@ == old(self)@,
            r is Ok ==> final(self)@.map() == old(self)@.map().insert(
                port as int,
                (Entry {
                    spec: (Forward { local_port: port as int, ..spec@ }),
                    addr,
                    port: port as int,
                    origin,
                }),
            ),
    {
        if self.contains(port) {
            return Err(ForwardError::AlreadyForwarded(spec.local_port));
        }
        let mut bound = spec;
        bound.local_port = port;
        self.put(ActiveForward { spec: bound, local_addr: addr, local_port: port, origin });
        Ok(())
    }

    /// Takes a forward out of the set by its local port.
    pub fn remove(&mut self, local_port: u16) -> (r: Result<ForwardSpec, ForwardError>)
        requires
            old(self)@.wf(),
        ensures
            final(self)@.wf(),
            final(self)@.default_ns == old(self)@.default_ns,
            final(self)@.default_bind == old(self)@.default_bind,
            match r {
                Ok(spec) => {
                    &&& has_port(old(self)@.entries, local_port as int)
                    &&& spec@ == old(self)@.map()[local_port as int].spec
                    &&& final(self)@.map() == old(self)@.map().remove(local_port as int)
                },
                Err(e) => {
                    &&& !has_port(old(self)@.entries, local_port as int)
                    &&& e == ForwardError::NoForward(local_port)
                    &&& final(self)@ == old(self)@
                },
            },
    {
        match self.take(local_port) {
            Some(a) => Ok(a.spec),
            None => Err(ForwardError::NoForward(local_port)),
        }
    }

    /// Takes every forward out of the set, and says how many there were.
    pub fn clear(&mut self) -> (r: usize)
        ensures
            r == old(self)@.entries.len(),
            final(self)@ == (Forwards { entries: Seq::empty(), ..old(self)@ }),
            old(self)@.wf() ==> final(self)@.wf(),
    {
        let n: usize = self.active.len();
        self.active.clear();
        proof {
            assert(entries_of(self.active@) =~= Seq::<Entry>::empty());
        }
        n
    }

    /// All forwards, ordered by local port.
    pub fn list(&self) -> (r: Vec<ActiveForward>)
        ensures
            entries_of(r@) == self@.entries,
            self@.wf() ==> ascending(entries_of(r@)) && ports_named(entries_of(r@)),
    {
        let mut v: Vec<ActiveForward> = Vec::new();
        let mut i: usize = 0;
        while i < self.active.len()
            invariant
                i <= self.active@.len(),
                entries_of(v@) == entries_of(self.active@).take(i as int),
            decreases self.active@.len() - i,
        {
            let ghost before = entries_of(v@);
            v.push(self.active[i].clone());
            proof {
                assert(entries_of(v@) =~= before.push(self.active@[i as int]@));
                assert(entries_of(self.active@).take(i + 1) =~= before.push(
                    self.active@[i as int]@,
                ));
            }
            i = i + 1;
        }
        proof {
            assert(entries_of(self.active@).take(i as int) =~= entries_of(self.active@));
        }
        v
    }

    /// Whether some forward already targets `remote_port` in the namespace with
    /// this wire form.
    pub fn targets(&self, ns_wire: &str, remote_port: u16) -> (r: bool)
        ensures
            r == exists|i: int|
                0 <= i < self@.entries.len() && (#[trigger] self@.entries[i]).spec.ns.wire()
                    == ns_wire@ && self@.entries[i].spec.remote_port == remote_port,
    {
        let mut i: usize = 0;
        while i < self.active.len()
            invariant
                i <= self.active@.len(),
                forall|j: int|
                    0 <= j < i ==> !((#[trigger] self@.entries[j]).spec.ns.wire() == ns_wire@
                        && self@.entries[j].spec.remote_port == remote_port),
            decreases self.active@.len() - i,
        {
            assert(self@.entries[i as int] == self.active@[i as int]@);
            if self.active[i].spec.remote_port == remote_port && str_eq(
                self.active[i].spec.ns.to_wire().as_str(),
                ns_wire,
            ) {
                return true;
            }
            i = i + 1;
        }
        false
    }

    /// The local ports of the forwards that have to be bound anew when the default
    /// namespace becomes `ns`, in ascending order.
    pub fn plan_repoint(&self, ns: &Option<NsSpec>) -> (r: Vec<u16>)
        ensures
            port_ints(r@) == following_ports(
                self@.entries,
                match as_default(opt_ns(*ns)) {
                    Some(n) => n,
                    None => Ns::Host,
                },
            ),
    {
        let effective: NsSpec = match ns {
            Some(n) => n.clone(),
            None => NsSpec::Host,
        };
        let ghost s = self@.entries;
        let mut v: Vec<u16> = Vec::new();
        let mut i: usize = 0;
        proof {
            assert(s.take(0) =~= Seq::<Entry>::empty());
            assert(port_ints(v@) =~= Seq::<int>::empty());
        }
        while i < self.active.len()
            invariant
                i <= self.active@.len(),
                s == entries_of(self.active@),
                port_ints(v@) == following_ports(s.take(i as int), effective@),
            decreases self.active@.len() - i,
        {
            let ghost before = port_ints(v@);
            proof {
                assert(s.take(i + 1).drop_last() =~= s.take(i as int));
                assert(s.take(i + 1).last() == self.active@[i as int]@);
            }
            if self.active[i].spec.ns_inherited && !self.active[i].spec.ns.same(&effective) {
                v.push(self.active[i].local_port);
                proof {
                    assert(port_ints(v@) =~= before.push(self.active@[i as int].local_port as int));
                }
            }
            i = i + 1;
        }
        proof {
            assert(s.take(i as int) =~= s);
        }
        v
    }

    /// The spec that the forward on `port` is bound with when the default namespace
    /// becomes `ns`, and the one it has now.
    pub fn repointed_spec(&self, port: u16, ns: &Option<NsSpec>) -> (r: Option<
        (ForwardSpec, ForwardSpec),
    >)
        requires
            self@.wf(),
        ensures
            match r {
                Some((new, now)) => {
                    &&& has_port(self@.entries, port as int)
                    &&& now@ == self@.map()[port as int].spec
                    &&& new@ == (Forward {
                        ns: (match as_default(opt_ns(*ns)) {
                            Some(n) => n,
                            None => Ns::Host,
                        }),
                        ..now@
                    })
                },
                None => !has_port(self@.entries, port as int),
            },
    {
        match self.find(port) {
            None => None,
            Some(i) => {
                proof {
                    lemma_on_port(self@.entries, i as int);
                    assert(self@.entries[i as int] == self.active@[i as int]@);
                }
                let now = self.active[i].spec.clone();
                let mut new = self.active[i].spec.clone();
                new.ns = match ns {
                    Some(n) => n.clone(),
                    None => NsSpec::Host,
                };
                Some((new, now))
            },
        }
    }

    /// Makes `ns` the default namespace, and records how binding anew the forwards
    /// of [`ForwardSet::plan_repoint`] went, one outcome for each. Says how many
    /// moved, with a message for each of the others. Forwards with a namespace of
    /// their own are left alone.
    pub fn repoint_default_ns(&mut self, ns: Option<NsSpec>, outcomes: &Vec<Rebind>) -> (r: (
        usize,
        Vec<String>,
    ))
        requires
            old(self)@.wf(),
            outcomes@.len() == following_ports(
                old(self)@.entries,
                (match as_default(opt_ns(ns)) {
                    Some(n) => n,
                    None => Ns::Host,
                }),
            ).len(),
            have_places(outcomes@),
        ensures
            final(self)@.wf(),
            final(self)@.default_ns == as_default(opt_ns(ns)),
            final(self)@.default_bind == old(self)@.default_bind,
            ({
                let eff = final(self)@.effective_ns();
                let ports = following_ports(old(self)@.entries, eff);
                &&& final(self)@.map() == all_rebound(
                    old(self)@.map(),
                    ports,
                    outcomes@,
                    eff,
                    ports.len(),
                )
                &&& (r.0 as int, string_texts(r.1@)) == rebind_report(
                    ports,
                    outcomes@,
                    ports.len(),
                )
            }),
    {
        let ports: Vec<u16> = self.plan_repoint(&ns);
        let effective: NsSpec = match &ns {
            Some(n) => n.clone(),
            None => NsSpec::Host,
        };
        let ghost eff = effective@;
        let ghost m0 = self@.map();
        let ghost p = port_ints(ports@);
        self.default_ns = drop_host(ns);
        let mut moved: usize = 0;
        let mut errors: Vec<String> = Vec::new();
        let mut i: usize = 0;
        proof {
            lemma_following_distinct(old(self)@.entries, eff);
            assert(string_texts(errors@) =~= Seq::<Seq<char>>::empty());
            assert forall|k: int| 0 <= k < p.len() implies m0.contains_key(#[trigger] p[k]) by {
                assert(has_port(old(self)@.entries, p[k]));
            }
        }
        while i < ports.len()
            invariant
                i <= ports@.len(),
                p == port_ints(ports@),
                outcomes@.len() == p.len(),
                have_places(outcomes@),
                effective@ == eff,
                self@.wf(),
                self@.default_ns == as_default(opt_ns(ns)),
                self@.default_bind == old(self)@.default_bind,
                self@.map() == all_rebound(m0, p, outcomes@, eff, i as nat),
                moved <= i,
                (moved as int, string_texts(errors@)) == rebind_report(p, outcomes@, i as nat),
                forall|a: int, b: int| 0 <= a < b < p.len() ==> #[trigger] p[a] != #[trigger] p[b],
                forall|k: int| i <= k < p.len() ==> self@.map().contains_key(#[trigger] p[k]),
            decreases ports@.len() - i,
        {
            let port: u16 = ports[i];
            let ghost before = self@.map();
            let ghost texts = string_texts(errors@);
            proof {
                assert(p[i as int] == port as int);
                assert(has_place(outcomes@[i as int]));
            }
            if let Some(mut a) = self.take(port) {
                match &outcomes[i] {
                    Rebind::Moved { addr, port: q } => {
                        a.spec.ns = effective.clone();
                        a.spec.local_port = *q;
                        a.local_addr = *addr;
                        a.local_port = *q;
                        self.put(a);
                        moved = moved + 1;
                    },
                    Rebind::Kept { addr, port: q, error } => {
                        a.spec.local_port = *q;
                        a.local_addr = *addr;
                        a.local_port = *q;
                        self.put(a);
                        errors.push(
                            String::from_str("local port ").concat(
                                dec(port as u64).as_str(),
                            ).concat(": ").concat(error.as_str()).concat(" (kept previous)"),
                        );
                    },
                    Rebind::Lost { error, restore_error } => {
                        errors.push(
                            String::from_str("local port ").concat(
                                dec(port as u64).as_str(),
                            ).concat(": ").concat(error.as_str()).concat(
                                "; restore failed: ",
                            ).concat(restore_error.as_str()),
                        );
                    },
                }
            }
            proof {
                assert(self@.map() =~= rebound(before, p[i as int], outcomes@[i as int], eff));
                if let Some(m) = rebind_message(p[i as int], outcomes@[i as int]) {
                    assert(string_texts(errors@) =~= texts.push(m));
                } else {
                    assert(string_texts(errors@) =~= texts);
                }
            }
            i = i + 1;
        }
        (moved, errors)
    }
}

/// The ports that follow a change are ports of the list, in ascending order.
proof fn lemma_following_distinct(s: Seq<Entry>, ns: Ns)
    requires
        ascending(s),
    ensures
        forall|a: int, b: int|
            0 <= a < b < following_ports(s, ns).len() ==> #[trigger] following_ports(s, ns)[a]
                < #[trigger] following_ports(s, ns)[b],
        forall|k: int|
            0 <= k < following_ports(s, ns).len() ==> has_port(
                s,
                #[trigger] following_ports(s, ns)[k],
            ) && follows(on_port(s, following_ports(s, ns)[k]), ns),
        s.len() > 0 ==> forall|k: int|
            0 <= k < following_ports(s, ns).len() ==> #[trigger] following_ports(s, ns)[k]
                <= s.last().port,
    decreases s.len(),
{
    if s.len() > 0 {
        let t = s.drop_last();
        let q = following_ports(t, ns);
        let p = following_ports(s, ns);
        assert(ascending(t)) by {
            assert forall|i: int, j: int| 0 <= i < j < t.len() implies (#[trigger] t[i]).port < (
            #[trigger] t[j]).port by {
                assert(s[i].port < s[j].port);
            }
        }
        lemma_following_distinct(t, ns);
        let n = s.len() - 1;
        if t.len() > 0 {
            assert(s[n - 1].port < s[n].port);
            assert(t.last() == s[n - 1]);
        }
        lemma_on_port(s, n);
        assert forall|k: int| 0 <= k < q.len() implies has_port(s, #[trigger] q[k]) && follows(
            on_port(s, q[k]),
            ns,
        ) && q[k] < s.last().port by {
            let i = choose|i: int| 0 <= i < t.len() && (#[trigger] t[i]).port == q[k];
            assert(t[i] == s[i]);
            lemma_on_port(s, i);
            lemma_on_port(t, i);
            assert(s[i].port < s[n].port);
        }
    }
}

// ---- laws --------------------------------------------------------------

/// A port that may fall back is never refused for want of a port: the last one
/// tried is whatever the system has left. The preferred port comes first unless
/// it is in use.
pub proof fn law_auto_port_plan(set: Forwards, f: Forward)
    requires
        f.local_port_auto,
        1 <= f.local_port <= 65535,
    ensures
        bind_plan(set, f) matches Ok(p) ==> p.len() > 0 && p.last() == 0,
        bind_plan(set, f) is Ok,
        !has_port(set.entries, f.local_port) ==> (bind_plan(set, f) matches Ok(p) ==> p[0]
            == f.local_port),
        bind_plan(set, f) matches Ok(p) ==> forall|i: int|
            0 <= i < p.len() ==> !has_port(set.entries, #[trigger] p[i]) || p[i] == 0,
{
    let l = ladder(f.local_port);
    let free = |p: int| !has_port(set.entries, p);
    let p = l.filter(free);
    l.lemma_filter_len(free);
    broadcast use vstd::seq_lib::group_filter_ensures;

    assert(bind_plan(set, f) == Ok::<Seq<int>, ForwardError>(p.push(0)));
    assert forall|i: int| 0 <= i < p.len() implies !has_port(set.entries, #[trigger] p[i]) by {
        assert(free(p[i]));
    }
    if !has_port(set.entries, f.local_port) {
        assert(l[0] == f.local_port);
        lemma_filter_first(l, free);
    }
}

proof fn lemma_filter_first(s: Seq<int>, keep: spec_fn(int) -> bool)
    requires
        s.len() > 0,
        keep(s[0]),
    ensures
        s.filter(keep).len() > 0,
        s.filter(keep)[0] == s[0],
    decreases s.len(),
{
    reveal(Seq::filter);
    let t = s.drop_last();
    if s.len() == 1 {
        assert(t =~= Seq::<int>::empty());
        assert(t.filter(keep) =~= Seq::<int>::empty());
    } else {
        assert(t[0] == s[0]);
        lemma_filter_first(t, keep);
    }
}

/// The forwards in ascending order are determined by what is on which port, so
/// what an operation does to the map is all that it does.
pub proof fn law_map_determines_list(a: Seq<Entry>, b: Seq<Entry>)
    requires
        ascending(a),
        ascending(b),
        by_port(a) == by_port(b),
    ensures
        a == b,
    decreases a.len(),
{
    if a.len() == 0 {
        if b.len() > 0 {
            lemma_on_port(b, 0);
            assert(by_port(b).contains_key(b[0].port));
            assert(by_port(a).contains_key(b[0].port));
            assert(has_port(a, b[0].port));
        }
        assert(a =~= b);
    } else {
        let n = a.len() - 1;
        lemma_on_port(a, n);
        assert(by_port(a).contains_key(a[n].port));
        assert(by_port(b).contains_key(a[n].port));
        assert(has_port(b, a[n].port));
        let m = b.len() - 1;
        lemma_on_port(b, m);
        assert(by_port(b).contains_key(b[m].port));
        assert(by_port(a).contains_key(b[m].port));
        assert(has_port(a, b[m].port));
        let i = choose|i: int| 0 <= i < b.len() && (#[trigger] b[i]).port == a[n].port;
        let j = choose|j: int| 0 <= j < a.len() && (#[trigger] a[j]).port == b[m].port;
        if i < m {
            assert(b[i].port < b[m].port);
        }
        if j < n {
            assert(a[j].port < a[n].port);
        }
        assert(a[n].port == b[m].port);
        assert(by_port(a)[a[n].port] == a[n]);
        assert(by_port(b)[b[m].port] == b[m]);
        lemma_remove(a, n);
        lemma_remove(b, m);
        assert(a.remove(n) =~= a.drop_last());
        assert(b.remove(m) =~= b.drop_last());
        law_map_determines_list(a.drop_last(), b.drop_last());
        assert(a =~= a.drop_last().push(a[n]));
        assert(b =~= b.drop_last().push(b[m]));
    }
}

/// What is listed of a set: one entry per forward, in strictly ascending order of
/// the local ports, each with a spec that names the port it is bound to, which is
/// not 0.
pub proof fn law_list_is_by_port(set: Forwards)
    requires
        set.wf(),
    ensures
        forall|p: int| #[trigger] set.map().contains_key(p) <==> has_port(set.entries, p),
        forall|i: int| 0 <= i < set.entries.len() ==> set.map()[(#[trigger] set.entries[i]).port]
            == set.entries[i],
        forall|i: int, j: int|
            0 <= i < j < set.entries.len() ==> (#[trigger] set.entries[i]).port < (
            #[trigger] set.entries[j]).port,
        forall|i: int|
            0 <= i < set.entries.len() ==> (#[trigger] set.entries[i]).spec.local_port
                == set.entries[i].port && set.entries[i].port != 0,
{
    assert forall|i: int| 0 <= i < set.entries.len() implies set.map()[(
    #[trigger] set.entries[i]).port] == set.entries[i] by {
        lemma_on_port(set.entries, i);
    }
}

/// Removing a forward that was just added restores the set.
pub proof fn law_add_then_remove(
    before: Forwards,
    added: Forwards,
    after: Forwards,
    port: int,
    e: Entry,
)
    requires
        before.wf(),
        after.wf(),
        !has_port(before.entries, port),
        added.map() == before.map().insert(port, e),
        after.map() == added.map().remove(port),
        added.default_ns == before.default_ns,
        added.default_bind == before.default_bind,
        after.default_ns == added.default_ns,
        after.default_bind == added.default_bind,
    ensures
        after == before,
{
    assert(after.map() =~= before.map());
    law_map_determines_list(after.entries, before.entries);
}

/// Changing the default namespace, where every forward could be bound anew on its
/// port, moves exactly the forwards whose spec named no namespace, and keeps every
/// local port.
pub proof fn law_repoint_moves_inherited(set: Forwards, outs: Seq<Rebind>, ns: Ns)
    requires
        set.wf(),
        outs.len() == following_ports(set.entries, ns).len(),
        forall|i: int|
            0 <= i < outs.len() ==> (#[trigger] outs[i] matches Rebind::Moved { addr, port }
                && port == following_ports(set.entries, ns)[i] && addr
                == set.map()[following_ports(set.entries, ns)[i]].addr),
    ensures
        ({
            let m = all_rebound(
                set.map(),
                following_ports(set.entries, ns),
                outs,
                ns,
                outs.len(),
            );
            &&& m.dom() == set.map().dom()
            &&& forall|p: int| #[trigger]
                m.contains_key(p) ==> m[p] == (if set.map()[p].spec.ns_inherited {
                    Entry { spec: (Forward { ns, ..set.map()[p].spec }), ..set.map()[p] }
                } else {
                    set.map()[p]
                })
        }),
{
    let s = set.entries;
    let ports = following_ports(s, ns);
    let m = all_rebound(set.map(), ports, outs, ns, outs.len());
    lemma_following_distinct(s, ns);
    assert forall|i: int| 0 <= i < outs.len() implies (#[trigger] outs[i] matches Rebind::Moved {
        addr,
        port,
    } && port == ports[i] && addr == on_port(s, ports[i]).addr) by {
        assert(has_port(s, ports[i]));
    }
    lemma_rebound_in_place(s, outs, ns, outs.len());
    assert forall|p: int| #[trigger] m.contains_key(p) implies m[p] == (
    if set.map()[p].spec.ns_inherited {
        Entry { spec: (Forward { ns, ..set.map()[p].spec }), ..set.map()[p] }
    } else {
        set.map()[p]
    }) by {
        let e = on_port(s, p);
        if exists|i: int| 0 <= i < outs.len() && ports[i] == p {
            let i = choose|i: int| 0 <= i < outs.len() && ports[i] == p;
            assert(has_port(s, ports[i]) && follows(on_port(s, ports[i]), ns));
        } else if e.spec.ns_inherited {
            if e.spec.ns != ns {
                lemma_following_complete(s, ns, p);
            }
            assert(Forward { ns, ..e.spec } =~= e.spec);
        }
    }
}

/// Every forward that follows a change of the default is among those that are
/// bound anew.
proof fn lemma_following_complete(s: Seq<Entry>, ns: Ns, p: int)
    requires
        ascending(s),
        has_port(s, p),
        follows(on_port(s, p), ns),
    ensures
        exists|i: int| 0 <= i < following_ports(s, ns).len() && following_ports(s, ns)[i] == p,
    decreases s.len(),
{
    let n = s.len() - 1;
    let k = choose|k: int| 0 <= k < s.len() && (#[trigger] s[k]).port == p;
    lemma_on_port(s, k);
    let t = s.drop_last();
    let all = following_ports(s, ns);
    if k == n {
        assert(all.last() == p);
        assert(all[all.len() - 1] == p);
    } else {
        assert(ascending(t)) by {
            assert forall|i: int, j: int| 0 <= i < j < t.len() implies (#[trigger] t[i]).port < (
            #[trigger] t[j]).port by {
                assert(s[i].port < s[j].port);
            }
        }
        assert(t[k] == s[k]);
        lemma_on_port(t, k);
        lemma_following_complete(t, ns, p);
        let i = choose|i: int| 0 <= i < following_ports(t, ns).len() && following_ports(t, ns)[i] == p;
        assert(all[i] == p);
    }
}

/// Binding the first `n` of the forwards that follow anew, each where it was,
/// changes their namespace and nothing else.
proof fn lemma_rebound_in_place(s: Seq<Entry>, outs: Seq<Rebind>, ns: Ns, n: nat)
    requires
        ascending(s),
        ports_named(s),
        n <= following_ports(s, ns).len(),
        outs.len() == following_ports(s, ns).len(),
        forall|i: int|
            0 <= i < outs.len() ==> (#[trigger] outs[i] matches Rebind::Moved { addr, port }
                && port == following_ports(s, ns)[i] && addr == on_port(
                s,
                following_ports(s, ns)[i],
            ).addr),
    ensures
        ({
            let ports = following_ports(s, ns);
            let m = all_rebound(by_port(s), ports, outs, ns, n);
            &&& m.dom() == by_port(s).dom()
            &&& forall|p: int| #[trigger]
                m.contains_key(p) ==> m[p] == (if exists|i: int| 0 <= i < n && ports[i] == p {
                    Entry { spec: (Forward { ns, ..on_port(s, p).spec }), ..on_port(s, p) }
                } else {
                    on_port(s, p)
                })
        }),
    decreases n,
{
    let ports = following_ports(s, ns);
    let m0 = by_port(s);
    let m = all_rebound(m0, ports, outs, ns, n);
    lemma_following_distinct(s, ns);
    if n > 0 {
        let k = n - 1;
        lemma_rebound_in_place(s, outs, ns, k as nat);
        let prev = all_rebound(m0, ports, outs, ns, k as nat);
        let q = ports[k];
        assert(has_port(s, q));
        assert(prev.contains_key(q));
        let i = choose|i: int| 0 <= i < s.len() && (#[trigger] s[i]).port == q;
        lemma_on_port(s, i);
        assert(outs[k] is Moved);
        assert(!(exists|j: int| 0 <= j < k && ports[j] == q));
        assert(prev[q] == on_port(s, q));
        assert(m.dom() =~= m0.dom());
        assert forall|p: int| #[trigger] m.contains_key(p) implies m[p] == (if exists|i: int|
            0 <= i < n && ports[i] == p {
            Entry { spec: (Forward { ns, ..on_port(s, p).spec }), ..on_port(s, p) }
        } else {
            on_port(s, p)
        }) by {
            if p == q {
                assert(ports[k] == p);
            } else {
                assert(prev.contains_key(p));
                if exists|i: int| 0 <= i < n && ports[i] == p {
                    let j = choose|j: int| 0 <= j < n && ports[j] == p;
                    assert(j < k);
                }
            }
        }
    }
}

// ---- binding -----------------------------------------------------------

/// What came of binding a listener: where it is bound, or why it is not.
pub open spec fn bind_outcome(r: Result<(IpAddr, u16), String>) -> Result<
    (IpAddr, int),
    Seq<char>,
> {
    match r {
        Ok((addr, port)) => Ok((addr, port as int)),
        Err(e) => Err(e@),
    }
}

/// What comes next in binding a listener on one of several ports.
#[derive(Debug)]
pub enum BindStep {
    /// This port is to be tried.
    Try(u16),
    /// It is bound, or cannot be.
    Done(Result<(IpAddr, u16), String>),
}

/// The model of a [`BindStep`].
pub enum BindNext {
    Try(int),
    Done(Result<(IpAddr, int), Seq<char>>),
}

impl View for BindStep {
    type V = BindNext;

    open spec fn view(&self) -> BindNext {
        match self {
            BindStep::Try(p) => BindNext::Try(*p as int),
            BindStep::Done(r) => BindNext::Done(bind_outcome(*r)),
        }
    }
}

/// What comes next once the first `tried` of the ports were tried, with `last` coming
/// of the last of them: the first port that binds is taken, and where none does, the
/// last failure stands.
pub open spec fn bind_next(
    ports: Seq<int>,
    tried: int,
    last: Option<Result<(IpAddr, int), Seq<char>>>,
) -> BindNext {
    match last {
        Some(Ok(at)) => BindNext::Done(Ok(at)),
        Some(Err(e)) => if tried < ports.len() {
            BindNext::Try(ports[tried])
        } else {
            BindNext::Done(Err(e))
        },
        None => BindNext::Try(ports[tried]),
    }
}

/// Says what comes next once the first `tried` of `ports` were tried, with `last`
/// coming of the last of them.
pub fn bind_step(
    ports: &Vec<u16>,
    tried: usize,
    last: Option<Result<(IpAddr, u16), String>>,
) -> (r: BindStep)
    requires
        ports@.len() > 0,
        tried <= ports@.len(),
        tried == 0 <==> last is None,
    ensures
        r@ == bind_next(
            port_ints(ports@),
            tried as int,
            match last {
                Some(l) => Some(bind_outcome(l)),
                None => None,
            },
        ),
{
    match last {
        Some(Ok(at)) => BindStep::Done(Ok(at)),
        Some(Err(e)) => {
            if tried < ports.len() {
                assert(port_ints(ports@)[tried as int] == ports@[tried as int] as int);
                BindStep::Try(ports[tried])
            } else {
                BindStep::Done(Err(e))
            }
        },
        None => {
            assert(port_ints(ports@)[tried as int] == ports@[tried as int] as int);
            BindStep::Try(ports[tried])
        },
    }
}

/// What comes of binding, where the port at `i` gives `outs[i]` when it is tried, once
/// the first `n` were.
pub open spec fn bind_run(
    ports: Seq<int>,
    outs: Seq<Result<(IpAddr, int), Seq<char>>>,
    n: nat,
) -> Result<(IpAddr, int), Seq<char>>
    decreases ports.len() - n,
{
    let last = if n == 0 {
        None
    } else {
        Some(outs[n - 1])
    };
    match bind_next(ports, n as int, last) {
        BindNext::Done(r) => r,
        BindNext::Try(p) => if n < ports.len() {
            bind_run(ports, outs, n + 1)
        } else {
            outs[n - 1]
        },
    }
}

/// Trying port after port ends on the first that binds, and fails with the failure of
/// the last where none does.
pub proof fn law_first_port_that_binds(
    ports: Seq<int>,
    outs: Seq<Result<(IpAddr, int), Seq<char>>>,
)
    requires
        ports.len() > 0,
        outs.len() == ports.len(),
    ensures
        (exists|i: int|
            0 <= i < outs.len() && bind_run(ports, outs, 0) == #[trigger] outs[i] && outs[i] is Ok
                && forall|j: int| 0 <= j < i ==> #[trigger] outs[j] is Err) || (bind_run(
            ports,
            outs,
            0,
        ) == outs.last() && forall|j: int| 0 <= j < outs.len() ==> #[trigger] outs[j] is Err),
{
    lemma_bind_run(ports, outs, 1);
}

proof fn lemma_bind_run(
    ports: Seq<int>,
    outs: Seq<Result<(IpAddr, int), Seq<char>>>,
    n: nat,
)
    requires
        outs.len() == ports.len(),
        1 <= n <= ports.len(),
        forall|j: int| 0 <= j < n - 1 ==> #[trigger] outs[j] is Err,
    ensures
        (exists|i: int|
            0 <= i < outs.len() && bind_run(ports, outs, n) == #[trigger] outs[i] && outs[i] is Ok
                && forall|j: int| 0 <= j < i ==> #[trigger] outs[j] is Err) || (bind_run(
            ports,
            outs,
            n,
        ) == outs.last() && forall|j: int| 0 <= j < outs.len() ==> #[trigger] outs[j] is Err),
    decreases ports.len() - n,
{
    if outs[n - 1] is Ok {
        assert(bind_run(ports, outs, n) == outs[n - 1]);
    } else if n < ports.len() {
        lemma_bind_run(ports, outs, n + 1);
    }
}

/// What comes next in binding a forward anew in another namespace.
#[derive(Debug)]
pub enum RebindStep {
    /// It is to be bound as it was.
    Restore,
    /// This is what came of it.
    Done(Rebind),
}

/// Says what comes next in binding a forward anew, from what came of binding it in the
/// other namespace, and of binding it as it was where that was tried.
pub fn rebind_step(
    first: Result<(IpAddr, u16), String>,
    second: Option<Result<(IpAddr, u16), String>>,
) -> (r: RebindStep)
    ensures
        r == (match first {
            Ok((addr, port)) => RebindStep::Done(Rebind::Moved { addr, port }),
            Err(error) => match second {
                None => RebindStep::Restore,
                Some(Ok((addr, port))) => RebindStep::Done(Rebind::Kept { addr, port, error }),
                Some(Err(restore_error)) => RebindStep::Done(
                    Rebind::Lost { error, restore_error },
                ),
            },
        }),
{
    match first {
        Ok((addr, port)) => RebindStep::Done(Rebind::Moved { addr, port }),
        Err(error) => match second {
            None => RebindStep::Restore,
            Some(Ok((addr, port))) => RebindStep::Done(Rebind::Kept { addr, port, error }),
            Some(Err(restore_error)) => RebindStep::Done(Rebind::Lost { error, restore_error }),
        },
    }
}

// ---- one accepted connection -------------------------------------------

/// The stream header for a connection through `forward`: its fixed target, or the
/// one that the SOCKS handshake asked for. The namespace is the forward's either
/// way.
pub fn header_for(forward: &ForwardSpec, asked: Option<(String, u16)>) -> (r: StreamHeader)
    ensures
        r@ == (match asked {
            Some((host, port)) => Header {
                ns: forward.ns@.wire(),
                host: host@,
                port: port as int,
            },
            None => Header {
                ns: forward.ns@.wire(),
                host: forward.remote_host@,
                port: forward.remote_port as int,
            },
        }),
{
    match asked {
        Some((host, port)) => StreamHeader { ns: forward.ns.to_wire(), host, port },
        None => StreamHeader {
            ns: forward.ns.to_wire(),
            host: forward.remote_host.clone(),
            port: forward.remote_port,
        },
    }
}

/// What an accepted connection is waiting for.
#[derive(Debug, Clone, Copy, PartialEq, Eq, Structural)]
pub enum AttachPhase {
    /// A look at whether the session has a connection.
    Looking,
    /// A connection, while there is none.
    Waiting,
    /// The outcome of opening a stream.
    Opening,
    /// A replacement for a connection that turned out dead.
    Replacing,
    /// Nothing.
    Done,
}

/// What happened to an accepted connection.
#[derive(Debug, Clone, Copy, PartialEq, Eq, Structural)]
pub enum AttachEvent {
    /// The session has a connection.
    Live,
    /// The session has none at the moment.
    Down,
    /// The session's connection changed.
    Changed,
    /// The session ended.
    SessionEnded,
    /// The deadline passed.
    Deadline,
    /// The stream is open.
    Opened,
    /// The stream could not be opened.
    OpenFailed,
}

/// What to do with an accepted connection.
#[derive(Debug, Clone, Copy, PartialEq, Eq, Structural)]
pub enum AttachAction {
    /// Look whether the session has a connection.
    Look,
    /// Wait for the session's connection to change, until the deadline.
    WaitForChange,
    /// Open a stream.
    Open,
    /// Write the header, tell a SOCKS client that it is connected where `socks_ok`
    /// says so, and splice.
    Serve { socks_ok: bool },
    /// Give up, after telling a SOCKS client of the failure where `socks_reply` says
    /// so.
    Fail { why: AttachFailure, socks_reply: bool },
    /// The event does not belong to this phase: go on waiting.
    Wait,
}

/// Why an accepted connection was given up.
#[derive(Debug, Clone, Copy, PartialEq, Eq, Structural)]
pub enum AttachFailure {
    /// There was no connection before the deadline.
    NoConnection,
    /// The connection was lost and not replaced before the deadline.
    NotReestablished,
    /// The session ended.
    SessionEnded,
}

impl AttachFailure {
    /// The message for this failure.
    pub open spec fn text(self) -> Seq<char> {
        match self {
            AttachFailure::NoConnection => "no agent connection within attach deadline"@,
            AttachFailure::NotReestablished => "agent connection lost and not re-established in time"@,
            AttachFailure::SessionEnded => "session ended"@,
        }
    }

    /// The message for this failure.
    pub fn message(self) -> (r: &'static str)
        ensures
            r@ == self.text(),
    {
        match self {
            AttachFailure::NoConnection => "no agent connection within attach deadline",
            AttachFailure::NotReestablished => "agent connection lost and not re-established in time",
            AttachFailure::SessionEnded => "session ended",
        }
    }
}

/// What becomes of an accepted connection in `phase` when `event` happens.
pub open spec fn attach_next(phase: AttachPhase, event: AttachEvent, socks: bool) -> (
    AttachPhase,
    AttachAction,
) {
    match (phase, event) {
        (AttachPhase::Looking, AttachEvent::Live) => (AttachPhase::Opening, AttachAction::Open),
        (AttachPhase::Looking, AttachEvent::Down) => (
            AttachPhase::Waiting,
            AttachAction::WaitForChange,
        ),
        (AttachPhase::Waiting, AttachEvent::Changed) => (AttachPhase::Looking, AttachAction::Look),
        (AttachPhase::Waiting, AttachEvent::Deadline) => (
            AttachPhase::Done,
            AttachAction::Fail { why: AttachFailure::NoConnection, socks_reply: socks },
        ),
        (AttachPhase::Opening, AttachEvent::Opened) => (
            AttachPhase::Done,
            AttachAction::Serve { socks_ok: socks },
        ),
        (AttachPhase::Opening, AttachEvent::OpenFailed) => (
            AttachPhase::Replacing,
            AttachAction::WaitForChange,
        ),
        (AttachPhase::Replacing, AttachEvent::Changed) => (
            AttachPhase::Looking,
            AttachAction::Look,
        ),
        (AttachPhase::Replacing, AttachEvent::Deadline) => (
            AttachPhase::Done,
            AttachAction::Fail { why: AttachFailure::NotReestablished, socks_reply: socks },
        ),
        (AttachPhase::Waiting, AttachEvent::SessionEnded) => (
            AttachPhase::Done,
            AttachAction::Fail { why: AttachFailure::SessionEnded, socks_reply: false },
        ),
        (AttachPhase::Replacing, AttachEvent::SessionEnded) => (
            AttachPhase::Done,
            AttachAction::Fail { why: AttachFailure::SessionEnded, socks_reply: false },
        ),
        _ => (phase, AttachAction::Wait),
    }
}

/// What becomes of an accepted connection in `phase` when `event` happens. It
/// waits for a live connection until the deadline; where a stale connection fails
/// at open, it waits for a replacement until the same deadline.
pub fn attach_step(phase: AttachPhase, event: AttachEvent, socks: bool) -> (r: (
    AttachPhase,
    AttachAction,
))
    ensures
        r == attach_next(phase, event, socks),
{
    match (phase, event) {
        (AttachPhase::Looking, AttachEvent::Live) => (AttachPhase::Opening, AttachAction::Open),
        (AttachPhase::Looking, AttachEvent::Down) => (
            AttachPhase::Waiting,
            AttachAction::WaitForChange,
        ),
        (AttachPhase::Waiting, AttachEvent::Changed) => (AttachPhase::Looking, AttachAction::Look),
        (AttachPhase::Waiting, AttachEvent::Deadline) => (
            AttachPhase::Done,
            AttachAction::Fail { why: AttachFailure::NoConnection, socks_reply: socks },
        ),
        (AttachPhase::Opening, AttachEvent::Opened) => (
            AttachPhase::Done,
            AttachAction::Serve { socks_ok: socks },
        ),
        (AttachPhase::Opening, AttachEvent::OpenFailed) => (
            AttachPhase::Replacing,
            AttachAction::WaitForChange,
        ),
        (AttachPhase::Replacing, AttachEvent::Changed) => (
            AttachPhase::Looking,
            AttachAction::Look,
        ),
        (AttachPhase::Replacing, AttachEvent::Deadline) => (
            AttachPhase::Done,
            AttachAction::Fail { why: AttachFailure::NotReestablished, socks_reply: socks },
        ),
        (AttachPhase::Waiting, AttachEvent::SessionEnded) => (
            AttachPhase::Done,
            AttachAction::Fail { why: AttachFailure::SessionEnded, socks_reply: false },
        ),
        (AttachPhase::Replacing, AttachEvent::SessionEnded) => (
            AttachPhase::Done,
            AttachAction::Fail { why: AttachFailure::SessionEnded, socks_reply: false },
        ),
        _ => (phase, AttachAction::Wait),
    }
}

/// A SOCKS client is told that it is connected only once the stream is open, and
/// a connection is given up only at the deadline or with the session.
pub proof fn law_attach(phase: AttachPhase, event: AttachEvent, socks: bool)
    ensures
        attach_next(phase, event, socks).1 is Serve ==> event == AttachEvent::Opened,
        attach_next(phase, event, socks).1 is Fail ==> event == AttachEvent::Deadline || event
            == AttachEvent::SessionEnded,
        attach_next(phase, event, false).1 matches AttachAction::Fail { why, socks_reply }
            ==> !socks_reply,
{
}

/// A stream that opens serves its connection, and only the client of a SOCKS forward is
/// told that it is connected.
pub proof fn law_success_reply_is_for_socks(phase: AttachPhase, event: AttachEvent, socks: bool)
    ensures
        attach_next(phase, event, socks).1 matches AttachAction::Serve { socks_ok } ==> socks_ok
            == socks && phase == AttachPhase::Opening && event == AttachEvent::Opened,
        attach_next(AttachPhase::Opening, AttachEvent::Opened, socks).1 is Serve,
{
}

/// A connection is given up at the deadline while it waits, with the reason for which it
/// waited, and a SOCKS client is told; or with the session, and nobody is told.
pub proof fn law_given_up_for_a_reason(phase: AttachPhase, event: AttachEvent, socks: bool)
    ensures
        ({
            let waits = phase == AttachPhase::Waiting || phase == AttachPhase::Replacing;
            let action = attach_next(phase, event, socks).1;
            &&& action is Fail <==> waits && (event == AttachEvent::Deadline || event
                == AttachEvent::SessionEnded)
            &&& action matches AttachAction::Fail { why, socks_reply } ==> {
                &&& socks_reply <==> socks && event == AttachEvent::Deadline
                &&& why == AttachFailure::SessionEnded <==> event == AttachEvent::SessionEnded
                &&& why == AttachFailure::NoConnection ==> phase == AttachPhase::Waiting
                &&& why == AttachFailure::NotReestablished ==> phase == AttachPhase::Replacing
            }
        }),
{
}

/// What is done is what the next phase waits for, and a connection is done with exactly
/// when it is served or given up.
pub proof fn law_attach_phases_agree(phase: AttachPhase, event: AttachEvent, socks: bool)
    ensures
        ({
            let (next, action) = attach_next(phase, event, socks);
            &&& action == AttachAction::Look ==> next == AttachPhase::Looking && event
                == AttachEvent::Changed
            &&& action == AttachAction::Open ==> next == AttachPhase::Opening && event
                == AttachEvent::Live
            &&& action == AttachAction::WaitForChange ==> (next == AttachPhase::Waiting && event
                == AttachEvent::Down) || (next == AttachPhase::Replacing && event
                == AttachEvent::OpenFailed)
            &&& action is Serve || action is Fail ==> next == AttachPhase::Done
            &&& action == AttachAction::Wait ==> next == phase
            &&& next == AttachPhase::Done && phase != AttachPhase::Done ==> action is Serve
                || action is Fail
            &&& phase == AttachPhase::Done ==> action == AttachAction::Wait
        }),
{
}

/// The phase and the last action after these events.
pub open spec fn attach_run(events: Seq<AttachEvent>, socks: bool) -> (AttachPhase, AttachAction)
    decreases events.len(),
{
    if events.len() == 0 {
        (AttachPhase::Looking, AttachAction::Look)
    } else {
        attach_next(attach_run(events.drop_last(), socks).0, events.last(), socks)
    }
}

/// The events of outages, one after the other: the session had no connection until it
/// changed, or (where the flag says so) had one on which no stream could be opened.
pub open spec fn outages(stale: Seq<bool>) -> Seq<AttachEvent>
    decreases stale.len(),
{
    if stale.len() == 0 {
        Seq::empty()
    } else {
        outages(stale.drop_last()) + (if stale.last() {
            seq![AttachEvent::Live, AttachEvent::OpenFailed, AttachEvent::Changed]
        } else {
            seq![AttachEvent::Down, AttachEvent::Changed]
        })
    }
}

/// However many outages an accepted connection waits through before the deadline, it is
/// served once a stream opens.
pub proof fn law_waits_through_outages(stale: Seq<bool>, socks: bool)
    ensures
        attach_run(outages(stale), socks).0 == AttachPhase::Looking,
        attach_run(outages(stale).push(AttachEvent::Live).push(AttachEvent::Opened), socks) == (
            AttachPhase::Done,
            AttachAction::Serve { socks_ok: socks },
        ),
    decreases stale.len(),
{
    let all = outages(stale);
    if stale.len() > 0 {
        let before = outages(stale.drop_last());
        law_waits_through_outages(stale.drop_last(), socks);
        if stale.last() {
            assert(all.drop_last().drop_last().drop_last() =~= before);
            assert(all.drop_last().drop_last().last() == AttachEvent::Live);
            assert(all.drop_last().last() == AttachEvent::OpenFailed);
            assert(attach_run(all.drop_last().drop_last(), socks).0 == AttachPhase::Opening);
            assert(attach_run(all.drop_last(), socks).0 == AttachPhase::Replacing);
        } else {
            assert(all.drop_last().drop_last() =~= before);
            assert(all.drop_last().last() == AttachEvent::Down);
            assert(attach_run(all.drop_last(), socks).0 == AttachPhase::Waiting);
        }
        assert(all.last() == AttachEvent::Changed);
    }
    let live = all.push(AttachEvent::Live);
    let open = live.push(AttachEvent::Opened);
    assert(live.drop_last() =~= all);
    assert(open.drop_last() =~= live);
    assert(attach_run(live, socks).0 == AttachPhase::Opening);
}

/// Snapshot of one active forward for display.
#[derive(Debug)]
pub struct ForwardSnapshot {
    pub spec: ForwardSpec,
    pub local_addr: IpAddr,
    pub local_port: u16,
    pub origin: Origin,
    pub ok_connections: u64,
    pub last_error: Option<String>,
    /// Cumulative bytes client->agent at snapshot time.
    pub bytes_up: u64,
    /// Cumulative bytes agent->client at snapshot time.
    pub bytes_down: u64,
}

impl ForwardSnapshot {
    /// The forward that this is a snapshot of.
    pub open spec fn entry(self) -> Entry {
        Entry {
            spec: self.spec@,
            addr: self.local_addr,
            port: self.local_port as int,
            origin: self.origin,
        }
    }

    /// What is known of its health.
    pub open spec fn health(self) -> Health {
        Health {
            ok: self.ok_connections as int,
            error: opt_text(self.last_error),
            up: self.bytes_up as int,
            down: self.bytes_down as int,
        }
    }

    /// The snapshot of a forward with its health.
    pub fn of(forward: &ActiveForward, health: &ForwardHealth) -> (r: ForwardSnapshot)
        ensures
            r.entry() == forward@,
            r.health() == health@,
    {
        ForwardSnapshot {
            spec: forward.spec.clone(),
            local_addr: forward.local_addr,
            local_port: forward.local_port,
            origin: forward.origin,
            ok_connections: health.ok_connections,
            last_error: clone_opt(&health.last_error),
            bytes_up: health.bytes_up,
            bytes_down: health.bytes_down,
        }
    }
}

impl ForwardSet {
    /// All forwards, ordered by local port, each with the health that the list has
    /// under its port.
    pub fn snapshots(&self, health: &Vec<(u64, ForwardHealth)>) -> (r: Vec<ForwardSnapshot>)
        ensures
            r@.len() == self@.entries.len(),
            forall|i: int|
                0 <= i < r@.len() ==> (#[trigger] r@[i]).entry() == self@.entries[i]
                    && r@[i].health() == health_at(health@, self@.entries[i].port),
    {
        let mut v: Vec<ForwardSnapshot> = Vec::new();
        let mut i: usize = 0;
        while i < self.active.len()
            invariant
                i <= self.active@.len(),
                v@.len() == i,
                forall|j: int|
                    0 <= j < i ==> (#[trigger] v@[j]).entry() == self@.entries[j]
                        && v@[j].health() == health_at(health@, self@.entries[j].port),
            decreases self.active@.len() - i,
        {
            assert(self@.entries[i as int] == self.active@[i as int]@);
            let h: ForwardHealth = find_health(health, self.active[i].local_port as u64);
            v.push(ForwardSnapshot::of(&self.active[i], &h));
            i = i + 1;
        }
        v
    }
}

// ---- more laws ---------------------------------------------------------

/// The fallback ladder starts at the preferred port and goes up in steps of one thousand
/// as long as there is such a port.
pub proof fn law_ladder(preferred: int)
    requires
        0 <= preferred <= 65535,
    ensures
        ladder(preferred).len() > 0,
        ladder(preferred)[0] == preferred,
        forall|i: int|
            0 <= i < ladder(preferred).len() - 1 ==> #[trigger] ladder(preferred)[i + 1]
                == ladder(preferred)[i] + 1000,
        ladder(preferred).last() <= 65535 < ladder(preferred).last() + 1000,
{
}

/// A port that may fall back is looked for on every rung of the ladder that is free, from
/// the bottom up, and last on one that the system picks.
pub proof fn law_every_free_rung_is_tried(set: Forwards, f: Forward)
    requires
        f.local_port_auto,
        1 <= f.local_port <= 65535,
    ensures
        ({
            let plan = bind_plan(set, f);
            &&& plan matches Ok(p)
            &&& p.len() > 0
            &&& p.last() == 0
            &&& forall|k: int|
                0 <= k && f.local_port + 1000 * k <= 65535 && !has_port(
                    set.entries,
                    #[trigger] (f.local_port + 1000 * k),
                ) ==> p.contains(f.local_port + 1000 * k)
            &&& forall|i: int|
                0 <= i < p.len() - 1 ==> !has_port(set.entries, #[trigger] p[i]) && (p[i]
                    - f.local_port) % 1000 == 0
        }),
{
    let l = ladder(f.local_port);
    let free = |p: int| !has_port(set.entries, p);
    let q = l.filter(free);
    let p = q.push(0);
    assert(bind_plan(set, f) == Ok::<Seq<int>, ForwardError>(p));
    broadcast use vstd::seq_lib::group_filter_ensures;

    assert forall|k: int|
        0 <= k && f.local_port + 1000 * k <= 65535 && !has_port(
            set.entries,
            #[trigger] (f.local_port + 1000 * k),
        ) implies p.contains(f.local_port + 1000 * k) by {
        let x = f.local_port + 1000 * k;
        assert(k < l.len()) by (nonlinear_arith)
            requires
                0 <= k,
                f.local_port + 1000 * k <= 65535,
                l.len() == (65535 - f.local_port) / 1000 + 1,
        ;
        assert(l[k] == x);
        assert(free(x));
        lemma_filter_has(l, free, k);
        let m = choose|m: int| 0 <= m < q.len() && q[m] == x;
        assert(p[m] == x);
    }
    assert forall|i: int| 0 <= i < p.len() - 1 implies !has_port(set.entries, #[trigger] p[i]) && (
    p[i] - f.local_port) % 1000 == 0 by {
        assert(p[i] == q[i]);
        assert(free(q[i]));
        lemma_filter_from(l, free, i);
        let m = choose|m: int| 0 <= m < l.len() && l[m] == q[i];
        assert(l[m] == f.local_port + 1000 * m);
        assert((1000 * m) % 1000 == 0) by (nonlinear_arith);
    }
}

proof fn lemma_filter_has(s: Seq<int>, keep: spec_fn(int) -> bool, k: int)
    requires
        0 <= k < s.len(),
        keep(s[k]),
    ensures
        s.filter(keep).contains(s[k]),
    decreases s.len(),
{
    reveal(Seq::filter);
    let t = s.drop_last();
    if k < t.len() {
        assert(t[k] == s[k]);
        lemma_filter_has(t, keep, k);
        let m = choose|m: int| 0 <= m < t.filter(keep).len() && t.filter(keep)[m] == s[k];
        assert(s.filter(keep)[m] == s[k]);
    } else {
        assert(s.filter(keep)[s.filter(keep).len() - 1] == s[k]);
    }
}

proof fn lemma_filter_from(s: Seq<int>, keep: spec_fn(int) -> bool, i: int)
    requires
        0 <= i < s.filter(keep).len(),
    ensures
        s.contains(s.filter(keep)[i]),
    decreases s.len(),
{
    reveal(Seq::filter);
    if s.len() > 0 {
        let t = s.drop_last();
        if i < t.filter(keep).len() {
            lemma_filter_from(t, keep, i);
            let m = choose|m: int| 0 <= m < t.len() && t[m] == t.filter(keep)[i];
            assert(s[m] == s.filter(keep)[i]);
        } else {
            assert(s[s.len() - 1] == s.filter(keep)[i]);
        }
    }
}

/// A port that was asked for is tried alone, and refused where a forward is on it; no
/// port (0) is left to the system.
pub proof fn law_fixed_port_plan(set: Forwards, f: Forward)
    requires
        !f.local_port_auto || f.local_port == 0,
        0 <= f.local_port <= 65535,
    ensures
        f.local_port != 0 && has_port(set.entries, f.local_port) ==> bind_plan(set, f) == Err::<
            Seq<int>,
            ForwardError,
        >(ForwardError::AlreadyForwarded(f.local_port as u16)),
        f.local_port == 0 || !has_port(set.entries, f.local_port) ==> (bind_plan(set, f) matches Ok(
            p,
        ) && p.len() == 1 && p[0] == f.local_port),
{
}

/// The forwards that are bound anew for a new default namespace are those whose spec
/// named none and that are elsewhere, each once, in the order of their ports.
pub proof fn law_who_follows(s: Seq<Entry>, ns: Ns, p: int)
    requires
        ascending(s),
    ensures
        following_ports(s, ns).contains(p) <==> exists|i: int|
            0 <= i < s.len() && (#[trigger] s[i]).port == p && s[i].spec.ns_inherited
                && s[i].spec.ns != ns,
        forall|a: int, b: int|
            0 <= a < b < following_ports(s, ns).len() ==> #[trigger] following_ports(s, ns)[a]
                < #[trigger] following_ports(s, ns)[b],
{
    lemma_following_distinct(s, ns);
    if following_ports(s, ns).contains(p) {
        let k = choose|k: int|
            0 <= k < following_ports(s, ns).len() && following_ports(s, ns)[k] == p;
        assert(has_port(s, following_ports(s, ns)[k]));
        let i = choose|i: int| 0 <= i < s.len() && (#[trigger] s[i]).port == p;
        lemma_on_port(s, i);
        assert(s[i].port == p);
    }
    if exists|i: int|
        0 <= i < s.len() && (#[trigger] s[i]).port == p && s[i].spec.ns_inherited && s[i].spec.ns
            != ns {
        let i = choose|i: int|
            0 <= i < s.len() && (#[trigger] s[i]).port == p && s[i].spec.ns_inherited
                && s[i].spec.ns != ns;
        lemma_on_port(s, i);
        lemma_following_complete(s, ns, p);
    }
}

/// The agent's own namespace is no default, and every other one is.
pub proof fn law_host_is_no_default(ns: Ns)
    ensures
        as_default(None) is None,
        ns is Host ==> as_default(Some(ns)) is None,
        !(ns is Host) ==> as_default(Some(ns)) == Some(ns),
{
}

/// What is known of a forward is what the list has first under its port, and nothing
/// where the list has nothing under it.
pub proof fn law_health_is_its_own(v: Seq<(u64, ForwardHealth)>, key: int)
    ensures
        (forall|i: int| 0 <= i < v.len() ==> (#[trigger] v[i]).0 != key) ==> health_at(v, key) == (
        Health { ok: 0, error: None, up: 0, down: 0 }),
        forall|i: int|
            0 <= i < v.len() && (#[trigger] v[i]).0 == key && (forall|j: int|
                0 <= j < i ==> (#[trigger] v[j]).0 != key) ==> {
                &&& health_at(v, key).ok == v[i].1.ok_connections
                &&& health_at(v, key).error == opt_text(v[i].1.last_error)
                &&& health_at(v, key).up == v[i].1.bytes_up
                &&& health_at(v, key).down == v[i].1.bytes_down
            },
    decreases v.len(),
{
    if v.len() > 0 {
        let t = v.drop_first();
        law_health_is_its_own(t, key);
        if v[0].0 != key {
            if forall|i: int| 0 <= i < v.len() ==> (#[trigger] v[i]).0 != key {
                assert forall|i: int| 0 <= i < t.len() implies (#[trigger] t[i]).0 != key by {
                    assert(t[i] == v[i + 1]);
                }
            }
            assert forall|i: int|
                0 <= i < v.len() && (#[trigger] v[i]).0 == key && (forall|j: int|
                    0 <= j < i ==> (#[trigger] v[j]).0 != key) implies {
                &&& health_at(v, key).ok == v[i].1.ok_connections
                &&& health_at(v, key).error == opt_text(v[i].1.last_error)
                &&& health_at(v, key).up == v[i].1.bytes_up
                &&& health_at(v, key).down == v[i].1.bytes_down
            } by {
                assert(t[i - 1] == v[i]);
                assert forall|j: int| 0 <= j < i - 1 implies (#[trigger] t[j]).0 != key by {
                    assert(t[j] == v[j + 1]);
                }
            }
        }
    }
}

/// How many of the first `n` forwards moved.
pub open spec fn moved_among(outs: Seq<Rebind>, n: nat) -> int
    decreases n,
{
    if n == 0 {
        0
    } else if outs[n - 1] is Moved {
        moved_among(outs, (n - 1) as nat) + 1
    } else {
        moved_among(outs, (n - 1) as nat)
    }
}

/// What is reported adds up: the forwards that moved are counted, and there is a message
/// for each that did not.
pub proof fn law_report_adds_up(ports: Seq<int>, outs: Seq<Rebind>, n: nat)
    requires
        n <= outs.len(),
        outs.len() == ports.len(),
    ensures
        rebind_report(ports, outs, n).0 == moved_among(outs, n),
        rebind_report(ports, outs, n).0 + rebind_report(ports, outs, n).1.len() == n,
    decreases n,
{
    if n > 0 {
        law_report_adds_up(ports, outs, (n - 1) as nat);
    }
}

/// A forward that could not move stays what it was, on the port where it is bound again;
/// one that was lost is gone; and no other forward is touched by either.
pub proof fn law_not_moved(m: Map<int, Entry>, port: int, out: Rebind, ns: Ns, other: int)
    requires
        m.contains_key(port),
        other != port,
    ensures
        out matches Rebind::Kept { addr, port: p, error } ==> ({
            let after = rebound(m, port, out, ns);
            &&& after.contains_key(p as int)
            &&& after[p as int].spec.ns == m[port].spec.ns
            &&& after[p as int].spec.remote_host == m[port].spec.remote_host
            &&& after[p as int].spec.remote_port == m[port].spec.remote_port
            &&& after[p as int].origin == m[port].origin
            &&& other != p ==> after.contains_key(other) == m.contains_key(other)
            &&& other != p && m.contains_key(other) ==> after[other] == m[other]
        }),
        out is Lost ==> ({
            let after = rebound(m, port, out, ns);
            &&& !after.contains_key(port)
            &&& after.contains_key(other) == m.contains_key(other)
            &&& m.contains_key(other) ==> after[other] == m[other]
        }),
        out matches Rebind::Moved { addr, port: p } ==> ({
            let after = rebound(m, port, out, ns);
            &&& after.contains_key(p as int)
            &&& after[p as int].spec.ns == ns
            &&& after[p as int].spec.ns_inherited == m[port].spec.ns_inherited
            &&& after[p as int].spec.remote_host == m[port].spec.remote_host
            &&& after[p as int].spec.remote_port == m[port].spec.remote_port
            &&& after[p as int].origin == m[port].origin
            &&& after[p as int].addr == addr
            &&& other != p ==> after.contains_key(other) == m.contains_key(other)
            &&& other != p && m.contains_key(other) ==> after[other] == m[other]
        }),
{
}

/// A snapshot holds the forward that it is of and its counters, each in its place.
pub proof fn law_snapshot(s: ForwardSnapshot)
    ensures
        s.entry().spec == s.spec@,
        s.entry().addr == s.local_addr,
        s.entry().port == s.local_port,
        s.entry().origin == s.origin,
        s.health().ok == s.ok_connections,
        s.health().up == s.bytes_up,
        s.health().down == s.bytes_down,
        s.last_error matches Some(e) ==> s.health().error == Some(e@),
        s.last_error is None ==> s.health().error is None,
{
}

} // verus!
