//! Reverse port forwarding.
//!
//! Data flows opposite to a normal forward: the **agent** binds a listener on the
//! remote host, and each connection accepted there is carried back to the
//! **client**, which dials a local target. Reverse forwarding needs the QUIC
//! transport: the SSH tunnel carries only streams that the client opens.

use crate::client::{
    clone_opt, find_health, opt_text, string_texts, ForwardHealth, Health, Origin,
};
use crate::error::{SpecError, SpecFault};
use crate::forward::{debug_str, Reverse, ReverseSpec};
use crate::net::IpAddr;
use crate::text::{dec, parse_unsigned, str_eq, trim};
use vstd::prelude::*;

verus! {

/// Reserved stream-header host marking a reverse-registration stream.
pub const REVERSE_HOST: &'static str = "@reverse";

/// Per-spec result the agent reports back after attempting the remote bind.
#[derive(Debug)]
pub struct BindResult {
    /// The spec as the client sent it.
    pub spec: String,
    /// Whether the remote listener bound successfully.
    pub ok: bool,
    /// Failure cause when `ok` is false.
    pub error: Option<String>,
}

/// What the agent makes of one requested spec: something to bind, or what is wrong
/// with it.
pub open spec fn bindable(raw: Seq<char>) -> Result<Reverse, Seq<char>> {
    match crate::forward::reverse_of(raw) {
        Err(e) => Err("bad reverse spec: "@ + e.text()),
        Ok(r) => if r.ns is Host {
            Ok(r)
        } else {
            Err(
                "reverse forwarding inside a namespace ("@ + r.ns.wire()
                    + ") is not supported yet"@,
            )
        },
    }
}

/// What the agent makes of one requested spec. Listeners are bound in the agent's
/// own namespace only.
pub fn plan_bind(raw: &str) -> (r: Result<ReverseSpec, String>)
    ensures
        match r {
            Ok(s) => bindable(raw@) == Ok::<Reverse, Seq<char>>(s@),
            Err(e) => bindable(raw@) == Err::<Reverse, Seq<char>>(e@),
        },
{
    match ReverseSpec::parse(raw) {
        Err(e) => Err(String::from_str("bad reverse spec: ").concat(e.message().as_str())),
        Ok(s) => {
            if s.ns.is_host() {
                Ok(s)
            } else {
                Err(
                    String::from_str("reverse forwarding inside a namespace (").concat(
                        s.ns.to_wire().as_str(),
                    ).concat(") is not supported yet"),
                )
            }
        },
    }
}

/// What the agent reports of one requested spec, once binding it was tried.
pub fn bind_result(raw: &str, outcome: Result<(), String>) -> (r: BindResult)
    ensures
        r.spec@ == raw@,
        r.ok == (outcome is Ok),
        opt_text(r.error) == (match outcome {
            Ok(_) => None,
            Err(e) => Some(e@),
        }),
{
    match outcome {
        Ok(_) => BindResult { spec: raw.to_owned(), ok: true, error: None },
        Err(e) => BindResult { spec: raw.to_owned(), ok: false, error: Some(e) },
    }
}

// ---- the registration line ---------------------------------------------

/// The JSON text of a list of strings.
pub uninterp spec fn json_of(items: Seq<Seq<char>>) -> Seq<char>;

/// `serde_json::to_string` on a list of strings: its JSON array, which depends on the
/// strings alone, stands between brackets, and can always be written.
#[verifier::external_body]
fn to_json(items: &Vec<String>) -> (r: Result<String, String>)
    ensures
        r is Ok,
        r->Ok_0@ == json_of(string_texts(items@)),
        r->Ok_0@.len() >= 2,
        r->Ok_0@[0] == '[',
        r->Ok_0@.last() == ']',
{
    serde_json::to_string(items).map_err(|e| e.to_string())
}

/// The strings of the JSON array that a text is, or what is wrong with the text.
pub uninterp spec fn json_items(text: Seq<char>) -> Result<Seq<Seq<char>>, Seq<char>>;

/// `serde_json::from_str` into a list of strings: what it gives, or the message of its
/// error, depends on the text alone, and what [`to_json`] wrote is read back.
#[verifier::external_body]
fn from_json(text: &str) -> (r: Result<Vec<String>, String>)
    ensures
        match r {
            Ok(v) => json_items(text@) == Ok::<Seq<Seq<char>>, Seq<char>>(string_texts(v@)),
            Err(e) => json_items(text@) == Err::<Seq<Seq<char>>, Seq<char>>(e@),
        },
        forall|v: Seq<Seq<char>>|
            text@ == #[trigger] json_of(v) ==> r is Ok && string_texts(r->Ok_0@) == v,
{
    serde_json::from_str(text).map_err(|e| e.to_string())
}

/// The line with which the client registers its reverse forwards: a JSON array of
/// their specs.
pub fn registration_line(specs: &Vec<String>) -> (r: String)
    ensures
        r@ == json_of(string_texts(specs@)) + "\n"@,
        crate::text::trimmed(r@) == json_of(string_texts(specs@)),
{
    let text: String = to_json(specs).unwrap();
    let line: String = text.concat("\n");
    proof {
        reveal_strlit("\n");
        let t = text@;
        assert(!crate::text::is_white('['));
        assert(!crate::text::is_white(']'));
        assert(crate::text::is_white('\n'));
        assert(line@.drop_last() =~= t);
        reveal_with_fuel(crate::text::trimmed_end, 2);
    }
    line
}

/// The specs that a registration line asks for, or what is wrong with it. The line
/// that [`registration_line`] makes of a list is read as that list.
pub fn read_registration(line: &str) -> (r: Result<Vec<String>, String>)
    ensures
        match r {
            Ok(v) => json_items(crate::text::trimmed(line@)) == Ok::<Seq<Seq<char>>, Seq<char>>(
                string_texts(v@),
            ),
            Err(e) => json_items(crate::text::trimmed(line@)) matches Err(m) && e@
                == "decoding reverse registration: "@ + m,
        },
        forall|v: Seq<Seq<char>>|
            crate::text::trimmed(line@) == #[trigger] json_of(v) ==> (r matches Ok(s)
                && string_texts(s@) == v),
{
    match from_json(trim(line)) {
        Ok(v) => Ok(v),
        Err(e) => Err(String::from_str("decoding reverse registration: ").concat(e.as_str())),
    }
}

// ---- the set -----------------------------------------------------------

/// One reverse forward of a session.
#[derive(Debug)]
pub struct ReverseEntry {
    pub spec: ReverseSpec,
    pub origin: Origin,
    /// Tells this entry from every other that the session ever had.
    pub id: u64,
}

/// The model of a [`ReverseEntry`].
#[verifier::ext_equal]
pub struct RevEntry {
    pub spec: Reverse,
    pub origin: Origin,
    pub id: u64,
}

impl View for ReverseEntry {
    type V = RevEntry;

    open spec fn view(&self) -> RevEntry {
        RevEntry { spec: self.spec@, origin: self.origin, id: self.id }
    }
}

impl Clone for ReverseEntry {
    fn clone(&self) -> (r: Self)
        ensures
            r@ == self@,
    {
        ReverseEntry { spec: self.spec.clone(), origin: self.origin, id: self.id }
    }
}

/// The models of a list of reverse forwards.
pub open spec fn rev_entries(v: Seq<ReverseEntry>) -> Seq<RevEntry> {
    v.map_values(|e: ReverseEntry| e@)
}

/// The model of a [`ReverseSet`]: its entries in the order they were added, and how
/// often it has changed.
#[verifier::ext_equal]
pub struct Reverses {
    pub entries: Seq<RevEntry>,
    pub version: u64,
}

impl Reverses {
    /// No two entries are on the same remote endpoint, and none has an id that is
    /// still to be given.
    pub open spec fn wf(self) -> bool {
        &&& forall|i: int, j: int|
            0 <= i < j < self.entries.len() ==> (#[trigger] self.entries[i]).spec.key() != (
            #[trigger] self.entries[j]).spec.key()
        &&& forall|i: int|
            0 <= i < self.entries.len() ==> (#[trigger] self.entries[i]).id < self.version
    }

    /// Some entry is on this remote endpoint.
    pub open spec fn has_key(self, key: (Seq<char>, IpAddr, int)) -> bool {
        exists|i: int| 0 <= i < self.entries.len() && (#[trigger] self.entries[i]).spec.key() == key
    }
}

/// The reverse forwards of a session. It binds nothing itself: it records what is
/// wanted, and a version by which a change is noticed.
#[derive(Debug)]
pub struct ReverseSet {
    entries: Vec<ReverseEntry>,
    version: u64,
}

impl View for ReverseSet {
    type V = Reverses;

    closed spec fn view(&self) -> Reverses {
        Reverses { entries: rev_entries(self.entries@), version: self.version }
    }
}

/// What can go wrong with the reverse forwards.
#[derive(Debug, PartialEq, Eq)]
pub enum ReverseError {
    /// There is one on this remote endpoint already.
    Exists(IpAddr, u16),
    /// What was given to remove is no spec.
    BadSpec(SpecError),
    /// None matches this text.
    NoMatch(String),
}

/// The model of a [`ReverseError`].
#[verifier::ext_equal]
pub enum ReverseFault {
    Exists(IpAddr, int),
    BadSpec(SpecFault),
    NoMatch(Seq<char>),
}

impl View for ReverseError {
    type V = ReverseFault;

    open spec fn view(&self) -> ReverseFault {
        match self {
            ReverseError::Exists(a, p) => ReverseFault::Exists(*a, *p as int),
            ReverseError::BadSpec(e) => ReverseFault::BadSpec(e@),
            ReverseError::NoMatch(s) => ReverseFault::NoMatch(s@),
        }
    }
}

impl ReverseFault {
    /// The message for this error.
    pub open spec fn text(self) -> Seq<char> {
        match self {
            ReverseFault::Exists(a, p) => "reverse forward on remote "@ + a.text() + ":"@
                + crate::text::decimal(p) + " already exists"@,
            ReverseFault::BadSpec(e) => e.text(),
            ReverseFault::NoMatch(s) => "no reverse forward matching "@
                + crate::forward::debug_text(s),
        }
    }
}

impl ReverseError {
    /// The message for this error.
    pub fn message(&self) -> (r: String)
        ensures
            r@ == self@.text(),
    {
        match self {
            ReverseError::Exists(a, p) => String::from_str("reverse forward on remote ").concat(
                a.to_text().as_str(),
            ).concat(":").concat(dec(*p as u64).as_str()).concat(" already exists"),
            ReverseError::BadSpec(e) => e.message(),
            ReverseError::NoMatch(s) => String::from_str("no reverse forward matching ").concat(
                debug_str(s.as_str()).as_str(),
            ),
        }
    }
}

/// What is to be removed: a remote port, or a remote endpoint.
pub enum RemoveTarget {
    Port(int),
    Key((Seq<char>, IpAddr, int)),
    Bad(SpecFault),
}

/// What a text given to remove stands for: a bare number is a remote port, anything
/// else a spec.
pub open spec fn remove_target(spec: Seq<char>) -> RemoveTarget {
    match crate::text::unsigned_value(crate::text::trimmed(spec), 65535) {
        Ok(p) => RemoveTarget::Port(p),
        Err(_) => match crate::forward::reverse_of(spec) {
            Ok(r) => RemoveTarget::Key(r.key()),
            Err(e) => RemoveTarget::Bad(e),
        },
    }
}

/// The entry is what is to be removed.
pub open spec fn is_target(e: RevEntry, t: RemoveTarget) -> bool {
    match t {
        RemoveTarget::Port(p) => e.spec.remote_bind_port == p,
        RemoveTarget::Key(k) => e.spec.key() == k,
        RemoveTarget::Bad(_) => false,
    }
}

/// The entry at `i` is the first that is to be removed.
pub open spec fn first_target(s: Seq<RevEntry>, t: RemoveTarget, i: int) -> bool {
    &&& 0 <= i < s.len()
    &&& is_target(s[i], t)
    &&& forall|j: int| 0 <= j < i ==> !is_target(#[trigger] s[j], t)
}

/// Puts `e` behind all entries with a remote port not above its own.
pub open spec fn inserted_by_port(s: Seq<RevEntry>, e: RevEntry) -> Seq<RevEntry>
    decreases s.len(),
{
    if s.len() == 0 || s.last().spec.remote_bind_port <= e.spec.remote_bind_port {
        s.push(e)
    } else {
        inserted_by_port(s.drop_last(), e).push(s.last())
    }
}

/// The entries ordered by remote port; those on the same port stay in their order.
pub open spec fn sorted_by_port(s: Seq<RevEntry>) -> Seq<RevEntry>
    decreases s.len(),
{
    if s.len() == 0 {
        s
    } else {
        inserted_by_port(sorted_by_port(s.drop_last()), s.last())
    }
}

/// What the agent reported of an entry: bound, or why not.
#[derive(Debug)]
pub struct HealthUpdate {
    pub id: u64,
    pub last_error: Option<String>,
}

/// The failure that a report stands for.
pub open spec fn reported_error(r: BindResult) -> Option<Seq<char>> {
    if r.ok {
        None
    } else {
        match r.error {
            Some(e) => Some(e@),
            None => Some("remote bind failed"@),
        }
    }
}

/// What the reports mean for the entries: each report that is about an entry gives
/// the entry's last failure.
pub open spec fn health_updates(s: Seq<RevEntry>, results: Seq<BindResult>) -> Seq<
    (u64, Option<Seq<char>>),
>
    decreases results.len(),
{
    if results.len() == 0 {
        Seq::empty()
    } else {
        let u = health_updates(s, results.drop_last());
        let r = results.last();
        match crate::forward::reverse_of(r.spec@) {
            Err(_) => u,
            Ok(p) => {
                let t = RemoveTarget::Key(p.key());
                if exists|i: int| first_target(s, t, i) {
                    u.push(
                        (
                            s[choose|i: int| first_target(s, t, i)].id,
                            reported_error(r),
                        ),
                    )
                } else {
                    u
                }
            },
        }
    }
}

/// The models of a list of updates.
pub open spec fn updates_of(v: Seq<HealthUpdate>) -> Seq<(u64, Option<Seq<char>>)> {
    v.map_values(|u: HealthUpdate| (u.id, opt_text(u.last_error)))
}

fn same_key(a: &ReverseSpec, b: &ReverseSpec) -> (r: bool)
    ensures
        r == (a@.key() == b@.key()),
{
    a.remote_bind_port == b.remote_bind_port && a.remote_bind_addr == b.remote_bind_addr && str_eq(
        a.ns.to_wire().as_str(),
        b.ns.to_wire().as_str(),
    )
}

impl ReverseSet {
    /// No reverse forwards.
    pub fn new() -> (r: ReverseSet)
        ensures
            r@.wf(),
            r@ == (Reverses { entries: Seq::empty(), version: 0 }),
    {
        let r = ReverseSet { entries: Vec::new(), version: 0 };
        proof {
            assert(rev_entries(r.entries@) =~= Seq::<RevEntry>::empty());
        }
        r
    }

    /// How often the set has changed.
    pub fn version(&self) -> (r: u64)
        ensures
            r == self@.version,
    {
        self.version
    }

    fn find_key(&self, spec: &ReverseSpec) -> (r: Option<usize>)
        ensures
            match r {
                Some(i) => first_target(
                    self@.entries,
                    RemoveTarget::Key(spec@.key()),
                    i as int,
                ),
                None => !self@.has_key(spec@.key()),
            },
    {
        let mut i: usize = 0;
        while i < self.entries.len()
            invariant
                i <= self.entries@.len(),
                forall|j: int|
                    0 <= j < i ==> (#[trigger] self@.entries[j]).spec.key() != spec@.key(),
            decreases self.entries@.len() - i,
        {
            assert(self@.entries[i as int] == self.entries@[i as int]@);
            if same_key(&self.entries[i].spec, spec) {
                return Some(i);
            }
            i = i + 1;
        }
        None
    }

    /// Adds a reverse forward, unless there is one on its remote endpoint. Gives the
    /// id of the new entry.
    pub fn add(&mut self, spec: ReverseSpec, origin: Origin) -> (r: Result<u64, ReverseError>)
        requires
            old(self)@.wf(),
            old(self)@.version < u64::MAX,
        ensures
            final(self)@.wf(),
            match r {
                Ok(id) => {
                    &&& !old(self)@.has_key(spec@.key())
                    &&& id == old(self)@.version
                    &&& final(self)@ == (Reverses {
                        entries: old(self)@.entries.push(RevEntry { spec: spec@, origin, id }),
                        version: (old(self)@.version + 1) as u64,
                    })
                },
                Err(e) => {
                    &&& old(self)@.has_key(spec@.key())
                    &&& e@ == ReverseFault::Exists(
                        spec@.remote_bind_addr,
                        spec@.remote_bind_port,
                    )
                    &&& final(self)@ == old(self)@
                },
            },
    {
        if let Some(i) = self.find_key(&spec) {
            assert(self@.entries[i as int].spec.key() == spec@.key());
            return Err(ReverseError::Exists(spec.remote_bind_addr, spec.remote_bind_port));
        }
        let id: u64 = self.version;
        let ghost before = self@.entries;
        let e = ReverseEntry { spec, origin, id };
        let ghost m = e@;
        self.entries.push(e);
        self.version = self.version + 1;
        proof {
            assert(rev_entries(self.entries@) =~= before.push(m));
        }
        Ok(id)
    }

    /// Takes out a reverse forward, by its remote port or by a spec with its remote
    /// endpoint.
    pub fn remove(&mut self, spec: &str) -> (r: Result<ReverseSpec, ReverseError>)
        requires
            old(self)@.wf(),
            old(self)@.version < u64::MAX,
        ensures
            final(self)@.wf(),
            match r {
                Ok(s) => exists|i: int| #[trigger]
                    first_target(old(self)@.entries, remove_target(spec@), i) && s@ == old(
                        self,
                    )@.entries[i].spec && final(self)@ == (Reverses {
                        entries: old(self)@.entries.remove(i),
                        version: (old(self)@.version + 1) as u64,
                    }),
                Err(e) => {
                    &&& final(self)@ == old(self)@
                    &&& forall|i: int| !first_target(old(self)@.entries, remove_target(spec@), i)
                    &&& e@ == (match remove_target(spec@) {
                        RemoveTarget::Bad(f) => ReverseFault::BadSpec(f),
                        _ => ReverseFault::NoMatch(spec@),
                    })
                },
            },
    {
        let found: Option<usize> = match parse_unsigned(trim(spec), 65535) {
            Ok(p) => self.find_port(p as u16),
            Err(_) => match ReverseSpec::parse(spec) {
                Err(e) => {
                    return Err(ReverseError::BadSpec(e));
                },
                Ok(parsed) => {
                    let f = self.find_key(&parsed);
                    proof {
                        if f is None {
                            assert forall|i: int| !first_target(
                                self@.entries,
                                RemoveTarget::Key(parsed@.key()),
                                i,
                            ) by {
                                if first_target(
                                    self@.entries,
                                    RemoveTarget::Key(parsed@.key()),
                                    i,
                                ) {
                                    assert(self@.entries[i].spec.key() == parsed@.key());
                                }
                            }
                        }
                    }
                    f
                },
            },
        };
        match found {
            None => Err(ReverseError::NoMatch(spec.to_owned())),
            Some(i) => {
                let ghost before = self@.entries;
                proof {
                    assert(before[i as int] == self.entries@[i as int]@);
                }
                let e = self.entries.remove(i);
                self.version = self.version + 1;
                proof {
                    let after = before.remove(i as int);
                    assert(rev_entries(self.entries@) =~= after);
                    assert(first_target(before, remove_target(spec@), i as int));
                    assert forall|a: int, b: int| 0 <= a < b < after.len() implies (
                    #[trigger] after[a]).spec.key() != (#[trigger] after[b]).spec.key() by {
                        let x = if a < i { a } else { a + 1 };
                        let y = if b < i { b } else { b + 1 };
                        assert(before[x].spec.key() != before[y].spec.key());
                    }
                    assert forall|a: int| 0 <= a < after.len() implies (#[trigger] after[a]).id
                        < self.version by {
                        let x = if a < i { a } else { a + 1 };
                        assert(before[x].id < old(self)@.version);
                    }
                }
                Ok(e.spec)
            },
        }
    }

    fn find_port(&self, port: u16) -> (r: Option<usize>)
        ensures
            match r {
                Some(i) => first_target(
                    self@.entries,
                    RemoveTarget::Port(port as int),
                    i as int,
                ),
                None => forall|i: int|
                    !first_target(self@.entries, RemoveTarget::Port(port as int), i),
            },
    {
        let mut i: usize = 0;
        while i < self.entries.len()
            invariant
                i <= self.entries@.len(),
                forall|j: int|
                    0 <= j < i ==> !is_target(
                        #[trigger] self@.entries[j],
                        RemoveTarget::Port(port as int),
                    ),
            decreases self.entries@.len() - i,
        {
            assert(self@.entries[i as int] == self.entries@[i as int]@);
            if self.entries[i].spec.remote_bind_port == port {
                return Some(i);
            }
            i = i + 1;
        }
        None
    }

    /// Takes out every reverse forward, and says how many there were. Where there
    /// were none, nothing has changed.
    pub fn clear(&mut self) -> (r: usize)
        requires
            old(self)@.wf(),
            old(self)@.version < u64::MAX,
        ensures
            r == old(self)@.entries.len(),
            final(self)@.wf(),
            final(self)@ == (if r == 0 {
                old(self)@
            } else {
                Reverses { entries: Seq::empty(), version: (old(self)@.version + 1) as u64 }
            }),
    {
        let n: usize = self.entries.len();
        self.entries.clear();
        proof {
            assert(rev_entries(self.entries@) =~= Seq::<RevEntry>::empty());
        }
        if n > 0 {
            self.version = self.version + 1;
        } else {
            proof {
                assert(old(self)@.entries =~= Seq::<RevEntry>::empty());
            }
        }
        n
    }

    /// The specs to register with the agent, in their order, as texts, and the
    /// version that they reflect.
    pub fn registration(&self) -> (r: (Vec<String>, u64))
        ensures
            r.1 == self@.version,
            crate::client::string_texts(r.0@) == self@.entries.map_values(
                |e: RevEntry| e.spec.rendered(),
            ),
    {
        let ghost want = self@.entries.map_values(|e: RevEntry| e.spec.rendered());
        let mut v: Vec<String> = Vec::new();
        let mut i: usize = 0;
        while i < self.entries.len()
            invariant
                i <= self.entries@.len(),
                want == self@.entries.map_values(|e: RevEntry| e.spec.rendered()),
                crate::client::string_texts(v@) == want.take(i as int),
            decreases self.entries@.len() - i,
        {
            let ghost before = crate::client::string_texts(v@);
            assert(self@.entries[i as int] == self.entries@[i as int]@);
            v.push(self.entries[i].spec.to_spec_string());
            proof {
                assert(crate::client::string_texts(v@) =~= before.push(want[i as int]));
                assert(want.take(i + 1) =~= before.push(want[i as int]));
            }
            i = i + 1;
        }
        proof {
            assert(want.take(i as int) =~= want);
        }
        (v, self.version)
    }

    /// The entry that a stream to `host:port` belongs to: the first with this local
    /// target.
    pub fn health_for(&self, host: &str, port: u16) -> (r: Option<u64>)
        ensures
            match r {
                Some(id) => exists|i: int|
                    0 <= i < self@.entries.len() && (#[trigger] self@.entries[i]).id == id
                        && self@.entries[i].spec.local_host == host@
                        && self@.entries[i].spec.local_port == port && forall|j: int|
                        0 <= j < i ==> !((#[trigger] self@.entries[j]).spec.local_host == host@
                            && self@.entries[j].spec.local_port == port),
                None => forall|j: int|
                    0 <= j < self@.entries.len() ==> !((
                    #[trigger] self@.entries[j]).spec.local_host == host@
                        && self@.entries[j].spec.local_port == port),
            },
    {
        let mut i: usize = 0;
        while i < self.entries.len()
            invariant
                i <= self.entries@.len(),
                forall|j: int|
                    0 <= j < i ==> !((#[trigger] self@.entries[j]).spec.local_host == host@
                        && self@.entries[j].spec.local_port == port),
            decreases self.entries@.len() - i,
        {
            assert(self@.entries[i as int] == self.entries@[i as int]@);
            if self.entries[i].spec.local_port == port && str_eq(
                self.entries[i].spec.local_host.as_str(),
                host,
            ) {
                return Some(self.entries[i].id);
            }
            i = i + 1;
        }
        None
    }

    /// What the agent's reports mean for the entries.
    pub fn apply_results(&self, results: &Vec<BindResult>) -> (r: Vec<HealthUpdate>)
        ensures
            updates_of(r@) == health_updates(self@.entries, results@),
    {
        let ghost s = self@.entries;
        let mut v: Vec<HealthUpdate> = Vec::new();
        let mut i: usize = 0;
        proof {
            assert(results@.take(0) =~= Seq::<BindResult>::empty());
            assert(updates_of(v@) =~= Seq::<(u64, Option<Seq<char>>)>::empty());
        }
        while i < results.len()
            invariant
                i <= results@.len(),
                s == self@.entries,
                updates_of(v@) == health_updates(s, results@.take(i as int)),
            decreases results@.len() - i,
        {
            let ghost before = updates_of(v@);
            proof {
                assert(results@.take(i + 1).drop_last() =~= results@.take(i as int));
                assert(results@.take(i + 1).last() == results@[i as int]);
            }
            match ReverseSpec::parse(results[i].spec.as_str()) {
                Err(_) => {},
                Ok(parsed) => {
                    let ghost t = RemoveTarget::Key(parsed@.key());
                    match self.find_key(&parsed) {
                        None => {
                            proof {
                                assert forall|k: int| !first_target(s, t, k) by {
                                    if first_target(s, t, k) {
                                        assert(s[k].spec.key() == parsed@.key());
                                    }
                                }
                            }
                        },
                        Some(k) => {
                            let last_error: Option<String> = if results[i].ok {
                                None
                            } else {
                                match &results[i].error {
                                    Some(e) => Some(e.clone()),
                                    None => Some("remote bind failed".to_owned()),
                                }
                            };
                            let u = HealthUpdate { id: self.entries[k].id, last_error };
                            let ghost pair = (u.id, opt_text(u.last_error));
                            v.push(u);
                            proof {
                                assert(s[k as int] == self.entries@[k as int]@);
                                assert(first_target(s, t, k as int));
                                let c = choose|c: int| first_target(s, t, c);
                                assert(first_target(s, t, c));
                                assert(c == k);
                                assert(updates_of(v@) =~= before.push(pair));
                            }
                        },
                    }
                },
            }
            i = i + 1;
        }
        proof {
            assert(results@.take(i as int) =~= results@);
        }
        v
    }

    /// All reverse forwards, ordered by remote port.
    pub fn list(&self) -> (r: Vec<ReverseEntry>)
        ensures
            rev_entries(r@) == sorted_by_port(self@.entries),
    {
        let ghost s = self@.entries;
        let mut v: Vec<ReverseEntry> = Vec::new();
        let mut i: usize = 0;
        proof {
            assert(s.take(0) =~= Seq::<RevEntry>::empty());
            assert(rev_entries(v@) =~= Seq::<RevEntry>::empty());
        }
        while i < self.entries.len()
            invariant
                i <= self.entries@.len(),
                s == self@.entries,
                rev_entries(v@) == sorted_by_port(s.take(i as int)),
            decreases self.entries@.len() - i,
        {
            proof {
                assert(s.take(i + 1).drop_last() =~= s.take(i as int));
                assert(s.take(i + 1).last() == self.entries@[i as int]@);
            }
            insert_by_port(&mut v, self.entries[i].clone());
            i = i + 1;
        }
        proof {
            assert(s.take(i as int) =~= s);
        }
        v
    }

    /// Whether there are no reverse forwards.
    pub fn is_empty(&self) -> (r: bool)
        ensures
            r == (self@.entries.len() == 0),
    {
        self.entries.len() == 0
    }
}

impl Default for ReverseSet {
    fn default() -> (r: Self)
        ensures
            r@.wf(),
            r@ == (Reverses { entries: Seq::empty(), version: 0 }),
    {
        ReverseSet::new()
    }
}

fn insert_by_port(v: &mut Vec<ReverseEntry>, e: ReverseEntry)
    ensures
        rev_entries(final(v)@) == inserted_by_port(rev_entries(old(v)@), e@),
{
    let ghost s = rev_entries(v@);
    let ghost m = e@;
    let mut i: usize = v.len();
    proof {
        assert(s.take(i as int) =~= s);
        assert(s.skip(i as int) =~= Seq::<RevEntry>::empty());
        assert(inserted_by_port(s.take(i as int), m) + s.skip(i as int) =~= inserted_by_port(s, m));
    }
    while i > 0 && v[i - 1].spec.remote_bind_port > e.spec.remote_bind_port
        invariant
            i <= v@.len(),
            m == e@,
            s == rev_entries(v@),
            v@ == old(v)@,
            inserted_by_port(s.take(i as int), m) + s.skip(i as int) == inserted_by_port(s, m),
        decreases i,
    {
        proof {
            let t = s.take(i as int);
            assert(t.last() == v@[i - 1]@);
            assert(t.drop_last() =~= s.take(i - 1));
            assert(inserted_by_port(t, m) == inserted_by_port(s.take(i - 1), m).push(t.last()));
            assert(inserted_by_port(s.take(i - 1), m) + s.skip(i - 1) =~= inserted_by_port(t, m)
                + s.skip(i as int));
        }
        i = i - 1;
    }
    proof {
        let t = s.take(i as int);
        if i > 0 {
            assert(t.last() == v@[i - 1]@);
        }
        assert(inserted_by_port(t, m) == t.push(m));
        assert(s.insert(i as int, m) =~= t.push(m) + s.skip(i as int));
    }
    v.insert(i, e);
    proof {
        assert(rev_entries(v@) =~= s.insert(i as int, m));
    }
}

/// Snapshot of one reverse forward for display.
#[derive(Debug)]
pub struct ReverseSnapshot {
    pub spec: ReverseSpec,
    pub origin: Origin,
    pub ok_connections: u64,
    pub last_error: Option<String>,
    pub bytes_up: u64,
    pub bytes_down: u64,
}

impl ReverseSnapshot {
    /// What is known of its health.
    pub open spec fn health(self) -> Health {
        Health {
            ok: self.ok_connections as int,
            error: opt_text(self.last_error),
            up: self.bytes_up as int,
            down: self.bytes_down as int,
        }
    }

    /// The snapshot of a reverse forward with its health.
    pub fn of(entry: &ReverseEntry, health: &ForwardHealth) -> (r: ReverseSnapshot)
        ensures
            r.spec@ == entry@.spec,
            r.origin == entry.origin,
            r.health() == health@,
    {
        ReverseSnapshot {
            spec: entry.spec.clone(),
            origin: entry.origin,
            ok_connections: health.ok_connections,
            last_error: clone_opt(&health.last_error),
            bytes_up: health.bytes_up,
            bytes_down: health.bytes_down,
        }
    }
}

impl ReverseSet {
    /// All reverse forwards, ordered by remote port, each with the health that the
    /// list has under its id.
    pub fn snapshots(&self, health: &Vec<(u64, ForwardHealth)>) -> (r: Vec<ReverseSnapshot>)
        ensures
            r@.len() == self@.entries.len(),
            r@.len() == sorted_by_port(self@.entries).len(),
            forall|i: int|
                0 <= i < r@.len() ==> (#[trigger] r@[i]).spec@ == sorted_by_port(
                    self@.entries,
                )[i].spec && r@[i].origin == sorted_by_port(self@.entries)[i].origin
                    && r@[i].health() == crate::client::health_at(
                    health@,
                    sorted_by_port(self@.entries)[i].id as int,
                ),
    {
        let list: Vec<ReverseEntry> = self.list();
        let ghost s = sorted_by_port(self@.entries);
        proof {
            lemma_sorted_len(self@.entries);
        }
        let mut v: Vec<ReverseSnapshot> = Vec::new();
        let mut i: usize = 0;
        while i < list.len()
            invariant
                i <= list@.len(),
                v@.len() == i,
                rev_entries(list@) == s,
                forall|j: int|
                    0 <= j < i ==> (#[trigger] v@[j]).spec@ == s[j].spec && v@[j].origin
                        == s[j].origin && v@[j].health() == crate::client::health_at(health@, s[j].id as int),
            decreases list@.len() - i,
        {
            assert(s[i as int] == list@[i as int]@);
            let h: ForwardHealth = find_health(health, list[i].id);
            v.push(ReverseSnapshot::of(&list[i], &h));
            i = i + 1;
        }
        v
    }
}

/// Sorting keeps the number of entries.
pub proof fn lemma_sorted_len(s: Seq<RevEntry>)
    ensures
        sorted_by_port(s).len() == s.len(),
    decreases s.len(),
{
    if s.len() > 0 {
        lemma_sorted_len(s.drop_last());
        lemma_inserted_len(sorted_by_port(s.drop_last()), s.last());
    }
}

proof fn lemma_inserted_len(s: Seq<RevEntry>, e: RevEntry)
    ensures
        inserted_by_port(s, e).len() == s.len() + 1,
    decreases s.len(),
{
    if s.len() > 0 {
        lemma_inserted_len(s.drop_last(), e);
    }
}

// ---- laws --------------------------------------------------------------

/// The list is in the order of the remote ports and holds every entry once.
pub proof fn law_list_sorted(s: Seq<RevEntry>)
    ensures
        forall|i: int, j: int|
            0 <= i < j < sorted_by_port(s).len() ==> (
            #[trigger] sorted_by_port(s)[i]).spec.remote_bind_port <= (
            #[trigger] sorted_by_port(s)[j]).spec.remote_bind_port,
        sorted_by_port(s).to_multiset() == s.to_multiset(),
    decreases s.len(),
{
    broadcast use vstd::seq_lib::group_to_multiset_ensures;

    if s.len() > 0 {
        let t = sorted_by_port(s.drop_last());
        law_list_sorted(s.drop_last());
        lemma_inserted(t, s.last());
        assert(s =~= s.drop_last().push(s.last()));
        assert(s.to_multiset() =~= s.drop_last().to_multiset().insert(s.last()));
    }
}

proof fn lemma_inserted(s: Seq<RevEntry>, e: RevEntry)
    requires
        forall|i: int, j: int|
            0 <= i < j < s.len() ==> (#[trigger] s[i]).spec.remote_bind_port <= (
            #[trigger] s[j]).spec.remote_bind_port,
    ensures
        forall|i: int, j: int|
            0 <= i < j < inserted_by_port(s, e).len() ==> (
            #[trigger] inserted_by_port(s, e)[i]).spec.remote_bind_port <= (
            #[trigger] inserted_by_port(s, e)[j]).spec.remote_bind_port,
        forall|i: int|
            0 <= i < inserted_by_port(s, e).len() ==> (
            #[trigger] inserted_by_port(s, e)[i]).spec.remote_bind_port <= (if s.len() > 0
                && s.last().spec.remote_bind_port > e.spec.remote_bind_port {
                s.last().spec.remote_bind_port
            } else {
                e.spec.remote_bind_port
            }),
        inserted_by_port(s, e).to_multiset() == s.to_multiset().insert(e),
    decreases s.len(),
{
    broadcast use vstd::seq_lib::group_to_multiset_ensures;

    if s.len() == 0 || s.last().spec.remote_bind_port <= e.spec.remote_bind_port {
        assert(s.push(e).to_multiset() =~= s.to_multiset().insert(e));
    } else {
        let t = s.drop_last();
        assert forall|i: int, j: int| 0 <= i < j < t.len() implies (
        #[trigger] t[i]).spec.remote_bind_port <= (#[trigger] t[j]).spec.remote_bind_port by {
            assert(s[i].spec.remote_bind_port <= s[j].spec.remote_bind_port);
        }
        lemma_inserted(t, e);
        let n = s.len() - 1;
        if t.len() > 0 {
            assert(s[n - 1].spec.remote_bind_port <= s[n].spec.remote_bind_port);
            assert(t.last() == s[n - 1]);
        }
        let u = inserted_by_port(t, e);
        assert(s =~= t.push(s.last()));
        assert(u.push(s.last()).to_multiset() =~= u.to_multiset().insert(s.last()));
        assert(s.to_multiset() =~= t.to_multiset().insert(s.last()));
        assert(u.push(s.last()).to_multiset() =~= s.to_multiset().insert(e));
    }
}

/// What the client registers, the agent reads as it was meant. (The local host must
/// be one that can be written down.)
pub proof fn law_registration_understood(input: Seq<char>, r: Reverse)
    requires
        crate::forward::reverse_of(input) == Ok::<Reverse, SpecFault>(r),
        crate::forward::is_renderable_host(r.local_host),
        r.ns is Host,
    ensures
        bindable(r.rendered()) == Ok::<Reverse, Seq<char>>(r),
{
    crate::forward::law_reverse_roundtrip(input, r);
}

// ---- epochs ------------------------------------------------------------

/// The connection that a session has at the moment.
#[derive(Debug, Clone, Copy, PartialEq, Eq, Structural)]
pub enum ConnKind {
    Down,
    Quic,
    Ssh,
}

/// What the reverse forwards of a session wait for or do next.
#[derive(Debug, Clone, Copy, PartialEq, Eq, Structural)]
pub enum WatchAction {
    /// Wait for the connection to change.
    WaitConn,
    /// Warn, once, that reverse forwards are inactive on this transport, and wait for
    /// the connection to change.
    WarnAndWaitConn,
    /// Wait for the connection or the set to change.
    WaitEither,
    /// Register the set on this connection, and serve what comes.
    Register,
}

/// What the reverse forwards of a session wait for or do next.
pub fn watch_step(conn: ConnKind, empty: bool, warned: bool) -> (r: WatchAction)
    ensures
        r == (match conn {
            ConnKind::Down => WatchAction::WaitConn,
            ConnKind::Ssh => if !empty && !warned {
                WatchAction::WarnAndWaitConn
            } else {
                WatchAction::WaitConn
            },
            ConnKind::Quic => if empty {
                WatchAction::WaitEither
            } else {
                WatchAction::Register
            },
        }),
{
    match conn {
        ConnKind::Down => WatchAction::WaitConn,
        ConnKind::Ssh => {
            if !empty && !warned {
                WatchAction::WarnAndWaitConn
            } else {
                WatchAction::WaitConn
            }
        },
        ConnKind::Quic => {
            if empty {
                WatchAction::WaitEither
            } else {
                WatchAction::Register
            }
        },
    }
}

/// Why an epoch ended.
#[derive(Debug, Clone, Copy, PartialEq, Eq, Structural)]
pub enum EpochEnd {
    /// The set changed: register it anew at once.
    Changed,
    /// The connection is gone: wait for another.
    ConnEnded,
}

/// Whether an epoch that registered `registered` goes on, now that the set is at
/// `version` and `conn_ended` says whether the connection is gone.
pub fn epoch_check(registered: u64, version: u64, conn_ended: bool) -> (r: Option<EpochEnd>)
    ensures
        r == (if conn_ended {
            Some(EpochEnd::ConnEnded)
        } else if version != registered {
            Some(EpochEnd::Changed)
        } else {
            None::<EpochEnd>
        }),
{
    if conn_ended {
        Some(EpochEnd::ConnEnded)
    } else if version != registered {
        Some(EpochEnd::Changed)
    } else {
        None
    }
}

/// Two reverse forwards are on the same remote endpoint exactly where they have the same
/// namespace, the same bind address and the same bind port.
pub proof fn law_same_endpoint(a: Reverse, b: Reverse)
    requires
        a.ns matches crate::forward::Ns::Pid(p) ==> i32::MIN <= p <= i32::MAX,
        b.ns matches crate::forward::Ns::Pid(p) ==> i32::MIN <= p <= i32::MAX,
    ensures
        a.key() == b.key() <==> a.ns == b.ns && a.remote_bind_addr == b.remote_bind_addr
            && a.remote_bind_port == b.remote_bind_port,
{
    if a.ns.wire() == b.ns.wire() {
        crate::forward::law_wire_tells_apart(a.ns, b.ns);
    }
}

/// The agent binds exactly what parses and names no namespace, and binds it as it was
/// asked for.
pub proof fn law_agent_binds_its_own(raw: Seq<char>)
    ensures
        bindable(raw) matches Ok(r) ==> crate::forward::reverse_of(raw) == Ok::<
            Reverse,
            SpecFault,
        >(r) && r.ns is Host,
        crate::forward::reverse_of(raw) matches Ok(r) ==> (bindable(raw) is Ok <==> r.ns is Host),
        crate::forward::reverse_of(raw) is Err ==> bindable(raw) is Err,
{
}

/// A bare number removes what is on that remote port, at whatever address; a spec
/// removes what is on its address and port in its namespace, whatever it dials.
pub proof fn law_what_is_removed(e: RevEntry, port: int, input: Seq<char>, r: Reverse)
    requires
        0 <= port <= 65535,
        crate::forward::reverse_of(input) == Ok::<Reverse, SpecFault>(r),
        crate::text::unsigned_value(crate::text::trimmed(input), 65535) is Err,
        e.spec.ns matches crate::forward::Ns::Pid(p) ==> i32::MIN <= p <= i32::MAX,
        r.ns matches crate::forward::Ns::Pid(p) ==> i32::MIN <= p <= i32::MAX,
    ensures
        is_target(e, remove_target(crate::text::decimal(port))) <==> e.spec.remote_bind_port
            == port,
        is_target(e, remove_target(input)) <==> e.spec.ns == r.ns && e.spec.remote_bind_addr
            == r.remote_bind_addr && e.spec.remote_bind_port == r.remote_bind_port,
{
    let d = crate::text::decimal(port);
    crate::text::lemma_decimal_digits(port);
    crate::text::lemma_decimal_roundtrip(port, 65535);
    assert(crate::text::is_digit(d[0]));
    assert(crate::text::is_digit(d[d.len() - 1]));
    crate::text::lemma_trim_tight(d);
    law_same_endpoint(e.spec, r);
}

/// A report is about an entry: its spec has the entry's namespace, address and port.
pub open spec fn is_about(r: BindResult, e: RevEntry) -> bool {
    crate::forward::reverse_of(r.spec@) matches Ok(p) && p.ns.wire() == e.spec.ns.wire()
        && p.remote_bind_addr == e.spec.remote_bind_addr && p.remote_bind_port
        == e.spec.remote_bind_port
}

/// An update is what a report says of an entry: no failure where the bind worked, else
/// the reason that was given.
pub open spec fn says(u: (u64, Option<Seq<char>>), r: BindResult, s: Seq<RevEntry>) -> bool {
    &&& exists|i: int| 0 <= i < s.len() && (#[trigger] s[i]).id == u.0 && is_about(r, s[i])
    &&& r.ok <==> u.1 is None
    &&& !r.ok && r.error is Some ==> u.1 == Some(r.error->Some_0@)
}

/// Some report says this update.
pub open spec fn is_said(
    u: (u64, Option<Seq<char>>),
    results: Seq<BindResult>,
    s: Seq<RevEntry>,
) -> bool {
    exists|k: int| 0 <= k < results.len() && says(u, #[trigger] results[k], s)
}

proof fn lemma_last_report(s: Seq<RevEntry>, results: Seq<BindResult>)
    requires
        results.len() > 0,
    ensures
        ({
            let all = health_updates(s, results);
            let before = health_updates(s, results.drop_last());
            &&& all.len() == before.len() || all.len() == before.len() + 1
            &&& forall|m: int| 0 <= m < before.len() ==> #[trigger] all[m] == before[m]
            &&& all.len() == before.len() + 1 ==> says(all[before.len() as int], results.last(), s)
            &&& forall|i: int|
                0 <= i < s.len() && is_about(results.last(), #[trigger] s[i]) ==> all.len()
                    == before.len() + 1
        }),
{
    let all = health_updates(s, results);
    let before = health_updates(s, results.drop_last());
    let r = results.last();
    if all.len() > before.len() {
        let p = crate::forward::reverse_of(r.spec@)->Ok_0;
        let target = RemoveTarget::Key(p.key());
        let i = choose|i: int| first_target(s, target, i);
        assert(first_target(s, target, i));
        assert(s[i].id == all.last().0 && is_about(r, s[i]));
    }
    assert forall|i: int| 0 <= i < s.len() && is_about(r, #[trigger] s[i]) implies all.len()
        == before.len() + 1 by {
        let p = crate::forward::reverse_of(r.spec@)->Ok_0;
        let target = RemoveTarget::Key(p.key());
        assert(is_target(s[i], target));
        lemma_some_first(s, target, i);
    }
}

/// Every update of an entry's health is what a report says of that entry.
pub proof fn law_updates_were_reported(s: Seq<RevEntry>, results: Seq<BindResult>, m: int)
    requires
        0 <= m < health_updates(s, results).len(),
    ensures
        is_said(health_updates(s, results)[m], results, s),
    decreases results.len(),
{
    let t = results.drop_last();
    let n = results.len() - 1;
    let before = health_updates(s, t);
    lemma_last_report(s, results);
    if m < before.len() {
        law_updates_were_reported(s, t, m);
        let k = choose|k: int| 0 <= k < t.len() && says(before[m], #[trigger] t[k], s);
        assert(results[k] == t[k]);
    } else {
        assert(says(health_updates(s, results)[m], results[n], s));
    }
}

/// Every report about an entry makes an update that says what it says.
pub proof fn law_reports_reach_their_entries(
    s: Seq<RevEntry>,
    results: Seq<BindResult>,
    k: int,
    i: int,
)
    requires
        0 <= k < results.len(),
        0 <= i < s.len(),
        is_about(results[k], s[i]),
    ensures
        exists|m: int|
            0 <= m < health_updates(s, results).len() && says(
                #[trigger] health_updates(s, results)[m],
                results[k],
                s,
            ),
    decreases results.len(),
{
    let t = results.drop_last();
    let before = health_updates(s, t);
    let all = health_updates(s, results);
    lemma_last_report(s, results);
    if k < results.len() - 1 {
        assert(t[k] == results[k]);
        law_reports_reach_their_entries(s, t, k, i);
        let m = choose|m: int| 0 <= m < before.len() && says(#[trigger] before[m], t[k], s);
        assert(all[m] == before[m]);
    } else {
        assert(results.last() == results[k]);
        assert(says(all[before.len() as int], results[k], s));
    }
}

proof fn lemma_some_first(s: Seq<RevEntry>, t: RemoveTarget, i: int)
    requires
        0 <= i < s.len(),
        is_target(s[i], t),
    ensures
        exists|k: int| first_target(s, t, k),
    decreases i,
{
    if exists|j: int| 0 <= j < i && is_target(#[trigger] s[j], t) {
        let j = choose|j: int| 0 <= j < i && is_target(#[trigger] s[j], t);
        lemma_some_first(s, t, j);
    } else {
        assert(first_target(s, t, i));
    }
}

/// Entries on the same remote port stay in the order in which they came.
pub proof fn law_list_is_stable(s: Seq<RevEntry>, port: int)
    ensures
        sorted_by_port(s).filter(|e: RevEntry| e.spec.remote_bind_port == port) == s.filter(
            |e: RevEntry| e.spec.remote_bind_port == port,
        ),
    decreases s.len(),
{
    reveal(Seq::filter);
    if s.len() > 0 {
        law_list_is_stable(s.drop_last(), port);
        lemma_inserted_stable(sorted_by_port(s.drop_last()), s.last(), port);
    }
}

proof fn lemma_inserted_stable(t: Seq<RevEntry>, e: RevEntry, port: int)
    ensures
        ({
            let on = |x: RevEntry| x.spec.remote_bind_port == port;
            inserted_by_port(t, e).filter(on) == (if e.spec.remote_bind_port == port {
                t.filter(on).push(e)
            } else {
                t.filter(on)
            })
        }),
    decreases t.len(),
{
    reveal(Seq::filter);
    let on = |x: RevEntry| x.spec.remote_bind_port == port;
    let r = inserted_by_port(t, e);
    if t.len() == 0 || t.last().spec.remote_bind_port <= e.spec.remote_bind_port {
        assert(r.drop_last() =~= t);
    } else {
        lemma_inserted_stable(t.drop_last(), e, port);
        assert(r.drop_last() =~= inserted_by_port(t.drop_last(), e));
    }
}

/// A spec that cannot be read removes nothing.
pub proof fn law_bad_spec_removes_nothing(e: RevEntry, input: Seq<char>)
    requires
        crate::text::unsigned_value(crate::text::trimmed(input), 65535) is Err,
        crate::forward::reverse_of(input) is Err,
    ensures
        !is_target(e, remove_target(input)),
{
}

/// The health of a snapshot is its counters, each in its place.
pub proof fn law_snapshot_health(s: ReverseSnapshot)
    ensures
        s.health().ok == s.ok_connections,
        s.health().up == s.bytes_up,
        s.health().down == s.bytes_down,
        s.last_error matches Some(e) ==> s.health().error == Some(e@),
        s.last_error is None ==> s.health().error is None,
{
}

} // verus!
