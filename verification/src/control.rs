//! The control protocol of a running session: live `add`, `drop`, `list`, `status`
//! and the rest, with what changes remembered for the host.
//!
//! One request comes in, one response goes out. Requests that bind a listener are
//! answered in two steps: [`dispatch`] says what to bind, and the outcome is handed
//! to [`finish_add`] or [`finish_repoint`].

use crate::client::{
    bind_plan, entries_of, has_port, opt_ns, opt_text, port_ints, string_texts, Entry,
    ForwardError, ForwardHealth, ForwardSet, ForwardSnapshot, Forwards, Health, Origin, Rebind,
};
use crate::config::{remember_ns, SessionRecord};
use crate::error::{SpecError, SpecFault};
use crate::forward::{show_endpoint, Forward, ForwardSpec, Ns, NsSpec, Reverse, ReverseSpec};
use crate::net::IpAddr;
use crate::reverse::{
    remove_target, ReverseSet, ReverseSnapshot, Reverses, RevEntry,
};
use crate::supervisor::Status;
use crate::text::{dec, parse_unsigned, str_eq, trim};
use vstd::prelude::*;

verus! {

// ---- requests and responses --------------------------------------------

/// What a running session can be asked.
#[derive(Debug)]
pub enum Request {
    Add { spec: String },
    Drop { spec: String },
    AddReverse { spec: String },
    DropReverse { spec: String },
    /// Remove every forward at once.
    Clear,
    List,
    Status,
    Stop,
    /// Change the session-default namespace; none is the agent's own.
    SetNs { ns: Option<String> },
}

/// One forward as it is listed.
#[derive(Debug)]
pub struct ForwardEntry {
    pub spec: String,
    pub local: String,
    /// Human-readable live health.
    pub health: String,
}

/// The model of a [`ForwardEntry`].
#[verifier::ext_equal]
pub struct Listed {
    pub spec: Seq<char>,
    pub local: Seq<char>,
    pub health: Seq<char>,
}

impl View for ForwardEntry {
    type V = Listed;

    open spec fn view(&self) -> Listed {
        Listed { spec: self.spec@, local: self.local@, health: self.health@ }
    }
}

/// The models of a list of entries.
pub open spec fn listed_of(v: Seq<ForwardEntry>) -> Seq<Listed> {
    v.map_values(|e: ForwardEntry| e@)
}

/// What a running session answers.
#[derive(Debug)]
pub enum Response {
    /// It was done.
    Done { message: String },
    Forwards { entries: Vec<ForwardEntry>, reverse: Vec<ForwardEntry>, default_ns: String },
    StatusIs {
        state: String,
        agent_version: String,
        entries: Vec<ForwardEntry>,
        reverse: Vec<ForwardEntry>,
        default_ns: String,
    },
    Error { message: String },
}

/// The model of a [`Response`].
#[verifier::ext_equal]
pub enum Answer {
    Done(Seq<char>),
    Forwards { entries: Seq<Listed>, reverse: Seq<Listed>, default_ns: Seq<char> },
    StatusIs {
        state: Seq<char>,
        agent_version: Seq<char>,
        entries: Seq<Listed>,
        reverse: Seq<Listed>,
        default_ns: Seq<char>,
    },
    Error(Seq<char>),
}

impl View for Response {
    type V = Answer;

    open spec fn view(&self) -> Answer {
        match self {
            Response::Done { message } => Answer::Done(message@),
            Response::Forwards { entries, reverse, default_ns } => Answer::Forwards {
                entries: listed_of(entries@),
                reverse: listed_of(reverse@),
                default_ns: default_ns@,
            },
            Response::StatusIs { state, agent_version, entries, reverse, default_ns } => {
                Answer::StatusIs {
                    state: state@,
                    agent_version: agent_version@,
                    entries: listed_of(entries@),
                    reverse: listed_of(reverse@),
                    default_ns: default_ns@,
                }
            },
            Response::Error { message } => Answer::Error(message@),
        }
    }
}

/// An answer, and what goes with it.
#[derive(Debug)]
pub struct Reply {
    pub response: Response,
    /// The session is to end once the answer is out.
    pub shutdown: bool,
    /// What the session has now is to be written back.
    pub persist: bool,
}

/// The model of a [`Reply`].
#[verifier::ext_equal]
pub struct Replied {
    pub answer: Answer,
    pub shutdown: bool,
    pub persist: bool,
}

impl View for Reply {
    type V = Replied;

    open spec fn view(&self) -> Replied {
        Replied { answer: self.response@, shutdown: self.shutdown, persist: self.persist }
    }
}

/// The answer to a request that changed what the session has.
pub open spec fn changed(message: Seq<char>) -> Replied {
    Replied { answer: Answer::Done(message), shutdown: false, persist: true }
}

/// The answer to a request that changed nothing.
pub open spec fn plain(answer: Answer) -> Replied {
    Replied { answer, shutdown: false, persist: false }
}

/// The answer to a request that failed, which has changed nothing.
pub open spec fn failed(message: Seq<char>) -> Replied {
    plain(Answer::Error(message))
}

fn reply_changed(message: String) -> (r: Reply)
    ensures
        r@ == changed(message@),
{
    Reply { response: Response::Done { message }, shutdown: false, persist: true }
}

fn reply_failed(message: String) -> (r: Reply)
    ensures
        r@ == failed(message@),
{
    Reply { response: Response::Error { message }, shutdown: false, persist: false }
}

// ---- labels ------------------------------------------------------------

/// The health of a forward in words.
pub open spec fn health_text(connected: bool, ok: int, error: Option<Seq<char>>) -> Seq<char> {
    if !connected {
        "session reconnecting"@
    } else {
        match error {
            None => if ok == 0 {
                "idle"@
            } else {
                "ok ("@ + crate::text::decimal(ok) + " conns)"@
            },
            Some(e) => if ok == 0 {
                "last error: "@ + e
            } else {
                "ok ("@ + crate::text::decimal(ok) + " conns); last error: "@ + e
            },
        }
    }
}

fn health_words(connected: bool, ok: u64, error: &Option<String>) -> (r: String)
    ensures
        r@ == health_text(connected, ok as int, opt_text(*error)),
{
    if !connected {
        return "session reconnecting".to_owned();
    }
    match error {
        None => {
            if ok == 0 {
                "idle".to_owned()
            } else {
                String::from_str("ok (").concat(dec(ok).as_str()).concat(" conns)")
            }
        },
        Some(e) => {
            if ok == 0 {
                String::from_str("last error: ").concat(e.as_str())
            } else {
                String::from_str("ok (").concat(dec(ok).as_str()).concat(
                    " conns); last error: ",
                ).concat(e.as_str())
            }
        },
    }
}

/// The live health of one forward.
pub fn health_label(connected: bool, s: &ForwardSnapshot) -> (r: String)
    ensures
        r@ == health_text(connected, s.ok_connections as int, opt_text(s.last_error)),
{
    health_words(connected, s.ok_connections, &s.last_error)
}

/// The live health of one reverse forward.
pub fn reverse_health_label(connected: bool, s: &ReverseSnapshot) -> (r: String)
    ensures
        r@ == health_text(connected, s.ok_connections as int, opt_text(s.last_error)),
{
    health_words(connected, s.ok_connections, &s.last_error)
}

/// The canonical text of a spec, in the grammar of specs.
pub fn display_spec(spec: &ForwardSpec, default_bind: IpAddr) -> (r: String)
    ensures
        r@ == spec@.rendered(default_bind),
{
    spec.to_spec_string(default_bind)
}

/// The state of a session in words.
pub open spec fn state_words(status: Status) -> Seq<char> {
    match status {
        Status::Connected => "connected"@,
        Status::Reconnecting { attempt } => "reconnecting (attempt "@ + crate::text::decimal(
            attempt as int,
        ) + ")"@,
        Status::Bootstrapping => "bootstrapping"@,
    }
}

/// The state of a session in words.
pub fn state_text(status: &Status) -> (r: String)
    ensures
        r@ == state_words(*status),
{
    match status {
        Status::Connected => "connected".to_owned(),
        Status::Reconnecting { attempt } => String::from_str("reconnecting (attempt ").concat(
            dec(*attempt as u64).as_str(),
        ).concat(")"),
        Status::Bootstrapping => "bootstrapping".to_owned(),
    }
}

/// What is said of a forward that was bound while the session was in this state.
pub open spec fn added_words(status: Status, local: Seq<char>) -> Seq<char> {
    match status {
        Status::Connected => "forward up on "@ + local,
        Status::Reconnecting { attempt } => "forward bound on "@ + local
            + " (session reconnecting, attempt "@ + crate::text::decimal(attempt as int)
            + " — will carry once restored)"@,
        Status::Bootstrapping => "forward bound on "@ + local
            + " (session bootstrapping — will carry once connected)"@,
    }
}

fn added_text(status: &Status, local: &str) -> (r: String)
    ensures
        r@ == added_words(*status, local@),
{
    match status {
        Status::Connected => String::from_str("forward up on ").concat(local),
        Status::Reconnecting { attempt } => String::from_str("forward bound on ").concat(
            local,
        ).concat(" (session reconnecting, attempt ").concat(dec(*attempt as u64).as_str()).concat(
            " — will carry once restored)",
        ),
        Status::Bootstrapping => String::from_str("forward bound on ").concat(local).concat(
            " (session bootstrapping — will carry once connected)",
        ),
    }
}

/// A default namespace in words.
pub open spec fn ns_words(ns: Option<Ns>) -> Seq<char> {
    match ns {
        None => "host"@,
        Some(n) => n.wire(),
    }
}

/// The wire form of a default namespace; empty for none.
pub open spec fn default_wire(ns: Option<Ns>) -> Seq<char> {
    match ns {
        None => Seq::empty(),
        Some(n) => n.wire(),
    }
}

fn default_ns_wire(forwards: &ForwardSet) -> (r: String)
    ensures
        r@ == default_wire(forwards@.default_ns),
{
    match forwards.default_ns() {
        Some(n) => n.to_wire(),
        None => String::new(),
    }
}

// ---- what a session has ------------------------------------------------

/// What a session looks like while a request is answered.
#[derive(Debug)]
pub struct SessionView {
    pub status: Status,
    /// Version of the agent binary.
    pub agent_version: String,
    /// The session can be ended by a request.
    pub can_stop: bool,
    /// What is known of the forwards' health, by local port.
    pub health: Vec<(u64, ForwardHealth)>,
    /// What is known of the reverse forwards' health, by id.
    pub reverse_health: Vec<(u64, ForwardHealth)>,
}

/// One forward as it is listed.
pub open spec fn listed_forward(e: Entry, h: Health, connected: bool, bind: IpAddr) -> Listed {
    Listed {
        spec: e.spec.rendered(bind),
        local: crate::forward::endpoint_text(e.addr, e.port),
        health: health_text(connected, h.ok, h.error),
    }
}

/// The forwards as they are listed.
pub open spec fn listed_forwards(
    v: Seq<ForwardSnapshot>,
    connected: bool,
    bind: IpAddr,
) -> Seq<Listed> {
    v.map_values(|s: ForwardSnapshot| listed_forward(s.entry(), s.health(), connected, bind))
}

/// The forwards of a set as they are listed, one for each, in the order of their
/// local ports.
pub open spec fn listed_set(
    set: Forwards,
    health: Seq<(u64, ForwardHealth)>,
    connected: bool,
) -> Seq<Listed> {
    set.entries.map_values(
        |e: Entry|
            listed_forward(
                e,
                crate::client::health_at(health, e.port),
                connected,
                set.default_bind,
            ),
    )
}

/// One reverse forward as it is listed: in the place of the local end stands the
/// remote one.
pub open spec fn listed_reverse(spec: Reverse, h: Health, connected: bool) -> Listed {
    Listed {
        spec: spec.rendered(),
        local: "R:"@ + crate::forward::endpoint_text(
            spec.remote_bind_addr,
            spec.remote_bind_port,
        ),
        health: health_text(connected, h.ok, h.error),
    }
}

/// The reverse forwards as they are listed.
pub open spec fn listed_reverses(v: Seq<ReverseSnapshot>, connected: bool) -> Seq<Listed> {
    v.map_values(|s: ReverseSnapshot| listed_reverse(s.spec@, s.health(), connected))
}

/// The reverse forwards of a set as they are listed, one for each, in the order of
/// their remote ports.
pub open spec fn listed_reverse_set(
    set: Reverses,
    health: Seq<(u64, ForwardHealth)>,
    connected: bool,
) -> Seq<Listed> {
    crate::reverse::sorted_by_port(set.entries).map_values(
        |e: RevEntry|
            listed_reverse(e.spec, crate::client::health_at(health, e.id as int), connected),
    )
}

/// The forwards as they are listed.
pub fn forward_entries(v: &Vec<ForwardSnapshot>, connected: bool, bind: IpAddr) -> (r: Vec<
    ForwardEntry,
>)
    ensures
        listed_of(r@) == listed_forwards(v@, connected, bind),
{
    let mut r: Vec<ForwardEntry> = Vec::new();
    let mut i: usize = 0;
    while i < v.len()
        invariant
            i <= v@.len(),
            listed_of(r@) == listed_forwards(v@, connected, bind).take(i as int),
        decreases v@.len() - i,
    {
        let ghost before = listed_of(r@);
        let e = ForwardEntry {
            spec: display_spec(&v[i].spec, bind),
            local: show_endpoint(&v[i].local_addr, v[i].local_port),
            health: health_label(connected, &v[i]),
        };
        let ghost m = e@;
        r.push(e);
        proof {
            assert(m == listed_forward(
                v@[i as int].entry(),
                v@[i as int].health(),
                connected,
                bind,
            ));
            assert(listed_of(r@) =~= before.push(m));
            assert(listed_forwards(v@, connected, bind).take(i + 1) =~= before.push(m));
        }
        i = i + 1;
    }
    proof {
        assert(listed_forwards(v@, connected, bind).take(i as int) =~= listed_forwards(
            v@,
            connected,
            bind,
        ));
    }
    r
}

/// The reverse forwards as they are listed.
pub fn reverse_entries(v: &Vec<ReverseSnapshot>, connected: bool) -> (r: Vec<ForwardEntry>)
    ensures
        listed_of(r@) == listed_reverses(v@, connected),
{
    let mut r: Vec<ForwardEntry> = Vec::new();
    let mut i: usize = 0;
    while i < v.len()
        invariant
            i <= v@.len(),
            listed_of(r@) == listed_reverses(v@, connected).take(i as int),
        decreases v@.len() - i,
    {
        let ghost before = listed_of(r@);
        let e = ForwardEntry {
            spec: v[i].spec.to_spec_string(),
            local: String::from_str("R:").concat(
                show_endpoint(&v[i].spec.remote_bind_addr, v[i].spec.remote_bind_port).as_str(),
            ),
            health: reverse_health_label(connected, &v[i]),
        };
        let ghost m = e@;
        r.push(e);
        proof {
            assert(m == listed_reverse(v@[i as int].spec@, v@[i as int].health(), connected));
            assert(listed_of(r@) =~= before.push(m));
            assert(listed_reverses(v@, connected).take(i + 1) =~= before.push(m));
        }
        i = i + 1;
    }
    proof {
        assert(listed_reverses(v@, connected).take(i as int) =~= listed_reverses(v@, connected));
    }
    r
}

/// The specs of the forwards, as they are remembered.
pub open spec fn saved_forwards(set: Forwards) -> Seq<Seq<char>> {
    set.entries.map_values(|e: Entry| e.spec.rendered(set.default_bind))
}

/// The specs of the reverse forwards, as they are remembered.
pub open spec fn saved_reverses(set: Reverses) -> Seq<Seq<char>> {
    crate::reverse::sorted_by_port(set.entries).map_values(|e: RevEntry| e.spec.rendered())
}

/// What is to be remembered of a session: its forwards in the order of their local
/// ports, its reverse forwards in the order of their remote ports, and its default
/// namespace.
pub fn session_record(forwards: &ForwardSet, reverse: &ReverseSet) -> (r: SessionRecord)
    ensures
        string_texts(r.forwards@) == saved_forwards(forwards@),
        string_texts(r.reverse_forwards@) == saved_reverses(reverse@),
        r.default_ns@ == crate::config::ns_to_remember(forwards@.default_ns),
{
    let list = forwards.list();
    let bind: IpAddr = forwards.default_bind();
    let mut specs: Vec<String> = Vec::new();
    let mut i: usize = 0;
    while i < list.len()
        invariant
            i <= list@.len(),
            entries_of(list@) == forwards@.entries,
            bind == forwards@.default_bind,
            string_texts(specs@) == saved_forwards(forwards@).take(i as int),
        decreases list@.len() - i,
    {
        let ghost before = string_texts(specs@);
        assert(forwards@.entries[i as int] == list@[i as int]@);
        specs.push(display_spec(&list[i].spec, bind));
        proof {
            let t = list@[i as int].spec@.rendered(bind);
            assert(string_texts(specs@) =~= before.push(t));
            assert(saved_forwards(forwards@).take(i + 1) =~= before.push(t));
        }
        i = i + 1;
    }
    proof {
        assert(saved_forwards(forwards@).take(i as int) =~= saved_forwards(forwards@));
    }
    let rlist = reverse.list();
    let ghost rs = crate::reverse::sorted_by_port(reverse@.entries);
    let mut rspecs: Vec<String> = Vec::new();
    let mut j: usize = 0;
    while j < rlist.len()
        invariant
            j <= rlist@.len(),
            crate::reverse::rev_entries(rlist@) == rs,
            rs == crate::reverse::sorted_by_port(reverse@.entries),
            string_texts(rspecs@) == saved_reverses(reverse@).take(j as int),
        decreases rlist@.len() - j,
    {
        let ghost before = string_texts(rspecs@);
        assert(rs[j as int] == rlist@[j as int]@);
        rspecs.push(rlist[j].spec.to_spec_string());
        proof {
            let t = rlist@[j as int].spec@.rendered();
            assert(string_texts(rspecs@) =~= before.push(t));
            assert(saved_reverses(reverse@).take(j + 1) =~= before.push(t));
        }
        j = j + 1;
    }
    proof {
        assert(saved_reverses(reverse@).take(j as int) =~= saved_reverses(reverse@));
    }
    SessionRecord {
        forwards: specs,
        reverse_forwards: rspecs,
        default_ns: remember_ns(&forwards.default_ns()),
    }
}

// ---- dispatch ----------------------------------------------------------

/// What is to be done about a request.
#[derive(Debug)]
pub enum Dispatch {
    /// It is answered.
    Answered(Reply),
    /// A listener is to be bound for this forward, on the first of these ports that
    /// can be had; then [`finish_add`] answers.
    Bind { spec: ForwardSpec, ports: Vec<u16> },
    /// The forwards on these local ports are to be bound anew in the new default
    /// namespace; then [`finish_repoint`] answers.
    Repoint { ns: Option<NsSpec>, ports: Vec<u16> },
}

/// The model of a [`Dispatch`].
#[verifier::ext_equal]
pub enum Dispatched {
    Answered(Replied),
    Bind { spec: Forward, ports: Seq<int> },
    Repoint { ns: Option<Ns>, ports: Seq<int> },
}

impl View for Dispatch {
    type V = Dispatched;

    open spec fn view(&self) -> Dispatched {
        match self {
            Dispatch::Answered(r) => Dispatched::Answered(r@),
            Dispatch::Bind { spec, ports } => Dispatched::Bind {
                spec: spec@,
                ports: port_ints(ports@),
            },
            Dispatch::Repoint { ns, ports } => Dispatched::Repoint {
                ns: opt_ns(*ns),
                ports: port_ints(ports@),
            },
        }
    }
}

/// The namespace that a request for a default asks for: none, nothing and `host`
/// are the agent's own.
pub open spec fn requested_ns_of(ns: Option<Seq<char>>) -> Result<Option<Ns>, SpecFault> {
    match ns {
        None => Ok(None),
        Some(s) => if crate::text::trimmed(s).len() == 0 || crate::text::trimmed(s) == "host"@ {
            Ok(None)
        } else {
            match crate::forward::selector_of(crate::text::trimmed(s)) {
                Ok(n) => Ok(Some(n)),
                Err(e) => Err(e),
            }
        },
    }
}

/// The namespace that a request for a default asks for.
pub fn requested_ns(ns: &Option<String>) -> (r: Result<Option<NsSpec>, SpecError>)
    ensures
        match r {
            Ok(n) => requested_ns_of(opt_text(*ns)) == Ok::<Option<Ns>, SpecFault>(opt_ns(n)),
            Err(e) => requested_ns_of(opt_text(*ns)) == Err::<Option<Ns>, SpecFault>(e@),
        },
{
    match ns {
        None => Ok(None),
        Some(s) => {
            let t: &str = trim(s.as_str());
            if t.is_empty() || str_eq(t, "host") {
                Ok(None)
            } else {
                match NsSpec::parse(t) {
                    Ok(n) => Ok(Some(n)),
                    Err(e) => Err(e),
                }
            }
        },
    }
}

/// The local port that a text given to drop stands for: a bare number is one, and
/// anything else a spec that has one.
pub open spec fn drop_port(spec: Seq<char>, set: Forwards) -> Result<int, SpecFault> {
    match crate::text::unsigned_value(crate::text::trimmed(spec), 65535) {
        Ok(p) => Ok(p),
        Err(_) => match crate::forward::forward_of(spec, set.default_bind, set.default_ns) {
            Ok(f) => Ok(f.local_port),
            Err(e) => Err(e),
        },
    }
}

fn port_to_drop(spec: &str, forwards: &ForwardSet) -> (r: Result<u16, SpecError>)
    ensures
        match r {
            Ok(p) => drop_port(spec@, forwards@) == Ok::<int, SpecFault>(p as int),
            Err(e) => drop_port(spec@, forwards@) == Err::<int, SpecFault>(e@),
        },
{
    match parse_unsigned(trim(spec), 65535) {
        Ok(p) => Ok(p as u16),
        Err(_) => match forwards.parse_spec(spec) {
            Ok(f) => Ok(f.local_port),
            Err(e) => Err(e),
        },
    }
}

/// What is to be done about a request to add a forward. Nothing has changed yet.
pub open spec fn add_decision(spec: Seq<char>, set: Forwards) -> Dispatched {
    match crate::forward::forward_of(spec, set.default_bind, set.default_ns) {
        Err(e) => Dispatched::Answered(failed(e.text())),
        Ok(f) => match bind_plan(set, f) {
            Err(e) => Dispatched::Answered(failed(e.text())),
            Ok(ports) => Dispatched::Bind { spec: f, ports },
        },
    }
}

fn dispatch_add(spec: &str, forwards: &ForwardSet) -> (r: Dispatch)
    ensures
        r@ == add_decision(spec@, forwards@),
{
    match forwards.parse_spec(spec) {
        Err(e) => Dispatch::Answered(reply_failed(e.message())),
        Ok(f) => match forwards.plan_add(&f) {
            Err(e) => Dispatch::Answered(reply_failed(e.message())),
            Ok(ports) => Dispatch::Bind { spec: f, ports },
        },
    }
}

/// `after` and the answer are what dropping a forward makes of `before`.
pub open spec fn is_drop(spec: Seq<char>, before: Forwards, after: Forwards, d: Dispatched) -> bool {
    match drop_port(spec, before) {
        Err(e) => after == before && d == Dispatched::Answered(failed(e.text())),
        Ok(p) => if has_port(before.entries, p) {
            &&& after.wf()
            &&& after.map() == before.map().remove(p)
            &&& after.default_ns == before.default_ns
            &&& after.default_bind == before.default_bind
            &&& d == Dispatched::Answered(
                changed("dropped "@ + before.map()[p].spec.rendered(before.default_bind)),
            )
        } else {
            after == before && d == Dispatched::Answered(
                failed(ForwardError::NoForward(p as u16).text()),
            )
        },
    }
}

fn dispatch_drop(spec: &str, forwards: &mut ForwardSet) -> (r: Dispatch)
    requires
        old(forwards)@.wf(),
    ensures
        is_drop(spec@, old(forwards)@, final(forwards)@, r@),
{
    match port_to_drop(spec, forwards) {
        Err(e) => Dispatch::Answered(reply_failed(e.message())),
        Ok(p) => match forwards.remove(p) {
            Err(e) => Dispatch::Answered(reply_failed(e.message())),
            Ok(dropped) => Dispatch::Answered(
                reply_changed(
                    String::from_str("dropped ").concat(
                        display_spec(&dropped, forwards.default_bind()).as_str(),
                    ),
                ),
            ),
        },
    }
}

/// `after` and the answer are what adding a reverse forward makes of `before`.
pub open spec fn is_reverse_add(
    spec: Seq<char>,
    before: Reverses,
    after: Reverses,
    d: Dispatched,
) -> bool {
    match crate::forward::reverse_of(spec) {
        Err(e) => after == before && d == Dispatched::Answered(failed(e.text())),
        Ok(x) => if before.has_key(x.key()) {
            after == before && d == Dispatched::Answered(
                failed(
                    crate::reverse::ReverseFault::Exists(
                        x.remote_bind_addr,
                        x.remote_bind_port,
                    ).text(),
                ),
            )
        } else {
            &&& after == (Reverses {
                entries: before.entries.push(
                    RevEntry { spec: x, origin: Origin::UserAdded, id: before.version },
                ),
                version: (before.version + 1) as u64,
            })
            &&& d == Dispatched::Answered(
                changed(
                    "reverse forward bound on remote "@ + x.remote_bind_addr.text() + ":"@
                        + crate::text::decimal(x.remote_bind_port),
                ),
            )
        },
    }
}

fn dispatch_reverse_add(spec: &str, reverse: &mut ReverseSet) -> (r: Dispatch)
    requires
        old(reverse)@.wf(),
        old(reverse)@.version < u64::MAX,
    ensures
        final(reverse)@.wf(),
        is_reverse_add(spec@, old(reverse)@, final(reverse)@, r@),
{
    match ReverseSpec::parse(spec) {
        Err(e) => Dispatch::Answered(reply_failed(e.message())),
        Ok(x) => {
            let bind: String = x.remote_bind_addr.to_text().concat(":").concat(
                dec(x.remote_bind_port as u64).as_str(),
            );
            match reverse.add(x, Origin::UserAdded) {
                Err(e) => Dispatch::Answered(reply_failed(e.message())),
                Ok(_) => {
                    let message: String = String::from_str(
                        "reverse forward bound on remote ",
                    ).concat(bind.as_str());
                    proof {
                        assert(message@ =~= "reverse forward bound on remote "@
                            + x@.remote_bind_addr.text() + ":"@ + crate::text::decimal(
                            x@.remote_bind_port,
                        ));
                    }
                    Dispatch::Answered(reply_changed(message))
                },
            }
        },
    }
}

/// `after` and the answer are what dropping a reverse forward makes of `before`.
pub open spec fn is_reverse_drop(
    spec: Seq<char>,
    before: Reverses,
    after: Reverses,
    d: Dispatched,
) -> bool {
    let t = remove_target(spec);
    if exists|i: int| crate::reverse::first_target(before.entries, t, i) {
        let i = choose|i: int| crate::reverse::first_target(before.entries, t, i);
        &&& after == (Reverses {
            entries: before.entries.remove(i),
            version: (before.version + 1) as u64,
        })
        &&& d == Dispatched::Answered(
            changed("dropped reverse "@ + before.entries[i].spec.rendered()),
        )
    } else {
        after == before && d == Dispatched::Answered(
            failed(
                (match t {
                    crate::reverse::RemoveTarget::Bad(e) => {
                        crate::reverse::ReverseFault::BadSpec(e)
                    },
                    _ => crate::reverse::ReverseFault::NoMatch(spec),
                }).text(),
            ),
        )
    }
}

fn dispatch_reverse_drop(spec: &str, reverse: &mut ReverseSet) -> (r: Dispatch)
    requires
        old(reverse)@.wf(),
        old(reverse)@.version < u64::MAX,
    ensures
        final(reverse)@.wf(),
        is_reverse_drop(spec@, old(reverse)@, final(reverse)@, r@),
{
    match reverse.remove(spec) {
        Err(e) => Dispatch::Answered(reply_failed(e.message())),
        Ok(dropped) => {
            proof {
                let s = old(reverse)@.entries;
                let t = remove_target(spec@);
                let i = choose|i: int| #[trigger]
                    crate::reverse::first_target(s, t, i) && dropped@ == s[i].spec && reverse@ == (
                    Reverses {
                        entries: s.remove(i),
                        version: (old(reverse)@.version + 1) as u64,
                    });
                let k = choose|k: int| crate::reverse::first_target(s, t, k);
                assert(crate::reverse::first_target(s, t, i));
                assert(crate::reverse::first_target(s, t, k));
                assert(i == k);
            }
            Dispatch::Answered(
                reply_changed(
                    String::from_str("dropped reverse ").concat(dropped.to_spec_string().as_str()),
                ),
            )
        },
    }
}

/// What a session answers when it is asked what it has, or how it is.
pub open spec fn report(
    session: SessionView,
    set: Forwards,
    reverses: Reverses,
    with_state: bool,
) -> Replied {
    let connected = session.status is Connected;
    let entries = listed_set(set, session.health@, connected);
    let reverse = listed_reverse_set(reverses, session.reverse_health@, connected);
    let default_ns = default_wire(set.default_ns);
    plain(
        if with_state {
            Answer::StatusIs {
                state: state_words(session.status),
                agent_version: session.agent_version@,
                entries,
                reverse,
                default_ns,
            }
        } else {
            Answer::Forwards { entries, reverse, default_ns }
        },
    )
}

fn report_reply(
    session: &SessionView,
    forwards: &ForwardSet,
    reverses: &ReverseSet,
    with_state: bool,
) -> (r: Reply)
    ensures
        r@ == report(*session, forwards@, reverses@, with_state),
{
    let connected: bool = match session.status {
        Status::Connected => true,
        _ => false,
    };
    let shown = forwards.snapshots(&session.health);
    let reverse_shown = reverses.snapshots(&session.reverse_health);
    let entries = forward_entries(&shown, connected, forwards.default_bind());
    let reverse = reverse_entries(&reverse_shown, connected);
    proof {
        assert(listed_of(entries@) =~= listed_set(forwards@, session.health@, connected));
        assert(listed_of(reverse@) =~= listed_reverse_set(
            reverses@,
            session.reverse_health@,
            connected,
        ));
    }
    let default_ns: String = default_ns_wire(forwards);
    let response = if with_state {
        Response::StatusIs {
            state: state_text(&session.status),
            agent_version: session.agent_version.clone(),
            entries,
            reverse,
            default_ns,
        }
    } else {
        Response::Forwards { entries, reverse, default_ns }
    };
    Reply { response, shutdown: false, persist: false }
}

/// What is to be done about a request for another default namespace. Nothing has
/// changed yet.
pub open spec fn ns_decision(ns: Option<Seq<char>>, set: Forwards) -> Dispatched {
    match requested_ns_of(ns) {
        Err(e) => Dispatched::Answered(failed(e.text())),
        Ok(n) => Dispatched::Repoint {
            ns: n,
            ports: crate::client::following_ports(
                set.entries,
                match crate::client::as_default(n) {
                    Some(x) => x,
                    None => Ns::Host,
                },
            ),
        },
    }
}

/// What is said when every forward, of both directions, was dropped.
pub open spec fn cleared_words(n: int) -> Seq<char> {
    "dropped "@ + crate::text::decimal(n) + " forward(s)"@
}

/// Decides about one request. `session` is what the session looks like; the sets are
/// what it has, and what is listed is what they hold.
pub fn dispatch(
    req: &Request,
    forwards: &mut ForwardSet,
    reverse: &mut ReverseSet,
    session: &SessionView,
) -> (r: Dispatch)
    requires
        old(forwards)@.wf(),
        old(reverse)@.wf(),
        old(reverse)@.version < u64::MAX,
        old(forwards)@.entries.len() + old(reverse)@.entries.len() <= u64::MAX,
    ensures
        final(forwards)@.wf(),
        final(reverse)@.wf(),
        !(*req is Drop || *req is Clear) ==> final(forwards)@ == old(forwards)@,
        !(*req is AddReverse || *req is DropReverse || *req is Clear) ==> final(reverse)@ == old(
            reverse,
        )@,
        match *req {
            Request::Add { spec } => r@ == add_decision(spec@, old(forwards)@),
            Request::Drop { spec } => is_drop(spec@, old(forwards)@, final(forwards)@, r@),
            Request::AddReverse { spec } => is_reverse_add(
                spec@,
                old(reverse)@,
                final(reverse)@,
                r@,
            ),
            Request::DropReverse { spec } => is_reverse_drop(
                spec@,
                old(reverse)@,
                final(reverse)@,
                r@,
            ),
            Request::Clear => {
                &&& final(forwards)@ == (Forwards { entries: Seq::empty(), ..old(forwards)@ })
                &&& final(reverse)@.entries.len() == 0
                &&& final(reverse)@.version == old(reverse)@.version + (if old(
                    reverse,
                )@.entries.len() == 0 {
                    0int
                } else {
                    1int
                })
                &&& r@ == Dispatched::Answered(
                    changed(
                        cleared_words(
                            old(forwards)@.entries.len() as int + old(reverse)@.entries.len(),
                        ),
                    ),
                )
            },
            Request::List => r@ == Dispatched::Answered(
                report(*session, old(forwards)@, old(reverse)@, false),
            ),
            Request::Status => r@ == Dispatched::Answered(
                report(*session, old(forwards)@, old(reverse)@, true),
            ),
            Request::Stop => r@ == Dispatched::Answered(
                if session.can_stop {
                    Replied {
                        answer: Answer::Done("shutting down"@),
                        shutdown: true,
                        persist: false,
                    }
                } else {
                    failed("this session does not support remote shutdown"@)
                },
            ),
            Request::SetNs { ns } => r@ == ns_decision(opt_text(ns), old(forwards)@),
        },
{
    match req {
        Request::Add { spec } => dispatch_add(spec.as_str(), forwards),
        Request::Drop { spec } => dispatch_drop(spec.as_str(), forwards),
        Request::AddReverse { spec } => dispatch_reverse_add(spec.as_str(), reverse),
        Request::DropReverse { spec } => dispatch_reverse_drop(spec.as_str(), reverse),
        Request::Clear => {
            let n: u64 = forwards.clear() as u64 + reverse.clear() as u64;
            let message: String = String::from_str("dropped ").concat(dec(n).as_str()).concat(
                " forward(s)",
            );
            Dispatch::Answered(reply_changed(message))
        },
        Request::List => Dispatch::Answered(report_reply(session, forwards, reverse, false)),
        Request::Status => Dispatch::Answered(report_reply(session, forwards, reverse, true)),
        Request::Stop => {
            if session.can_stop {
                Dispatch::Answered(
                    Reply {
                        response: Response::Done { message: "shutting down".to_owned() },
                        shutdown: true,
                        persist: false,
                    },
                )
            } else {
                Dispatch::Answered(
                    reply_failed("this session does not support remote shutdown".to_owned()),
                )
            }
        },
        Request::SetNs { ns } => match requested_ns(ns) {
            Err(e) => Dispatch::Answered(reply_failed(e.message())),
            Ok(n) => {
                let ports: Vec<u16> = forwards.plan_repoint(&n);
                Dispatch::Repoint { ns: n, ports }
            },
        },
    }
}

/// Answers a request to add a forward, once binding it was tried: at this address,
/// or not for this reason.
pub fn finish_add(
    forwards: &mut ForwardSet,
    spec: ForwardSpec,
    outcome: Result<(IpAddr, u16), String>,
    status: &Status,
) -> (r: Reply)
    requires
        old(forwards)@.wf(),
        outcome matches Ok(at) ==> at.1 != 0,
    ensures
        final(forwards)@.wf(),
        final(forwards)@.default_ns == old(forwards)@.default_ns,
        final(forwards)@.default_bind == old(forwards)@.default_bind,
        match outcome {
            Err(e) => final(forwards)@ == old(forwards)@ && r@ == failed(e@),
            Ok((addr, port)) => if has_port(old(forwards)@.entries, port as int) {
                final(forwards)@ == old(forwards)@ && r@ == failed(
                    ForwardError::AlreadyForwarded(spec.local_port).text(),
                )
            } else {
                &&& final(forwards)@.map() == old(forwards)@.map().insert(
                    port as int,
                    (Entry {
                        spec: (Forward { local_port: port as int, ..spec@ }),
                        addr,
                        port: port as int,
                        origin: Origin::UserAdded,
                    }),
                )
                &&& r@ == changed(
                    added_words(*status, crate::forward::endpoint_text(addr, port as int)),
                )
            },
        },
{
    match outcome {
        Err(e) => reply_failed(e),
        Ok((addr, port)) => match forwards.add(spec, Origin::UserAdded, addr, port) {
            Err(e) => reply_failed(e.message()),
            Ok(_) => reply_changed(added_text(status, show_endpoint(&addr, port).as_str())),
        },
    }
}

/// The messages of a list, each behind a semicolon.
pub open spec fn appended(errors: Seq<Seq<char>>) -> Seq<char>
    decreases errors.len(),
{
    if errors.len() == 0 {
        Seq::empty()
    } else {
        appended(errors.drop_last()) + "; "@ + errors.last()
    }
}

/// What is said of a new default namespace.
pub open spec fn repointed_words(ns: Option<Ns>, moved: int, errors: Seq<Seq<char>>) -> Seq<char> {
    "default namespace is now "@ + ns_words(ns) + "; re-pointed "@ + crate::text::decimal(moved)
        + " forward(s)"@ + appended(errors)
}

/// Answers a request for another default namespace, once the forwards that follow it
/// were bound anew, one outcome for each.
pub fn finish_repoint(
    forwards: &mut ForwardSet,
    ns: Option<NsSpec>,
    outcomes: &Vec<Rebind>,
) -> (r: Reply)
    requires
        old(forwards)@.wf(),
        outcomes@.len() == crate::client::following_ports(
            old(forwards)@.entries,
            (match crate::client::as_default(opt_ns(ns)) {
                Some(n) => n,
                None => Ns::Host,
            }),
        ).len(),
        crate::client::have_places(outcomes@),
    ensures
        final(forwards)@.wf(),
        final(forwards)@.default_ns == crate::client::as_default(opt_ns(ns)),
        final(forwards)@.default_bind == old(forwards)@.default_bind,
        ({
            let eff = final(forwards)@.effective_ns();
            let ports = crate::client::following_ports(old(forwards)@.entries, eff);
            let (moved, errors) = crate::client::rebind_report(ports, outcomes@, ports.len());
            &&& final(forwards)@.map() == crate::client::all_rebound(
                old(forwards)@.map(),
                ports,
                outcomes@,
                eff,
                ports.len(),
            )
            &&& r@ == changed(repointed_words(final(forwards)@.default_ns, moved, errors))
        }),
{
    let (moved, errors) = forwards.repoint_default_ns(ns, outcomes);
    let mut message: String = String::from_str("default namespace is now ");
    match forwards.default_ns() {
        None => {
            message.append("host");
        },
        Some(n) => {
            message.append(n.to_wire().as_str());
        },
    }
    message.append("; re-pointed ");
    message.append(dec(moved as u64).as_str());
    message.append(" forward(s)");
    let ghost head = message@;
    let ghost texts = string_texts(errors@);
    let mut i: usize = 0;
    proof {
        assert(texts.take(0) =~= Seq::<Seq<char>>::empty());
        assert(head + appended(texts.take(0)) =~= head);
    }
    while i < errors.len()
        invariant
            i <= errors@.len(),
            texts == string_texts(errors@),
            message@ == head + appended(texts.take(i as int)),
        decreases errors@.len() - i,
    {
        proof {
            assert(texts.take(i + 1).drop_last() =~= texts.take(i as int));
            assert(texts.take(i + 1).last() == errors@[i as int]@);
        }
        message.append("; ");
        message.append(errors[i].as_str());
        proof {
            assert(message@ =~= head + appended(texts.take(i + 1)));
        }
        i = i + 1;
    }
    proof {
        assert(texts.take(i as int) =~= texts);
    }
    reply_changed(message)
}

// ---- laws --------------------------------------------------------------

/// A request to change what the session has does not end the session.
pub proof fn law_changes_end_nothing(
    spec: Seq<char>,
    ns: Option<Seq<char>>,
    f: Forwards,
    f2: Forwards,
    r: Reverses,
    r2: Reverses,
    d: Dispatched,
)
    requires
        d == add_decision(spec, f) || d == ns_decision(ns, f) || is_drop(spec, f, f2, d)
            || is_reverse_add(spec, r, r2, d) || is_reverse_drop(spec, r, r2, d),
    ensures
        d matches Dispatched::Answered(x) ==> !x.shutdown,
{
}

/// A refused request changes nothing, and nothing is written back for it.
pub proof fn law_refusal_changes_nothing(
    spec: Seq<char>,
    f: Forwards,
    f2: Forwards,
    r: Reverses,
    r2: Reverses,
    d: Dispatched,
)
    requires
        d matches Dispatched::Answered(x) && x.answer is Error,
        is_drop(spec, f, f2, d) && r2 == r || is_reverse_add(spec, r, r2, d) && f2 == f
            || is_reverse_drop(spec, r, r2, d) && f2 == f,
    ensures
        f2 == f,
        r2 == r,
        d matches Dispatched::Answered(x) && !x.persist,
{
}

/// What is remembered of a forward that was read from a spec, wherever it had to be
/// bound, is read as that forward again by a session with the same defaults. (The
/// host of a fixed target must be one that can be written without brackets.)
pub proof fn law_saved_forward_resumes(
    input: Seq<char>,
    default_bind: IpAddr,
    default_ns: Option<Ns>,
    f: Forward,
    bound: int,
)
    requires
        crate::forward::forward_of(input, default_bind, default_ns) == Ok::<Forward, SpecFault>(f),
        f.kind is Direct ==> crate::forward::is_plain_host(f.remote_host),
        !f.local_port_auto ==> bound == f.local_port,
    ensures
        crate::forward::forward_of(
            (Forward { local_port: bound, ..f }).rendered(default_bind),
            default_bind,
            default_ns,
        ) == Ok::<Forward, SpecFault>(f),
{
    crate::forward::law_forward_roundtrip(input, default_bind, default_ns, f);
    if f.local_port_auto {
        crate::forward::law_fallback_not_frozen(f, bound, default_bind);
    }
}

/// Every forward of the list was read from a spec under these defaults, and has been
/// bound since.
pub open spec fn read_and_bound(
    entries: Seq<Entry>,
    inputs: Seq<Seq<char>>,
    fs: Seq<Forward>,
    default_bind: IpAddr,
    default_ns: Option<Ns>,
) -> bool {
    &&& inputs.len() == entries.len()
    &&& fs.len() == entries.len()
    &&& forall|i: int|
        0 <= i < entries.len() ==> {
            &&& crate::forward::forward_of(#[trigger] inputs[i], default_bind, default_ns) == Ok::<
                Forward,
                SpecFault,
            >(fs[i])
            &&& fs[i].kind is Direct ==> crate::forward::is_plain_host(fs[i].remote_host)
            &&& entries[i].spec == (Forward { local_port: entries[i].port, ..fs[i] })
            &&& !fs[i].local_port_auto ==> entries[i].port == fs[i].local_port
        }
}

/// The forwards but the last were read and bound too.
proof fn lemma_read_and_bound_rest(
    entries: Seq<Entry>,
    inputs: Seq<Seq<char>>,
    fs: Seq<Forward>,
    default_bind: IpAddr,
    default_ns: Option<Ns>,
)
    requires
        read_and_bound(entries, inputs, fs, default_bind, default_ns),
        entries.len() > 0,
    ensures
        read_and_bound(
            entries.drop_last(),
            inputs.drop_last(),
            fs.drop_last(),
            default_bind,
            default_ns,
        ),
{
    assert forall|i: int| 0 <= i < entries.drop_last().len() implies {
        &&& crate::forward::forward_of(
            #[trigger] inputs.drop_last()[i],
            default_bind,
            default_ns,
        ) == Ok::<Forward, SpecFault>(fs.drop_last()[i])
        &&& fs.drop_last()[i].kind is Direct ==> crate::forward::is_plain_host(
            fs.drop_last()[i].remote_host,
        )
        &&& entries.drop_last()[i].spec == (Forward {
            local_port: entries.drop_last()[i].port,
            ..fs.drop_last()[i]
        })
        &&& !fs.drop_last()[i].local_port_auto ==> entries.drop_last()[i].port
            == fs.drop_last()[i].local_port
    } by {
        assert(inputs.drop_last()[i] == inputs[i]);
    }
}

/// What a session remembers, the next session with the same defaults reads as the
/// forwards that were asked for, in the order of the local ports.
pub proof fn law_saved_session_resumes(set: Forwards, inputs: Seq<Seq<char>>, fs: Seq<Forward>)
    requires
        read_and_bound(set.entries, inputs, fs, set.default_bind, set.default_ns),
    ensures
        crate::config::readable_forwards(
            saved_forwards(set),
            set.default_bind,
            set.default_ns,
        ) == fs,
    decreases set.entries.len(),
{
    let saved = saved_forwards(set);
    let n = set.entries.len();
    if n == 0 {
        assert(fs =~= Seq::<Forward>::empty());
    } else {
        let rest = Forwards { entries: set.entries.drop_last(), ..set };
        lemma_read_and_bound_rest(set.entries, inputs, fs, set.default_bind, set.default_ns);
        law_saved_session_resumes(rest, inputs.drop_last(), fs.drop_last());
        assert(saved.drop_last() =~= saved_forwards(rest));
        assert(inputs[n - 1] == inputs.last());
        law_saved_forward_resumes(
            inputs.last(),
            set.default_bind,
            set.default_ns,
            fs.last(),
            set.entries.last().port,
        );
        assert(saved.last() == set.entries.last().spec.rendered(set.default_bind));
        assert(fs =~= fs.drop_last().push(fs.last()));
    }
}

/// A request for a default namespace is read as what it says: nothing, an empty text and
/// `host` as the agent's own, and a selector as the namespace that it names.
pub proof fn law_requested_ns(ns: Ns)
    requires
        ns.named(),
        ns != Ns::Host,
        crate::text::is_tight(ns.wire()),
    ensures
        requested_ns_of(None) == Ok::<Option<Ns>, SpecFault>(None),
        requested_ns_of(Some(Seq::empty())) == Ok::<Option<Ns>, SpecFault>(None),
        requested_ns_of(Some("host"@)) == Ok::<Option<Ns>, SpecFault>(None),
        requested_ns_of(Some(ns.wire())) == Ok::<Option<Ns>, SpecFault>(Some(ns)),
{
    reveal_strlit("host");
    let h = "host"@;
    assert(crate::text::is_tight(h));
    crate::text::lemma_trim_tight(h);
    assert(crate::text::trimmed(Seq::<char>::empty()).len() == 0);
    crate::text::lemma_trim_tight(ns.wire());
    crate::forward::law_ns_wire_roundtrip(ns);
    reveal_strlit("podman:");
    reveal_strlit("docker:");
    reveal_strlit("pid:");
    reveal_strlit("netns:");
    reveal_strlit("nspath:");
    if ns.wire() == h {
        assert(ns.wire()[0] == 'h');
    }
}

/// A bare number given to drop is a local port; anything else is a spec, and stands for
/// the local port that the spec gives.
pub proof fn law_drop_by_port_or_spec(set: Forwards, p: int, spec: Seq<char>)
    requires
        0 <= p <= 65535,
    ensures
        drop_port(crate::text::decimal(p), set) == Ok::<int, SpecFault>(p),
        crate::text::unsigned_value(crate::text::trimmed(spec), 65535) is Err ==> (match (
            crate::forward::forward_of(spec, set.default_bind, set.default_ns),
            drop_port(spec, set),
        ) {
            (Ok(f), Ok(q)) => q == f.local_port,
            (Err(e), Err(x)) => e == x,
            _ => false,
        }),
{
    let d = crate::text::decimal(p);
    crate::text::lemma_decimal_digits(p);
    crate::text::lemma_decimal_roundtrip(p, 65535);
    assert(crate::text::is_digit(d[0]));
    assert(crate::text::is_digit(d[d.len() - 1]));
    crate::text::lemma_trim_tight(d);
}

/// Dropping takes out the forward on that port and no other, is written back, and says
/// so; where no forward is on the port nothing changes, and an error is the answer.
pub proof fn law_drop_takes_one(
    p: int,
    before: Forwards,
    after: Forwards,
    d: Dispatched,
    other: int,
)
    requires
        0 <= p <= 65535,
        is_drop(crate::text::decimal(p), before, after, d),
        other != p,
    ensures
        d matches Dispatched::Answered(x),
        has_port(before.entries, p) ==> !has_port(after.entries, p),
        has_port(before.entries, other) ==> has_port(after.entries, other)
            && crate::client::on_port(after.entries, other) == crate::client::on_port(
            before.entries,
            other,
        ),
        has_port(after.entries, other) ==> has_port(before.entries, other),
        d matches Dispatched::Answered(x) ==> (x.persist <==> has_port(before.entries, p)) && (
        x.answer is Error <==> !has_port(before.entries, p)) && !x.shutdown,
        !has_port(before.entries, p) ==> after == before,
{
    law_drop_by_port_or_spec(before, p, crate::text::decimal(p));
    let m = before.map();
    let n = after.map();
    assert(m.contains_key(other) == has_port(before.entries, other));
    assert(n.contains_key(other) == has_port(after.entries, other));
    assert(n.contains_key(p) == has_port(after.entries, p));
    if has_port(before.entries, other) {
        assert(m[other] == crate::client::on_port(before.entries, other));
        assert(n.contains_key(other));
        assert(n[other] == crate::client::on_port(after.entries, other));
    }
}

/// A forward that is to be added is bound as its spec says: on ports of which none is in
/// use, on the one asked for alone where one was, and not at all where that one is taken.
pub proof fn law_add_binds_the_spec(spec: Seq<char>, set: Forwards, f: Forward)
    requires
        crate::forward::forward_of(spec, set.default_bind, set.default_ns) == Ok::<
            Forward,
            SpecFault,
        >(f),
    ensures
        add_decision(spec, set) matches Dispatched::Bind { spec: g, ports } ==> g == f
            && ports.len() > 0 && (forall|i: int|
            0 <= i < ports.len() ==> #[trigger] ports[i] == 0 || !has_port(set.entries, ports[i]))
            && (!f.local_port_auto ==> ports.len() == 1 && ports[0] == f.local_port),
        !(add_decision(spec, set) is Repoint),
        add_decision(spec, set) matches Dispatched::Answered(x) ==> x.answer is Error
            && !f.local_port_auto && has_port(set.entries, f.local_port),
        f.local_port_auto || !has_port(set.entries, f.local_port) ==> add_decision(
            spec,
            set,
        ) is Bind,
{
    crate::forward::law_ports_in_range(spec, set.default_bind, set.default_ns);
    if f.local_port_auto {
        crate::client::law_auto_port_plan(set, f);
    }
}

/// What is listed is what the session has: one line per forward, in the order of the
/// local ports, with the spec that names it, the place where it listens and its own
/// health; and nothing is changed or ended by looking.
pub proof fn law_list_shows_each(
    session: SessionView,
    set: Forwards,
    reverses: Reverses,
    with_state: bool,
    i: int,
)
    requires
        0 <= i < set.entries.len(),
    ensures
        ({
            let r = report(session, set, reverses, with_state);
            let shown = match r.answer {
                Answer::Forwards { entries, reverse, default_ns } => entries,
                Answer::StatusIs { state, agent_version, entries, reverse, default_ns } => entries,
                _ => Seq::empty(),
            };
            &&& !r.persist && !r.shutdown
            &&& r.answer is StatusIs <==> with_state
            &&& r.answer is Forwards <==> !with_state
            &&& shown.len() == set.entries.len()
            &&& shown[i].spec == set.entries[i].spec.rendered(set.default_bind)
            &&& shown[i].local == crate::forward::endpoint_text(
                set.entries[i].addr,
                set.entries[i].port,
            )
            &&& session.status is Connected ==> shown[i].health == health_text(
                true,
                crate::client::health_at(session.health@, set.entries[i].port).ok,
                crate::client::health_at(session.health@, set.entries[i].port).error,
            )
            &&& !(session.status is Connected) ==> shown[i].health == "session reconnecting"@
        }),
{
}

/// The same of the reverse forwards, in the order of the remote ports.
pub proof fn law_list_shows_each_reverse(
    session: SessionView,
    set: Forwards,
    reverses: Reverses,
    with_state: bool,
    i: int,
)
    requires
        0 <= i < reverses.entries.len(),
    ensures
        ({
            let r = report(session, set, reverses, with_state);
            let shown = match r.answer {
                Answer::Forwards { entries, reverse, default_ns } => reverse,
                Answer::StatusIs { state, agent_version, entries, reverse, default_ns } => reverse,
                _ => Seq::empty(),
            };
            let s = crate::reverse::sorted_by_port(reverses.entries);
            &&& shown.len() == s.len()
            &&& s.len() == reverses.entries.len()
            &&& shown[i].spec == s[i].spec.rendered()
            &&& shown[i].local == "R:"@ + crate::forward::endpoint_text(
                s[i].spec.remote_bind_addr,
                s[i].spec.remote_bind_port,
            )
            &&& session.status is Connected ==> shown[i].health == health_text(
                true,
                crate::client::health_at(session.reverse_health@, s[i].id as int).ok,
                crate::client::health_at(session.reverse_health@, s[i].id as int).error,
            )
        }),
{
    crate::reverse::lemma_sorted_len(reverses.entries);
}

/// The health of a forward tells an outage, a forward that nobody used, one that works
/// and one that failed from each other.
pub proof fn law_health_is_told(ok: int, error: Seq<char>)
    requires
        ok > 0,
    ensures
        health_text(false, ok, Some(error)) == health_text(false, 0, None),
        health_text(true, 0, None) == "idle"@,
        health_text(true, ok, None) == "ok ("@ + crate::text::decimal(ok) + " conns)"@,
        health_text(true, 0, Some(error)) == "last error: "@ + error,
        health_text(true, ok, Some(error)) == health_text(true, ok, None) + "; "@ + health_text(
            true,
            0,
            Some(error),
        ),
{
    reveal_strlit(" conns)");
    reveal_strlit("; ");
    reveal_strlit("last error: ");
    reveal_strlit(" conns); last error: ");
    let d = crate::text::decimal(ok);
    assert("ok ("@ + d + " conns); last error: "@ + error =~= "ok ("@ + d + " conns)"@ + "; "@ + (
    "last error: "@ + error));
}

/// A request for another default namespace binds anew the forwards whose spec named none
/// and that are elsewhere, and no other.
pub proof fn law_ns_change_moves_followers(ns: Ns, set: Forwards, p: int)
    requires
        set.wf(),
        ns.named(),
        ns != Ns::Host,
        crate::text::is_tight(ns.wire()),
    ensures
        ns_decision(Some(ns.wire()), set) matches Dispatched::Repoint { ns: n, ports } && n == Some(
            ns,
        ) && (ports.contains(p) <==> exists|i: int|
            0 <= i < set.entries.len() && (#[trigger] set.entries[i]).port == p
                && set.entries[i].spec.ns_inherited && set.entries[i].spec.ns != ns),
        ns_decision(None, set) matches Dispatched::Repoint { ns: n, ports } && n is None && (
        ports.contains(p) <==> exists|i: int|
            0 <= i < set.entries.len() && (#[trigger] set.entries[i]).port == p
                && set.entries[i].spec.ns_inherited && set.entries[i].spec.ns != Ns::Host),
{
    law_requested_ns(ns);
    crate::client::law_who_follows(set.entries, ns, p);
    crate::client::law_who_follows(set.entries, Ns::Host, p);
}

/// What is remembered of a session is one spec per forward and per reverse forward.
pub proof fn law_saved_each(set: Forwards, reverses: Reverses, i: int)
    ensures
        saved_forwards(set).len() == set.entries.len(),
        0 <= i < set.entries.len() ==> saved_forwards(set)[i] == set.entries[i].spec.rendered(
            set.default_bind,
        ),
        saved_reverses(reverses).len() == reverses.entries.len(),
        0 <= i < reverses.entries.len() ==> saved_reverses(reverses)[i]
            == crate::reverse::sorted_by_port(reverses.entries)[i].spec.rendered(),
{
    crate::reverse::lemma_sorted_len(reverses.entries);
}

/// A reverse forward is added unless one is on its address and port in its namespace;
/// the others stay, and every entry ever added has an id of its own.
pub proof fn law_reverse_add(
    input: Seq<char>,
    x: Reverse,
    before: Reverses,
    after: Reverses,
    d: Dispatched,
)
    requires
        before.wf(),
        before.version < u64::MAX,
        crate::forward::reverse_of(input) == Ok::<Reverse, SpecFault>(x),
        is_reverse_add(input, before, after, d),
    ensures
        d matches Dispatched::Answered(r),
        (exists|i: int|
            0 <= i < before.entries.len() && (#[trigger] before.entries[i]).spec.ns == x.ns
                && before.entries[i].spec.remote_bind_addr == x.remote_bind_addr
                && before.entries[i].spec.remote_bind_port == x.remote_bind_port) ==> after
            == before && (d matches Dispatched::Answered(r) && r.answer is Error && !r.persist),
        after != before ==> after.entries.len() == before.entries.len() + 1
            && after.entries.drop_last() == before.entries && after.entries.last().spec == x
            && after.entries.last().origin == Origin::UserAdded && after.version > before.version
            && (forall|i: int|
            0 <= i < before.entries.len() ==> (#[trigger] before.entries[i]).id
                != after.entries.last().id) && (d matches Dispatched::Answered(r) && r.persist),
        (forall|i: int|
            0 <= i < before.entries.len() ==> (#[trigger] before.entries[i]).spec.remote_bind_port
                != x.remote_bind_port) ==> after != before,
{
    if exists|i: int|
        0 <= i < before.entries.len() && (#[trigger] before.entries[i]).spec.ns == x.ns
            && before.entries[i].spec.remote_bind_addr == x.remote_bind_addr
            && before.entries[i].spec.remote_bind_port == x.remote_bind_port {
        let i = choose|i: int|
            0 <= i < before.entries.len() && (#[trigger] before.entries[i]).spec.ns == x.ns
                && before.entries[i].spec.remote_bind_addr == x.remote_bind_addr
                && before.entries[i].spec.remote_bind_port == x.remote_bind_port;
        assert(before.entries[i].spec.key() == x.key());
        assert(before.has_key(x.key()));
    }
    if !before.has_key(x.key()) {
        assert(after.entries.drop_last() =~= before.entries);
        assert(after.entries.len() != before.entries.len());
    }
}

/// The state of a session tells which of the three it is, and while it reconnects, the
/// attempt. A forward that was bound is said to be up only where the session is connected.
pub proof fn law_state_is_told(status: Status, local: Seq<char>)
    ensures
        state_words(status) == "connected"@ <==> status is Connected,
        state_words(status) == "bootstrapping"@ <==> status is Bootstrapping,
        status matches Status::Reconnecting { attempt } ==> state_words(status)
            == "reconnecting (attempt "@ + crate::text::decimal(attempt as int) + ")"@,
        status is Connected <==> added_words(status, local) == "forward up on "@ + local,
{
    reveal_strlit("connected");
    reveal_strlit("bootstrapping");
    reveal_strlit("reconnecting (attempt ");
    reveal_strlit(")");
    reveal_strlit("forward up on ");
    reveal_strlit("forward bound on ");
    let w = state_words(status);
    assert("connected"@.len() != "bootstrapping"@.len());
    match status {
        Status::Reconnecting { attempt } => {
            assert(w[0] == 'r');
            assert("connected"@[0] == 'c' && "bootstrapping"@[0] == 'b');
            assert(added_words(status, local)[8] == 'b');
            assert(("forward up on "@ + local)[8] == 'u');
        },
        Status::Bootstrapping => {
            assert(added_words(status, local)[8] == 'b');
            assert(("forward up on "@ + local)[8] == 'u');
        },
        Status::Connected => {},
    }
}

/// A report tells the state and the agent's version where it is asked for them, and the
/// default namespace always; it changes nothing and ends nothing.
pub proof fn law_report_is_true(
    session: SessionView,
    set: Forwards,
    reverses: Reverses,
    with_state: bool,
)
    ensures
        ({
            let r = report(session, set, reverses, with_state);
            &&& !r.shutdown && !r.persist
            &&& with_state <==> r.answer is StatusIs
            &&& r.answer matches Answer::StatusIs { state, agent_version, entries, reverse, default_ns } ==> state
                == state_words(session.status) && agent_version == session.agent_version@
                && default_ns == default_wire(set.default_ns) && entries.len() == set.entries.len()
            &&& !with_state ==> (r.answer matches Answer::Forwards { entries, reverse, default_ns }
                && default_ns == default_wire(set.default_ns) && entries.len()
                == set.entries.len())
            &&& default_wire(None).len() == 0
            &&& set.default_ns matches Some(n) ==> default_wire(set.default_ns) == n.wire()
        }),
{
}

/// Every failure of a move is told, behind how many forwards were moved.
pub proof fn law_failures_are_told(
    ns: Option<Ns>,
    moved: int,
    errors: Seq<Seq<char>>,
    i: int,
)
    requires
        0 <= i < errors.len(),
    ensures
        crate::text::has_part(repointed_words(ns, moved, errors), "; "@ + errors[i]),
        crate::text::has_part(
            repointed_words(ns, moved, errors),
            "re-pointed "@ + crate::text::decimal(moved) + " forward(s)"@,
        ),
{
    reveal_strlit("; re-pointed ");
    reveal_strlit("re-pointed ");
    let s = repointed_words(ns, moved, errors);
    let head = "default namespace is now "@ + ns_words(ns) + "; re-pointed "@
        + crate::text::decimal(moved) + " forward(s)"@;
    lemma_appended_has(errors, i);
    let t = "; "@ + errors[i];
    let at = choose|at: int| crate::text::occurs_at(appended(errors), t, at);
    let h: int = head.len() as int;
    assert(s =~= head + appended(errors));
    assert(s.subrange(h + at, h + at + t.len()) =~= appended(errors).subrange(at, at + t.len()));
    assert(crate::text::occurs_at(s, t, h + at));
    let m = "re-pointed "@ + crate::text::decimal(moved) + " forward(s)"@;
    let n: int = ("default namespace is now "@ + ns_words(ns)).len() as int + 2;
    assert(s.subrange(n, n + m.len()) =~= m);
    assert(crate::text::occurs_at(s, m, n));
}

proof fn lemma_appended_has(errors: Seq<Seq<char>>, i: int)
    requires
        0 <= i < errors.len(),
    ensures
        crate::text::has_part(appended(errors), "; "@ + errors[i]),
    decreases errors.len(),
{
    let d = errors.drop_last();
    let s = appended(errors);
    let r = appended(d);
    let t = "; "@ + errors[i];
    if i < d.len() {
        lemma_appended_has(d, i);
        let at = choose|at: int| crate::text::occurs_at(r, "; "@ + d[i], at);
        assert(s.subrange(at, at + t.len()) =~= r.subrange(at, at + t.len()));
        assert(crate::text::occurs_at(s, t, at));
    } else {
        let at: int = r.len() as int;
        assert(s.subrange(at, at + t.len()) =~= t);
        assert(crate::text::occurs_at(s, t, at));
    }
}

/// Dropping a reverse forward takes the first that is meant, and no other, and is a change
/// that is noticed by the version; where none is meant, all stays as it is and an error is
/// told.
pub proof fn law_reverse_drop(
    port: int,
    before: Reverses,
    after: Reverses,
    d: Dispatched,
    i: int,
)
    requires
        0 <= port <= 65535,
        before.version < u64::MAX,
        is_reverse_drop(crate::text::decimal(port), before, after, d),
    ensures
        0 <= i < before.entries.len() && before.entries[i].spec.remote_bind_port == port && (forall|
            j: int,
        |
            0 <= j < i ==> (#[trigger] before.entries[j]).spec.remote_bind_port != port)
            ==> after.entries == before.entries.remove(i) && after.version == before.version + 1 && (
        d matches Dispatched::Answered(r) && r.persist && !(r.answer is Error)),
        (forall|j: int|
            0 <= j < before.entries.len() ==> (#[trigger] before.entries[j]).spec.remote_bind_port
                != port) ==> after == before && (d matches Dispatched::Answered(r) && !r.persist
            && r.answer is Error),
{
    let n = crate::text::decimal(port);
    crate::text::lemma_decimal_digits(port);
    crate::text::lemma_decimal_roundtrip(port, 65535);
    assert(crate::text::is_digit(n[0]));
    assert(crate::text::is_digit(n[n.len() - 1]));
    crate::text::lemma_trim_tight(n);
    let t = remove_target(n);
    assert(t == crate::reverse::RemoveTarget::Port(port));
    if 0 <= i < before.entries.len() && before.entries[i].spec.remote_bind_port == port && (forall|
        j: int,
    |
        0 <= j < i ==> (#[trigger] before.entries[j]).spec.remote_bind_port != port) {
        assert(crate::reverse::first_target(before.entries, t, i));
        let k = choose|k: int| crate::reverse::first_target(before.entries, t, k);
        assert(crate::reverse::first_target(before.entries, t, k));
        assert(k == i) by {
            if k < i {
                assert(before.entries[k].spec.remote_bind_port == port);
            }
            if i < k {
                assert(crate::reverse::is_target(before.entries[i], t));
            }
        }
    }
}

} // verus!
