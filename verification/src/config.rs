//! What is remembered between sessions.
//!
//! Per-host state remembers the forward set a session ended with, stable
//! auto-forward port assignments, and auto-forward rules; a plain launch starts
//! from it, and live changes are written back. Named profiles hold the same for a
//! host under a name of the user's choice.

use crate::client::string_texts;
use crate::forward::{
    debug_str, Forward, ForwardSpec, Ns, NsSpec, Reverse, ReverseSpec,
};
use crate::net::IpAddr;
use crate::text::{dec, parse_unsigned, split, str_eq, to_chars, trim};
use vstd::prelude::*;

verus! {

// ---- rules -------------------------------------------------------------

/// One auto-forward rule: which discovered listeners to forward automatically.
#[derive(Debug, PartialEq, Eq)]
pub struct AutoForwardRule {
    /// Namespace selector in wire form (`""` or `"host"` = agent's host namespace).
    pub ns: String,
    /// Ports to match: `"*"`, a single port, or a comma-separated list.
    pub ports: String,
    /// Local port policy: `"same"` (mirror the remote port, fall back to a free
    /// port on collision) or `"auto"` (always pick a free port).
    pub local: String,
}

/// The model of an [`AutoForwardRule`].
#[verifier::ext_equal]
pub struct Rule {
    pub ns: Seq<char>,
    pub ports: Seq<char>,
    pub local: Seq<char>,
}

impl View for AutoForwardRule {
    type V = Rule;

    open spec fn view(&self) -> Rule {
        Rule { ns: self.ns@, ports: self.ports@, local: self.local@ }
    }
}

impl Clone for AutoForwardRule {
    fn clone(&self) -> (r: Self)
        ensures
            r@ == self@,
    {
        AutoForwardRule {
            ns: self.ns.clone(),
            ports: self.ports.clone(),
            local: self.local.clone(),
        }
    }
}

/// The ports of a rule that gives none: all of them.
pub fn default_ports() -> (r: String)
    ensures
        r@ == "*"@,
{
    "*".to_owned()
}

/// The local port policy of a rule that gives none.
pub fn default_local() -> (r: String)
    ensures
        r@ == "same"@,
{
    "same".to_owned()
}

/// Some entry of a comma-separated list is the number `port`.
pub open spec fn lists_port(ports: Seq<char>, port: int) -> bool {
    exists|k: int|
        0 <= k < crate::text::pieces(ports, ',').len() && crate::text::unsigned_value(
            crate::text::trimmed(#[trigger] crate::text::pieces(ports, ',')[k]),
            65535,
        ) == Ok::<int, crate::text::NumError>(port)
}

impl Rule {
    /// The rule speaks of the port in the namespace with this wire form.
    pub open spec fn covers(self, ns_wire: Seq<char>, port: int) -> bool {
        &&& (if self.ns == "host"@ {
            ns_wire.len() == 0
        } else {
            ns_wire == self.ns
        })
        &&& crate::text::trimmed(self.ports) == "*"@ || lists_port(self.ports, port)
    }
}

impl AutoForwardRule {
    /// Does this rule match a discovered listener?
    pub fn matches(&self, ns_wire: &str, port: u16) -> (r: bool)
        ensures
            r == self@.covers(ns_wire@, port as int),
    {
        let same_ns: bool = if str_eq(self.ns.as_str(), "host") {
            ns_wire.is_empty()
        } else {
            str_eq(ns_wire, self.ns.as_str())
        };
        if !same_ns {
            return false;
        }
        if str_eq(trim(self.ports.as_str()), "*") {
            return true;
        }
        let list: Vec<&str> = split(self.ports.as_str(), ',');
        let ghost p = crate::text::pieces(self.ports@, ',');
        let mut i: usize = 0;
        while i < list.len()
            invariant
                i <= list.len(),
                (if self.ns@ == "host"@ {
                    ns_wire@.len() == 0
                } else {
                    ns_wire@ == self.ns@
                }),
                p == crate::text::pieces(self.ports@, ','),
                crate::text::texts(list@) == p,
                forall|k: int|
                    0 <= k < i ==> crate::text::unsigned_value(
                        crate::text::trimmed(#[trigger] p[k]),
                        65535,
                    ) != Ok::<int, crate::text::NumError>(port as int),
            decreases list.len() - i,
        {
            assert(p[i as int] == list@[i as int]@);
            match parse_unsigned(trim(list[i]), 65535) {
                Ok(n) => {
                    if n == port as u64 {
                        return true;
                    }
                },
                Err(_) => {},
            }
            i = i + 1;
        }
        false
    }
}

/// The models of a list of rules.
pub open spec fn rules_of(v: Seq<AutoForwardRule>) -> Seq<Rule> {
    v.map_values(|r: AutoForwardRule| r@)
}

/// Copies a list of rules.
pub fn clone_rules(v: &Vec<AutoForwardRule>) -> (r: Vec<AutoForwardRule>)
    ensures
        rules_of(r@) == rules_of(v@),
{
    let mut r: Vec<AutoForwardRule> = Vec::new();
    let mut i: usize = 0;
    while i < v.len()
        invariant
            i <= v@.len(),
            rules_of(r@) == rules_of(v@).take(i as int),
        decreases v@.len() - i,
    {
        let ghost before = rules_of(r@);
        r.push(v[i].clone());
        proof {
            assert(rules_of(r@) =~= before.push(v@[i as int]@));
            assert(rules_of(v@).take(i + 1) =~= before.push(v@[i as int]@));
        }
        i = i + 1;
    }
    proof {
        assert(rules_of(v@).take(i as int) =~= rules_of(v@));
    }
    r
}

// ---- host state --------------------------------------------------------

/// The local port that a discovered listener keeps across sessions.
#[derive(Debug)]
pub struct Assignment {
    /// `"<ns>/<remote_port>"`.
    pub key: String,
    pub port: u16,
}

/// The local port that the list assigns to `key`: that of the first entry with
/// this key.
pub open spec fn assigned_in(v: Seq<Assignment>, key: Seq<char>) -> Option<u16>
    decreases v.len(),
{
    if v.len() == 0 {
        None
    } else if v[0].key@ == key {
        Some(v[0].port)
    } else {
        assigned_in(v.drop_first(), key)
    }
}

/// Everything remembered about one host between sessions.
#[derive(Debug)]
pub struct HostState {
    /// Forward specs the last session ended with.
    pub forwards: Vec<String>,
    /// Reverse forward specs the last session ended with.
    pub reverse_forwards: Vec<String>,
    /// Stable local-port assignments for auto-forwards.
    pub assignments: Vec<Assignment>,
    /// Auto-forward rules (opt-in; empty = discovery only reports, never binds).
    pub autoforward: Vec<AutoForwardRule>,
    /// Wire form of the session-default namespace; empty for none.
    pub default_ns: String,
    /// Whether the data plane of this host is carried over SSH.
    pub via_ssh: bool,
}

impl Default for HostState {
    fn default() -> (r: Self)
        ensures
            r.forwards@.len() == 0,
            r.reverse_forwards@.len() == 0,
            r.assignments@.len() == 0,
            r.autoforward@.len() == 0,
            r.default_ns@.len() == 0,
            !r.via_ssh,
    {
        HostState {
            forwards: Vec::new(),
            reverse_forwards: Vec::new(),
            assignments: Vec::new(),
            autoforward: Vec::new(),
            default_ns: String::new(),
            via_ssh: false,
        }
    }
}

/// The forwards of those specs of a list that parse, in order.
pub open spec fn readable_forwards(
    specs: Seq<Seq<char>>,
    bind: IpAddr,
    ns: Option<Ns>,
) -> Seq<Forward>
    decreases specs.len(),
{
    if specs.len() == 0 {
        Seq::empty()
    } else {
        let f = readable_forwards(specs.drop_last(), bind, ns);
        match crate::forward::forward_of(specs.last(), bind, ns) {
            Ok(x) => f.push(x),
            Err(_) => f,
        }
    }
}

/// The reverse forwards of those specs of a list that parse, in order.
pub open spec fn readable_reverses(specs: Seq<Seq<char>>) -> Seq<Reverse>
    decreases specs.len(),
{
    if specs.len() == 0 {
        Seq::empty()
    } else {
        let f = readable_reverses(specs.drop_last());
        match crate::forward::reverse_of(specs.last()) {
            Ok(x) => f.push(x),
            Err(_) => f,
        }
    }
}

/// The models of a list of forwards.
pub open spec fn forwards_of(v: Seq<ForwardSpec>) -> Seq<Forward> {
    v.map_values(|f: ForwardSpec| f@)
}

/// The models of a list of reverse forwards.
pub open spec fn reverses_of(v: Seq<ReverseSpec>) -> Seq<Reverse> {
    v.map_values(|f: ReverseSpec| f@)
}

/// The namespace that a remembered wire form stands for: none where it is empty, is
/// no selector, or would mean something else by now.
pub open spec fn remembered_ns_of(wire: Seq<char>) -> Option<Ns> {
    match crate::forward::ns_of_wire(wire) {
        Ok(ns) => if ns is Host || ns is Pid {
            None
        } else {
            Some(ns)
        },
        Err(_) => None,
    }
}

/// What is remembered of a session-default namespace: its wire form where it will
/// mean the same in the next session, else nothing.
pub open spec fn ns_to_remember(ns: Option<Ns>) -> Seq<char> {
    match ns {
        Some(n) => if n is Pid {
            Seq::empty()
        } else {
            n.wire()
        },
        None => Seq::empty(),
    }
}

/// What is remembered of a session-default namespace.
pub fn remember_ns(ns: &Option<NsSpec>) -> (r: String)
    ensures
        r@ == ns_to_remember(crate::client::opt_ns(*ns)),
{
    match ns {
        Some(n) => {
            if n.is_stable() {
                n.to_wire()
            } else {
                String::new()
            }
        },
        None => String::new(),
    }
}

/// A default namespace by process id is never remembered; any other that names
/// something comes back in the next session.
pub proof fn law_default_ns_remembered(ns: Ns)
    requires
        ns.named(),
        ns != Ns::Host,
    ensures
        ns is Pid ==> remembered_ns_of(ns_to_remember(Some(ns))) is None,
        !(ns is Pid) ==> remembered_ns_of(ns_to_remember(Some(ns))) == Some(ns),
{
    crate::forward::law_ns_wire_roundtrip(ns);
}

/// The key of a discovered listener.
pub open spec fn key_of(ns_wire: Seq<char>, remote_port: int) -> Seq<char> {
    ns_wire + "/"@ + crate::text::decimal(remote_port)
}

impl HostState {
    /// The remembered forwards that still parse.
    pub fn parsed_forwards(&self, default_bind: IpAddr, default_ns: Option<&NsSpec>) -> (r: Vec<
        ForwardSpec,
    >)
        ensures
            forwards_of(r@) == readable_forwards(
                string_texts(self.forwards@),
                default_bind,
                crate::forward::ns_view(default_ns),
            ),
    {
        let ghost specs = string_texts(self.forwards@);
        let ghost ns = crate::forward::ns_view(default_ns);
        let mut r: Vec<ForwardSpec> = Vec::new();
        let mut i: usize = 0;
        proof {
            assert(specs.take(0) =~= Seq::<Seq<char>>::empty());
            assert(forwards_of(r@) =~= Seq::<Forward>::empty());
        }
        while i < self.forwards.len()
            invariant
                i <= self.forwards@.len(),
                specs == string_texts(self.forwards@),
                ns == crate::forward::ns_view(default_ns),
                forwards_of(r@) == readable_forwards(specs.take(i as int), default_bind, ns),
            decreases self.forwards@.len() - i,
        {
            let ghost before = forwards_of(r@);
            proof {
                assert(specs.take(i + 1).drop_last() =~= specs.take(i as int));
                assert(specs.take(i + 1).last() == self.forwards@[i as int]@);
            }
            match ForwardSpec::parse_with_defaults(
                self.forwards[i].as_str(),
                default_bind,
                default_ns,
            ) {
                Ok(f) => {
                    r.push(f);
                    proof {
                        assert(forwards_of(r@) =~= before.push(f@));
                    }
                },
                Err(_) => {},
            }
            i = i + 1;
        }
        proof {
            assert(specs.take(i as int) =~= specs);
        }
        r
    }

    /// The remembered reverse forwards that still parse.
    pub fn parsed_reverse_forwards(&self) -> (r: Vec<ReverseSpec>)
        ensures
            reverses_of(r@) == readable_reverses(string_texts(self.reverse_forwards@)),
    {
        let ghost specs = string_texts(self.reverse_forwards@);
        let mut r: Vec<ReverseSpec> = Vec::new();
        let mut i: usize = 0;
        proof {
            assert(specs.take(0) =~= Seq::<Seq<char>>::empty());
            assert(reverses_of(r@) =~= Seq::<Reverse>::empty());
        }
        while i < self.reverse_forwards.len()
            invariant
                i <= self.reverse_forwards@.len(),
                specs == string_texts(self.reverse_forwards@),
                reverses_of(r@) == readable_reverses(specs.take(i as int)),
            decreases self.reverse_forwards@.len() - i,
        {
            let ghost before = reverses_of(r@);
            proof {
                assert(specs.take(i + 1).drop_last() =~= specs.take(i as int));
                assert(specs.take(i + 1).last() == self.reverse_forwards@[i as int]@);
            }
            match ReverseSpec::parse(self.reverse_forwards[i].as_str()) {
                Ok(f) => {
                    r.push(f);
                    proof {
                        assert(reverses_of(r@) =~= before.push(f@));
                    }
                },
                Err(_) => {},
            }
            i = i + 1;
        }
        proof {
            assert(specs.take(i as int) =~= specs);
        }
        r
    }

    /// The remembered session-default namespace, where it still means something.
    pub fn parsed_default_ns(&self) -> (r: Option<NsSpec>)
        ensures
            crate::client::opt_ns(r) == remembered_ns_of(self.default_ns@),
    {
        match NsSpec::from_wire(self.default_ns.as_str()) {
            Ok(ns) => {
                if ns.is_host() || !ns.is_stable() {
                    None
                } else {
                    Some(ns)
                }
            },
            Err(_) => None,
        }
    }

    /// The assignment key for a discovered listener.
    pub fn assignment_key(ns_wire: &str, remote_port: u16) -> (r: String)
        ensures
            r@ == key_of(ns_wire@, remote_port as int),
    {
        ns_wire.to_owned().concat("/").concat(dec(remote_port as u64).as_str())
    }

    /// The local port assigned to `key`, if any.
    pub fn assigned(&self, key: &str) -> (r: Option<u16>)
        ensures
            r == assigned_in(self.assignments@, key@),
    {
        let mut i: usize = 0;
        proof {
            assert(self.assignments@.skip(0) =~= self.assignments@);
        }
        while i < self.assignments.len()
            invariant
                i <= self.assignments@.len(),
                assigned_in(self.assignments@, key@) == assigned_in(
                    self.assignments@.skip(i as int),
                    key@,
                ),
            decreases self.assignments@.len() - i,
        {
            proof {
                assert(self.assignments@.skip(i as int)[0] == self.assignments@[i as int]);
                assert(self.assignments@.skip(i as int).drop_first() =~= self.assignments@.skip(
                    i + 1,
                ));
            }
            if str_eq(self.assignments[i].key.as_str(), key) {
                return Some(self.assignments[i].port);
            }
            i = i + 1;
        }
        None
    }

    /// Assigns a local port to `key`, in place of what was assigned to it.
    pub fn assign(&mut self, key: String, port: u16)
        ensures
            forall|k: Seq<char>|
                #![trigger assigned_in(final(self).assignments@, k)]
                assigned_in(final(self).assignments@, k) == (if k == key@ {
                    Some(port)
                } else {
                    assigned_in(old(self).assignments@, k)
                }),
            final(self).forwards == old(self).forwards,
            final(self).reverse_forwards == old(self).reverse_forwards,
            final(self).autoforward == old(self).autoforward,
            final(self).default_ns == old(self).default_ns,
            final(self).via_ssh == old(self).via_ssh,
    {
        let ghost before = self.assignments@;
        let ghost name = key@;
        self.assignments.insert(0, Assignment { key, port });
        proof {
            assert(self.assignments@.drop_first() =~= before);
        }
        let mut i: usize = 1;
        // Drop what the new entry shadows, so that the list does not grow.
        while i < self.assignments.len()
            invariant
                1 <= i <= self.assignments@.len(),
                self.assignments@[0].key@ == name,
                self.assignments@[0].port == port,
                forall|k: Seq<char>|
                    k != name ==> #[trigger] assigned_in(self.assignments@, k) == assigned_in(
                        before,
                        k,
                    ),
                self.forwards == old(self).forwards,
                self.reverse_forwards == old(self).reverse_forwards,
                self.autoforward == old(self).autoforward,
                self.default_ns == old(self).default_ns,
                self.via_ssh == old(self).via_ssh,
            decreases self.assignments@.len() - i,
        {
            if str_eq(self.assignments[i].key.as_str(), self.assignments[0].key.as_str()) {
                let ghost cur = self.assignments@;
                let _ = self.assignments.remove(i);
                proof {
                    assert forall|k: Seq<char>| k != name implies #[trigger] assigned_in(
                        self.assignments@,
                        k,
                    ) == assigned_in(before, k) by {
                        lemma_drop_shadowed(cur, i as int, k);
                        assert(assigned_in(cur, k) == assigned_in(before, k));
                    }
                }
            } else {
                i = i + 1;
            }
        }
    }

    /// Remembers that the data plane of this host is carried over SSH.
    pub fn remember_via_ssh(&mut self)
        ensures
            *final(self) == (HostState { via_ssh: true, ..*old(self) }),
    {
        self.via_ssh = true;
    }

    /// Forgets that choice; says whether there was anything to forget.
    pub fn forget_via_ssh(&mut self) -> (r: bool)
        ensures
            r == old(self).via_ssh,
            *final(self) == (HostState { via_ssh: false, ..*old(self) }),
    {
        let was = self.via_ssh;
        self.via_ssh = false;
        was
    }
}

proof fn lemma_drop_shadowed(v: Seq<Assignment>, i: int, k: Seq<char>)
    requires
        0 <= i < v.len(),
        v[i].key@ != k,
    ensures
        assigned_in(v.remove(i), k) == assigned_in(v, k),
    decreases v.len(),
{
    if i == 0 {
        assert(v.remove(0) =~= v.drop_first());
    } else {
        lemma_drop_shadowed(v.drop_first(), i - 1, k);
        assert(v.remove(i).drop_first() =~= v.drop_first().remove(i - 1));
        assert(v.remove(i)[0] == v[0]);
    }
}

// ---- profiles ----------------------------------------------------------

/// A named profile: a host plus its forward set and rules.
#[derive(Debug)]
pub struct Profile {
    /// SSH host.
    pub host: String,
    pub forwards: Vec<String>,
    pub reverse_forwards: Vec<String>,
    pub autoforward: Vec<AutoForwardRule>,
    pub via_ssh: bool,
}

/// A profile under its name.
#[derive(Debug)]
pub struct NamedProfile {
    pub name: String,
    pub profile: Profile,
}

/// All profiles.
#[derive(Debug)]
pub struct Config {
    pub profiles: Vec<NamedProfile>,
}

impl Default for Config {
    fn default() -> (r: Self)
        ensures
            r.profiles@.len() == 0,
    {
        Config { profiles: Vec::new() }
    }
}

impl Config {
    /// The place of the first profile with this name.
    pub open spec fn is_at(self, name: Seq<char>, i: int) -> bool {
        &&& 0 <= i < self.profiles@.len()
        &&& self.profiles@[i].name@ == name
        &&& forall|j: int| 0 <= j < i ==> (#[trigger] self.profiles@[j]).name@ != name
    }

    /// There is a profile with this name.
    pub open spec fn has(self, name: Seq<char>) -> bool {
        exists|i: int| 0 <= i < self.profiles@.len() && (#[trigger] self.profiles@[i]).name@ == name
    }

    /// The place of the profile with this name.
    pub fn find(&self, name: &str) -> (r: Option<usize>)
        ensures
            match r {
                Some(i) => self.is_at(name@, i as int) && self.has(name@),
                None => !self.has(name@),
            },
    {
        let mut i: usize = 0;
        while i < self.profiles.len()
            invariant
                i <= self.profiles@.len(),
                forall|j: int| 0 <= j < i ==> (#[trigger] self.profiles@[j]).name@ != name@,
            decreases self.profiles@.len() - i,
        {
            if str_eq(self.profiles[i].name.as_str(), name) {
                assert(self.profiles@[i as int].name@ == name@);
                return Some(i);
            }
            i = i + 1;
        }
        None
    }

    /// The profile with this name.
    pub fn get(&self, name: &str) -> (r: Option<&Profile>)
        ensures
            match r {
                Some(p) => exists|i: int|
                    #[trigger] self.is_at(name@, i) && *p == self.profiles@[i].profile,
                None => !self.has(name@),
            },
    {
        match self.find(name) {
            Some(i) => {
                assert(self.is_at(name@, i as int));
                Some(&self.profiles[i].profile)
            },
            None => None,
        }
    }
}

/// Where live changes are written back to.
#[derive(Debug)]
pub enum PersistTarget {
    /// Per-host state (plain launches).
    HostState { host: String },
    /// A named profile (launches of that profile).
    Profile { name: String },
}

/// What a session has to remember.
#[derive(Debug)]
pub struct SessionRecord {
    pub forwards: Vec<String>,
    pub reverse_forwards: Vec<String>,
    /// Wire form of the default namespace to remember; empty for none.
    pub default_ns: String,
}

/// The profile that a session writes back to is gone.
#[derive(Debug, PartialEq, Eq)]
pub struct ProfileVanished {
    pub name: String,
}

impl ProfileVanished {
    /// The message for this error.
    pub fn message(&self) -> (r: String)
        ensures
            r@ == "profile "@ + crate::forward::debug_text(self.name@)
                + " vanished from config.toml"@,
    {
        String::from_str("profile ").concat(debug_str(self.name.as_str()).as_str()).concat(
            " vanished from config.toml",
        )
    }
}

impl PersistTarget {
    /// Replaces what is persisted of the forwards by what the session has now;
    /// everything else stays. A profile keeps no default namespace. Only the store
    /// that this target names is changed.
    pub fn save_forwards(
        &self,
        state: &mut HostState,
        config: &mut Config,
        record: SessionRecord,
    ) -> (r: Result<(), ProfileVanished>)
        ensures
            match *self {
                PersistTarget::HostState { host } => {
                    &&& r is Ok
                    &&& *final(state) == (HostState {
                        forwards: record.forwards,
                        reverse_forwards: record.reverse_forwards,
                        default_ns: record.default_ns,
                        ..*old(state)
                    })
                    &&& *final(config) == *old(config)
                },
                PersistTarget::Profile { name } => {
                    &&& *final(state) == *old(state)
                    &&& r is Ok <==> old(config).has(name@)
                    &&& r matches Err(e) ==> e.name@ == name@ && *final(config) == *old(config)
                    &&& r is Ok ==> final(config).profiles@.len() == old(config).profiles@.len()
                    &&& forall|i: int| #[trigger]
                        old(config).is_at(name@, i) ==> final(config).profiles@
                            == old(config).profiles@.update(
                            i,
                            (NamedProfile {
                                profile: (Profile {
                                    forwards: record.forwards,
                                    reverse_forwards: record.reverse_forwards,
                                    ..old(config).profiles@[i].profile
                                }),
                                ..old(config).profiles@[i]
                            }),
                        )
                },
            },
    {
        match self {
            PersistTarget::HostState { .. } => {
                state.forwards = record.forwards;
                state.reverse_forwards = record.reverse_forwards;
                state.default_ns = record.default_ns;
                Ok(())
            },
            PersistTarget::Profile { name } => match config.find(name.as_str()) {
                None => Err(ProfileVanished { name: name.clone() }),
                Some(i) => {
                    let ghost before = config.profiles@;
                    let mut p = config.profiles.remove(i);
                    let ghost q = p;
                    p.profile.forwards = record.forwards;
                    p.profile.reverse_forwards = record.reverse_forwards;
                    let ghost now = p;
                    config.profiles.insert(i, p);
                    proof {
                        assert(config.profiles@ =~= before.update(i as int, now));
                        assert forall|j: int| #[trigger]
                            old(config).is_at(name@, j) implies j == i by {
                            if j < i {
                                assert(before[j].name@ != name@);
                            } else if i < j {
                                assert(before[i as int].name@ != name@);
                            }
                        }
                    }
                    Ok(())
                },
            },
        }
    }
}

// ---- file names --------------------------------------------------------

/// A character that may stand in a file name.
pub open spec fn is_safe(c: char) -> bool {
    'a' <= c <= 'z' || 'A' <= c <= 'Z' || '0' <= c <= '9' || c == '.' || c == '-' || c == '_'
}

/// A host with every character that a file name should not hold replaced by an
/// underscore.
pub open spec fn sanitized(host: Seq<char>) -> Seq<char> {
    host.map_values(
        |c: char|
            if is_safe(c) {
                c
            } else {
                '_'
            },
    )
}

/// Makes a host string filesystem-safe.
pub fn sanitize(host: &str) -> (r: String)
    ensures
        r@ == sanitized(host@),
{
    let cs: Vec<char> = to_chars(host);
    let mut s: String = String::new();
    let mut i: usize = 0;
    while i < cs.len()
        invariant
            i <= cs@.len(),
            cs@ == host@,
            s@ == sanitized(host@).take(i as int),
        decreases cs@.len() - i,
    {
        let c: char = cs[i];
        let ghost before = s@;
        if (c >= 'a' && c <= 'z') || (c >= 'A' && c <= 'Z') || (c >= '0' && c <= '9') || c == '.'
            || c == '-' {
            s.push(c);
        } else {
            s.push('_');
        }
        proof {
            assert(s@ =~= sanitized(host@).take(i + 1));
        }
        i = i + 1;
    }
    proof {
        assert(sanitized(host@).take(i as int) =~= sanitized(host@));
    }
    s
}

/// The name of the file that holds the state of `host`.
pub fn state_file(host: &str) -> (r: String)
    ensures
        r@ == sanitized(host@) + ".toml"@,
{
    sanitize(host).concat(".toml")
}

/// The name of the control socket of the session for `host`.
pub fn socket_file(host: &str) -> (r: String)
    ensures
        r@ == sanitized(host@) + ".sock"@,
{
    sanitize(host).concat(".sock")
}

/// A sanitized host is safe (it cannot leave its directory), as long as it was, and
/// stays as it is when sanitized again.
pub proof fn law_sanitize(host: Seq<char>)
    ensures
        sanitized(host).len() == host.len(),
        forall|i: int| 0 <= i < host.len() ==> is_safe(#[trigger] sanitized(host)[i]),
        !sanitized(host).contains('/'),
        sanitized(sanitized(host)) == sanitized(host),
{
    assert(sanitized(sanitized(host)) =~= sanitized(host));
}

/// A rule speaks of one namespace: the one it names, or the agent's own for `host`.
pub proof fn law_rule_namespace(rule: Rule, ns_wire: Seq<char>, port: int)
    ensures
        rule.covers(ns_wire, port) && rule.ns == "host"@ ==> ns_wire.len() == 0,
        rule.covers(ns_wire, port) && rule.ns != "host"@ ==> ns_wire == rule.ns,
        rule.covers(ns_wire, port) && rule.ns != "host"@ ==> (Rule {
            ns: "host"@,
            ..rule
        }).covers(Seq::empty(), port),
        (Rule { ns: Seq::empty(), ..rule }).covers(Seq::empty(), port) <==> (Rule {
            ns: "host"@,
            ..rule
        }).covers(Seq::empty(), port),
{
    reveal_strlit("host");
}

/// A rule with `*` speaks of every port, one with a number of that port alone.
pub proof fn law_rule_ports(ns: Seq<char>, local: Seq<char>, p: int, port: int)
    requires
        0 <= p <= 65535,
        ns != "host"@,
    ensures
        (Rule { ns, ports: "*"@, local }).covers(ns, port),
        (Rule { ns, ports: crate::text::decimal(p), local }).covers(ns, port) <==> port == p,
{
    reveal_strlit("*");
    assert("*"@ =~= seq!['*']);
    crate::text::lemma_trim_tight("*"@);
    let d = crate::text::decimal(p);
    crate::text::lemma_decimal_digits(p);
    crate::text::lemma_decimal_roundtrip(p, 65535);
    assert(crate::text::is_tight(d)) by {
        assert(crate::text::is_digit(d[0]));
        assert(crate::text::is_digit(d[d.len() - 1]));
    }
    crate::text::lemma_trim_tight(d);
    assert(!d.contains(',')) by {
        assert forall|i: int| 0 <= i < d.len() implies d[i] != ',' by {
            assert(crate::text::is_digit(d[i]));
        }
    }
    crate::text::lemma_pieces_single(d, ',');
    assert(crate::text::pieces(d, ',')[0] == d);
    if d == "*"@ {
        assert(crate::text::is_digit(d[0]));
        assert(d[0] == '*');
    }
}

/// A list of ports speaks of what either part of it speaks of.
pub proof fn law_rule_port_list(a: Seq<char>, b: Seq<char>, port: int)
    ensures
        lists_port(a + seq![','] + b, port) <==> lists_port(a, port) || lists_port(b, port),
{
    let s = a + seq![','] + b;
    let p = crate::text::pieces(s, ',');
    let x = crate::text::pieces(a, ',');
    let y = crate::text::pieces(b, ',');
    crate::text::lemma_pieces_join(a, ',', b);
    if lists_port(a, port) {
        let k = choose|k: int|
            0 <= k < x.len() && crate::text::unsigned_value(
                crate::text::trimmed(#[trigger] x[k]),
                65535,
            ) == Ok::<int, crate::text::NumError>(port);
        assert(p[k] == x[k]);
    }
    if lists_port(b, port) {
        let k = choose|k: int|
            0 <= k < y.len() && crate::text::unsigned_value(
                crate::text::trimmed(#[trigger] y[k]),
                65535,
            ) == Ok::<int, crate::text::NumError>(port);
        assert(p[x.len() + k] == y[k]);
    }
    if lists_port(s, port) {
        let k = choose|k: int|
            0 <= k < p.len() && crate::text::unsigned_value(
                crate::text::trimmed(#[trigger] p[k]),
                65535,
            ) == Ok::<int, crate::text::NumError>(port);
        if k < x.len() {
            assert(p[k] == x[k]);
        } else {
            assert(p[k] == y[k - x.len()]);
        }
    }
}

/// The local port that is found for a key is that of the first entry with the key, and
/// where none is found no entry has it.
pub proof fn law_assignment_found(v: Seq<Assignment>, key: Seq<char>)
    ensures
        match assigned_in(v, key) {
            Some(p) => exists|i: int|
                0 <= i < v.len() && (#[trigger] v[i]).key@ == key && v[i].port == p && forall|j: int|
                    0 <= j < i ==> (#[trigger] v[j]).key@ != key,
            None => forall|j: int| 0 <= j < v.len() ==> (#[trigger] v[j]).key@ != key,
        },
    decreases v.len(),
{
    if v.len() > 0 {
        if v[0].key@ == key {
            assert(v[0].key@ == key && v[0].port == assigned_in(v, key)->Some_0);
        } else {
            let t = v.drop_first();
            law_assignment_found(t, key);
            match assigned_in(t, key) {
                Some(p) => {
                    let i = choose|i: int|
                        0 <= i < t.len() && (#[trigger] t[i]).key@ == key && t[i].port == p
                            && forall|j: int| 0 <= j < i ==> (#[trigger] t[j]).key@ != key;
                    assert(v[i + 1] == t[i]);
                    assert forall|j: int| 0 <= j < i + 1 implies (#[trigger] v[j]).key@ != key by {
                        if j > 0 {
                            assert(v[j] == t[j - 1]);
                        }
                    }
                },
                None => {
                    assert forall|j: int| 0 <= j < v.len() implies (#[trigger] v[j]).key@ != key by {
                        if j > 0 {
                            assert(v[j] == t[j - 1]);
                        }
                    }
                },
            }
        }
    }
}

/// Listeners in different namespaces or on different ports have different keys.
pub proof fn law_keys_tell_apart(a: Seq<char>, p: int, b: Seq<char>, q: int)
    requires
        0 <= p <= 65535,
        0 <= q <= 65535,
        key_of(a, p) == key_of(b, q),
    ensures
        a == b,
        p == q,
{
    reveal_strlit("/");
    let x = crate::text::decimal(p);
    let y = crate::text::decimal(q);
    let k = key_of(a, p);
    let m = key_of(b, q);
    crate::text::lemma_decimal_digits(p);
    crate::text::lemma_decimal_digits(q);
    crate::text::lemma_decimal_roundtrip(p, 65535);
    crate::text::lemma_decimal_roundtrip(q, 65535);
    assert(k.len() == a.len() + 1 + x.len());
    assert(m.len() == b.len() + 1 + y.len());
    assert(k[a.len() as int] == '/');
    assert(m[b.len() as int] == '/');
    if a.len() < b.len() {
        let i = b.len() - a.len() - 1;
        assert(k[b.len() as int] == x[i]);
        assert(crate::text::is_digit(x[i]));
    } else if b.len() < a.len() {
        let i = a.len() - b.len() - 1;
        assert(m[a.len() as int] == y[i]);
        assert(crate::text::is_digit(y[i]));
    }
    assert(k.take(a.len() as int) =~= a);
    assert(m.take(b.len() as int) =~= b);
    assert(k.skip(a.len() as int + 1) =~= x);
    assert(m.skip(b.len() as int + 1) =~= y);
}

/// What is remembered is read spec by spec: each that parses gives its forward, in its
/// place, and one that does not is passed over.
pub proof fn law_remembered_one_by_one(
    a: Seq<Seq<char>>,
    b: Seq<Seq<char>>,
    spec: Seq<char>,
    bind: IpAddr,
    ns: Option<Ns>,
)
    ensures
        readable_forwards(a + b, bind, ns) == readable_forwards(a, bind, ns) + readable_forwards(
            b,
            bind,
            ns,
        ),
        readable_forwards(seq![spec], bind, ns) == (match crate::forward::forward_of(
            spec,
            bind,
            ns,
        ) {
            Ok(f) => seq![f],
            Err(_) => Seq::empty(),
        }),
    decreases b.len(),
{
    let one = seq![spec];
    assert(one.drop_last() =~= Seq::<Seq<char>>::empty());
    assert(readable_forwards(one.drop_last(), bind, ns) =~= Seq::<Forward>::empty());
    assert(readable_forwards(one, bind, ns) =~= (match crate::forward::forward_of(spec, bind, ns) {
        Ok(f) => seq![f],
        Err(_) => Seq::empty(),
    }));
    if b.len() == 0 {
        assert(a + b =~= a);
        assert(readable_forwards(a, bind, ns) + readable_forwards(b, bind, ns)
            =~= readable_forwards(a, bind, ns));
    } else {
        law_remembered_one_by_one(a, b.drop_last(), spec, bind, ns);
        assert((a + b).drop_last() =~= a + b.drop_last());
        assert((a + b).last() == b.last());
        assert(readable_forwards(a + b, bind, ns) =~= readable_forwards(a, bind, ns)
            + readable_forwards(b, bind, ns));
    }
}

/// The same of the remembered reverse forwards.
pub proof fn law_remembered_reverses_one_by_one(
    a: Seq<Seq<char>>,
    b: Seq<Seq<char>>,
    spec: Seq<char>,
)
    ensures
        readable_reverses(a + b) == readable_reverses(a) + readable_reverses(b),
        readable_reverses(seq![spec]) == (match crate::forward::reverse_of(spec) {
            Ok(f) => seq![f],
            Err(_) => Seq::empty(),
        }),
    decreases b.len(),
{
    let one = seq![spec];
    assert(one.drop_last() =~= Seq::<Seq<char>>::empty());
    assert(readable_reverses(one.drop_last()) =~= Seq::<Reverse>::empty());
    assert(readable_reverses(one) =~= (match crate::forward::reverse_of(spec) {
        Ok(f) => seq![f],
        Err(_) => Seq::empty(),
    }));
    if b.len() == 0 {
        assert(a + b =~= a);
        assert(readable_reverses(a) + readable_reverses(b) =~= readable_reverses(a));
    } else {
        law_remembered_reverses_one_by_one(a, b.drop_last(), spec);
        assert((a + b).drop_last() =~= a + b.drop_last());
        assert((a + b).last() == b.last());
        assert(readable_reverses(a + b) =~= readable_reverses(a) + readable_reverses(b));
    }
}

/// Letters, digits, dots, hyphens and underscores stay as they are, and every other
/// character becomes an underscore.
pub proof fn law_sanitized_characters(host: Seq<char>, i: int)
    requires
        0 <= i < host.len(),
    ensures
        ({
            let c = host[i];
            let kept = ('a' <= c <= 'z') || ('A' <= c <= 'Z') || ('0' <= c <= '9') || c == '.' || c
                == '-' || c == '_';
            &&& kept ==> sanitized(host)[i] == c
            &&& !kept ==> sanitized(host)[i] == '_'
        }),
{
}

/// A profile is found by its name: where several have it, the first; and there is one to be
/// found exactly where some profile has the name.
pub proof fn law_profile_by_name(config: Config, name: Seq<char>, i: int)
    ensures
        config.is_at(name, i) ==> config.profiles@[i].name@ == name && forall|j: int|
            0 <= j < i ==> (#[trigger] config.profiles@[j]).name@ != name,
        0 <= i < config.profiles@.len() && config.profiles@[i].name@ == name ==> exists|k: int|
            k <= i && #[trigger] config.is_at(name, k),
    decreases i,
{
    if 0 <= i < config.profiles@.len() && config.profiles@[i].name@ == name {
        if exists|j: int| 0 <= j < i && (#[trigger] config.profiles@[j]).name@ == name {
            let j = choose|j: int| 0 <= j < i && (#[trigger] config.profiles@[j]).name@ == name;
            law_profile_by_name(config, name, j);
        } else {
            assert(config.is_at(name, i));
        }
    }
}

} // verus!
