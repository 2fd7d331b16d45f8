//! How a session starts: which host it is for, which forwards it begins with, and
//! what it remembers of the choice of transport.
//!
//! Forwards come from the command line and from what is remembered for the host, or
//! from a named profile. What the command line says wins.

use crate::cli::RunArgs;
use crate::client::{opt_ns, opt_text, string_texts, Origin};
use crate::config::{
    clone_rules, forwards_of, reverses_of, AutoForwardRule, Config, HostState, PersistTarget,
    Profile,
};
use crate::control::{requested_ns, requested_ns_of};
use crate::error::{SpecError, SpecFault};
use crate::forward::{
    debug_str, debug_text, Forward, ForwardSpec, Ns, NsSpec, Reverse, ReverseSpec,
};
use crate::net::IpAddr;
use crate::text::{dec, str_eq};
use vstd::prelude::*;

verus! {

// ---- errors ------------------------------------------------------------

/// Why a session cannot start.
#[derive(Debug, PartialEq, Eq)]
pub enum LaunchError {
    /// There is no profile with this name.
    NoProfile(String),
    /// This profile has no host, and the command line names none.
    NoProfileHost(String),
    /// The command line names no host. The text is how to call the program.
    NoHost(String),
    /// A forward spec is wrong; with the profile that it stands in, if any.
    BadForward { profile: Option<String>, spec: String, error: SpecError },
    /// A reverse spec is wrong; with the profile that it stands in, if any.
    BadReverse { profile: Option<String>, spec: String, error: SpecError },
    /// What was given as the default namespace is none.
    BadNs(SpecError),
}

/// The model of a [`LaunchError`].
#[verifier::ext_equal]
pub enum LaunchFault {
    NoProfile(Seq<char>),
    NoProfileHost(Seq<char>),
    NoHost(Seq<char>),
    BadForward { profile: Option<Seq<char>>, spec: Seq<char>, error: SpecFault },
    BadReverse { profile: Option<Seq<char>>, spec: Seq<char>, error: SpecFault },
    BadNs(SpecFault),
}

impl View for LaunchError {
    type V = LaunchFault;

    open spec fn view(&self) -> LaunchFault {
        match self {
            LaunchError::NoProfile(s) => LaunchFault::NoProfile(s@),
            LaunchError::NoProfileHost(s) => LaunchFault::NoProfileHost(s@),
            LaunchError::NoHost(s) => LaunchFault::NoHost(s@),
            LaunchError::BadForward { profile, spec, error } => LaunchFault::BadForward {
                profile: opt_text(*profile),
                spec: spec@,
                error: error@,
            },
            LaunchError::BadReverse { profile, spec, error } => LaunchFault::BadReverse {
                profile: opt_text(*profile),
                spec: spec@,
                error: error@,
            },
            LaunchError::BadNs(e) => LaunchFault::BadNs(e@),
        }
    }
}

/// Where a wrong spec stands, in words.
pub open spec fn in_profile(profile: Option<Seq<char>>) -> Seq<char> {
    match profile {
        Some(name) => "in profile "@ + debug_text(name) + ": "@,
        None => Seq::empty(),
    }
}

impl LaunchFault {
    /// The message for this error.
    pub open spec fn text(self) -> Seq<char> {
        match self {
            LaunchFault::NoProfile(name) => "no profile "@ + debug_text(name)
                + " in config.toml"@,
            LaunchFault::NoProfileHost(name) => "profile "@ + debug_text(name)
                + " has no host and none was given on the CLI"@,
            LaunchFault::NoHost(usage) => "no host given; usage: "@ + usage,
            LaunchFault::BadForward { profile, spec, error } => in_profile(profile)
                + "invalid forward spec "@ + debug_text(spec) + ": "@ + error.text(),
            LaunchFault::BadReverse { profile, spec, error } => in_profile(profile)
                + "invalid reverse spec "@ + debug_text(spec) + ": "@ + error.text(),
            LaunchFault::BadNs(e) => e.text(),
        }
    }
}

fn bad_spec_text(profile: &Option<String>, head: &str, spec: &str, error: &SpecError) -> (r: String)
    ensures
        r@ == in_profile(opt_text(*profile)) + head@ + debug_text(spec@) + ": "@ + error@.text(),
{
    let mut r: String = String::new();
    match profile {
        Some(name) => {
            r.append("in profile ");
            r.append(debug_str(name.as_str()).as_str());
            r.append(": ");
        },
        None => {},
    }
    proof {
        assert(r@ =~= in_profile(opt_text(*profile)));
    }
    r.append(head);
    r.append(debug_str(spec).as_str());
    r.append(": ");
    r.append(error.message().as_str());
    r
}

impl LaunchError {
    /// The message for this error.
    pub fn message(&self) -> (r: String)
        ensures
            r@ == self@.text(),
    {
        match self {
            LaunchError::NoProfile(name) => String::from_str("no profile ").concat(
                debug_str(name.as_str()).as_str(),
            ).concat(" in config.toml"),
            LaunchError::NoProfileHost(name) => String::from_str("profile ").concat(
                debug_str(name.as_str()).as_str(),
            ).concat(" has no host and none was given on the CLI"),
            LaunchError::NoHost(usage) => String::from_str("no host given; usage: ").concat(
                usage.as_str(),
            ),
            LaunchError::BadForward { profile, spec, error } => bad_spec_text(
                profile,
                "invalid forward spec ",
                spec.as_str(),
                error,
            ),
            LaunchError::BadReverse { profile, spec, error } => bad_spec_text(
                profile,
                "invalid reverse spec ",
                spec.as_str(),
                error,
            ),
            LaunchError::BadNs(e) => e.message(),
        }
    }
}

// ---- parsing lists of specs --------------------------------------------

/// The forwards of a list of specs, or the first spec that is wrong.
pub open spec fn all_forwards(specs: Seq<Seq<char>>, bind: IpAddr, ns: Option<Ns>) -> Result<
    Seq<Forward>,
    (Seq<char>, SpecFault),
>
    decreases specs.len(),
{
    if specs.len() == 0 {
        Ok(Seq::empty())
    } else {
        match all_forwards(specs.drop_last(), bind, ns) {
            Err(e) => Err(e),
            Ok(v) => match crate::forward::forward_of(specs.last(), bind, ns) {
                Ok(f) => Ok(v.push(f)),
                Err(e) => Err((specs.last(), e)),
            },
        }
    }
}

/// The reverse forwards of a list of specs, or the first spec that is wrong.
pub open spec fn all_reverses(specs: Seq<Seq<char>>) -> Result<
    Seq<Reverse>,
    (Seq<char>, SpecFault),
>
    decreases specs.len(),
{
    if specs.len() == 0 {
        Ok(Seq::empty())
    } else {
        match all_reverses(specs.drop_last()) {
            Err(e) => Err(e),
            Ok(v) => match crate::forward::reverse_of(specs.last()) {
                Ok(f) => Ok(v.push(f)),
                Err(e) => Err((specs.last(), e)),
            },
        }
    }
}

proof fn lemma_first_bad_forward(specs: Seq<Seq<char>>, bind: IpAddr, ns: Option<Ns>, i: int)
    requires
        0 <= i <= specs.len(),
        all_forwards(specs.take(i), bind, ns) is Err,
    ensures
        all_forwards(specs, bind, ns) == all_forwards(specs.take(i), bind, ns),
    decreases specs.len() - i,
{
    if i < specs.len() {
        assert(specs.take(i + 1).drop_last() =~= specs.take(i));
        lemma_first_bad_forward(specs, bind, ns, i + 1);
    } else {
        assert(specs.take(i) =~= specs);
    }
}

proof fn lemma_first_bad_reverse(specs: Seq<Seq<char>>, i: int)
    requires
        0 <= i <= specs.len(),
        all_reverses(specs.take(i)) is Err,
    ensures
        all_reverses(specs) == all_reverses(specs.take(i)),
    decreases specs.len() - i,
{
    if i < specs.len() {
        assert(specs.take(i + 1).drop_last() =~= specs.take(i));
        lemma_first_bad_reverse(specs, i + 1);
    } else {
        assert(specs.take(i) =~= specs);
    }
}

/// Parses a list of forward specs, naming the first that is wrong.
pub fn parse_specs(specs: &Vec<String>, bind: IpAddr, ns: Option<&NsSpec>) -> (r: Result<
    Vec<ForwardSpec>,
    (String, SpecError),
>)
    ensures
        match r {
            Ok(v) => all_forwards(string_texts(specs@), bind, crate::forward::ns_view(ns)) == Ok::<
                Seq<Forward>,
                (Seq<char>, SpecFault),
            >(forwards_of(v@)),
            Err((s, e)) => all_forwards(string_texts(specs@), bind, crate::forward::ns_view(ns))
                == Err::<Seq<Forward>, (Seq<char>, SpecFault)>((s@, e@)),
        },
{
    let ghost texts = string_texts(specs@);
    let ghost n = crate::forward::ns_view(ns);
    let mut v: Vec<ForwardSpec> = Vec::new();
    let mut i: usize = 0;
    proof {
        assert(texts.take(0) =~= Seq::<Seq<char>>::empty());
        assert(forwards_of(v@) =~= Seq::<Forward>::empty());
    }
    while i < specs.len()
        invariant
            i <= specs@.len(),
            texts == string_texts(specs@),
            n == crate::forward::ns_view(ns),
            all_forwards(texts.take(i as int), bind, n) == Ok::<
                Seq<Forward>,
                (Seq<char>, SpecFault),
            >(forwards_of(v@)),
        decreases specs@.len() - i,
    {
        let ghost before = forwards_of(v@);
        proof {
            assert(texts.take(i + 1).drop_last() =~= texts.take(i as int));
            assert(texts.take(i + 1).last() == specs@[i as int]@);
        }
        match ForwardSpec::parse_with_defaults(specs[i].as_str(), bind, ns) {
            Err(e) => {
                proof {
                    lemma_first_bad_forward(texts, bind, n, i + 1);
                }
                return Err((specs[i].clone(), e));
            },
            Ok(f) => {
                v.push(f);
                proof {
                    assert(forwards_of(v@) =~= before.push(f@));
                }
            },
        }
        i = i + 1;
    }
    proof {
        assert(texts.take(i as int) =~= texts);
    }
    Ok(v)
}

/// Parses a list of reverse specs, naming the first that is wrong.
pub fn parse_reverse_specs(specs: &Vec<String>) -> (r: Result<
    Vec<ReverseSpec>,
    (String, SpecError),
>)
    ensures
        match r {
            Ok(v) => all_reverses(string_texts(specs@)) == Ok::<
                Seq<Reverse>,
                (Seq<char>, SpecFault),
            >(reverses_of(v@)),
            Err((s, e)) => all_reverses(string_texts(specs@)) == Err::<
                Seq<Reverse>,
                (Seq<char>, SpecFault),
            >((s@, e@)),
        },
{
    let ghost texts = string_texts(specs@);
    let mut v: Vec<ReverseSpec> = Vec::new();
    let mut i: usize = 0;
    proof {
        assert(texts.take(0) =~= Seq::<Seq<char>>::empty());
        assert(reverses_of(v@) =~= Seq::<Reverse>::empty());
    }
    while i < specs.len()
        invariant
            i <= specs@.len(),
            texts == string_texts(specs@),
            all_reverses(texts.take(i as int)) == Ok::<Seq<Reverse>, (Seq<char>, SpecFault)>(
                reverses_of(v@),
            ),
        decreases specs@.len() - i,
    {
        let ghost before = reverses_of(v@);
        proof {
            assert(texts.take(i + 1).drop_last() =~= texts.take(i as int));
            assert(texts.take(i + 1).last() == specs@[i as int]@);
        }
        match ReverseSpec::parse(specs[i].as_str()) {
            Err(e) => {
                proof {
                    lemma_first_bad_reverse(texts, i + 1);
                }
                return Err((specs[i].clone(), e));
            },
            Ok(f) => {
                v.push(f);
                proof {
                    assert(reverses_of(v@) =~= before.push(f@));
                }
            },
        }
        i = i + 1;
    }
    proof {
        assert(texts.take(i as int) =~= texts);
    }
    Ok(v)
}

// ---- merging -----------------------------------------------------------

/// The forwards of a list, all from the same source.
pub open spec fn tagged(s: Seq<Forward>, origin: Origin) -> Seq<(Forward, Origin)> {
    s.map_values(|f: Forward| (f, origin))
}

/// The reverse forwards of a list, all from the same source.
pub open spec fn rev_tagged(s: Seq<Reverse>, origin: Origin) -> Seq<(Reverse, Origin)> {
    s.map_values(|f: Reverse| (f, origin))
}

/// The models of a list of forwards with their sources.
pub open spec fn sourced(v: Seq<(ForwardSpec, Origin)>) -> Seq<(Forward, Origin)> {
    v.map_values(|p: (ForwardSpec, Origin)| (p.0@, p.1))
}

/// The models of a list of reverse forwards with their sources.
pub open spec fn rev_sourced(v: Seq<(ReverseSpec, Origin)>) -> Seq<(Reverse, Origin)> {
    v.map_values(|p: (ReverseSpec, Origin)| (p.0@, p.1))
}

/// What a forward dials.
pub open spec fn target_key(f: Forward) -> (Seq<char>, Seq<char>, int) {
    (f.ns.wire(), f.remote_host, f.remote_port)
}

/// Some forward of the list is on this local port.
pub open spec fn takes_port(s: Seq<(Forward, Origin)>, port: int) -> bool {
    exists|i: int| 0 <= i < s.len() && (#[trigger] s[i]).0.local_port == port
}

/// Some forward of the list dials this.
pub open spec fn dials(s: Seq<(Forward, Origin)>, key: (Seq<char>, Seq<char>, int)) -> bool {
    exists|i: int| 0 <= i < s.len() && target_key((#[trigger] s[i]).0) == key
}

/// Some reverse forward of the list is on this remote endpoint.
pub open spec fn binds(s: Seq<(Reverse, Origin)>, key: (Seq<char>, IpAddr, int)) -> bool {
    exists|i: int| 0 <= i < s.len() && (#[trigger] s[i]).0.key() == key
}

/// Adds what is remembered to a list, leaving out what is on a local port that the
/// list already takes.
pub open spec fn with_remembered(s: Seq<(Forward, Origin)>, remembered: Seq<Forward>) -> Seq<
    (Forward, Origin),
>
    decreases remembered.len(),
{
    if remembered.len() == 0 {
        s
    } else {
        let t = with_remembered(s, remembered.drop_last());
        if takes_port(t, remembered.last().local_port) {
            t
        } else {
            t.push((remembered.last(), Origin::Remembered))
        }
    }
}

/// The list with only the first of the forwards that dial the same.
pub open spec fn first_targets(s: Seq<(Forward, Origin)>) -> Seq<(Forward, Origin)>
    decreases s.len(),
{
    if s.len() == 0 {
        s
    } else {
        let t = first_targets(s.drop_last());
        if dials(t, target_key(s.last().0)) {
            t
        } else {
            t.push(s.last())
        }
    }
}

/// The list with only the first of the reverse forwards on the same remote endpoint.
pub open spec fn first_binds(s: Seq<(Reverse, Origin)>) -> Seq<(Reverse, Origin)>
    decreases s.len(),
{
    if s.len() == 0 {
        s
    } else {
        let t = first_binds(s.drop_last());
        if binds(t, s.last().0.key()) {
            t
        } else {
            t.push(s.last())
        }
    }
}

fn same_target(a: &ForwardSpec, b: &ForwardSpec) -> (r: bool)
    ensures
        r == (target_key(a@) == target_key(b@)),
{
    a.remote_port == b.remote_port && str_eq(a.remote_host.as_str(), b.remote_host.as_str())
        && str_eq(a.ns.to_wire().as_str(), b.ns.to_wire().as_str())
}

fn any_dials(v: &Vec<(ForwardSpec, Origin)>, f: &ForwardSpec) -> (r: bool)
    ensures
        r == dials(sourced(v@), target_key(f@)),
{
    let ghost s = sourced(v@);
    let mut i: usize = 0;
    while i < v.len()
        invariant
            i <= v@.len(),
            s == sourced(v@),
            forall|j: int| 0 <= j < i ==> target_key((#[trigger] s[j]).0) != target_key(f@),
        decreases v@.len() - i,
    {
        assert(s[i as int] == (v@[i as int].0@, v@[i as int].1));
        if same_target(&v[i].0, f) {
            return true;
        }
        i = i + 1;
    }
    false
}

fn any_takes(v: &Vec<(ForwardSpec, Origin)>, port: u16) -> (r: bool)
    ensures
        r == takes_port(sourced(v@), port as int),
{
    let ghost s = sourced(v@);
    let mut i: usize = 0;
    while i < v.len()
        invariant
            i <= v@.len(),
            s == sourced(v@),
            forall|j: int| 0 <= j < i ==> (#[trigger] s[j]).0.local_port != port as int,
        decreases v@.len() - i,
    {
        assert(s[i as int] == (v@[i as int].0@, v@[i as int].1));
        if v[i].0.local_port == port {
            return true;
        }
        i = i + 1;
    }
    false
}

fn any_binds(v: &Vec<(ReverseSpec, Origin)>, f: &ReverseSpec) -> (r: bool)
    ensures
        r == binds(rev_sourced(v@), f@.key()),
{
    let ghost s = rev_sourced(v@);
    let mut i: usize = 0;
    while i < v.len()
        invariant
            i <= v@.len(),
            s == rev_sourced(v@),
            forall|j: int| 0 <= j < i ==> (#[trigger] s[j]).0.key() != f@.key(),
        decreases v@.len() - i,
    {
        assert(s[i as int] == (v@[i as int].0@, v@[i as int].1));
        let a: &ReverseSpec = &v[i].0;
        if a.remote_bind_port == f.remote_bind_port && a.remote_bind_addr == f.remote_bind_addr
            && str_eq(a.ns.to_wire().as_str(), f.ns.to_wire().as_str()) {
            return true;
        }
        i = i + 1;
    }
    false
}

/// Puts the forwards of `v` behind those of `out`, all from the same source.
fn put_all(out: &mut Vec<(ForwardSpec, Origin)>, v: &Vec<ForwardSpec>, origin: Origin)
    ensures
        sourced(final(out)@) == sourced(old(out)@) + tagged(forwards_of(v@), origin),
{
    let ghost all = tagged(forwards_of(v@), origin);
    let ghost start = sourced(out@);
    let mut i: usize = 0;
    proof {
        assert(start + all.take(0) =~= start);
    }
    while i < v.len()
        invariant
            i <= v@.len(),
            all == tagged(forwards_of(v@), origin),
            sourced(out@) == start + all.take(i as int),
        decreases v@.len() - i,
    {
        let ghost before = sourced(out@);
        out.push((v[i].clone(), origin));
        proof {
            assert(sourced(out@) =~= before.push((v@[i as int]@, origin)));
            assert(start + all.take(i + 1) =~= before.push((v@[i as int]@, origin)));
        }
        i = i + 1;
    }
    proof {
        assert(all.take(i as int) =~= all);
    }
}

/// Puts the reverse forwards of `v` behind those of `out`, all from the same source.
fn put_all_reverse(out: &mut Vec<(ReverseSpec, Origin)>, v: &Vec<ReverseSpec>, origin: Origin)
    ensures
        rev_sourced(final(out)@) == rev_sourced(old(out)@) + rev_tagged(reverses_of(v@), origin),
{
    let ghost all = rev_tagged(reverses_of(v@), origin);
    let ghost start = rev_sourced(out@);
    let mut i: usize = 0;
    proof {
        assert(start + all.take(0) =~= start);
    }
    while i < v.len()
        invariant
            i <= v@.len(),
            all == rev_tagged(reverses_of(v@), origin),
            rev_sourced(out@) == start + all.take(i as int),
        decreases v@.len() - i,
    {
        let ghost before = rev_sourced(out@);
        out.push((v[i].clone(), origin));
        proof {
            assert(rev_sourced(out@) =~= before.push((v@[i as int]@, origin)));
            assert(start + all.take(i + 1) =~= before.push((v@[i as int]@, origin)));
        }
        i = i + 1;
    }
    proof {
        assert(all.take(i as int) =~= all);
    }
}

/// Adds what is remembered to a list, leaving out what is on a local port that the
/// list already takes.
fn remember(out: &mut Vec<(ForwardSpec, Origin)>, v: &Vec<ForwardSpec>)
    ensures
        sourced(final(out)@) == with_remembered(sourced(old(out)@), forwards_of(v@)),
{
    let ghost all = forwards_of(v@);
    let ghost start = sourced(out@);
    let mut i: usize = 0;
    proof {
        assert(all.take(0) =~= Seq::<Forward>::empty());
    }
    while i < v.len()
        invariant
            i <= v@.len(),
            all == forwards_of(v@),
            sourced(out@) == with_remembered(start, all.take(i as int)),
        decreases v@.len() - i,
    {
        let ghost before = sourced(out@);
        proof {
            assert(all.take(i + 1).drop_last() =~= all.take(i as int));
            assert(all.take(i + 1).last() == v@[i as int]@);
        }
        if !any_takes(out, v[i].local_port) {
            out.push((v[i].clone(), Origin::Remembered));
            proof {
                assert(sourced(out@) =~= before.push((v@[i as int]@, Origin::Remembered)));
            }
        }
        i = i + 1;
    }
    proof {
        assert(all.take(i as int) =~= all);
    }
}

/// Keeps only the first of the forwards that dial the same.
pub fn dedup_targets(v: &Vec<(ForwardSpec, Origin)>) -> (r: Vec<(ForwardSpec, Origin)>)
    ensures
        sourced(r@) == first_targets(sourced(v@)),
{
    let ghost s = sourced(v@);
    let mut r: Vec<(ForwardSpec, Origin)> = Vec::new();
    let mut i: usize = 0;
    proof {
        assert(s.take(0) =~= Seq::<(Forward, Origin)>::empty());
        assert(sourced(r@) =~= Seq::<(Forward, Origin)>::empty());
    }
    while i < v.len()
        invariant
            i <= v@.len(),
            s == sourced(v@),
            sourced(r@) == first_targets(s.take(i as int)),
        decreases v@.len() - i,
    {
        let ghost before = sourced(r@);
        proof {
            assert(s.take(i + 1).drop_last() =~= s.take(i as int));
            assert(s.take(i + 1).last() == (v@[i as int].0@, v@[i as int].1));
        }
        if !any_dials(&r, &v[i].0) {
            r.push((v[i].0.clone(), v[i].1));
            proof {
                assert(sourced(r@) =~= before.push((v@[i as int].0@, v@[i as int].1)));
            }
        }
        i = i + 1;
    }
    proof {
        assert(s.take(i as int) =~= s);
    }
    r
}

/// Keeps only the first of the reverse forwards on the same remote endpoint.
pub fn dedup_binds(v: &Vec<(ReverseSpec, Origin)>) -> (r: Vec<(ReverseSpec, Origin)>)
    ensures
        rev_sourced(r@) == first_binds(rev_sourced(v@)),
{
    let ghost s = rev_sourced(v@);
    let mut r: Vec<(ReverseSpec, Origin)> = Vec::new();
    let mut i: usize = 0;
    proof {
        assert(s.take(0) =~= Seq::<(Reverse, Origin)>::empty());
        assert(rev_sourced(r@) =~= Seq::<(Reverse, Origin)>::empty());
    }
    while i < v.len()
        invariant
            i <= v@.len(),
            s == rev_sourced(v@),
            rev_sourced(r@) == first_binds(s.take(i as int)),
        decreases v@.len() - i,
    {
        let ghost before = rev_sourced(r@);
        proof {
            assert(s.take(i + 1).drop_last() =~= s.take(i as int));
            assert(s.take(i + 1).last() == (v@[i as int].0@, v@[i as int].1));
        }
        if !any_binds(&r, &v[i].0) {
            r.push((v[i].0.clone(), v[i].1));
            proof {
                assert(rev_sourced(r@) =~= before.push((v@[i as int].0@, v@[i as int].1)));
            }
        }
        i = i + 1;
    }
    proof {
        assert(s.take(i as int) =~= s);
    }
    r
}

// ---- the plan ----------------------------------------------------------

/// What a session starts with.
#[derive(Debug)]
pub struct Launch {
    pub host: String,
    pub forwards: Vec<(ForwardSpec, Origin)>,
    pub reverse: Vec<(ReverseSpec, Origin)>,
    pub rules: Vec<AutoForwardRule>,
    pub persist: PersistTarget,
    pub via_ssh: bool,
    pub default_ns: Option<NsSpec>,
}

/// The model of a [`Launch`].
#[verifier::ext_equal]
pub struct Plan {
    pub host: Seq<char>,
    pub forwards: Seq<(Forward, Origin)>,
    pub reverse: Seq<(Reverse, Origin)>,
    pub rules: Seq<crate::config::Rule>,
    /// The name of the profile that changes are written back to; none for the state
    /// of the host.
    pub profile: Option<Seq<char>>,
    pub via_ssh: bool,
    pub default_ns: Option<Ns>,
}

impl View for Launch {
    type V = Plan;

    open spec fn view(&self) -> Plan {
        Plan {
            host: self.host@,
            forwards: sourced(self.forwards@),
            reverse: rev_sourced(self.reverse@),
            rules: crate::config::rules_of(self.rules@),
            profile: match self.persist {
                PersistTarget::HostState { host } => None,
                PersistTarget::Profile { name } => Some(name@),
            },
            via_ssh: self.via_ssh,
            default_ns: opt_ns(self.default_ns),
        }
    }
}

/// Whether the data plane is carried over SSH: where this is asked for or remembered,
/// and not ruled out.
pub open spec fn uses_ssh(args: RunArgs, remembered: bool) -> bool {
    !args.no_via_ssh && (args.via_ssh || remembered)
}

/// What a session of a profile starts with: the forwards of the command line, then
/// those of the profile.
pub open spec fn profile_plan(
    args: RunArgs,
    name: Seq<char>,
    profile: Profile,
    bind: IpAddr,
) -> Result<Plan, LaunchFault> {
    let host = match args.host {
        Some(h) => h@,
        None => profile.host@,
    };
    if host.len() == 0 {
        Err(LaunchFault::NoProfileHost(name))
    } else {
        match requested_ns_of(opt_text(args.ns)) {
            Err(e) => Err(LaunchFault::BadNs(e)),
            Ok(ns) => match all_forwards(string_texts(profile.forwards@), bind, ns) {
                Err((spec, error)) => Err(
                    LaunchFault::BadForward { profile: Some(name), spec, error },
                ),
                Ok(pf) => match all_forwards(string_texts(args.specs@), bind, ns) {
                    Err((spec, error)) => Err(
                        LaunchFault::BadForward { profile: None, spec, error },
                    ),
                    Ok(cf) => match all_reverses(string_texts(profile.reverse_forwards@)) {
                        Err((spec, error)) => Err(
                            LaunchFault::BadReverse { profile: Some(name), spec, error },
                        ),
                        Ok(pr) => match all_reverses(string_texts(args.reverse@)) {
                            Err((spec, error)) => Err(
                                LaunchFault::BadReverse { profile: None, spec, error },
                            ),
                            Ok(cr) => Ok(
                                Plan {
                                    host,
                                    forwards: first_targets(
                                        tagged(cf, Origin::UserAdded) + tagged(
                                            pf,
                                            Origin::Remembered,
                                        ),
                                    ),
                                    reverse: first_binds(
                                        rev_tagged(cr, Origin::UserAdded) + rev_tagged(
                                            pr,
                                            Origin::Remembered,
                                        ),
                                    ),
                                    rules: crate::config::rules_of(profile.autoforward@),
                                    profile: Some(name),
                                    via_ssh: uses_ssh(args, profile.via_ssh),
                                    default_ns: ns,
                                },
                            ),
                        },
                    },
                },
            },
        }
    }
}

fn no_profile(p: (String, SpecError)) -> (r: LaunchError)
    ensures
        r@ == (LaunchFault::BadForward { profile: None, spec: p.0@, error: p.1@ }),
{
    LaunchError::BadForward { profile: None, spec: p.0, error: p.1 }
}

fn no_profile_reverse(p: (String, SpecError)) -> (r: LaunchError)
    ensures
        r@ == (LaunchFault::BadReverse { profile: None, spec: p.0@, error: p.1@ }),
{
    LaunchError::BadReverse { profile: None, spec: p.0, error: p.1 }
}

fn ns_ref(ns: &Option<NsSpec>) -> (r: Option<&NsSpec>)
    ensures
        crate::forward::ns_view(r) == opt_ns(*ns),
{
    match ns {
        Some(n) => Some(n),
        None => None,
    }
}

fn profile_launch(args: &RunArgs, name: &String, profile: &Profile, bind: IpAddr) -> (r: Result<
    Launch,
    LaunchError,
>)
    ensures
        crate::error::outcome(r) == profile_plan(*args, name@, *profile, bind),
{
    let host: String = match &args.host {
        Some(h) => h.clone(),
        None => profile.host.clone(),
    };
    if host.as_str().is_empty() {
        return Err(LaunchError::NoProfileHost(name.clone()));
    }
    let ns: Option<NsSpec> = match requested_ns(&args.ns) {
        Err(e) => {
            return Err(LaunchError::BadNs(e));
        },
        Ok(n) => n,
    };
    let pf = match parse_specs(&profile.forwards, bind, ns_ref(&ns)) {
        Err((spec, error)) => {
            return Err(LaunchError::BadForward { profile: Some(name.clone()), spec, error });
        },
        Ok(v) => v,
    };
    let cf = match parse_specs(&args.specs, bind, ns_ref(&ns)) {
        Err(e) => {
            return Err(no_profile(e));
        },
        Ok(v) => v,
    };
    let pr = match parse_reverse_specs(&profile.reverse_forwards) {
        Err((spec, error)) => {
            return Err(LaunchError::BadReverse { profile: Some(name.clone()), spec, error });
        },
        Ok(v) => v,
    };
    let cr = match parse_reverse_specs(&args.reverse) {
        Err(e) => {
            return Err(no_profile_reverse(e));
        },
        Ok(v) => v,
    };
    let mut forwards: Vec<(ForwardSpec, Origin)> = Vec::new();
    put_all(&mut forwards, &cf, Origin::UserAdded);
    put_all(&mut forwards, &pf, Origin::Remembered);
    let mut reverse: Vec<(ReverseSpec, Origin)> = Vec::new();
    put_all_reverse(&mut reverse, &cr, Origin::UserAdded);
    put_all_reverse(&mut reverse, &pr, Origin::Remembered);
    proof {
        assert(sourced(forwards@) =~= tagged(forwards_of(cf@), Origin::UserAdded) + tagged(
            forwards_of(pf@),
            Origin::Remembered,
        ));
        assert(rev_sourced(reverse@) =~= rev_tagged(reverses_of(cr@), Origin::UserAdded)
            + rev_tagged(reverses_of(pr@), Origin::Remembered));
    }
    Ok(
        Launch {
            host,
            forwards: dedup_targets(&forwards),
            reverse: dedup_binds(&reverse),
            rules: clone_rules(&profile.autoforward),
            persist: PersistTarget::Profile { name: name.clone() },
            via_ssh: !args.no_via_ssh && (args.via_ssh || profile.via_ssh),
            default_ns: ns,
        },
    )
}

/// Plans a session of the profile `name`.
pub fn plan_profile(args: &RunArgs, name: &String, config: &Config, bind: IpAddr) -> (r: Result<
    Launch,
    LaunchError,
>)
    ensures
        !config.has(name@) ==> crate::error::outcome(r) == Err::<Plan, LaunchFault>(
            LaunchFault::NoProfile(name@),
        ),
        forall|i: int| #[trigger]
            config.is_at(name@, i) ==> crate::error::outcome(r) == profile_plan(
                *args,
                name@,
                config.profiles@[i].profile,
                bind,
            ),
{
    match config.find(name.as_str()) {
        None => {
            proof {
                assert forall|i: int| !(#[trigger] config.is_at(name@, i)) by {
                    if config.is_at(name@, i) {
                        assert(config.profiles@[i].name@ == name@);
                    }
                }
            }
            Err(LaunchError::NoProfile(name.clone()))
        },
        Some(i) => {
            proof {
                assert forall|j: int| #[trigger] config.is_at(name@, j) implies j == i by {
                    if j < i {
                        assert(config.profiles@[j].name@ != name@);
                    } else if i < j {
                        assert(config.profiles@[i as int].name@ != name@);
                    }
                }
            }
            profile_launch(args, name, &config.profiles[i].profile, bind)
        },
    }
}

/// The default namespace of a session of a host: what the command line asks for, else
/// what is remembered.
pub open spec fn launch_ns(args: RunArgs, state: HostState) -> Result<Option<Ns>, SpecFault> {
    match args.ns {
        Some(_) => requested_ns_of(opt_text(args.ns)),
        None => Ok(crate::config::remembered_ns_of(state.default_ns@)),
    }
}

/// What a session of a host starts with: the forwards of the command line, then what
/// is remembered for the host.
pub open spec fn state_plan(args: RunArgs, host: Seq<char>, state: HostState, bind: IpAddr) -> Result<
    Plan,
    LaunchFault,
> {
    match launch_ns(args, state) {
        Err(e) => Err(LaunchFault::BadNs(e)),
        Ok(ns) => match all_forwards(string_texts(args.specs@), bind, ns) {
            Err((spec, error)) => Err(LaunchFault::BadForward { profile: None, spec, error }),
            Ok(cf) => match all_reverses(string_texts(args.reverse@)) {
                Err((spec, error)) => Err(LaunchFault::BadReverse { profile: None, spec, error }),
                Ok(cr) => Ok(
                    Plan {
                        host,
                        forwards: first_targets(
                            with_remembered(
                                tagged(cf, Origin::UserAdded),
                                crate::config::readable_forwards(
                                    string_texts(state.forwards@),
                                    bind,
                                    ns,
                                ),
                            ),
                        ),
                        reverse: first_binds(
                            rev_tagged(cr, Origin::UserAdded) + rev_tagged(
                                crate::config::readable_reverses(
                                    string_texts(state.reverse_forwards@),
                                ),
                                Origin::Remembered,
                            ),
                        ),
                        rules: crate::config::rules_of(state.autoforward@),
                        profile: None,
                        via_ssh: uses_ssh(args, state.via_ssh),
                        default_ns: ns,
                    },
                ),
            },
        },
    }
}

/// Plans a session of the host that the command line names, for which `state` is
/// remembered.
pub fn plan_state(args: &RunArgs, state: &HostState, bind: IpAddr) -> (r: Result<
    Launch,
    LaunchError,
>)
    ensures
        crate::error::outcome(r) == (match args.host {
            None => Err::<Plan, LaunchFault>(LaunchFault::NoHost("portmanager <host> <spec>..."@)),
            Some(h) => state_plan(*args, h@, *state, bind),
        }),
        r matches Ok(l) ==> (l.persist matches PersistTarget::HostState { host } && host@
            == l.host@),
{
    let host: String = match &args.host {
        None => {
            return Err(LaunchError::NoHost("portmanager <host> <spec>...".to_owned()));
        },
        Some(h) => h.clone(),
    };
    let ns: Option<NsSpec> = match &args.ns {
        Some(_) => match requested_ns(&args.ns) {
            Err(e) => {
                return Err(LaunchError::BadNs(e));
            },
            Ok(n) => n,
        },
        None => state.parsed_default_ns(),
    };
    let cf = match parse_specs(&args.specs, bind, ns_ref(&ns)) {
        Err(e) => {
            return Err(no_profile(e));
        },
        Ok(v) => v,
    };
    let mut forwards: Vec<(ForwardSpec, Origin)> = Vec::new();
    put_all(&mut forwards, &cf, Origin::UserAdded);
    proof {
        assert(sourced(forwards@) =~= tagged(forwards_of(cf@), Origin::UserAdded));
    }
    let remembered = state.parsed_forwards(bind, ns_ref(&ns));
    remember(&mut forwards, &remembered);
    let cr = match parse_reverse_specs(&args.reverse) {
        Err(e) => {
            return Err(no_profile_reverse(e));
        },
        Ok(v) => v,
    };
    let mut reverse: Vec<(ReverseSpec, Origin)> = Vec::new();
    put_all_reverse(&mut reverse, &cr, Origin::UserAdded);
    let rr = state.parsed_reverse_forwards();
    put_all_reverse(&mut reverse, &rr, Origin::Remembered);
    proof {
        assert(rev_sourced(reverse@) =~= rev_tagged(reverses_of(cr@), Origin::UserAdded)
            + rev_tagged(reverses_of(rr@), Origin::Remembered));
    }
    let persist = PersistTarget::HostState { host: host.clone() };
    Ok(
        Launch {
            host,
            forwards: dedup_targets(&forwards),
            reverse: dedup_binds(&reverse),
            rules: clone_rules(&state.autoforward),
            persist,
            via_ssh: !args.no_via_ssh && (args.via_ssh || state.via_ssh),
            default_ns: ns,
        },
    )
}

/// The host that a background session is for.
pub open spec fn daemon_host_of(args: RunArgs, profile: Option<Profile>) -> Result<
    Seq<char>,
    LaunchFault,
> {
    match args.host {
        Some(h) => Ok(h@),
        None => match args.profile {
            Some(name) => match profile {
                None => Err(LaunchFault::NoProfile(name@)),
                Some(p) => if p.host@.len() > 0 {
                    Ok(p.host@)
                } else {
                    Err(LaunchFault::NoProfileHost(name@))
                },
            },
            None => Err(LaunchFault::NoHost("portmanager --daemon <host> <spec>..."@)),
        },
    }
}

/// The host that a background session is for. `profile` is the one that the command
/// line names, if it is there.
pub fn daemon_host(args: &RunArgs, profile: Option<&Profile>) -> (r: Result<String, LaunchError>)
    ensures
        crate::error::outcome(r) == daemon_host_of(
            *args,
            match profile {
                Some(p) => Some(*p),
                None => None,
            },
        ),
{
    match &args.host {
        Some(h) => Ok(h.clone()),
        None => match &args.profile {
            Some(name) => match profile {
                None => Err(LaunchError::NoProfile(name.clone())),
                Some(p) => {
                    if !p.host.as_str().is_empty() {
                        Ok(p.host.clone())
                    } else {
                        Err(LaunchError::NoProfileHost(name.clone()))
                    }
                },
            },
            None => Err(LaunchError::NoHost("portmanager --daemon <host> <spec>...".to_owned())),
        },
    }
}

// ---- decisions around the start ----------------------------------------

/// What becomes of the remembered choice of transport.
#[derive(Debug, Clone, Copy, PartialEq, Eq, Structural)]
pub enum ViaMemory {
    Remember,
    Clear,
    Leave,
}

/// What becomes of the remembered choice of transport: a tunnel is remembered for the
/// host, and ruling it out clears what was remembered. A profile keeps what it says.
pub fn via_memory(launch: &Launch, no_via_ssh: bool) -> (r: ViaMemory)
    ensures
        r == (if launch@.profile is Some {
            ViaMemory::Leave
        } else if launch.via_ssh {
            ViaMemory::Remember
        } else if no_via_ssh {
            ViaMemory::Clear
        } else {
            ViaMemory::Leave
        }),
{
    match &launch.persist {
        PersistTarget::Profile { .. } => ViaMemory::Leave,
        PersistTarget::HostState { .. } => {
            if launch.via_ssh {
                ViaMemory::Remember
            } else if no_via_ssh {
                ViaMemory::Clear
            } else {
                ViaMemory::Leave
            }
        },
    }
}

/// Whether the session has nothing to do and nobody who could give it something on
/// the spot. It starts all the same.
pub fn sits_idle(launch: &Launch, interactive: bool, daemon: bool) -> (r: bool)
    ensures
        r == (launch.forwards@.len() == 0 && launch.reverse@.len() == 0 && launch.rules@.len() == 0
            && !interactive && !daemon),
{
    launch.forwards.len() == 0 && launch.reverse.len() == 0 && launch.rules.len() == 0
        && !interactive && !daemon
}

/// What is said of a session that sits idle.
pub fn idle_warning(host: &str) -> (r: String)
    ensures
        r@ == "no forwards given and none remembered for "@ + debug_text(host@)
            + "; session will sit idle (add some with `portmanager add "@ + host@ + " <spec>`)"@,
{
    String::from_str("no forwards given and none remembered for ").concat(
        debug_str(host).as_str(),
    ).concat("; session will sit idle (add some with `portmanager add ").concat(host).concat(
        " <spec>`)",
    )
}

/// What is said when a session for the host runs already.
pub fn already_running(host: &str) -> (r: String)
    ensures
        r@ == "a portmanager session for "@ + debug_text(host@)
            + " is already running on this machine — manage it with `portmanager list|add|stop "@
            + host@ + "`, or stop it first"@,
{
    String::from_str("a portmanager session for ").concat(debug_str(host).as_str()).concat(
        " is already running on this machine — manage it with `portmanager list|add|stop ",
    ).concat(host).concat("`, or stop it first")
}

/// What is said of the transport of a session.
pub fn transport_notice(via_ssh: bool) -> (r: &'static str)
    ensures
        r@ == (if via_ssh {
            "data plane: SSH tunnel (ssh -L) — all forwards share one TCP connection; pass --no-via-ssh to use direct QUIC"@
        } else {
            "data plane: direct QUIC/UDP"@
        }),
{
    if via_ssh {
        "data plane: SSH tunnel (ssh -L) — all forwards share one TCP connection; pass --no-via-ssh to use direct QUIC"
    } else {
        "data plane: direct QUIC/UDP"
    }
}

/// What the launcher of a background session does next.
#[derive(Debug)]
pub enum DaemonStep {
    /// The session is up.
    Ready,
    /// It will not come up, for this reason.
    Failed(String),
    /// Look again a little later.
    Wait,
}

/// What the launcher of a background session does next. `up` says whether the control
/// socket answers, `exited` with which status the session is gone, `late` whether the
/// time to wait is over.
pub fn daemon_step(
    up: bool,
    exited: Option<&str>,
    late: bool,
    host: &str,
    socket: &str,
    log: &str,
) -> (r: DaemonStep)
    ensures
        match r {
            DaemonStep::Ready => up,
            DaemonStep::Failed(why) => !up && (exited is Some || late) && why@ == (match exited {
                Some(status) => "daemon exited before control socket came up (status "@ + status@
                    + "); see "@ + log@,
                None => "timed out waiting for daemon control socket "@ + socket@ + " for "@
                    + debug_text(host@) + "; see "@ + log@,
            }),
            DaemonStep::Wait => !up && exited is None && !late,
        },
{
    if up {
        return DaemonStep::Ready;
    }
    match exited {
        Some(status) => DaemonStep::Failed(
            String::from_str("daemon exited before control socket came up (status ").concat(
                status,
            ).concat("); see ").concat(log),
        ),
        None => {
            if late {
                DaemonStep::Failed(
                    String::from_str("timed out waiting for daemon control socket ").concat(
                        socket,
                    ).concat(" for ").concat(debug_str(host).as_str()).concat("; see ").concat(
                        log,
                    ),
                )
            } else {
                DaemonStep::Wait
            }
        },
    }
}

/// What a session without a screen announces when its state changes, and whether as a
/// warning.
pub fn announcement(status: &crate::supervisor::Status) -> (r: (bool, String))
    ensures
        match *status {
            crate::supervisor::Status::Connected => !r.0 && r.1@ == "[connected]"@,
            crate::supervisor::Status::Reconnecting { attempt } => r.0 && r.1@
                == "[reconnecting — attempt "@ + crate::text::decimal(attempt as int) + "]"@,
            crate::supervisor::Status::Bootstrapping => r.0 && r.1@
                == "[re-bootstrapping over SSH]"@,
        },
{
    match status {
        crate::supervisor::Status::Connected => (false, "[connected]".to_owned()),
        crate::supervisor::Status::Reconnecting { attempt } => (
            true,
            String::from_str("[reconnecting — attempt ").concat(
                dec(*attempt as u64).as_str(),
            ).concat("]"),
        ),
        crate::supervisor::Status::Bootstrapping => (
            true,
            "[re-bootstrapping over SSH]".to_owned(),
        ),
    }
}

// ---- laws --------------------------------------------------------------

proof fn lemma_first_targets_front(a: Seq<(Forward, Origin)>, b: Seq<(Forward, Origin)>)
    ensures
        first_targets(a).is_prefix_of(first_targets(a + b)),
    decreases b.len(),
{
    if b.len() == 0 {
        assert(a + b =~= a);
    } else {
        assert((a + b).drop_last() =~= a + b.drop_last());
        assert((a + b).last() == b.last());
        lemma_first_targets_front(a, b.drop_last());
    }
}

proof fn lemma_remembered_front(s: Seq<(Forward, Origin)>, remembered: Seq<Forward>)
    ensures
        s.is_prefix_of(with_remembered(s, remembered)),
    decreases remembered.len(),
{
    if remembered.len() > 0 {
        lemma_remembered_front(s, remembered.drop_last());
    }
}

/// A session never starts with two forwards that dial the same, and leaves none out
/// that dials something no other does.
pub proof fn law_targets_distinct(s: Seq<(Forward, Origin)>)
    ensures
        forall|i: int, j: int|
            0 <= i < j < first_targets(s).len() ==> target_key((#[trigger] first_targets(s)[i]).0)
                != target_key((#[trigger] first_targets(s)[j]).0),
        forall|i: int|
            0 <= i < s.len() ==> dials(first_targets(s), target_key((#[trigger] s[i]).0)),
        forall|i: int|
            0 <= i < first_targets(s).len() ==> s.contains(#[trigger] first_targets(s)[i]),
    decreases s.len(),
{
    if s.len() > 0 {
        let u = s.drop_last();
        let t = first_targets(u);
        let r = first_targets(s);
        law_targets_distinct(u);
        assert forall|i: int| 0 <= i < s.len() implies dials(
            r,
            target_key((#[trigger] s[i]).0),
        ) by {
            if i < u.len() {
                assert(u[i] == s[i]);
                assert(dials(t, target_key(u[i].0)));
                let k = choose|k: int| 0 <= k < t.len() && target_key((#[trigger] t[k]).0)
                    == target_key(u[i].0);
                assert(r[k] == t[k]);
            } else if !dials(t, target_key(s.last().0)) {
                assert(r[t.len() as int] == s.last());
            }
        }
        assert forall|i: int| 0 <= i < r.len() implies s.contains(#[trigger] r[i]) by {
            if i < t.len() {
                assert(r[i] == t[i]);
                assert(u.contains(t[i]));
                let k = choose|k: int| 0 <= k < u.len() && u[k] == t[i];
                assert(s[k] == t[i]);
            } else {
                assert(s[s.len() - 1] == r[i]);
            }
        }
    }
}

/// What the command line says wins: the first forward on it that dials a target is
/// there when the session starts, whatever else is remembered or stands in a profile.
pub proof fn law_command_line_wins(
    cli: Seq<Forward>,
    i: int,
    remembered: Seq<Forward>,
    profile: Seq<(Forward, Origin)>,
)
    requires
        0 <= i < cli.len(),
        forall|j: int| 0 <= j < i ==> target_key(#[trigger] cli[j]) != target_key(cli[i]),
    ensures
        first_targets(with_remembered(tagged(cli, Origin::UserAdded), remembered)).contains(
            (cli[i], Origin::UserAdded),
        ),
        first_targets(tagged(cli, Origin::UserAdded) + profile).contains(
            (cli[i], Origin::UserAdded),
        ),
{
    let c = tagged(cli, Origin::UserAdded);
    lemma_first_kept(c, i);
    let t = first_targets(c);
    let k = choose|k: int| 0 <= k < t.len() && t[k] == c[i];
    let a = with_remembered(c, remembered);
    lemma_remembered_front(c, remembered);
    assert(a =~= c + a.skip(c.len() as int));
    lemma_first_targets_front(c, a.skip(c.len() as int));
    assert(first_targets(a)[k] == t[k]);
    lemma_first_targets_front(c, profile);
    assert(first_targets(c + profile)[k] == t[k]);
}

proof fn lemma_first_kept(s: Seq<(Forward, Origin)>, i: int)
    requires
        0 <= i < s.len(),
        forall|j: int| 0 <= j < i ==> target_key((#[trigger] s[j]).0) != target_key(s[i].0),
    ensures
        first_targets(s).contains(s[i]),
    decreases s.len(),
{
    let u = s.drop_last();
    let t = first_targets(u);
    if i < u.len() {
        assert(u[i] == s[i]);
        assert forall|j: int| 0 <= j < i implies target_key((#[trigger] u[j]).0) != target_key(
            u[i].0,
        ) by {
            assert(s[j] == u[j]);
        }
        lemma_first_kept(u, i);
        let k = choose|k: int| 0 <= k < t.len() && t[k] == s[i];
        assert(first_targets(s)[k] == s[i]);
    } else {
        law_targets_distinct(u);
        if dials(t, target_key(s[i].0)) {
            let k = choose|k: int| 0 <= k < t.len() && target_key((#[trigger] t[k]).0)
                == target_key(s[i].0);
            assert(u.contains(t[k]));
            let m = choose|m: int| 0 <= m < u.len() && u[m] == t[k];
            assert(s[m] == u[m]);
            assert(false);
        }
        assert(first_targets(s)[t.len() as int] == s[i]);
    }
}

/// A process id is one of the 32-bit numbers.
pub open spec fn pid_fits(ns: Ns) -> bool {
    ns matches Ns::Pid(p) ==> i32::MIN <= p <= i32::MAX
}

/// A forward is left out of the merged list only where an earlier one has the same
/// namespace, the same remote host and the same remote port.
pub proof fn law_other_target_is_kept(s: Seq<(Forward, Origin)>, i: int)
    requires
        0 <= i < s.len(),
        forall|j: int| 0 <= j <= i ==> pid_fits((#[trigger] s[j]).0.ns),
        forall|j: int|
            0 <= j < i ==> !((#[trigger] s[j]).0.ns == s[i].0.ns && s[j].0.remote_host
                == s[i].0.remote_host && s[j].0.remote_port == s[i].0.remote_port),
    ensures
        first_targets(s).contains(s[i]),
{
    assert forall|j: int| 0 <= j < i implies target_key((#[trigger] s[j]).0) != target_key(
        s[i].0,
    ) by {
        assert(pid_fits(s[j].0.ns) && pid_fits(s[i].0.ns));
        if s[j].0.ns.wire() == s[i].0.ns.wire() {
            crate::forward::law_wire_tells_apart(s[j].0.ns, s[i].0.ns);
        }
    }
    lemma_first_kept(s, i);
}

/// No two forwards of the merged list have the same namespace, remote host and remote
/// port; each stands in the list that was merged, and the order is that of the list.
pub proof fn law_merged_targets(s: Seq<(Forward, Origin)>, more: Seq<(Forward, Origin)>)
    ensures
        forall|i: int, j: int|
            0 <= i < j < first_targets(s).len() ==> !((#[trigger] first_targets(s)[i]).0.ns == (
            #[trigger] first_targets(s)[j]).0.ns && first_targets(s)[i].0.remote_host
                == first_targets(s)[j].0.remote_host && first_targets(s)[i].0.remote_port
                == first_targets(s)[j].0.remote_port),
        forall|i: int|
            0 <= i < first_targets(s).len() ==> s.contains(#[trigger] first_targets(s)[i]),
        first_targets(s).is_prefix_of(first_targets(s + more)),
{
    law_targets_distinct(s);
    lemma_first_targets_front(s, more);
    assert forall|i: int, j: int| 0 <= i < j < first_targets(s).len() implies !((
    #[trigger] first_targets(s)[i]).0.ns == (#[trigger] first_targets(s)[j]).0.ns
        && first_targets(s)[i].0.remote_host == first_targets(s)[j].0.remote_host
        && first_targets(s)[i].0.remote_port == first_targets(s)[j].0.remote_port) by {
        assert(target_key(first_targets(s)[i].0) != target_key(first_targets(s)[j].0));
    }
}

/// A remembered forward is added, as remembered, where neither what is there already nor
/// an earlier remembered one is on its local port; what is there already stays in front.
pub proof fn law_free_port_is_remembered(
    s: Seq<(Forward, Origin)>,
    remembered: Seq<Forward>,
    i: int,
)
    requires
        0 <= i < remembered.len(),
        forall|k: int|
            0 <= k < s.len() ==> (#[trigger] s[k]).0.local_port != remembered[i].local_port,
        forall|j: int|
            0 <= j < i ==> (#[trigger] remembered[j]).local_port != remembered[i].local_port,
    ensures
        with_remembered(s, remembered).contains((remembered[i], Origin::Remembered)),
        s.is_prefix_of(with_remembered(s, remembered)),
    decreases remembered.len(),
{
    lemma_remembered_front(s, remembered);
    let u = remembered.drop_last();
    let t = with_remembered(s, u);
    let r = with_remembered(s, remembered);
    let e = (remembered[i], Origin::Remembered);
    if i < u.len() {
        assert(u[i] == remembered[i]);
        assert forall|j: int| 0 <= j < i implies (#[trigger] u[j]).local_port != u[i].local_port by {
            assert(remembered[j] == u[j]);
        }
        law_free_port_is_remembered(s, u, i);
        let k = choose|k: int| 0 <= k < t.len() && t[k] == e;
        assert(r[k] == e);
    } else {
        lemma_remembered_from(s, u);
        if takes_port(t, remembered[i].local_port) {
            let k = choose|k: int|
                0 <= k < t.len() && (#[trigger] t[k]).0.local_port == remembered[i].local_port;
            if k < s.len() {
                assert(s[k] == t[k]);
            } else {
                assert(u.contains(t[k].0));
                let j = choose|j: int| 0 <= j < u.len() && u[j] == t[k].0;
                assert(remembered[j] == u[j]);
            }
            assert(false);
        }
        assert(r[t.len() as int] == e);
    }
}

/// What is added of the remembered stands among them, is marked as remembered, and is on
/// a local port that nothing before it is on.
pub proof fn law_taken_port_is_not_remembered(s: Seq<(Forward, Origin)>, remembered: Seq<Forward>)
    ensures
        ({
            let r = with_remembered(s, remembered);
            forall|k: int|
                s.len() <= k < r.len() ==> (#[trigger] r[k]).1 == Origin::Remembered
                    && remembered.contains(r[k].0) && forall|j: int|
                    0 <= j < k ==> (#[trigger] r[j]).0.local_port != r[k].0.local_port
        }),
    decreases remembered.len(),
{
    lemma_remembered_from(s, remembered);
    if remembered.len() > 0 {
        let u = remembered.drop_last();
        let t = with_remembered(s, u);
        let r = with_remembered(s, remembered);
        law_taken_port_is_not_remembered(s, u);
        assert forall|k: int| s.len() <= k < r.len() implies (#[trigger] r[k]).1
            == Origin::Remembered && remembered.contains(r[k].0) && forall|j: int|
            0 <= j < k ==> (#[trigger] r[j]).0.local_port != r[k].0.local_port by {
            if k < t.len() {
                assert(r[k] == t[k]);
                assert forall|j: int| 0 <= j < k implies (#[trigger] r[j]).0.local_port
                    != r[k].0.local_port by {
                    assert(t[j] == r[j]);
                }
            } else {
                assert forall|j: int| 0 <= j < k implies (#[trigger] r[j]).0.local_port
                    != r[k].0.local_port by {
                    assert(t[j] == r[j]);
                }
            }
        }
    }
}

proof fn lemma_remembered_from(s: Seq<(Forward, Origin)>, remembered: Seq<Forward>)
    ensures
        s.is_prefix_of(with_remembered(s, remembered)),
        forall|k: int|
            s.len() <= k < with_remembered(s, remembered).len() ==> remembered.contains(
                (#[trigger] with_remembered(s, remembered)[k]).0,
            ),
    decreases remembered.len(),
{
    lemma_remembered_front(s, remembered);
    if remembered.len() > 0 {
        let u = remembered.drop_last();
        let t = with_remembered(s, u);
        let r = with_remembered(s, remembered);
        lemma_remembered_from(s, u);
        assert forall|k: int| s.len() <= k < r.len() implies remembered.contains(
            (#[trigger] r[k]).0,
        ) by {
            if k < t.len() {
                assert(r[k] == t[k]);
                assert(u.contains(t[k].0));
                let j = choose|j: int| 0 <= j < u.len() && u[j] == t[k].0;
                assert(remembered[j] == r[k].0);
            } else {
                assert(remembered[remembered.len() - 1] == r[k].0);
            }
        }
    }
}

/// Of the reverse forwards on one address and port of one namespace the first is kept,
/// and no other; every other one is kept.
pub proof fn law_merged_endpoints(s: Seq<(Reverse, Origin)>)
    requires
        forall|i: int| 0 <= i < s.len() ==> pid_fits((#[trigger] s[i]).0.ns),
    ensures
        forall|i: int, j: int|
            0 <= i < j < first_binds(s).len() ==> !((#[trigger] first_binds(s)[i]).0.ns == (
            #[trigger] first_binds(s)[j]).0.ns && first_binds(s)[i].0.remote_bind_addr
                == first_binds(s)[j].0.remote_bind_addr && first_binds(s)[i].0.remote_bind_port
                == first_binds(s)[j].0.remote_bind_port),
        forall|i: int| 0 <= i < first_binds(s).len() ==> s.contains(#[trigger] first_binds(s)[i]),
        forall|i: int|
            0 <= i < s.len() && (forall|j: int|
                0 <= j < i ==> !((#[trigger] s[j]).0.ns == s[i].0.ns && s[j].0.remote_bind_addr
                    == s[i].0.remote_bind_addr && s[j].0.remote_bind_port
                    == s[i].0.remote_bind_port)) ==> first_binds(s).contains(#[trigger] s[i]),
    decreases s.len(),
{
    if s.len() > 0 {
        let u = s.drop_last();
        let t = first_binds(u);
        let r = first_binds(s);
        let n = s.len() - 1;
        assert forall|i: int| 0 <= i < u.len() implies pid_fits((#[trigger] u[i]).0.ns) by {
            assert(u[i] == s[i]);
        }
        law_merged_endpoints(u);
        assert forall|i: int| 0 <= i < r.len() implies s.contains(#[trigger] r[i]) by {
            if i < t.len() {
                assert(u.contains(t[i]));
                let k = choose|k: int| 0 <= k < u.len() && u[k] == t[i];
                assert(s[k] == r[i]);
            } else {
                assert(s[n] == r[i]);
            }
        }
        assert forall|i: int|
            0 <= i < s.len() && (forall|j: int|
                0 <= j < i ==> !((#[trigger] s[j]).0.ns == s[i].0.ns && s[j].0.remote_bind_addr
                    == s[i].0.remote_bind_addr && s[j].0.remote_bind_port
                    == s[i].0.remote_bind_port)) implies r.contains(#[trigger] s[i]) by {
            if i < n {
                assert(u[i] == s[i]);
                assert forall|j: int| 0 <= j < i implies !((#[trigger] u[j]).0.ns == u[i].0.ns
                    && u[j].0.remote_bind_addr == u[i].0.remote_bind_addr
                    && u[j].0.remote_bind_port == u[i].0.remote_bind_port) by {
                    assert(s[j] == u[j]);
                }
                assert(t.contains(u[i]));
                let k = choose|k: int| 0 <= k < t.len() && t[k] == u[i];
                assert(r[k] == s[i]);
            } else {
                if binds(t, s[n].0.key()) {
                    let k = choose|k: int|
                        0 <= k < t.len() && (#[trigger] t[k]).0.key() == s[n].0.key();
                    assert(u.contains(t[k]));
                    let m = choose|m: int| 0 <= m < u.len() && u[m] == t[k];
                    assert(s[m] == u[m]);
                    assert(pid_fits(s[m].0.ns) && pid_fits(s[n].0.ns));
                    crate::forward::law_wire_tells_apart(s[m].0.ns, s[n].0.ns);
                    assert(false);
                }
                assert(r[t.len() as int] == s[n]);
            }
        }
        assert forall|i: int, j: int| 0 <= i < j < r.len() implies !((#[trigger] r[i]).0.ns == (
        #[trigger] r[j]).0.ns && r[i].0.remote_bind_addr == r[j].0.remote_bind_addr
            && r[i].0.remote_bind_port == r[j].0.remote_bind_port) by {
            if j < t.len() {
                assert(t[i] == r[i] && t[j] == r[j]);
            } else {
                assert(t[i] == r[i]);
                assert(t[i].0.key() != s[n].0.key());
            }
        }
    }
}

/// The tunnel is used exactly where the command line asks for it or it is remembered,
/// and the command line does not rule it out.
pub proof fn law_transport_choice(args: RunArgs, remembered: bool)
    ensures
        args.no_via_ssh ==> !uses_ssh(args, remembered),
        !args.no_via_ssh && args.via_ssh ==> uses_ssh(args, remembered),
        !args.no_via_ssh && !args.via_ssh ==> uses_ssh(args, remembered) == remembered,
{
}

/// The tunnel is kept once it was used: what is remembered of it holds for a launch
/// that does not rule it out.
pub proof fn law_via_ssh_is_kept(args: RunArgs, remembered: bool)
    requires
        remembered,
        !args.no_via_ssh,
    ensures
        uses_ssh(args, remembered),
{
}

/// What was remembered of a host's transport is undone by ruling it out.
pub proof fn law_no_via_ssh_is_direct(args: RunArgs, remembered: bool)
    requires
        args.no_via_ssh,
    ensures
        !uses_ssh(args, remembered),
{
}

/// A list of specs is read as a whole: each as it would be alone, in their order. Where one
/// is wrong, the first that is wrong is named, and why.
pub proof fn law_specs_are_read(specs: Seq<Seq<char>>, bind: IpAddr, ns: Option<Ns>)
    ensures
        match all_forwards(specs, bind, ns) {
            Ok(v) => v.len() == specs.len() && forall|i: int|
                0 <= i < specs.len() ==> #[trigger] crate::forward::forward_of(specs[i], bind, ns)
                    == Ok::<Forward, SpecFault>(v[i]),
            Err((s, e)) => exists|i: int|
                0 <= i < specs.len() && #[trigger] specs[i] == s && crate::forward::forward_of(
                    specs[i],
                    bind,
                    ns,
                ) == Err::<Forward, SpecFault>(e) && forall|j: int|
                    0 <= j < i ==> #[trigger] crate::forward::forward_of(specs[j], bind, ns) is Ok,
        },
    decreases specs.len(),
{
    if specs.len() > 0 {
        let t = specs.drop_last();
        law_specs_are_read(t, bind, ns);
        let n = specs.len() - 1;
        assert(specs[n] == specs.last());
        match all_forwards(t, bind, ns) {
            Err((s, e)) => {
                let i = choose|i: int|
                    0 <= i < t.len() && #[trigger] t[i] == s && crate::forward::forward_of(
                        t[i],
                        bind,
                        ns,
                    ) == Err::<Forward, SpecFault>(e) && forall|j: int|
                        0 <= j < i ==> #[trigger] crate::forward::forward_of(t[j], bind, ns) is Ok;
                assert(specs[i] == t[i]);
                assert forall|j: int| 0 <= j < i implies #[trigger] crate::forward::forward_of(
                    specs[j],
                    bind,
                    ns,
                ) is Ok by {
                    assert(t[j] == specs[j]);
                    assert(crate::forward::forward_of(t[j], bind, ns) is Ok);
                }
            },
            Ok(v) => {
                assert forall|j: int| 0 <= j < n implies #[trigger] crate::forward::forward_of(
                    specs[j],
                    bind,
                    ns,
                ) == Ok::<Forward, SpecFault>(v[j]) by {
                    assert(t[j] == specs[j]);
                    assert(crate::forward::forward_of(t[j], bind, ns) == Ok::<Forward, SpecFault>(
                        v[j],
                    ));
                }
            },
        }
    }
}

/// A list of reverse specs is read as a whole: each as it would be alone, in their order.
/// Where one is wrong, the first that is wrong is named, and why.
pub proof fn law_reverse_specs_are_read(specs: Seq<Seq<char>>)
    ensures
        match all_reverses(specs) {
            Ok(v) => v.len() == specs.len() && forall|i: int|
                0 <= i < specs.len() ==> #[trigger] crate::forward::reverse_of(specs[i]) == Ok::<
                    Reverse,
                    SpecFault,
                >(v[i]),
            Err((s, e)) => exists|i: int|
                0 <= i < specs.len() && #[trigger] specs[i] == s && crate::forward::reverse_of(
                    specs[i],
                ) == Err::<Reverse, SpecFault>(e) && forall|j: int|
                    0 <= j < i ==> #[trigger] crate::forward::reverse_of(specs[j]) is Ok,
        },
    decreases specs.len(),
{
    if specs.len() > 0 {
        let t = specs.drop_last();
        law_reverse_specs_are_read(t);
        let n = specs.len() - 1;
        assert(specs[n] == specs.last());
        match all_reverses(t) {
            Err((s, e)) => {
                let i = choose|i: int|
                    0 <= i < t.len() && #[trigger] t[i] == s && crate::forward::reverse_of(t[i])
                        == Err::<Reverse, SpecFault>(e) && forall|j: int|
                        0 <= j < i ==> #[trigger] crate::forward::reverse_of(t[j]) is Ok;
                assert(specs[i] == t[i]);
                assert forall|j: int| 0 <= j < i implies #[trigger] crate::forward::reverse_of(
                    specs[j],
                ) is Ok by {
                    assert(t[j] == specs[j]);
                    assert(crate::forward::reverse_of(t[j]) is Ok);
                }
            },
            Ok(v) => {
                assert forall|j: int| 0 <= j < n implies #[trigger] crate::forward::reverse_of(
                    specs[j],
                ) == Ok::<Reverse, SpecFault>(v[j]) by {
                    assert(t[j] == specs[j]);
                    assert(crate::forward::reverse_of(t[j]) == Ok::<Reverse, SpecFault>(v[j]));
                }
            },
        }
    }
}

/// The forward is what one of these specs says.
pub open spec fn stands_in(f: Forward, specs: Seq<Seq<char>>, bind: IpAddr, ns: Option<Ns>) -> bool {
    exists|i: int|
        0 <= i < specs.len() && crate::forward::forward_of(#[trigger] specs[i], bind, ns) == Ok::<
            Forward,
            SpecFault,
        >(f)
}

/// The reverse forward is what one of these specs says.
pub open spec fn reverse_stands_in(f: Reverse, specs: Seq<Seq<char>>) -> bool {
    exists|i: int|
        0 <= i < specs.len() && crate::forward::reverse_of(#[trigger] specs[i]) == Ok::<
            Reverse,
            SpecFault,
        >(f)
}

proof fn lemma_readable_stands(specs: Seq<Seq<char>>, bind: IpAddr, ns: Option<Ns>, f: Forward)
    ensures
        crate::config::readable_forwards(specs, bind, ns).contains(f) ==> stands_in(
            f,
            specs,
            bind,
            ns,
        ),
    decreases specs.len(),
{
    let all = crate::config::readable_forwards(specs, bind, ns);
    if specs.len() > 0 && all.contains(f) {
        let t = specs.drop_last();
        let r = crate::config::readable_forwards(t, bind, ns);
        lemma_readable_stands(t, bind, ns, f);
        let k = choose|k: int| 0 <= k < all.len() && all[k] == f;
        if k < r.len() {
            assert(r[k] == f);
            let i = choose|i: int|
                0 <= i < t.len() && crate::forward::forward_of(#[trigger] t[i], bind, ns) == Ok::<
                    Forward,
                    SpecFault,
                >(f);
            assert(specs[i] == t[i]);
        } else {
            assert(specs[specs.len() - 1] == specs.last());
        }
    }
}

proof fn lemma_readable_reverse_stands(specs: Seq<Seq<char>>, f: Reverse)
    ensures
        crate::config::readable_reverses(specs).contains(f) ==> reverse_stands_in(f, specs),
    decreases specs.len(),
{
    let all = crate::config::readable_reverses(specs);
    if specs.len() > 0 && all.contains(f) {
        let t = specs.drop_last();
        let r = crate::config::readable_reverses(t);
        lemma_readable_reverse_stands(t, f);
        let k = choose|k: int| 0 <= k < all.len() && all[k] == f;
        if k < r.len() {
            assert(r[k] == f);
            let i = choose|i: int|
                0 <= i < t.len() && crate::forward::reverse_of(#[trigger] t[i]) == Ok::<
                    Reverse,
                    SpecFault,
                >(f);
            assert(specs[i] == t[i]);
        } else {
            assert(specs[specs.len() - 1] == specs.last());
        }
    }
}

proof fn lemma_read_stands(specs: Seq<Seq<char>>, bind: IpAddr, ns: Option<Ns>)
    requires
        all_forwards(specs, bind, ns) is Ok,
    ensures
        forall|i: int|
            0 <= i < all_forwards(specs, bind, ns)->Ok_0.len() ==> stands_in(
                #[trigger] all_forwards(specs, bind, ns)->Ok_0[i],
                specs,
                bind,
                ns,
            ),
{
    law_specs_are_read(specs, bind, ns);
    let v = all_forwards(specs, bind, ns)->Ok_0;
    assert forall|i: int| 0 <= i < v.len() implies stands_in(#[trigger] v[i], specs, bind, ns) by {
        assert(crate::forward::forward_of(specs[i], bind, ns) == Ok::<Forward, SpecFault>(v[i]));
    }
}

proof fn lemma_read_reverse_stands(specs: Seq<Seq<char>>)
    requires
        all_reverses(specs) is Ok,
    ensures
        forall|i: int|
            0 <= i < all_reverses(specs)->Ok_0.len() ==> reverse_stands_in(
                #[trigger] all_reverses(specs)->Ok_0[i],
                specs,
            ),
{
    law_reverse_specs_are_read(specs);
    let v = all_reverses(specs)->Ok_0;
    assert forall|i: int| 0 <= i < v.len() implies reverse_stands_in(#[trigger] v[i], specs) by {
        assert(crate::forward::reverse_of(specs[i]) == Ok::<Reverse, SpecFault>(v[i]));
    }
}

/// A session of a host is for that host and writes changes back to what is remembered of
/// it, from where it has its rules. Its default namespace is the one that the command line
/// gives, else the remembered one.
pub proof fn law_state_plan(args: RunArgs, host: Seq<char>, state: HostState, bind: IpAddr)
    ensures
        state_plan(args, host, state, bind) matches Ok(p) ==> {
            &&& p.host == host
            &&& p.profile is None
            &&& p.rules == crate::config::rules_of(state.autoforward@)
            &&& args.ns is None ==> p.default_ns == crate::config::remembered_ns_of(
                state.default_ns@,
            )
            &&& args.ns matches Some(n) ==> Ok::<Option<Ns>, SpecFault>(p.default_ns)
                == requested_ns_of(Some(n@))
            &&& p.via_ssh <==> !args.no_via_ssh && (args.via_ssh || state.via_ssh)
        },
{
}

/// Every forward of a session of a host is what a spec says: one of the command line, as
/// the user's own, or one that is remembered, as such.
pub proof fn law_state_plan_forwards(
    args: RunArgs,
    host: Seq<char>,
    state: HostState,
    bind: IpAddr,
    k: int,
)
    ensures
        state_plan(args, host, state, bind) matches Ok(p) ==> (0 <= k < p.forwards.len() ==> ({
            let (f, origin) = p.forwards[k];
            ||| origin == Origin::UserAdded && stands_in(
                f,
                string_texts(args.specs@),
                bind,
                p.default_ns,
            )
            ||| origin == Origin::Remembered && stands_in(
                f,
                string_texts(state.forwards@),
                bind,
                p.default_ns,
            )
        })),
{
    if let Ok(p) = state_plan(args, host, state, bind) {
        if 0 <= k < p.forwards.len() {
            let ns = p.default_ns;
            let specs = string_texts(args.specs@);
            let kept = string_texts(state.forwards@);
            let cf = all_forwards(specs, bind, ns)->Ok_0;
            let rem = crate::config::readable_forwards(kept, bind, ns);
            let front = tagged(cf, Origin::UserAdded);
            let s = with_remembered(front, rem);
            law_merged_targets(s, Seq::empty());
            law_taken_port_is_not_remembered(front, rem);
            lemma_remembered_front(front, rem);
            assert(s.contains(p.forwards[k]));
            let j = choose|j: int| 0 <= j < s.len() && s[j] == p.forwards[k];
            lemma_read_stands(specs, bind, ns);
            if j < front.len() {
                assert(s[j] == front[j]);
                assert(front[j] == (cf[j], Origin::UserAdded));
                assert(stands_in(cf[j], specs, bind, ns));
            } else {
                assert(rem.contains(s[j].0));
                lemma_readable_stands(kept, bind, ns, s[j].0);
            }
        }
    }
}

/// Every reverse forward of a session of a host is what a spec says: one of the command
/// line, as the user's own, or one that is remembered, as such.
pub proof fn law_state_plan_reverses(
    args: RunArgs,
    host: Seq<char>,
    state: HostState,
    bind: IpAddr,
    k: int,
)
    ensures
        state_plan(args, host, state, bind) matches Ok(p) ==> (0 <= k < p.reverse.len() ==> ({
            let (f, origin) = p.reverse[k];
            ||| origin == Origin::UserAdded && reverse_stands_in(f, string_texts(args.reverse@))
            ||| origin == Origin::Remembered && reverse_stands_in(
                f,
                string_texts(state.reverse_forwards@),
            )
        })),
{
    if let Ok(p) = state_plan(args, host, state, bind) {
        if 0 <= k < p.reverse.len() {
            let specs = string_texts(args.reverse@);
            let kept = string_texts(state.reverse_forwards@);
            let cr = all_reverses(specs)->Ok_0;
            let rem = crate::config::readable_reverses(kept);
            let s = rev_tagged(cr, Origin::UserAdded) + rev_tagged(rem, Origin::Remembered);
            lemma_first_binds_from(s, k);
            let j = choose|j: int| 0 <= j < s.len() && s[j] == p.reverse[k];
            lemma_read_reverse_stands(specs);
            if j < cr.len() {
                assert(s[j] == (cr[j], Origin::UserAdded));
                assert(reverse_stands_in(cr[j], specs));
            } else {
                assert(s[j] == (rem[j - cr.len()], Origin::Remembered));
                assert(rem.contains(rem[j - cr.len()]));
                lemma_readable_reverse_stands(kept, s[j].0);
            }
        }
    }
}

proof fn lemma_first_binds_from(s: Seq<(Reverse, Origin)>, k: int)
    requires
        0 <= k < first_binds(s).len(),
    ensures
        s.contains(first_binds(s)[k]),
    decreases s.len(),
{
    if s.len() > 0 {
        let t = s.drop_last();
        if k < first_binds(t).len() {
            lemma_first_binds_from(t, k);
            let j = choose|j: int| 0 <= j < t.len() && t[j] == first_binds(t)[k];
            assert(s[j] == first_binds(s)[k]);
        } else {
            assert(s[s.len() - 1] == s.last());
        }
    }
}

/// A session of a host starts unless the command line has a wrong namespace or a wrong
/// spec: the spec that is named stands on the command line, and what is remembered never
/// keeps a session from starting.
pub proof fn law_state_plan_refused(
    args: RunArgs,
    host: Seq<char>,
    state: HostState,
    bind: IpAddr,
)
    ensures
        match state_plan(args, host, state, bind) {
            Ok(_) => true,
            Err(LaunchFault::BadNs(e)) => args.ns is Some && requested_ns_of(opt_text(args.ns))
                == Err::<Option<Ns>, SpecFault>(e),
            Err(LaunchFault::BadForward { profile, spec, error }) => profile is None && string_texts(
                args.specs@,
            ).contains(spec),
            Err(LaunchFault::BadReverse { profile, spec, error }) => profile is None && string_texts(
                args.reverse@,
            ).contains(spec) && crate::forward::reverse_of(spec) == Err::<Reverse, SpecFault>(
                error,
            ),
            Err(_) => false,
        },
{
    if let Ok(ns) = launch_ns(args, state) {
        law_specs_are_read(string_texts(args.specs@), bind, ns);
        law_reverse_specs_are_read(string_texts(args.reverse@));
    }
}

/// A session of a profile is for the host that the command line names, else for the
/// profile's, and writes changes back to the profile, from where it has its rules. Its
/// default namespace is the one that the command line gives.
pub proof fn law_profile_plan(args: RunArgs, name: Seq<char>, profile: Profile, bind: IpAddr)
    ensures
        profile_plan(args, name, profile, bind) matches Ok(p) ==> {
            &&& args.host matches Some(h) ==> p.host == h@
            &&& args.host is None ==> p.host == profile.host@
            &&& p.host.len() > 0
            &&& p.profile == Some(name)
            &&& p.rules == crate::config::rules_of(profile.autoforward@)
            &&& Ok::<Option<Ns>, SpecFault>(p.default_ns) == requested_ns_of(opt_text(args.ns))
            &&& p.via_ssh <==> !args.no_via_ssh && (args.via_ssh || profile.via_ssh)
        },
        args.host is None && profile.host@.len() == 0 ==> profile_plan(args, name, profile, bind)
            == Err::<Plan, LaunchFault>(LaunchFault::NoProfileHost(name)),
{
}

/// Every forward of a session of a profile is what a spec says: one of the command line, as
/// the user's own, or one of the profile, as remembered.
pub proof fn law_profile_plan_forwards(
    args: RunArgs,
    name: Seq<char>,
    profile: Profile,
    bind: IpAddr,
    k: int,
)
    ensures
        profile_plan(args, name, profile, bind) matches Ok(p) ==> (0 <= k < p.forwards.len() ==> ({
            let (f, origin) = p.forwards[k];
            ||| origin == Origin::UserAdded && stands_in(
                f,
                string_texts(args.specs@),
                bind,
                p.default_ns,
            )
            ||| origin == Origin::Remembered && stands_in(
                f,
                string_texts(profile.forwards@),
                bind,
                p.default_ns,
            )
        })),
        profile_plan(args, name, profile, bind) matches Ok(p) ==> (0 <= k < p.reverse.len() ==> ({
            let (f, origin) = p.reverse[k];
            ||| origin == Origin::UserAdded && reverse_stands_in(f, string_texts(args.reverse@))
            ||| origin == Origin::Remembered && reverse_stands_in(
                f,
                string_texts(profile.reverse_forwards@),
            )
        })),
{
    if let Ok(p) = profile_plan(args, name, profile, bind) {
        let ns = p.default_ns;
        if 0 <= k < p.forwards.len() {
            let specs = string_texts(args.specs@);
            let own = string_texts(profile.forwards@);
            let cf = all_forwards(specs, bind, ns)->Ok_0;
            let pf = all_forwards(own, bind, ns)->Ok_0;
            let s = tagged(cf, Origin::UserAdded) + tagged(pf, Origin::Remembered);
            law_merged_targets(s, Seq::empty());
            assert(s.contains(p.forwards[k]));
            let j = choose|j: int| 0 <= j < s.len() && s[j] == p.forwards[k];
            lemma_read_stands(specs, bind, ns);
            lemma_read_stands(own, bind, ns);
            if j < cf.len() {
                assert(s[j] == (cf[j], Origin::UserAdded));
                assert(stands_in(cf[j], specs, bind, ns));
            } else {
                assert(s[j] == (pf[j - cf.len()], Origin::Remembered));
                assert(stands_in(pf[j - cf.len()], own, bind, ns));
            }
        }
        if 0 <= k < p.reverse.len() {
            let specs = string_texts(args.reverse@);
            let own = string_texts(profile.reverse_forwards@);
            let cr = all_reverses(specs)->Ok_0;
            let pr = all_reverses(own)->Ok_0;
            let s = rev_tagged(cr, Origin::UserAdded) + rev_tagged(pr, Origin::Remembered);
            lemma_first_binds_from(s, k);
            let j = choose|j: int| 0 <= j < s.len() && s[j] == p.reverse[k];
            lemma_read_reverse_stands(specs);
            lemma_read_reverse_stands(own);
            if j < cr.len() {
                assert(s[j] == (cr[j], Origin::UserAdded));
                assert(reverse_stands_in(cr[j], specs));
            } else {
                assert(s[j] == (pr[j - cr.len()], Origin::Remembered));
                assert(reverse_stands_in(pr[j - cr.len()], own));
            }
        }
    }
}

/// A wrong spec keeps a session of a profile from starting, wherever it stands; it is named
/// with the profile where it stands there, and alone where it stands on the command line.
pub proof fn law_profile_plan_refused(
    args: RunArgs,
    name: Seq<char>,
    profile: Profile,
    bind: IpAddr,
)
    ensures
        match profile_plan(args, name, profile, bind) {
            Ok(p) => all_forwards(string_texts(profile.forwards@), bind, p.default_ns) is Ok
                && all_forwards(string_texts(args.specs@), bind, p.default_ns) is Ok,
            Err(LaunchFault::BadForward { profile: Some(n), spec, error }) => n == name
                && string_texts(profile.forwards@).contains(spec),
            Err(LaunchFault::BadForward { profile: None, spec, error }) => string_texts(
                args.specs@,
            ).contains(spec),
            Err(LaunchFault::BadReverse { profile: Some(n), spec, error }) => n == name
                && string_texts(profile.reverse_forwards@).contains(spec)
                && crate::forward::reverse_of(spec) == Err::<Reverse, SpecFault>(error),
            Err(LaunchFault::BadReverse { profile: None, spec, error }) => string_texts(
                args.reverse@,
            ).contains(spec) && crate::forward::reverse_of(spec) == Err::<Reverse, SpecFault>(
                error,
            ),
            Err(LaunchFault::BadNs(e)) => requested_ns_of(opt_text(args.ns)) == Err::<
                Option<Ns>,
                SpecFault,
            >(e),
            Err(LaunchFault::NoProfileHost(n)) => n == name && profile.host@.len() == 0 || (
            args.host matches Some(h) && h@.len() == 0),
            Err(_) => false,
        },
{
    if let Ok(ns) = requested_ns_of(opt_text(args.ns)) {
        law_specs_are_read(string_texts(args.specs@), bind, ns);
        law_specs_are_read(string_texts(profile.forwards@), bind, ns);
        law_reverse_specs_are_read(string_texts(args.reverse@));
        law_reverse_specs_are_read(string_texts(profile.reverse_forwards@));
    }
}

/// A background session is for the host that the command line names; without one, for the
/// host of the profile that it names; and else there is none.
pub proof fn law_daemon_host(args: RunArgs, profile: Option<Profile>)
    ensures
        args.host matches Some(h) ==> daemon_host_of(args, profile) == Ok::<Seq<char>, LaunchFault>(
            h@,
        ),
        args.host is None ==> (daemon_host_of(args, profile) matches Ok(h) ==> h.len() > 0
            && args.profile is Some && profile is Some && h == profile->Some_0.host@),
        args.host is None && args.profile is Some && profile is Some
            && profile->Some_0.host@.len() > 0 ==> daemon_host_of(args, profile) is Ok,
{
}

} // verus!
