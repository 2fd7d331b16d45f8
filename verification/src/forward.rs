//! Forward-spec grammar and the in-memory forward model.
//!
//! A forward spec describes one mapping: which remote target the agent should
//! dial (optionally inside a network namespace) and which local port the client
//! should listen on.
//!
//! ```text
//! [NS@]REMOTE[->[BINDADDR:]LOCALPORT]
//! [NS@]socks[->LOCALPORT]
//!
//! REMOTE   = [HOST:]PORT          ; HOST defaults to 127.0.0.1
//! NS       = podman:<name> | docker:<name> | pid:<n>
//!          | netns:<name> | nspath:<file>
//! ```
//!
//! When `->LOCALPORT` is omitted, the local port prefers the remote port and
//! falls back to a free port if that local port is unavailable. When `NS@` is
//! omitted, the spec dials in the session's default namespace, or in the agent's
//! own namespace when no default is set.

use crate::error::{outcome, SpecError, SpecFault};
use crate::net::IpAddr;
use crate::text::{
    contains_char, dec, dec_i32, parse_i32, parse_unsigned, rsplit_once, split_once, str_eq,
    strip_prefix, to_chars, trim,
};
use vstd::prelude::*;

verus! {

// ---- namespaces --------------------------------------------------------

/// Selects the network namespace the agent dials *from*.
#[derive(Debug, PartialEq, Eq)]
pub enum NsSpec {
    /// Agent's own (host) network namespace.
    Host,
    /// Resolve a rootless Podman container name to its PID, then enter it.
    Podman(String),
    /// Resolve a Docker container name to its PID, then enter it.
    Docker(String),
    /// Enter the namespaces of an explicit PID (`/proc/<pid>/ns/{user,net}`).
    Pid(i32),
    /// Enter a classic `ip netns` namespace (`/run/netns/<name>`).
    Netns(String),
    /// Enter an explicit namespace file by path.
    NsPath(String),
}

/// The model of a namespace selector.
#[verifier::ext_equal]
pub enum Ns {
    Host,
    Podman(Seq<char>),
    Docker(Seq<char>),
    Pid(int),
    Netns(Seq<char>),
    NsPath(Seq<char>),
}

impl View for NsSpec {
    type V = Ns;

    open spec fn view(&self) -> Ns {
        match self {
            NsSpec::Host => Ns::Host,
            NsSpec::Podman(n) => Ns::Podman(n@),
            NsSpec::Docker(n) => Ns::Docker(n@),
            NsSpec::Pid(p) => Ns::Pid(*p as int),
            NsSpec::Netns(n) => Ns::Netns(n@),
            NsSpec::NsPath(n) => Ns::NsPath(n@),
        }
    }
}

impl Clone for NsSpec {
    fn clone(&self) -> (r: Self)
        ensures
            r@ == self@,
    {
        match self {
            NsSpec::Host => NsSpec::Host,
            NsSpec::Podman(n) => NsSpec::Podman(n.clone()),
            NsSpec::Docker(n) => NsSpec::Docker(n.clone()),
            NsSpec::Pid(p) => NsSpec::Pid(*p),
            NsSpec::Netns(n) => NsSpec::Netns(n.clone()),
            NsSpec::NsPath(n) => NsSpec::NsPath(n.clone()),
        }
    }
}

/// The quoted, escaped form of a text, as the debug formatting of `str` gives it.
pub uninterp spec fn debug_text(s: Seq<char>) -> Seq<char>;

/// Debug formatting of a string slice (`<str as Debug>::fmt` by way of
/// `format!("{:?}")`): the text between double quotes, with what would not print
/// escaped. Nothing is claimed but that it depends on the text alone.
#[verifier::external_body]
pub(crate) fn debug_str(s: &str) -> (r: String)
    ensures
        r@ == debug_text(s@),
{
    format!("{:?}", s)
}

/// The quoted, escaped form of a character, as the debug formatting of `char` gives
/// it.
pub uninterp spec fn debug_char_text(c: char) -> Seq<char>;

/// Debug formatting of a character (`<char as Debug>::fmt` by way of
/// `format!("{:?}")`). Nothing is claimed but that it depends on the character
/// alone.
#[verifier::external_body]
pub(crate) fn debug_char(c: char) -> (r: String)
    ensures
        r@ == debug_char_text(c),
{
    format!("{:?}", c)
}

/// The namespace that a selector `<kind>:<value>` denotes.
pub open spec fn selector_of(s: Seq<char>) -> Result<Ns, SpecFault> {
    match crate::text::cut_first(s, ":"@) {
        None => Err(SpecFault::BadNamespace(s, "expected <kind>:<value>"@)),
        Some((kind, rest)) => if rest.len() == 0 {
            Err(SpecFault::BadNamespace(s, "empty value"@))
        } else if kind == "podman"@ {
            Ok(Ns::Podman(rest))
        } else if kind == "docker"@ {
            Ok(Ns::Docker(rest))
        } else if kind == "pid"@ {
            match crate::text::signed_value(rest, i32::MAX as int) {
                Ok(p) => Ok(Ns::Pid(p)),
                Err(e) => Err(SpecFault::BadNamespace(s, e.text())),
            }
        } else if kind == "netns"@ {
            Ok(Ns::Netns(rest))
        } else if kind == "nspath"@ {
            Ok(Ns::NsPath(rest))
        } else {
            Err(SpecFault::BadNamespace(s, "unknown namespace kind "@ + debug_text(kind)))
        },
    }
}

impl Ns {
    /// The wire form: empty for the host namespace, else `<kind>:<value>`.
    pub open spec fn wire(self) -> Seq<char> {
        match self {
            Ns::Host => Seq::empty(),
            Ns::Podman(n) => "podman:"@ + n,
            Ns::Docker(n) => "docker:"@ + n,
            Ns::Pid(p) => "pid:"@ + crate::text::signed_decimal(p),
            Ns::Netns(n) => "netns:"@ + n,
            Ns::NsPath(n) => "nspath:"@ + n,
        }
    }

    /// Whether the selector names something: what is looked up by name has one,
    /// and a process id is one of the 32-bit numbers.
    pub open spec fn named(self) -> bool {
        match self {
            Ns::Host => true,
            Ns::Podman(n) => n.len() > 0,
            Ns::Docker(n) => n.len() > 0,
            Ns::Pid(p) => i32::MIN <= p <= i32::MAX,
            Ns::Netns(n) => n.len() > 0,
            Ns::NsPath(n) => n.len() > 0,
        }
    }
}

/// The namespace that a wire form denotes; the empty one is the host's.
pub open spec fn ns_of_wire(s: Seq<char>) -> Result<Ns, SpecFault> {
    if s.len() == 0 {
        Ok(Ns::Host)
    } else {
        selector_of(s)
    }
}

fn bad_namespace(s: &str, why: &str) -> (r: SpecError)
    ensures
        r@ == SpecFault::BadNamespace(s@, why@),
{
    SpecError::BadNamespace(s.to_owned(), why.to_owned())
}

impl NsSpec {
    /// Parses the portion before `@` into a namespace selector.
    pub fn parse(s: &str) -> (r: Result<NsSpec, SpecError>)
        ensures
            outcome(r) == selector_of(s@),
    {
        match split_once(s, ":") {
            None => Err(bad_namespace(s, "expected <kind>:<value>")),
            Some((kind, rest)) => {
                if rest.is_empty() {
                    Err(bad_namespace(s, "empty value"))
                } else if str_eq(kind, "podman") {
                    Ok(NsSpec::Podman(rest.to_owned()))
                } else if str_eq(kind, "docker") {
                    Ok(NsSpec::Docker(rest.to_owned()))
                } else if str_eq(kind, "pid") {
                    match parse_i32(rest) {
                        Ok(p) => Ok(NsSpec::Pid(p)),
                        Err(e) => Err(bad_namespace(s, e.message())),
                    }
                } else if str_eq(kind, "netns") {
                    Ok(NsSpec::Netns(rest.to_owned()))
                } else if str_eq(kind, "nspath") {
                    Ok(NsSpec::NsPath(rest.to_owned()))
                } else {
                    let mut why: String = String::from_str("unknown namespace kind ");
                    why.append(debug_str(kind).as_str());
                    Err(bad_namespace(s, why.as_str()))
                }
            },
        }
    }

    /// Whether this selector requires entering no namespace at all.
    pub fn is_host(&self) -> (r: bool)
        ensures
            r == (self@ is Host),
    {
        matches!(self, NsSpec::Host)
    }

    /// Whether this selector still means the same thing after the remote (or the
    /// workload inside it) restarts. Names and paths are resolved anew on every
    /// dial; a process id is gone by the next session, and a reused one would
    /// silently select an unrelated namespace.
    pub fn is_stable(&self) -> (r: bool)
        ensures
            r == !(self@ is Pid),
    {
        match self {
            NsSpec::Pid(_) => false,
            NsSpec::Host
            | NsSpec::Podman(_)
            | NsSpec::Docker(_)
            | NsSpec::Netns(_)
            | NsSpec::NsPath(_) => true,
        }
    }

    /// Canonical wire form, matching the spec grammar. Empty for the host
    /// namespace; otherwise `<kind>:<value>`.
    pub fn to_wire(&self) -> (r: String)
        ensures
            r@ == self@.wire(),
    {
        match self {
            NsSpec::Host => String::new(),
            NsSpec::Podman(n) => String::from_str("podman:").concat(n.as_str()),
            NsSpec::Docker(n) => String::from_str("docker:").concat(n.as_str()),
            NsSpec::Pid(p) => String::from_str("pid:").concat(dec_i32(*p).as_str()),
            NsSpec::Netns(n) => String::from_str("netns:").concat(n.as_str()),
            NsSpec::NsPath(n) => String::from_str("nspath:").concat(n.as_str()),
        }
    }

    /// Parses a wire-form selector.
    pub fn from_wire(s: &str) -> (r: Result<NsSpec, SpecError>)
        ensures
            outcome(r) == ns_of_wire(s@),
    {
        if s.is_empty() {
            Ok(NsSpec::Host)
        } else {
            NsSpec::parse(s)
        }
    }

    /// Whether the two selectors are the same.
    pub fn same(&self, other: &NsSpec) -> (r: bool)
        ensures
            r == (self@ == other@),
    {
        match (self, other) {
            (NsSpec::Host, NsSpec::Host) => true,
            (NsSpec::Podman(a), NsSpec::Podman(b)) => str_eq(a.as_str(), b.as_str()),
            (NsSpec::Docker(a), NsSpec::Docker(b)) => str_eq(a.as_str(), b.as_str()),
            (NsSpec::Pid(a), NsSpec::Pid(b)) => *a == *b,
            (NsSpec::Netns(a), NsSpec::Netns(b)) => str_eq(a.as_str(), b.as_str()),
            (NsSpec::NsPath(a), NsSpec::NsPath(b)) => str_eq(a.as_str(), b.as_str()),
            _ => false,
        }
    }
}

/// Reading a wire form gives back the namespace it was made from.
pub proof fn law_ns_wire_roundtrip(ns: Ns)
    requires
        ns.named(),
    ensures
        ns_of_wire(ns.wire()) == Ok::<Ns, SpecFault>(ns),
{
    reveal_strlit(":");
    reveal_strlit("podman:");
    reveal_strlit("docker:");
    reveal_strlit("pid:");
    reveal_strlit("netns:");
    reveal_strlit("nspath:");
    reveal_strlit("podman");
    reveal_strlit("docker");
    reveal_strlit("pid");
    reveal_strlit("netns");
    reveal_strlit("nspath");
    let w = ns.wire();
    match ns {
        Ns::Host => {},
        Ns::Podman(n) => {
            assert(w =~= "podman"@ + ":"@ + n);
            crate::text::lemma_cut_first_char("podman"@, ":"@, n);
        },
        Ns::Docker(n) => {
            assert(w =~= "docker"@ + ":"@ + n);
            crate::text::lemma_cut_first_char("docker"@, ":"@, n);
            assert("docker"@[0] != "podman"@[0]);
        },
        Ns::Pid(p) => {
            let n = crate::text::signed_decimal(p);
            assert(w =~= "pid"@ + ":"@ + n);
            crate::text::lemma_cut_first_char("pid"@, ":"@, n);
            crate::text::lemma_signed_decimal_roundtrip(p, i32::MAX as int);
            crate::text::lemma_decimal_digits(if p < 0 { -p } else { p });
            assert("pid"@.len() != "podman"@.len());
            assert("pid"@.len() != "docker"@.len());
        },
        Ns::Netns(n) => {
            assert(w =~= "netns"@ + ":"@ + n);
            crate::text::lemma_cut_first_char("netns"@, ":"@, n);
            assert("netns"@.len() != "podman"@.len());
            assert("netns"@.len() != "docker"@.len());
            assert("netns"@.len() != "pid"@.len());
        },
        Ns::NsPath(n) => {
            assert(w =~= "nspath"@ + ":"@ + n);
            crate::text::lemma_cut_first_char("nspath"@, ":"@, n);
            assert("nspath"@[0] != "podman"@[0]);
            assert("nspath"@[0] != "docker"@[0]);
            assert("nspath"@.len() != "pid"@.len());
            assert("nspath"@.len() != "netns"@.len());
        },
    }
}

proof fn lemma_wire_head(ns: Ns)
    ensures
        ns is Host ==> ns.wire().len() == 0,
        !(ns is Host) ==> ns.wire().len() >= 2,
        ns is Podman ==> ns.wire()[0] == 'p' && ns.wire()[1] == 'o',
        ns is Docker ==> ns.wire()[0] == 'd',
        ns is Pid ==> ns.wire()[0] == 'p' && ns.wire()[1] == 'i',
        ns is Netns ==> ns.wire()[0] == 'n' && ns.wire()[1] == 'e',
        ns is NsPath ==> ns.wire()[0] == 'n' && ns.wire()[1] == 's',
        ns matches Ns::Podman(n) ==> ns.wire().skip(7) == n,
        ns matches Ns::Docker(n) ==> ns.wire().skip(7) == n,
        ns matches Ns::Netns(n) ==> ns.wire().skip(6) == n,
        ns matches Ns::NsPath(n) ==> ns.wire().skip(7) == n,
{
    reveal_strlit("podman:");
    reveal_strlit("docker:");
    reveal_strlit("pid:");
    reveal_strlit("netns:");
    reveal_strlit("nspath:");
    match ns {
        Ns::Podman(n) => {
            assert(ns.wire().skip(7) =~= n);
        },
        Ns::Docker(n) => {
            assert(ns.wire().skip(7) =~= n);
        },
        Ns::Netns(n) => {
            assert(ns.wire().skip(6) =~= n);
        },
        Ns::NsPath(n) => {
            assert(ns.wire().skip(7) =~= n);
        },
        _ => {},
    }
}

/// Two namespaces with the same wire form are the same.
pub proof fn law_wire_tells_apart(a: Ns, b: Ns)
    requires
        a.wire() == b.wire(),
        a matches Ns::Pid(p) ==> i32::MIN <= p <= i32::MAX,
        b matches Ns::Pid(p) ==> i32::MIN <= p <= i32::MAX,
    ensures
        a == b,
{
    lemma_wire_head(a);
    lemma_wire_head(b);
    if a is Pid && b is Pid {
        law_ns_wire_roundtrip(a);
        law_ns_wire_roundtrip(b);
    }
}

/// What the parser accepts as a selector names something.
pub proof fn lemma_selector_named(s: Seq<char>)
    ensures
        selector_of(s) matches Ok(ns) ==> ns.named() && ns != Ns::Host,
{
    if let Some((kind, rest)) = crate::text::cut_first(s, ":"@) {
        if rest.len() > 1 && rest[0] == '-' {
            crate::text::lemma_digits_value_bounds(rest.drop_first(), i32::MAX + 1);
        } else if rest.len() > 0 {
            crate::text::lemma_digits_value_bounds(rest.drop_first(), i32::MAX as int);
            crate::text::lemma_digits_value_bounds(rest, i32::MAX as int);
        }
    }
}

// ---- forwards ----------------------------------------------------------

/// Whether a forward dials a fixed target or proxies dynamically.
#[derive(Debug, Clone, Copy, PartialEq, Eq, Structural)]
pub enum ForwardKind {
    /// Dial the spec's `remote_host:remote_port` for every connection.
    Direct,
    /// A local SOCKS5 proxy: the target is taken from each connection's SOCKS
    /// handshake, so `remote_host`/`remote_port` are unused.
    Socks,
}

impl Default for ForwardKind {
    fn default() -> (r: Self)
        ensures
            r == ForwardKind::Direct,
    {
        ForwardKind::Direct
    }
}

/// One fully-parsed port forward.
#[derive(Debug, PartialEq, Eq)]
pub struct ForwardSpec {
    /// Namespace the agent dials from.
    pub ns: NsSpec,
    /// Whether the spec named no namespace, so `ns` follows the session default
    /// (including "no default set, so [`NsSpec::Host`]"). Specs built from an
    /// observed listener set this to `false`: their namespace is a fact, not a
    /// default.
    pub ns_inherited: bool,
    /// Remote host the agent connects to (resolved inside `ns`).
    pub remote_host: String,
    /// Remote port the agent connects to.
    pub remote_port: u16,
    /// Local address the client binds its listener on.
    pub local_addr: IpAddr,
    /// Local port the client listens on.
    pub local_port: u16,
    /// Whether the local port was omitted and may fall back if unavailable.
    pub local_port_auto: bool,
    /// Direct target dial vs. dynamic SOCKS5 proxy.
    pub kind: ForwardKind,
}

/// The model of a [`ForwardSpec`].
#[verifier::ext_equal]
pub struct Forward {
    pub ns: Ns,
    pub ns_inherited: bool,
    pub remote_host: Seq<char>,
    pub remote_port: int,
    pub local_addr: IpAddr,
    pub local_port: int,
    pub local_port_auto: bool,
    pub kind: ForwardKind,
}

impl View for ForwardSpec {
    type V = Forward;

    open spec fn view(&self) -> Forward {
        Forward {
            ns: self.ns@,
            ns_inherited: self.ns_inherited,
            remote_host: self.remote_host@,
            remote_port: self.remote_port as int,
            local_addr: self.local_addr,
            local_port: self.local_port as int,
            local_port_auto: self.local_port_auto,
            kind: self.kind,
        }
    }
}

impl Clone for ForwardSpec {
    fn clone(&self) -> (r: Self)
        ensures
            r@ == self@,
    {
        ForwardSpec {
            ns: self.ns.clone(),
            ns_inherited: self.ns_inherited,
            remote_host: self.remote_host.clone(),
            remote_port: self.remote_port,
            local_addr: self.local_addr,
            local_port: self.local_port,
            local_port_auto: self.local_port_auto,
            kind: self.kind,
        }
    }
}

/// The remote host of a spec that gives only a port.
pub open spec fn default_host() -> Seq<char> {
    "127.0.0.1"@
}

/// The local port of a `socks` spec that gives none.
pub const SOCKS_DEFAULT_PORT: u16 = 1080;

/// The port that `s` denotes, in a spec `raw`: any decimal number from 1 to
/// 65535, with white space around it allowed.
pub open spec fn port_of(s: Seq<char>, raw: Seq<char>) -> Result<int, SpecFault> {
    let t = crate::text::trimmed(s);
    if t.len() == 0 {
        Err(SpecFault::MissingPort(raw))
    } else {
        match crate::text::unsigned_value(t, 65535) {
            Err(e) => Err(SpecFault::InvalidPort(t, e.text())),
            Ok(p) => if p == 0 {
                Err(SpecFault::InvalidPort(t, "port must be non-zero"@))
            } else {
                Ok(p)
            },
        }
    }
}

/// The text of the host in `[HOST:]PORT` and the text of the port. The host is
/// empty where only a port is given.
pub open spec fn host_and_port(
    s: Seq<char>,
    raw: Seq<char>,
    unterminated: Seq<char>,
) -> Result<(Option<Seq<char>>, Seq<char>), SpecFault> {
    if s.len() == 0 {
        Err(SpecFault::MissingPort(raw))
    } else {
        match crate::text::after_prefix(s, "["@) {
            Some(after) => match crate::text::cut_first(after, "]"@) {
                None => Err(SpecFault::Malformed(raw, unterminated)),
                Some((host, rest)) => match crate::text::after_prefix(rest, ":"@) {
                    None => Err(SpecFault::MissingPort(raw)),
                    Some(port) => Ok((Some(host), port)),
                },
            },
            None => match crate::text::cut_last(s, ":"@) {
                None => Ok((None, s)),
                Some((host, port)) => Ok((Some(host), port)),
            },
        }
    }
}

/// Whether the host of `[HOST:]PORT` stands in brackets.
pub open spec fn bracketed(s: Seq<char>) -> bool {
    crate::text::after_prefix(s, "["@) is Some
}

/// The target that `[HOST:]PORT` denotes. Without a host, or with an empty one
/// outside brackets, it is on the loopback address.
pub open spec fn host_port_of(s: Seq<char>, raw: Seq<char>) -> Result<
    (Seq<char>, int),
    SpecFault,
> {
    match host_and_port(s, raw, "unterminated '[' in host"@) {
        Err(e) => Err(e),
        Ok((host, port)) => match port_of(port, raw) {
            Err(e) => Err(e),
            Ok(p) => Ok(
                (
                    match host {
                        None => default_host(),
                        Some(h) => if h.len() == 0 && !bracketed(s) {
                            default_host()
                        } else {
                            h
                        },
                    },
                    p,
                ),
            ),
        },
    }
}

/// The bind address that `s` denotes, in a spec `raw`.
pub open spec fn bind_addr_of(s: Seq<char>, raw: Seq<char>) -> Result<IpAddr, SpecFault> {
    match crate::net::ip_of(s) {
        Some(a) => Ok(a),
        None => Err(
            SpecFault::Malformed(
                raw,
                "invalid local bind address "@ + debug_text(s) + ": invalid IP address syntax"@,
            ),
        ),
    }
}

/// The listen endpoint that `[BINDADDR:]PORT` denotes; no address where none is
/// given.
pub open spec fn bind_port_of(text: Seq<char>, raw: Seq<char>) -> Result<
    (Option<IpAddr>, int),
    SpecFault,
> {
    let s = crate::text::trimmed(text);
    match host_and_port(s, raw, "unterminated '[' in local bind address"@) {
        Err(e) => Err(e),
        Ok((None, port)) => match port_of(port, raw) {
            Err(e) => Err(e),
            Ok(p) => Ok((None, p)),
        },
        Ok((Some(addr), port)) => match bind_addr_of(addr, raw) {
            Err(e) => Err(e),
            Ok(a) => match port_of(port, raw) {
                Err(e) => Err(e),
                Ok(p) => Ok((Some(a), p)),
            },
        },
    }
}

/// Whether `s` is the word `socks`, in whatever case.
pub open spec fn is_socks_word(s: Seq<char>) -> bool {
    &&& s.len() == 5
    &&& (s[0] == 's' || s[0] == 'S')
    &&& (s[1] == 'o' || s[1] == 'O')
    &&& (s[2] == 'c' || s[2] == 'C')
    &&& (s[3] == 'k' || s[3] == 'K')
    &&& (s[4] == 's' || s[4] == 'S')
}

/// The namespace of a spec, whether it was inherited, and the rest of the spec.
pub open spec fn ns_part_of(raw: Seq<char>, default_ns: Option<Ns>) -> Result<
    (Ns, bool, Seq<char>),
    SpecFault,
> {
    match crate::text::cut_first(raw, "@"@) {
        Some((ns_part, rest)) => match selector_of(ns_part) {
            Ok(ns) => Ok((ns, false, rest)),
            Err(e) => Err(e),
        },
        None => Ok(
            (
                match default_ns {
                    Some(ns) => ns,
                    None => Ns::Host,
                },
                true,
                raw,
            ),
        ),
    }
}

/// The local end of a spec: bind address, port, and whether the port may fall
/// back. `prefer` is the port of a spec that gives none.
pub open spec fn local_end_of(
    local: Option<Seq<char>>,
    raw: Seq<char>,
    default_bind: IpAddr,
    prefer: int,
    socks: bool,
) -> Result<(IpAddr, int, bool), SpecFault> {
    match local {
        None => Ok((default_bind, prefer, true)),
        Some(l) => match bind_port_of(l, raw) {
            Err(e) => Err(e),
            Ok((Some(a), p)) => if socks && !a.loopback() {
                Err(
                    SpecFault::Malformed(
                        raw,
                        "a SOCKS proxy is loopback-only; drop the bind address"@,
                    ),
                )
            } else {
                Ok((a, p, false))
            },
            Ok((None, p)) => Ok((default_bind, p, false)),
        },
    }
}

/// The target and the local part of a spec, around its first arrow.
pub open spec fn around_arrow(target: Seq<char>) -> (Seq<char>, Option<Seq<char>>) {
    match crate::text::cut_first(target, "->"@) {
        Some((r, l)) => (crate::text::trimmed(r), Some(crate::text::trimmed(l))),
        None => (crate::text::trimmed(target), None),
    }
}

/// The forward that a spec without its namespace part denotes.
pub open spec fn target_of(
    target: Seq<char>,
    raw: Seq<char>,
    default_bind: IpAddr,
    ns: Ns,
    ns_inherited: bool,
) -> Result<Forward, SpecFault> {
    let (remote, local) = around_arrow(target);
    if is_socks_word(remote) {
        match local_end_of(local, raw, default_bind, SOCKS_DEFAULT_PORT as int, true) {
            Err(e) => Err(e),
            Ok((addr, port, auto)) => Ok(
                Forward {
                    ns,
                    ns_inherited,
                    remote_host: Seq::empty(),
                    remote_port: 0,
                    local_addr: addr,
                    local_port: port,
                    local_port_auto: auto,
                    kind: ForwardKind::Socks,
                },
            ),
        }
    } else {
        match host_port_of(remote, raw) {
            Err(e) => Err(e),
            Ok((host, rport)) => match local_end_of(local, raw, default_bind, rport, false) {
                Err(e) => Err(e),
                Ok((addr, port, auto)) => Ok(
                    Forward {
                        ns,
                        ns_inherited,
                        remote_host: host,
                        remote_port: rport,
                        local_addr: addr,
                        local_port: port,
                        local_port_auto: auto,
                        kind: ForwardKind::Direct,
                    },
                ),
            },
        }
    }
}

/// The forward that a spec denotes under the session's defaults.
pub open spec fn forward_of(
    input: Seq<char>,
    default_bind: IpAddr,
    default_ns: Option<Ns>,
) -> Result<Forward, SpecFault> {
    let raw = crate::text::trimmed(input);
    if raw.len() == 0 {
        Err(SpecFault::Empty)
    } else {
        match ns_part_of(raw, default_ns) {
            Err(e) => Err(e),
            Ok((ns, inherited, target)) => target_of(target, raw, default_bind, ns, inherited),
        }
    }
}

/// Parses the port `s` of the spec `raw`.
pub fn parse_port(s: &str, raw: &str) -> (r: Result<u16, SpecError>)
    ensures
        match r {
            Ok(p) => port_of(s@, raw@) == Ok::<int, SpecFault>(p as int),
            Err(e) => port_of(s@, raw@) == Err::<int, SpecFault>(e@),
        },
{
    let t: &str = trim(s);
    if t.is_empty() {
        return Err(SpecError::MissingPort(raw.to_owned()));
    }
    match parse_unsigned(t, 65535) {
        Err(e) => Err(SpecError::InvalidPort(t.to_owned(), e.message().to_owned())),
        Ok(p) => {
            if p == 0 {
                Err(SpecError::InvalidPort(t.to_owned(), "port must be non-zero".to_owned()))
            } else {
                Ok(p as u16)
            }
        },
    }
}

fn split_host_port<'a>(s: &'a str, raw: &str, unterminated: &str) -> (r: Result<
    (Option<&'a str>, &'a str),
    SpecError,
>)
    ensures
        match r {
            Ok((Some(h), p)) => host_and_port(s@, raw@, unterminated@) == Ok::<_, SpecFault>(
                (Some(h@), p@),
            ),
            Ok((None, p)) => host_and_port(s@, raw@, unterminated@) == Ok::<
                (Option<Seq<char>>, Seq<char>),
                SpecFault,
            >((None, p@)),
            Err(e) => host_and_port(s@, raw@, unterminated@) == Err::<
                (Option<Seq<char>>, Seq<char>),
                SpecFault,
            >(e@),
        },
{
    if s.is_empty() {
        return Err(SpecError::MissingPort(raw.to_owned()));
    }
    match strip_prefix(s, "[") {
        Some(after) => match split_once(after, "]") {
            None => Err(SpecError::Malformed(raw.to_owned(), unterminated.to_owned())),
            Some((host, rest)) => match strip_prefix(rest, ":") {
                None => Err(SpecError::MissingPort(raw.to_owned())),
                Some(port) => Ok((Some(host), port)),
            },
        },
        None => match rsplit_once(s, ":") {
            None => Ok((None, s)),
            Some((host, port)) => Ok((Some(host), port)),
        },
    }
}

/// Parses `[HOST:]PORT`, defaulting the host to loopback. Handles bracketed IPv6
/// hosts like `[::1]:8080`.
pub fn parse_host_port(s: &str, raw: &str) -> (r: Result<(String, u16), SpecError>)
    ensures
        match r {
            Ok((h, p)) => host_port_of(s@, raw@) == Ok::<(Seq<char>, int), SpecFault>(
                (h@, p as int),
            ),
            Err(e) => host_port_of(s@, raw@) == Err::<(Seq<char>, int), SpecFault>(e@),
        },
{
    match split_host_port(s, raw, "unterminated '[' in host") {
        Err(e) => Err(e),
        Ok((host, port)) => match parse_port(port, raw) {
            Err(e) => Err(e),
            Ok(p) => {
                let h: String = match host {
                    None => "127.0.0.1".to_owned(),
                    Some(h) => {
                        if h.is_empty() && strip_prefix(s, "[").is_none() {
                            "127.0.0.1".to_owned()
                        } else {
                            h.to_owned()
                        }
                    },
                };
                Ok((h, p))
            },
        },
    }
}

fn parse_bind_addr(s: &str, raw: &str) -> (r: Result<IpAddr, SpecError>)
    ensures
        match r {
            Ok(a) => bind_addr_of(s@, raw@) == Ok::<IpAddr, SpecFault>(a),
            Err(e) => bind_addr_of(s@, raw@) == Err::<IpAddr, SpecFault>(e@),
        },
{
    match IpAddr::parse(s) {
        Some(a) => Ok(a),
        None => {
            let mut why: String = String::from_str("invalid local bind address ");
            why.append(debug_str(s).as_str());
            why.append(": invalid IP address syntax");
            Err(SpecError::Malformed(raw.to_owned(), why))
        },
    }
}

/// Parses `[BINDADDR:]PORT` into an optional bind address and a port. The caller
/// substitutes its default where no address was given.
pub fn parse_bind_port(text: &str, raw: &str) -> (r: Result<(Option<IpAddr>, u16), SpecError>)
    ensures
        match r {
            Ok((a, p)) => bind_port_of(text@, raw@) == Ok::<(Option<IpAddr>, int), SpecFault>(
                (a, p as int),
            ),
            Err(e) => bind_port_of(text@, raw@) == Err::<(Option<IpAddr>, int), SpecFault>(e@),
        },
{
    let s: &str = trim(text);
    match split_host_port(s, raw, "unterminated '[' in local bind address") {
        Err(e) => Err(e),
        Ok((None, port)) => match parse_port(port, raw) {
            Err(e) => Err(e),
            Ok(p) => Ok((None, p)),
        },
        Ok((Some(addr), port)) => match parse_bind_addr(addr, raw) {
            Err(e) => Err(e),
            Ok(a) => match parse_port(port, raw) {
                Err(e) => Err(e),
                Ok(p) => Ok((Some(a), p)),
            },
        },
    }
}

fn says_socks(s: &str) -> (r: bool)
    ensures
        r == is_socks_word(s@),
{
    let c: Vec<char> = to_chars(s);
    c.len() == 5 && (c[0] == 's' || c[0] == 'S') && (c[1] == 'o' || c[1] == 'O') && (c[2] == 'c'
        || c[2] == 'C') && (c[3] == 'k' || c[3] == 'K') && (c[4] == 's' || c[4] == 'S')
}

fn parse_local_end(
    local: Option<&str>,
    raw: &str,
    default_bind: IpAddr,
    prefer: u16,
    socks: bool,
) -> (r: Result<(IpAddr, u16, bool), SpecError>)
    ensures
        ({
            let l = match local {
                Some(l) => Some(l@),
                None => None,
            };
            let want = local_end_of(l, raw@, default_bind, prefer as int, socks);
            match r {
                Ok((a, p, auto)) => want == Ok::<(IpAddr, int, bool), SpecFault>(
                    (a, p as int, auto),
                ),
                Err(e) => want == Err::<(IpAddr, int, bool), SpecFault>(e@),
            }
        }),
{
    match local {
        None => Ok((default_bind, prefer, true)),
        Some(l) => match parse_bind_port(l, raw) {
            Err(e) => Err(e),
            Ok((Some(a), p)) => {
                if socks && !a.is_loopback() {
                    Err(
                        SpecError::Malformed(
                            raw.to_owned(),
                            "a SOCKS proxy is loopback-only; drop the bind address".to_owned(),
                        ),
                    )
                } else {
                    Ok((a, p, false))
                }
            },
            Ok((None, p)) => Ok((default_bind, p, false)),
        },
    }
}

/// The model of an optional namespace.
pub open spec fn ns_view(ns: Option<&NsSpec>) -> Option<Ns> {
    match ns {
        Some(n) => Some(n@),
        None => None,
    }
}

impl ForwardSpec {
    /// Whether this is a dynamic SOCKS5 proxy rather than a fixed-target forward.
    pub fn is_socks(&self) -> (r: bool)
        ensures
            r == (self.kind is Socks),
    {
        matches!(self.kind, ForwardKind::Socks)
    }

    /// A stable key identifying this forward by its local listen endpoint.
    pub fn local_key(&self) -> (r: (IpAddr, u16))
        ensures
            r == (self.local_addr, self.local_port),
    {
        (self.local_addr, self.local_port)
    }

    /// Parses a forward spec, using `default_bind` for the local listener when
    /// the spec omits an explicit bind address.
    pub fn parse_with_bind(input: &str, default_bind: IpAddr) -> (r: Result<Self, SpecError>)
        ensures
            outcome(r) == forward_of(input@, default_bind, None),
    {
        Self::parse_with_defaults(input, default_bind, None)
    }

    /// Parses a forward spec against the session's defaults: `default_bind` for an
    /// omitted local bind address, and `default_ns` for an omitted `NS@` prefix.
    /// An `NS@` written into the spec always wins; the inherited case is flagged.
    pub fn parse_with_defaults(
        input: &str,
        default_bind: IpAddr,
        default_ns: Option<&NsSpec>,
    ) -> (r: Result<Self, SpecError>)
        ensures
            outcome(r) == forward_of(input@, default_bind, ns_view(default_ns)),
    {
        let raw: &str = trim(input);
        if raw.is_empty() {
            return Err(SpecError::Empty);
        }
        let (ns, ns_inherited, target): (NsSpec, bool, &str) = match split_once(raw, "@") {
            Some((ns_part, rest)) => match NsSpec::parse(ns_part) {
                Ok(ns) => (ns, false, rest),
                Err(e) => {
                    return Err(e);
                },
            },
            None => match default_ns {
                Some(ns) => (ns.clone(), true, raw),
                None => (NsSpec::Host, true, raw),
            },
        };
        let (remote, local): (&str, Option<&str>) = match split_once(target, "->") {
            Some((r, l)) => (trim(r), Some(trim(l))),
            None => (trim(target), None),
        };
        if says_socks(remote) {
            return match parse_local_end(local, raw, default_bind, SOCKS_DEFAULT_PORT, true) {
                Err(e) => Err(e),
                Ok((local_addr, local_port, local_port_auto)) => {
                    let f = ForwardSpec {
                        ns,
                        ns_inherited,
                        remote_host: String::new(),
                        remote_port: 0,
                        local_addr,
                        local_port,
                        local_port_auto,
                        kind: ForwardKind::Socks,
                    };
                    Ok(f)
                },
            };
        }
        match parse_host_port(remote, raw) {
            Err(e) => Err(e),
            Ok((remote_host, remote_port)) => match parse_local_end(
                local,
                raw,
                default_bind,
                remote_port,
                false,
            ) {
                Err(e) => Err(e),
                Ok((local_addr, local_port, local_port_auto)) => Ok(
                    ForwardSpec {
                        ns,
                        ns_inherited,
                        remote_host,
                        remote_port,
                        local_addr,
                        local_port,
                        local_port_auto,
                        kind: ForwardKind::Direct,
                    },
                ),
            },
        }
    }
}

// ---- rendering ---------------------------------------------------------

/// `ADDR:PORT`, with the address of an IPv6 endpoint in brackets.
pub open spec fn endpoint_text(addr: IpAddr, port: int) -> Seq<char> {
    match addr {
        IpAddr::V4(_) => addr.text() + ":"@ + crate::text::decimal(port),
        IpAddr::V6(_) => "["@ + addr.text() + "]"@ + ":"@ + crate::text::decimal(port),
    }
}

/// `ADDR:PORT`, with the address of an IPv6 endpoint in brackets.
pub fn show_endpoint(addr: &IpAddr, port: u16) -> (r: String)
    ensures
        r@ == endpoint_text(*addr, port as int),
{
    match addr {
        IpAddr::V4(_) => addr.to_text().concat(":").concat(dec(port as u64).as_str()),
        IpAddr::V6(_) => String::from_str("[").concat(addr.to_text().as_str()).concat("]").concat(
            ":",
        ).concat(dec(port as u64).as_str()),
    }
}

/// The namespace prefix of a rendered spec: nothing for the host namespace.
pub open spec fn ns_prefix(ns: Ns) -> Seq<char> {
    if ns is Host {
        Seq::empty()
    } else {
        ns.wire() + "@"@
    }
}

impl Forward {
    /// The spec that names this forward: short where the spec said nothing of a
    /// part, so that what followed a default keeps following it.
    pub open spec fn rendered(self, default_bind: IpAddr) -> Seq<char> {
        let prefix = if self.ns_inherited {
            Seq::empty()
        } else {
            ns_prefix(self.ns)
        };
        let target = match self.kind {
            ForwardKind::Socks => "socks"@,
            ForwardKind::Direct => self.remote_host + ":"@ + crate::text::decimal(self.remote_port),
        };
        if self.local_port_auto {
            prefix + target
        } else {
            prefix + target + "->"@ + (if self.local_addr == default_bind {
                crate::text::decimal(self.local_port)
            } else {
                endpoint_text(self.local_addr, self.local_port)
            })
        }
    }
}

impl ForwardSpec {
    /// Canonical rendering in the spec grammar. An inherited namespace and a bind
    /// address that is the default are left out, and so is a local port that may
    /// fall back, whatever port it is bound to at the moment.
    pub fn to_spec_string(&self, default_bind: IpAddr) -> (r: String)
        ensures
            r@ == self@.rendered(default_bind),
    {
        let mut s: String = if self.ns_inherited || self.ns.is_host() {
            String::new()
        } else {
            self.ns.to_wire().concat("@")
        };
        match self.kind {
            ForwardKind::Socks => {
                s.append("socks");
            },
            ForwardKind::Direct => {
                let target: String = self.remote_host.clone().concat(":").concat(
                    dec(self.remote_port as u64).as_str(),
                );
                s.append(target.as_str());
            },
        }
        if !self.local_port_auto {
            s.append("->");
            if self.local_addr == default_bind {
                s.append(dec(self.local_port as u64).as_str());
            } else {
                s.append(show_endpoint(&self.local_addr, self.local_port).as_str());
            }
        }
        s
    }
}

// ---- reading what was rendered -----------------------------------------

/// A rendered port reads back.
proof fn lemma_port(p: int, raw: Seq<char>)
    requires
        1 <= p <= 65535,
    ensures
        port_of(crate::text::decimal(p), raw) == Ok::<int, SpecFault>(p),
        !crate::text::decimal(p).contains(':'),
        !crate::text::decimal(p).contains('@'),
        !crate::text::decimal(p).contains('-'),
        !crate::text::decimal(p).contains('['),
        crate::text::is_tight(crate::text::decimal(p)),
        crate::text::decimal(p).len() > 0,
{
    let d = crate::text::decimal(p);
    crate::text::lemma_decimal_digits(p);
    crate::text::lemma_decimal_roundtrip(p, 65535);
    assert(crate::text::is_digit(d[0]));
    assert(crate::text::is_digit(d[d.len() - 1]));
    crate::text::lemma_trim_tight(d);
}

/// A port without an address reads back as one.
proof fn lemma_bare_bind(p: int, raw: Seq<char>)
    requires
        1 <= p <= 65535,
    ensures
        bind_port_of(crate::text::decimal(p), raw) == Ok::<(Option<IpAddr>, int), SpecFault>(
            (None, p),
        ),
{
    reveal_strlit("[");
    reveal_strlit(":");
    let d = crate::text::decimal(p);
    lemma_port(p, raw);
    crate::text::lemma_trim_tight(d);
    assert(!crate::text::occurs_at(d, "["@, 0)) by {
        if crate::text::occurs_at(d, "["@, 0) {
            assert(d.subrange(0, 1)[0] == d[0]);
            assert(d.contains('['));
        }
    }
    crate::text::lemma_cut_none(d, ":"@);
}

/// A rendered endpoint reads back, and is free of what separates the parts of
/// a spec.
proof fn lemma_endpoint(a: IpAddr, p: int, raw: Seq<char>)
    requires
        1 <= p <= 65535,
    ensures
        bind_port_of(endpoint_text(a, p), raw) == Ok::<(Option<IpAddr>, int), SpecFault>(
            (Some(a), p),
        ),
        !endpoint_text(a, p).contains('@'),
        crate::text::is_tight(endpoint_text(a, p)),
        endpoint_text(a, p).len() > 0,
{
    reveal_strlit("[");
    reveal_strlit(":");
    reveal_strlit("]");
    let s = endpoint_text(a, p);
    let t = a.text();
    let d = crate::text::decimal(p);
    lemma_port(p, raw);
    crate::net::lemma_ip_chars(a);
    crate::net::lemma_ip_roundtrip(a);
    match a {
        IpAddr::V4(_) => {
            assert(s[0] == t[0]);
            assert(s.last() == d.last());
            assert(crate::text::is_tight(s));
            crate::text::lemma_trim_tight(s);
            assert(!crate::text::occurs_at(s, "["@, 0)) by {
                if crate::text::occurs_at(s, "["@, 0) {
                    assert(s.subrange(0, 1)[0] == s[0]);
                }
            }
            crate::text::lemma_cut_last_char(t, ":"@, d);
            assert forall|i: int| 0 <= i < s.len() implies s[i] != '@' by {
                if i < t.len() {
                    assert(s[i] == t[i]);
                } else if i > t.len() {
                    assert(s[i] == d[i - t.len() - 1]);
                }
            }
        },
        IpAddr::V6(_) => {
            assert(s[0] == '[');
            assert(s.last() == d.last());
            assert(crate::text::is_tight(s));
            crate::text::lemma_trim_tight(s);
            assert(s.subrange(0, 1) =~= "["@);
            assert(crate::text::occurs_at(s, "["@, 0));
            let after = t + "]"@ + (":"@ + d);
            assert(s.skip(1) =~= after);
            assert(!t.contains(']'));
            crate::text::lemma_cut_first_char(t, "]"@, ":"@ + d);
            let rest = ":"@ + d;
            assert(rest.subrange(0, 1) =~= ":"@);
            assert(crate::text::occurs_at(rest, ":"@, 0));
            assert(rest.skip(1) =~= d);
            assert forall|i: int| 0 <= i < s.len() implies s[i] != '@' by {
                if 0 < i < t.len() + 1 {
                    assert(s[i] == t[i - 1]);
                } else if i > t.len() + 2 {
                    assert(s[i] == d[i - t.len() - 3]);
                }
            }
        },
    }
}

/// A host that reads back from `HOST:PORT` as it stands: it is not empty, and
/// does not begin with a bracket or white space.
pub open spec fn is_plain_host(h: Seq<char>) -> bool {
    h.len() > 0 && h[0] != '[' && !crate::text::is_white(h[0])
}

/// `HOST:PORT` reads back.
proof fn lemma_host_port(h: Seq<char>, p: int, raw: Seq<char>)
    requires
        1 <= p <= 65535,
        is_plain_host(h),
    ensures
        host_port_of(h + ":"@ + crate::text::decimal(p), raw) == Ok::<(Seq<char>, int), SpecFault>(
            (h, p),
        ),
        crate::text::is_tight(h + ":"@ + crate::text::decimal(p)),
        !is_socks_word(h + ":"@ + crate::text::decimal(p)),
{
    reveal_strlit("[");
    reveal_strlit(":");
    let d = crate::text::decimal(p);
    let s = h + ":"@ + d;
    lemma_port(p, raw);
    assert(s[0] == h[0]);
    assert(s.last() == d.last());
    assert(!crate::text::occurs_at(s, "["@, 0)) by {
        if crate::text::occurs_at(s, "["@, 0) {
            assert(s.subrange(0, 1)[0] == s[0]);
        }
    }
    crate::text::lemma_cut_last_char(h, ":"@, d);
    assert(s[h.len() as int] == ':');
}

/// An arrow put behind a text that holds none is the first one.
proof fn lemma_around_arrow(t: Seq<char>, l: Seq<char>)
    requires
        !crate::text::is_part("->"@, t),
        crate::text::is_tight(t),
        crate::text::is_tight(l),
    ensures
        around_arrow(t + "->"@ + l) == (t, Some(l)),
        around_arrow(t) == (t, None::<Seq<char>>),
{
    reveal_strlit("->");
    let s = t + "->"@ + l;
    let n = t.len() as int;
    assert(s.subrange(n, n + 2) =~= "->"@);
    assert forall|j: int| 0 <= j < n implies !#[trigger] crate::text::occurs_at(s, "->"@, j) by {
        if crate::text::occurs_at(s, "->"@, j) {
            assert(s.subrange(j, j + 2)[1] == s[j + 1]);
            if j + 2 <= n {
                assert(t.subrange(j, j + 2) =~= s.subrange(j, j + 2));
                assert(crate::text::occurs_at(t, "->"@, j));
            }
        }
    }
    assert(crate::text::first_at(s, "->"@, n));
    crate::text::lemma_cut_first_at(s, "->"@, n);
    assert(s.subrange(0, n) =~= t);
    assert(s.subrange(n + 2, s.len() as int) =~= l);
    crate::text::lemma_trim_tight(t);
    crate::text::lemma_trim_tight(l);
    if let Some(x) = crate::text::cut_first(t, "->"@) {
        let i = choose|i: int| crate::text::first_at(t, "->"@, i);
        assert(crate::text::occurs_at(t, "->"@, i));
    }
}

impl Forward {
    /// What holds of every forward that was read from a spec under the given
    /// defaults.
    pub open spec fn is_read(self, default_bind: IpAddr, default_ns: Option<Ns>) -> bool {
        &&& self.ns_inherited ==> self.ns == (match default_ns {
            Some(ns) => ns,
            None => Ns::Host,
        }) && !self.remote_host.contains('@')
        &&& !self.ns_inherited ==> self.ns.named() && self.ns != Ns::Host
            && !self.ns.wire().contains('@')
        &&& 1 <= self.local_port <= 65535
        &&& self.local_port_auto ==> self.local_addr == default_bind
        &&& match self.kind {
            ForwardKind::Socks => {
                &&& self.remote_host == Seq::<char>::empty()
                &&& self.remote_port == 0
                &&& self.local_port_auto ==> self.local_port == SOCKS_DEFAULT_PORT
                &&& self.local_addr == default_bind || self.local_addr.loopback()
            },
            ForwardKind::Direct => {
                &&& 1 <= self.remote_port <= 65535
                &&& !crate::text::is_part("->"@, self.remote_host)
                &&& self.local_port_auto ==> self.local_port == self.remote_port
            },
        }
    }
}

proof fn lemma_port_bounds(s: Seq<char>, raw: Seq<char>)
    ensures
        port_of(s, raw) matches Ok(p) ==> 1 <= p <= 65535,
{
    let t = crate::text::trimmed(s);
    if t.len() > 0 {
        crate::text::lemma_digits_value_bounds(t, 65535);
        crate::text::lemma_digits_value_bounds(t.drop_first(), 65535);
    }
}

proof fn lemma_bind_port_bounds(s: Seq<char>, raw: Seq<char>)
    ensures
        bind_port_of(s, raw) matches Ok((a, p)) ==> 1 <= p <= 65535,
{
    let t = crate::text::trimmed(s);
    if let Ok((h, port)) = host_and_port(t, raw, "unterminated '[' in local bind address"@) {
        lemma_port_bounds(port, raw);
    }
}

/// The host that was read is part of the text, or the default one.
proof fn lemma_host_part(s: Seq<char>, raw: Seq<char>)
    ensures
        host_port_of(s, raw) matches Ok((h, p)) ==> 1 <= p <= 65535 && (h == default_host()
            || crate::text::is_part(h, s)),
{
    match host_and_port(s, raw, "unterminated '[' in host"@) {
        Err(_) => {},
        Ok((host, port)) => {
            lemma_port_bounds(port, raw);
            match crate::text::after_prefix(s, "["@) {
                Some(after) => {
                    crate::text::lemma_after_prefix_part(s, "["@);
                    crate::text::lemma_cut_first_parts(after, "]"@);
                    if let Some((h, rest)) = crate::text::cut_first(after, "]"@) {
                        crate::text::lemma_part_trans(h, after, s);
                    }
                },
                None => {
                    crate::text::lemma_cut_last_parts(s, ":"@);
                },
            }
        },
    }
}

/// A selector without an `@` names a namespace whose wire form has none.
proof fn lemma_selector_wire(s: Seq<char>)
    requires
        !s.contains('@'),
    ensures
        selector_of(s) matches Ok(ns) ==> !ns.wire().contains('@'),
{
    reveal_strlit("podman:");
    reveal_strlit("docker:");
    reveal_strlit("pid:");
    reveal_strlit("netns:");
    reveal_strlit("nspath:");
    lemma_selector_named(s);
    crate::text::lemma_cut_first_parts(s, ":"@);
    if let Some((kind, rest)) = crate::text::cut_first(s, ":"@) {
        crate::text::lemma_part_contains(rest, s, '@');
        if let Ok(ns) = selector_of(s) {
            let head = match ns {
                Ns::Podman(_) => "podman:"@,
                Ns::Docker(_) => "docker:"@,
                Ns::Pid(_) => "pid:"@,
                Ns::Netns(_) => "netns:"@,
                _ => "nspath:"@,
            };
            let tail = match ns {
                Ns::Pid(p) => crate::text::signed_decimal(p),
                _ => rest,
            };
            assert(ns.wire() == head + tail);
            if let Ns::Pid(p) = ns {
                crate::text::lemma_decimal_digits(if p < 0 { -p } else { p });
                let d = crate::text::decimal(if p < 0 { -p } else { p });
                assert forall|i: int| 0 <= i < tail.len() implies tail[i] != '@' by {
                    if p < 0 && i > 0 {
                        assert(tail[i] == d[i - 1]);
                    } else if p >= 0 {
                        assert(tail[i] == d[i]);
                    }
                }
            }
            assert(!tail.contains('@'));
            assert forall|i: int| 0 <= i < ns.wire().len() implies ns.wire()[i] != '@' by {
                if i < head.len() {
                    assert(ns.wire()[i] == head[i]);
                } else {
                    assert(ns.wire()[i] == tail[i - head.len()]);
                    assert(tail.contains(tail[i - head.len()]));
                }
            }
        }
    }
}

proof fn lemma_no_arrow_part(h: Seq<char>, s: Seq<char>)
    requires
        crate::text::is_part(h, s),
        !crate::text::is_part("->"@, s),
    ensures
        !crate::text::is_part("->"@, h),
{
    if crate::text::is_part("->"@, h) {
        crate::text::lemma_part_trans("->"@, h, s);
    }
}

/// What is read of a target: its host is part of the text or the default one,
/// and holds no arrow.
proof fn lemma_target_read(
    target: Seq<char>,
    raw: Seq<char>,
    default_bind: IpAddr,
    ns: Ns,
    ns_inherited: bool,
)
    ensures
        target_of(target, raw, default_bind, ns, ns_inherited) matches Ok(f) ==> {
            &&& f.ns == ns
            &&& f.ns_inherited == ns_inherited
            &&& 1 <= f.local_port <= 65535
            &&& f.local_port_auto ==> f.local_addr == default_bind
            &&& match f.kind {
                ForwardKind::Socks => {
                    &&& f.remote_host == Seq::<char>::empty()
                    &&& f.remote_port == 0
                    &&& f.local_port_auto ==> f.local_port == SOCKS_DEFAULT_PORT
                    &&& f.local_addr == default_bind || f.local_addr.loopback()
                },
                ForwardKind::Direct => {
                    &&& 1 <= f.remote_port <= 65535
                    &&& f.remote_host == default_host() || crate::text::is_part(
                        f.remote_host,
                        target,
                    )
                    &&& !crate::text::is_part("->"@, f.remote_host)
                    &&& f.local_port_auto ==> f.local_port == f.remote_port
                },
            }
        },
{
    if let Ok(f) = target_of(target, raw, default_bind, ns, ns_inherited) {
        let (remote, local) = around_arrow(target);
        if let Some(l) = local {
            lemma_bind_port_bounds(l, raw);
        }
        if !is_socks_word(remote) {
            lemma_host_part(remote, raw);
            let h = f.remote_host;
            if h == default_host() {
                assert(!crate::text::is_part("->"@, h)) by {
                    reveal_strlit("127.0.0.1");
                    reveal_strlit("->");
                    if crate::text::is_part("->"@, h) {
                        let k = choose|k: int| #[trigger] crate::text::occurs_at(h, "->"@, k);
                        assert(h.subrange(k, k + 2)[0] == h[k]);
                    }
                }
            } else {
                lemma_front_part(h, target);
            }
        }
    }
}

proof fn lemma_front_part(h: Seq<char>, target: Seq<char>)
    requires
        crate::text::is_part(h, around_arrow(target).0),
    ensures
        crate::text::is_part(h, target),
        !crate::text::is_part("->"@, h),
{
    assert("->"@.len() > 0) by {
        reveal_strlit("->");
    }
    crate::text::lemma_cut_first_clean(target, "->"@);
    crate::text::lemma_cut_first_parts(target, "->"@);
    let front = match crate::text::cut_first(target, "->"@) {
        Some((a, b)) => a,
        None => target,
    };
    crate::text::lemma_part_refl(target);
    crate::text::lemma_trimmed_part(front);
    crate::text::lemma_part_trans(h, around_arrow(target).0, front);
    lemma_no_arrow_part(h, front);
    crate::text::lemma_part_trans(h, front, target);
}

/// Every forward that was read has the properties listed in
/// [`Forward::is_read`].
pub proof fn lemma_read(input: Seq<char>, default_bind: IpAddr, default_ns: Option<Ns>)
    ensures
        forward_of(input, default_bind, default_ns) matches Ok(f) ==> f.is_read(
            default_bind,
            default_ns,
        ),
{
    let raw = crate::text::trimmed(input);
    if let Ok(f) = forward_of(input, default_bind, default_ns) {
        let (ns, inherited, target) = ns_part_of(raw, default_ns)->Ok_0;
        lemma_target_read(target, raw, default_bind, ns, inherited);
        assert("@"@.len() == 1 && "@"@[0] == '@') by {
            reveal_strlit("@");
        }
        if inherited {
            crate::text::lemma_no_cut_no_char(raw, "@"@);
            if f.kind is Direct {
                if f.remote_host == default_host() {
                    reveal_strlit("127.0.0.1");
                } else {
                    crate::text::lemma_part_contains(f.remote_host, raw, '@');
                }
            }
        } else {
            let (ns_part, rest) = crate::text::cut_first(raw, "@"@)->0;
            crate::text::lemma_cut_first_front(raw, "@"@);
            lemma_selector_named(ns_part);
            lemma_selector_wire(ns_part);
        }
    }
}

/// The target part of a rendered spec.
spec fn target_text(f: Forward) -> Seq<char> {
    match f.kind {
        ForwardKind::Socks => "socks"@,
        ForwardKind::Direct => f.remote_host + ":"@ + crate::text::decimal(f.remote_port),
    }
}

/// The local part of a rendered spec.
spec fn local_text(f: Forward, default_bind: IpAddr) -> Seq<char> {
    if f.local_addr == default_bind {
        crate::text::decimal(f.local_port)
    } else {
        endpoint_text(f.local_addr, f.local_port)
    }
}

/// The part of a rendered spec behind the namespace.
spec fn body_of(f: Forward, default_bind: IpAddr) -> Seq<char> {
    if f.local_port_auto {
        target_text(f)
    } else {
        target_text(f) + "->"@ + local_text(f, default_bind)
    }
}

proof fn lemma_rendered(f: Forward, default_bind: IpAddr)
    ensures
        f.ns_inherited ==> f.rendered(default_bind) == body_of(f, default_bind),
        !f.ns_inherited && f.ns != Ns::Host ==> f.rendered(default_bind) == f.ns.wire() + "@"@
            + body_of(f, default_bind),
{
    let e = Seq::<char>::empty();
    let t = target_text(f);
    let l = local_text(f, default_bind);
    let w = f.ns.wire() + "@"@;
    assert(e + t =~= t);
    assert(w + t + "->"@ + l =~= w + (t + "->"@ + l));
}

/// The local part of a rendered spec reads back.
proof fn lemma_local_text(f: Forward, default_bind: IpAddr, raw: Seq<char>, prefer: int)
    requires
        1 <= f.local_port <= 65535,
        f.kind is Socks ==> f.local_addr == default_bind || f.local_addr.loopback(),
    ensures
        local_end_of(
            Some(local_text(f, default_bind)),
            raw,
            default_bind,
            prefer,
            f.kind is Socks,
        ) == Ok::<(IpAddr, int, bool), SpecFault>((f.local_addr, f.local_port, false)),
        local_text(f, default_bind).len() > 0,
        crate::text::is_tight(local_text(f, default_bind)),
        !local_text(f, default_bind).contains('@'),
{
    lemma_port(f.local_port, raw);
    lemma_bare_bind(f.local_port, raw);
    lemma_endpoint(f.local_addr, f.local_port, raw);
}

/// A target and a local part, each of which reads back, read back together.
proof fn lemma_body_reads(
    f: Forward,
    default_bind: IpAddr,
    raw: Seq<char>,
    body: Seq<char>,
    t: Seq<char>,
    l: Seq<char>,
)
    requires
        around_arrow(body) == (t, if f.local_port_auto {
            None
        } else {
            Some(l)
        }),
        is_socks_word(t) == (f.kind is Socks),
        f.kind is Direct ==> host_port_of(t, raw) == Ok::<(Seq<char>, int), SpecFault>(
            (f.remote_host, f.remote_port),
        ),
        f.kind is Socks ==> f.remote_host == Seq::<char>::empty() && f.remote_port == 0,
        f.local_port_auto ==> f.local_addr == default_bind && f.local_port == (if f.kind is Socks {
            SOCKS_DEFAULT_PORT as int
        } else {
            f.remote_port
        }),
        !f.local_port_auto ==> local_end_of(
            Some(l),
            raw,
            default_bind,
            if f.kind is Socks {
                SOCKS_DEFAULT_PORT as int
            } else {
                f.remote_port
            },
            f.kind is Socks,
        ) == Ok::<(IpAddr, int, bool), SpecFault>((f.local_addr, f.local_port, false)),
    ensures
        target_of(body, raw, default_bind, f.ns, f.ns_inherited) == Ok::<Forward, SpecFault>(f),
{
}

proof fn lemma_arrow_shape(t: Seq<char>, l: Seq<char>)
    requires
        t.len() > 0,
        l.len() > 0,
        crate::text::is_tight(t),
        crate::text::is_tight(l),
        !l.contains('@'),
    ensures
        crate::text::is_tight(t + "->"@ + l),
        !t.contains('@') ==> !(t + "->"@ + l).contains('@'),
{
    reveal_strlit("->");
    let b = t + "->"@ + l;
    assert(b[0] == t[0]);
    assert(b.last() == l.last());
    assert forall|i: int| 0 <= i < b.len() && !t.contains('@') implies b[i] != '@' by {
        if i < t.len() {
            assert(b[i] == t[i]);
            assert(t.contains(t[i]));
        } else if i >= t.len() + 2 {
            assert(b[i] == l[i - t.len() - 2]);
            assert(l.contains(l[i - t.len() - 2]));
        }
    }
}

/// The part of a rendered spec behind the namespace reads back.
proof fn lemma_body(f: Forward, default_bind: IpAddr, default_ns: Option<Ns>, raw: Seq<char>)
    requires
        f.is_read(default_bind, default_ns),
        f.kind is Direct ==> is_plain_host(f.remote_host),
    ensures
        target_of(body_of(f, default_bind), raw, default_bind, f.ns, f.ns_inherited) == Ok::<
            Forward,
            SpecFault,
        >(f),
        body_of(f, default_bind).len() > 0,
        crate::text::is_tight(body_of(f, default_bind)),
        !f.remote_host.contains('@') ==> !body_of(f, default_bind).contains('@'),
{
    let t = target_text(f);
    let l = local_text(f, default_bind);
    let prefer = if f.kind is Socks {
        SOCKS_DEFAULT_PORT as int
    } else {
        f.remote_port
    };
    lemma_local_text(f, default_bind, raw, prefer);
    lemma_target_text(f, raw);
    lemma_around_arrow(t, l);
    lemma_arrow_shape(t, l);
    lemma_body_reads(f, default_bind, raw, body_of(f, default_bind), t, l);
}

/// `HOST:PORT` holds no arrow where the host holds none, and no `@` likewise.
proof fn lemma_host_port_clean(h: Seq<char>, p: int)
    requires
        1 <= p <= 65535,
        !crate::text::is_part("->"@, h),
    ensures
        !crate::text::is_part("->"@, h + ":"@ + crate::text::decimal(p)),
        !h.contains('@') ==> !(h + ":"@ + crate::text::decimal(p)).contains('@'),
{
    let d = crate::text::decimal(p);
    let t = h + ":"@ + d;
    lemma_port(p, t);
    assert(":"@.len() == 1 && ":"@[0] == ':') by {
        reveal_strlit(":");
    }
    assert("->"@.len() == 2 && "->"@[0] == '-' && "->"@[1] == '>') by {
        reveal_strlit("->");
    }
    if crate::text::is_part("->"@, t) {
        let k = choose|k: int| #[trigger] crate::text::occurs_at(t, "->"@, k);
        assert(t.subrange(k, k + 2)[0] == t[k]);
        assert(t.subrange(k, k + 2)[1] == t[k + 1]);
        if k + 2 <= h.len() {
            assert(h.subrange(k, k + 2) =~= t.subrange(k, k + 2));
            assert(crate::text::occurs_at(h, "->"@, k));
        } else if k >= h.len() + 1 {
            assert(t[k] == d[k - h.len() - 1]);
            assert(d.contains('-'));
        }
    }
    assert forall|i: int| 0 <= i < t.len() && !h.contains('@') implies t[i] != '@' by {
        if i < h.len() {
            assert(t[i] == h[i]);
            assert(h.contains(h[i]));
        } else if i > h.len() {
            assert(t[i] == d[i - h.len() - 1]);
            assert(d.contains(d[i - h.len() - 1]));
        }
    }
}

proof fn lemma_socks_word()
    ensures
        "socks"@.len() > 0,
        crate::text::is_tight("socks"@),
        !crate::text::is_part("->"@, "socks"@),
        is_socks_word("socks"@),
        !"socks"@.contains('@'),
{
    reveal_strlit("socks");
    reveal_strlit("->");
    let t = "socks"@;
    if crate::text::is_part("->"@, t) {
        let k = choose|k: int| #[trigger] crate::text::occurs_at(t, "->"@, k);
        assert(t.subrange(k, k + 2)[0] == t[k]);
    }
}

/// The target of a rendered spec reads back, and holds no arrow.
proof fn lemma_target_text(f: Forward, raw: Seq<char>)
    requires
        f.kind is Direct ==> is_plain_host(f.remote_host) && 1 <= f.remote_port <= 65535
            && !crate::text::is_part("->"@, f.remote_host),
    ensures
        ({
            let t = target_text(f);
            &&& t.len() > 0
            &&& crate::text::is_tight(t)
            &&& !crate::text::is_part("->"@, t)
            &&& is_socks_word(t) == (f.kind is Socks)
            &&& f.kind is Direct ==> host_port_of(t, raw) == Ok::<(Seq<char>, int), SpecFault>(
                (f.remote_host, f.remote_port),
            )
            &&& !f.remote_host.contains('@') ==> !t.contains('@')
        }),
{
    match f.kind {
        ForwardKind::Socks => {
            lemma_socks_word();
        },
        ForwardKind::Direct => {
            lemma_host_port(f.remote_host, f.remote_port, raw);
            lemma_host_port_clean(f.remote_host, f.remote_port);
            lemma_port(f.remote_port, raw);
        },
    }
}

/// The wire form of a namespace other than the host's starts with a letter.
proof fn lemma_wire_start(ns: Ns)
    requires
        ns != Ns::Host,
    ensures
        ns.wire().len() > 0,
        !crate::text::is_white(ns.wire()[0]),
{
    reveal_strlit("podman:");
    reveal_strlit("docker:");
    reveal_strlit("pid:");
    reveal_strlit("netns:");
    reveal_strlit("nspath:");
}

/// What a spec says can be written down and read again: reading the canonical
/// rendering of a forward that was read from a spec, under the same defaults,
/// gives the same forward. (The host of a fixed target must be one that can be
/// written without brackets.)
pub proof fn law_forward_roundtrip(
    input: Seq<char>,
    default_bind: IpAddr,
    default_ns: Option<Ns>,
    f: Forward,
)
    requires
        forward_of(input, default_bind, default_ns) == Ok::<Forward, SpecFault>(f),
        f.kind is Direct ==> is_plain_host(f.remote_host),
    ensures
        forward_of(f.rendered(default_bind), default_bind, default_ns) == Ok::<Forward, SpecFault>(
            f,
        ),
{
    lemma_read(input, default_bind, default_ns);
    let s = f.rendered(default_bind);
    let b = body_of(f, default_bind);
    lemma_rendered(f, default_bind);
    lemma_body(f, default_bind, default_ns, s);
    if !f.ns_inherited {
        lemma_wire_start(f.ns);
        law_ns_wire_roundtrip(f.ns);
    }
    lemma_prefix_reads(f, default_bind, default_ns, s, b);
}

proof fn lemma_prefix_reads(
    f: Forward,
    default_bind: IpAddr,
    default_ns: Option<Ns>,
    s: Seq<char>,
    b: Seq<char>,
)
    requires
        target_of(b, s, default_bind, f.ns, f.ns_inherited) == Ok::<Forward, SpecFault>(f),
        b.len() > 0,
        crate::text::is_tight(b),
        f.ns_inherited ==> s == b && !b.contains('@') && f.ns == (match default_ns {
            Some(ns) => ns,
            None => Ns::Host,
        }),
        !f.ns_inherited ==> {
            &&& s == f.ns.wire() + "@"@ + b
            &&& !f.ns.wire().contains('@')
            &&& f.ns.wire().len() > 0
            &&& !crate::text::is_white(f.ns.wire()[0])
            &&& selector_of(f.ns.wire()) == Ok::<Ns, SpecFault>(f.ns)
        },
    ensures
        forward_of(s, default_bind, default_ns) == Ok::<Forward, SpecFault>(f),
{
    assert("@"@.len() == 1 && "@"@[0] == '@') by {
        reveal_strlit("@");
    }
    if f.ns_inherited {
        crate::text::lemma_trim_tight(s);
        crate::text::lemma_cut_none(s, "@"@);
    } else {
        let w = f.ns.wire();
        assert(s[0] == w[0]);
        assert(s.last() == b.last());
        crate::text::lemma_trim_tight(s);
        crate::text::lemma_cut_first_char(w, "@"@, b);
    }
}

/// A forward that fell back to another local port is written down as it was
/// asked for, so the next session prefers the original port again.
pub proof fn law_fallback_not_frozen(f: Forward, bound: int, default_bind: IpAddr)
    requires
        f.local_port_auto,
    ensures
        (Forward { local_port: bound, ..f }).rendered(default_bind) == f.rendered(default_bind),
{
}

/// A namespace written into a spec wins over whatever the session default is.
pub proof fn law_explicit_ns_wins(
    input: Seq<char>,
    default_bind: IpAddr,
    default_ns: Option<Ns>,
    other: Option<Ns>,
)
    requires
        crate::text::trimmed(input).contains('@'),
    ensures
        forward_of(input, default_bind, default_ns) == forward_of(input, default_bind, other),
        forward_of(input, default_bind, default_ns) matches Ok(f) ==> !f.ns_inherited,
{
    reveal_strlit("@");
    let raw = crate::text::trimmed(input);
    if crate::text::cut_first(raw, "@"@) is None {
        crate::text::lemma_no_cut_no_char(raw, "@"@);
    }
}

/// The session default decides the namespace of a spec that names none, and
/// nothing else.
pub proof fn law_default_ns_inherited(
    input: Seq<char>,
    default_bind: IpAddr,
    default_ns: Option<Ns>,
)
    requires
        !crate::text::trimmed(input).contains('@'),
    ensures
        match (
            forward_of(input, default_bind, default_ns),
            forward_of(input, default_bind, None),
        ) {
            (Ok(f), Ok(g)) => {
                &&& f.ns_inherited && g.ns_inherited
                &&& g.ns == Ns::Host
                &&& f == (Forward {
                    ns: (match default_ns {
                        Some(ns) => ns,
                        None => Ns::Host,
                    }),
                    ..g
                })
            },
            (Err(e), Err(x)) => e == x,
            _ => false,
        },
{
    reveal_strlit("@");
    crate::text::lemma_cut_none(crate::text::trimmed(input), "@"@);
}

/// The default bind address is used where the spec names none, and changes
/// nothing where it names one.
pub proof fn law_default_bind(
    input: Seq<char>,
    bind: IpAddr,
    other: IpAddr,
    default_ns: Option<Ns>,
)
    ensures
        match (forward_of(input, bind, default_ns), forward_of(input, other, default_ns)) {
            (Ok(f), Ok(g)) => f == g || (f.local_addr == bind && g == (Forward {
                local_addr: other,
                ..f
            })),
            (Err(e), Err(x)) => e == x,
            _ => false,
        },
{
}

/// A SOCKS proxy listens on the configured default address or on a loopback
/// address, whatever its spec says.
pub proof fn law_socks_not_exposed(
    input: Seq<char>,
    default_bind: IpAddr,
    default_ns: Option<Ns>,
)
    ensures
        forward_of(input, default_bind, default_ns) matches Ok(f) ==> (f.kind is Socks ==> (
        f.local_addr == default_bind || f.local_addr.loopback())),
{
    lemma_read(input, default_bind, default_ns);
}

// ---- the default bind address ------------------------------------------

/// Sets the default local bind address, once: a later call changes nothing.
pub fn set_default_bind(configured: &mut Option<IpAddr>, addr: IpAddr)
    ensures
        *final(configured) == (match *old(configured) {
            Some(first) => Some(first),
            None => Some(addr),
        }),
{
    if configured.is_none() {
        *configured = Some(addr);
    }
}

/// The configured default local bind address, or loopback when there is none.
pub fn default_bind(configured: &Option<IpAddr>) -> (r: IpAddr)
    ensures
        r == (match *configured {
            Some(a) => a,
            None => IpAddr::local(),
        }),
{
    match configured {
        Some(a) => *a,
        None => IpAddr::localhost(),
    }
}

impl std::str::FromStr for ForwardSpec {
    type Err = SpecError;

    /// Parses a forward spec, on the loopback address where it gives no bind address and
    /// in the agent's own namespace where it names none. Where a bind address may have
    /// been configured, [`default_bind`] goes to [`ForwardSpec::parse_with_bind`].
    fn from_str(input: &str) -> (r: Result<Self, SpecError>)
        ensures
            outcome(r) == forward_of(input@, IpAddr::local(), None),
    {
        Self::parse_with_bind(input, IpAddr::localhost())
    }
}

// ---- reverse forwards --------------------------------------------------

/// One fully-parsed reverse port forward: the **agent** binds a listener on the
/// remote host, and each connection accepted there is dialed by the **client**
/// to a local target.
///
/// ```text
/// [NS@]REMOTEBIND->LOCALTARGET
///   REMOTEBIND  = [BINDADDR:]PORT   ; the agent binds this remotely (default 127.0.0.1)
///   LOCALTARGET = [HOST:]PORT       ; the client dials this locally (default host 127.0.0.1)
/// ```
#[derive(Debug, PartialEq, Eq)]
pub struct ReverseSpec {
    /// Namespace the agent binds the remote listener in. The session default
    /// namespace does not apply here.
    pub ns: NsSpec,
    /// Address the agent binds on the remote host. Defaults to loopback.
    pub remote_bind_addr: IpAddr,
    /// Port the agent binds on the remote host. Strict (no fallback).
    pub remote_bind_port: u16,
    /// Host the client dials locally for each accepted remote connection.
    pub local_host: String,
    /// Port the client dials locally.
    pub local_port: u16,
}

/// The model of a [`ReverseSpec`].
#[verifier::ext_equal]
pub struct Reverse {
    pub ns: Ns,
    pub remote_bind_addr: IpAddr,
    pub remote_bind_port: int,
    pub local_host: Seq<char>,
    pub local_port: int,
}

impl View for ReverseSpec {
    type V = Reverse;

    open spec fn view(&self) -> Reverse {
        Reverse {
            ns: self.ns@,
            remote_bind_addr: self.remote_bind_addr,
            remote_bind_port: self.remote_bind_port as int,
            local_host: self.local_host@,
            local_port: self.local_port as int,
        }
    }
}

impl Clone for ReverseSpec {
    fn clone(&self) -> (r: Self)
        ensures
            r@ == self@,
    {
        ReverseSpec {
            ns: self.ns.clone(),
            remote_bind_addr: self.remote_bind_addr,
            remote_bind_port: self.remote_bind_port,
            local_host: self.local_host.clone(),
            local_port: self.local_port,
        }
    }
}

/// The reverse forward that a spec without its namespace part denotes.
pub open spec fn reverse_target_of(target: Seq<char>, raw: Seq<char>, ns: Ns) -> Result<
    Reverse,
    SpecFault,
> {
    match crate::text::cut_first(target, "->"@) {
        None => Err(
            SpecFault::Malformed(raw, "a reverse spec needs REMOTEBIND->LOCALTARGET"@),
        ),
        Some((bind, local)) => match bind_port_of(crate::text::trimmed(bind), raw) {
            Err(e) => Err(e),
            Ok((addr, port)) => match host_port_of(crate::text::trimmed(local), raw) {
                Err(e) => Err(e),
                Ok((host, lport)) => Ok(
                    Reverse {
                        ns,
                        remote_bind_addr: match addr {
                            Some(a) => a,
                            None => IpAddr::local(),
                        },
                        remote_bind_port: port,
                        local_host: host,
                        local_port: lport,
                    },
                ),
            },
        },
    }
}

/// The reverse forward that a spec denotes.
pub open spec fn reverse_of(input: Seq<char>) -> Result<Reverse, SpecFault> {
    let raw = crate::text::trimmed(input);
    if raw.len() == 0 {
        Err(SpecFault::Empty)
    } else {
        match ns_part_of(raw, None) {
            Err(e) => Err(e),
            Ok((ns, inherited, target)) => reverse_target_of(target, raw, ns),
        }
    }
}

impl Reverse {
    /// The remote listen endpoint, with its namespace.
    pub open spec fn key(self) -> (Seq<char>, IpAddr, int) {
        (self.ns.wire(), self.remote_bind_addr, self.remote_bind_port)
    }

    /// The canonical rendering: a loopback bind address and a `127.0.0.1` local
    /// host are left out, and a host with a colon stands in brackets.
    pub open spec fn rendered(self) -> Seq<char> {
        ns_prefix(self.ns) + reverse_bind_text(self) + "->"@ + reverse_local_text(self)
    }
}

pub open spec fn reverse_bind_text(r: Reverse) -> Seq<char> {
    if r.remote_bind_addr == IpAddr::local() {
        crate::text::decimal(r.remote_bind_port)
    } else {
        endpoint_text(r.remote_bind_addr, r.remote_bind_port)
    }
}

pub open spec fn reverse_local_text(r: Reverse) -> Seq<char> {
    if r.local_host == default_host() {
        crate::text::decimal(r.local_port)
    } else if r.local_host.contains(':') {
        "["@ + r.local_host + "]"@ + ":"@ + crate::text::decimal(r.local_port)
    } else {
        r.local_host + ":"@ + crate::text::decimal(r.local_port)
    }
}

impl ReverseSpec {
    /// Parses a reverse spec.
    pub fn parse(input: &str) -> (r: Result<Self, SpecError>)
        ensures
            outcome(r) == reverse_of(input@),
    {
        let raw: &str = trim(input);
        if raw.is_empty() {
            return Err(SpecError::Empty);
        }
        let (ns, target): (NsSpec, &str) = match split_once(raw, "@") {
            Some((ns_part, rest)) => match NsSpec::parse(ns_part) {
                Ok(ns) => (ns, rest),
                Err(e) => {
                    return Err(e);
                },
            },
            None => (NsSpec::Host, raw),
        };
        match split_once(target, "->") {
            None => Err(
                SpecError::Malformed(
                    raw.to_owned(),
                    "a reverse spec needs REMOTEBIND->LOCALTARGET".to_owned(),
                ),
            ),
            Some((bind, local)) => match parse_bind_port(trim(bind), raw) {
                Err(e) => Err(e),
                Ok((addr, remote_bind_port)) => match parse_host_port(trim(local), raw) {
                    Err(e) => Err(e),
                    Ok((local_host, local_port)) => Ok(
                        ReverseSpec {
                            ns,
                            remote_bind_addr: match addr {
                                Some(a) => a,
                                None => IpAddr::localhost(),
                            },
                            remote_bind_port,
                            local_host,
                            local_port,
                        },
                    ),
                },
            },
        }
    }

    /// A stable key identifying this reverse forward by its remote bind endpoint
    /// (plus namespace).
    pub fn bind_key(&self) -> (r: (String, IpAddr, u16))
        ensures
            (r.0@, r.1, r.2 as int) == self@.key(),
    {
        (self.ns.to_wire(), self.remote_bind_addr, self.remote_bind_port)
    }

    /// Canonical rendering in the spec grammar. Leaves out a loopback bind address
    /// and a `127.0.0.1` local host.
    pub fn to_spec_string(&self) -> (r: String)
        ensures
            r@ == self@.rendered(),
    {
        let mut s: String = if self.ns.is_host() {
            String::new()
        } else {
            self.ns.to_wire().concat("@")
        };
        if self.remote_bind_addr == IpAddr::localhost() {
            s.append(dec(self.remote_bind_port as u64).as_str());
        } else {
            s.append(show_endpoint(&self.remote_bind_addr, self.remote_bind_port).as_str());
        }
        s.append("->");
        let port: String = dec(self.local_port as u64);
        if str_eq(self.local_host.as_str(), "127.0.0.1") {
            s.append(port.as_str());
        } else if contains_char(self.local_host.as_str(), ':') {
            let t: String = String::from_str("[").concat(self.local_host.as_str()).concat(
                "]",
            ).concat(":").concat(port.as_str());
            s.append(t.as_str());
        } else {
            let t: String = self.local_host.clone().concat(":").concat(port.as_str());
            s.append(t.as_str());
        }
        s
    }
}

impl std::str::FromStr for ReverseSpec {
    type Err = SpecError;

    /// Parses a reverse spec.
    fn from_str(input: &str) -> (r: Result<Self, SpecError>)
        ensures
            outcome(r) == reverse_of(input@),
    {
        Self::parse(input)
    }
}

/// A local host that reads back from the rendering of a reverse spec.
pub open spec fn is_renderable_host(h: Seq<char>) -> bool {
    if h.contains(':') {
        !h.contains(']')
    } else {
        is_plain_host(h)
    }
}

/// `[HOST]:PORT` reads back.
proof fn lemma_bracketed_host(h: Seq<char>, p: int, raw: Seq<char>)
    requires
        1 <= p <= 65535,
        !h.contains(']'),
    ensures
        host_port_of("["@ + h + "]"@ + ":"@ + crate::text::decimal(p), raw) == Ok::<
            (Seq<char>, int),
            SpecFault,
        >((h, p)),
        crate::text::is_tight("["@ + h + "]"@ + ":"@ + crate::text::decimal(p)),
{
    reveal_strlit("[");
    reveal_strlit(":");
    reveal_strlit("]");
    let d = crate::text::decimal(p);
    let s = "["@ + h + "]"@ + ":"@ + d;
    lemma_port(p, raw);
    assert(s[0] == '[');
    assert(s.last() == d.last());
    assert(s.subrange(0, 1) =~= "["@);
    assert(crate::text::occurs_at(s, "["@, 0));
    let rest = ":"@ + d;
    assert(s.skip(1) =~= h + "]"@ + rest);
    crate::text::lemma_cut_first_char(h, "]"@, rest);
    assert(rest.subrange(0, 1) =~= ":"@);
    assert(crate::text::occurs_at(rest, ":"@, 0));
    assert(rest.skip(1) =~= d);
}

/// A port alone reads back as one on the default host.
proof fn lemma_bare_port(p: int, raw: Seq<char>)
    requires
        1 <= p <= 65535,
    ensures
        host_port_of(crate::text::decimal(p), raw) == Ok::<(Seq<char>, int), SpecFault>(
            (default_host(), p),
        ),
{
    reveal_strlit("[");
    reveal_strlit(":");
    let d = crate::text::decimal(p);
    lemma_port(p, raw);
    assert(!crate::text::occurs_at(d, "["@, 0)) by {
        if crate::text::occurs_at(d, "["@, 0) {
            assert(d.subrange(0, 1)[0] == d[0]);
            assert(d.contains('['));
        }
    }
    crate::text::lemma_cut_none(d, ":"@);
}

proof fn lemma_reverse_local(r: Reverse, raw: Seq<char>)
    requires
        1 <= r.local_port <= 65535,
        is_renderable_host(r.local_host),
    ensures
        host_port_of(reverse_local_text(r), raw) == Ok::<(Seq<char>, int), SpecFault>(
            (r.local_host, r.local_port),
        ),
        crate::text::is_tight(reverse_local_text(r)),
        reverse_local_text(r).len() > 0,
{
    lemma_port(r.local_port, raw);
    if r.local_host == default_host() {
        lemma_bare_port(r.local_port, raw);
    } else if r.local_host.contains(':') {
        lemma_bracketed_host(r.local_host, r.local_port, raw);
    } else {
        lemma_host_port(r.local_host, r.local_port, raw);
    }
}

proof fn lemma_reverse_bind(r: Reverse, raw: Seq<char>)
    requires
        1 <= r.remote_bind_port <= 65535,
    ensures
        bind_port_of(reverse_bind_text(r), raw) == Ok::<(Option<IpAddr>, int), SpecFault>(
            (
                if r.remote_bind_addr == IpAddr::local() {
                    None
                } else {
                    Some(r.remote_bind_addr)
                },
                r.remote_bind_port,
            ),
        ),
        crate::text::is_tight(reverse_bind_text(r)),
        reverse_bind_text(r).len() > 0,
        !reverse_bind_text(r).contains('@'),
        !crate::text::is_part("->"@, reverse_bind_text(r)),
{
    lemma_port(r.remote_bind_port, raw);
    lemma_bare_bind(r.remote_bind_port, raw);
    lemma_endpoint(r.remote_bind_addr, r.remote_bind_port, raw);
    lemma_endpoint_no_dash(r.remote_bind_addr, r.remote_bind_port);
    let s = reverse_bind_text(r);
    reveal_strlit("->");
    if crate::text::is_part("->"@, s) {
        let k = choose|k: int| #[trigger] crate::text::occurs_at(s, "->"@, k);
        assert(s.subrange(k, k + 2)[0] == s[k]);
        assert(s.contains('-'));
    }
}

proof fn lemma_endpoint_no_dash(a: IpAddr, p: int)
    requires
        1 <= p <= 65535,
    ensures
        !endpoint_text(a, p).contains('-'),
{
    reveal_strlit("[");
    reveal_strlit(":");
    reveal_strlit("]");
    let s = endpoint_text(a, p);
    let t = a.text();
    let d = crate::text::decimal(p);
    lemma_port(p, s);
    crate::net::lemma_ip_chars(a);
    assert forall|i: int| 0 <= i < s.len() implies s[i] != '-' by {
        match a {
            IpAddr::V4(_) => {
                if i < t.len() {
                    assert(s[i] == t[i]);
                } else if i > t.len() {
                    assert(s[i] == d[i - t.len() - 1]);
                    assert(d.contains(d[i - t.len() - 1]));
                }
            },
            IpAddr::V6(_) => {
                if 0 < i < t.len() + 1 {
                    assert(s[i] == t[i - 1]);
                } else if i > t.len() + 2 {
                    assert(s[i] == d[i - t.len() - 3]);
                    assert(d.contains(d[i - t.len() - 3]));
                }
            },
        }
    }
}

/// What was read of a reverse spec: ports in range, a namespace that has a wire
/// form, and no `@` in the local host of a spec without a namespace.
proof fn lemma_reverse_read(input: Seq<char>)
    ensures
        reverse_of(input) matches Ok(r) ==> {
            &&& 1 <= r.remote_bind_port <= 65535
            &&& 1 <= r.local_port <= 65535
            &&& r.ns is Host ==> !r.local_host.contains('@')
            &&& !(r.ns is Host) ==> r.ns.named() && !r.ns.wire().contains('@')
        },
{
    let raw = crate::text::trimmed(input);
    if let Ok(r) = reverse_of(input) {
        let (ns, inherited, target) = ns_part_of(raw, None)->Ok_0;
        assert("@"@.len() == 1 && "@"@[0] == '@') by {
            reveal_strlit("@");
        }
        let (bind, local) = crate::text::cut_first(target, "->"@)->0;
        let t = crate::text::trimmed(local);
        lemma_bind_port_bounds(crate::text::trimmed(bind), raw);
        lemma_host_part(t, raw);
        if inherited {
            crate::text::lemma_no_cut_no_char(raw, "@"@);
            if r.local_host == default_host() {
                reveal_strlit("127.0.0.1");
            } else {
                crate::text::lemma_cut_first_parts(target, "->"@);
                crate::text::lemma_trimmed_part(local);
                crate::text::lemma_part_trans(r.local_host, t, local);
                crate::text::lemma_part_trans(r.local_host, local, target);
                crate::text::lemma_part_contains(r.local_host, raw, '@');
            }
        } else {
            let (ns_part, rest) = crate::text::cut_first(raw, "@"@)->0;
            crate::text::lemma_cut_first_front(raw, "@"@);
            lemma_selector_named(ns_part);
            lemma_selector_wire(ns_part);
        }
    }
}

proof fn lemma_reverse_target(r: Reverse, raw: Seq<char>, b: Seq<char>, l: Seq<char>)
    requires
        bind_port_of(b, raw) == Ok::<(Option<IpAddr>, int), SpecFault>(
            (
                if r.remote_bind_addr == IpAddr::local() {
                    None
                } else {
                    Some(r.remote_bind_addr)
                },
                r.remote_bind_port,
            ),
        ),
        host_port_of(l, raw) == Ok::<(Seq<char>, int), SpecFault>((r.local_host, r.local_port)),
        crate::text::is_tight(b),
        crate::text::is_tight(l),
        !crate::text::is_part("->"@, b),
    ensures
        reverse_target_of(b + "->"@ + l, raw, r.ns) == Ok::<Reverse, SpecFault>(r),
{
    let s = b + "->"@ + l;
    let n = b.len() as int;
    assert("->"@.len() == 2 && "->"@[0] == '-' && "->"@[1] == '>') by {
        reveal_strlit("->");
    }
    assert(s.subrange(n, n + 2) =~= "->"@);
    assert forall|j: int| 0 <= j < n implies !#[trigger] crate::text::occurs_at(s, "->"@, j) by {
        if crate::text::occurs_at(s, "->"@, j) {
            assert(s.subrange(j, j + 2)[1] == s[j + 1]);
            if j + 2 <= n {
                assert(b.subrange(j, j + 2) =~= s.subrange(j, j + 2));
                assert(crate::text::occurs_at(b, "->"@, j));
            }
        }
    }
    assert(crate::text::first_at(s, "->"@, n));
    crate::text::lemma_cut_first_at(s, "->"@, n);
    assert(s.subrange(0, n) =~= b);
    assert(s.subrange(n + 2, s.len() as int) =~= l);
    crate::text::lemma_trim_tight(b);
    crate::text::lemma_trim_tight(l);
}

/// The rendered target of a reverse forward, read again, for whatever text the errors
/// name.
proof fn lemma_reverse_parts(r: Reverse, s: Seq<char>)
    requires
        1 <= r.remote_bind_port <= 65535,
        1 <= r.local_port <= 65535,
        is_renderable_host(r.local_host),
    ensures
        ({
            let t = reverse_bind_text(r) + "->"@ + reverse_local_text(r);
            &&& reverse_target_of(t, s, r.ns) == Ok::<Reverse, SpecFault>(r)
            &&& crate::text::is_tight(t)
            &&& t.len() > 0
            &&& !r.local_host.contains('@') ==> !t.contains('@')
        }),
{
    let b = reverse_bind_text(r);
    let l = reverse_local_text(r);
    lemma_reverse_bind(r, s);
    lemma_reverse_local(r, s);
    lemma_reverse_target(r, s, b, l);
    lemma_reverse_local_at(r);
    lemma_arrow_ends(b, l);
}

/// Reading the canonical rendering of a reverse forward that was read from a
/// spec gives the same reverse forward. (Its local host must be one that can be
/// written down: with a colon in it, one without a closing bracket; else, one
/// that begins neither with a bracket nor with white space.)
#[verifier::rlimit(40)]
pub proof fn law_reverse_roundtrip(input: Seq<char>, r: Reverse)
    requires
        reverse_of(input) == Ok::<Reverse, SpecFault>(r),
        is_renderable_host(r.local_host),
    ensures
        reverse_of(r.rendered()) == Ok::<Reverse, SpecFault>(r),
{
    lemma_reverse_read(input);
    let s = r.rendered();
    let t = reverse_bind_text(r) + "->"@ + reverse_local_text(r);
    lemma_reverse_parts(r, s);
    assert("@"@.len() == 1 && "@"@[0] == '@') by {
        reveal_strlit("@");
    }
    if r.ns is Host {
        assert(s =~= t);
        crate::text::lemma_trim_tight(s);
        crate::text::lemma_cut_none(s, "@"@);
    } else {
        let w = r.ns.wire();
        lemma_wire_start(r.ns);
        law_ns_wire_roundtrip(r.ns);
        assert(s =~= w + "@"@ + t);
        assert(s[0] == w[0]);
        assert(s.last() == t.last());
        crate::text::lemma_trim_tight(s);
        crate::text::lemma_cut_first_char(w, "@"@, t);
    }
}

proof fn lemma_reverse_local_at(r: Reverse)
    requires
        1 <= r.local_port <= 65535,
    ensures
        !r.local_host.contains('@') ==> !reverse_local_text(r).contains('@'),
{
    reveal_strlit("[");
    reveal_strlit(":");
    reveal_strlit("]");
    let h = r.local_host;
    let d = crate::text::decimal(r.local_port);
    let s = reverse_local_text(r);
    lemma_port(r.local_port, s);
    assert forall|i: int| 0 <= i < s.len() && !h.contains('@') implies s[i] != '@' by {
        if h == default_host() {
            assert(d.contains(d[i]));
        } else if h.contains(':') {
            if 0 < i < h.len() + 1 {
                assert(s[i] == h[i - 1]);
                assert(h.contains(h[i - 1]));
            } else if i > h.len() + 2 {
                assert(s[i] == d[i - h.len() - 3]);
                assert(d.contains(d[i - h.len() - 3]));
            }
        } else {
            if i < h.len() {
                assert(s[i] == h[i]);
                assert(h.contains(h[i]));
            } else if i > h.len() {
                assert(s[i] == d[i - h.len() - 1]);
                assert(d.contains(d[i - h.len() - 1]));
            }
        }
    }
}

proof fn lemma_arrow_ends(b: Seq<char>, l: Seq<char>)
    requires
        b.len() > 0,
        l.len() > 0,
        crate::text::is_tight(b),
        crate::text::is_tight(l),
        !b.contains('@'),
    ensures
        crate::text::is_tight(b + "->"@ + l),
        (b + "->"@ + l).len() > 0,
        !l.contains('@') ==> !(b + "->"@ + l).contains('@'),
{
    if !l.contains('@') {
        lemma_arrow_shape(b, l);
    }
    let s = b + "->"@ + l;
    assert(s[0] == b[0]);
    assert(s.last() == l.last());
}

// ---- what a spec means -------------------------------------------------

/// A spec as it is written: the namespace with an `@`, where one is given; the target;
/// and, behind an arrow, the local end, where one is given, with or without an address.
pub open spec fn written_spec(
    ns: Option<Ns>,
    target: Seq<char>,
    local: Option<(Option<IpAddr>, int)>,
) -> Seq<char> {
    let rest = match local {
        None => target,
        Some((None, p)) => target + "->"@ + crate::text::decimal(p),
        Some((Some(a), p)) => target + "->"@ + endpoint_text(a, p),
    };
    match ns {
        None => rest,
        Some(n) => n.wire() + "@"@ + rest,
    }
}

/// A namespace that can be written into a spec.
pub open spec fn can_be_written(ns: Option<Ns>) -> bool {
    ns matches Some(n) ==> n.named() && n != Ns::Host && !n.wire().contains('@')
}

/// A local end that can be written into a spec.
pub open spec fn is_local_end(local: Option<(Option<IpAddr>, int)>) -> bool {
    local matches Some((a, p)) ==> 1 <= p <= 65535
}

proof fn lemma_written(
    f: Forward,
    ns: Option<Ns>,
    t: Seq<char>,
    local: Option<(Option<IpAddr>, int)>,
    bind: IpAddr,
    default_ns: Option<Ns>,
)
    requires
        can_be_written(ns),
        is_local_end(local),
        t.len() > 0,
        crate::text::is_tight(t),
        !crate::text::is_part("->"@, t),
        ns is None ==> !t.contains('@'),
        is_socks_word(t) == (f.kind is Socks),
        f.kind is Direct ==> host_port_of(t, written_spec(ns, t, local)) == Ok::<
            (Seq<char>, int),
            SpecFault,
        >((f.remote_host, f.remote_port)),
        f.kind is Socks ==> f.remote_host == Seq::<char>::empty() && f.remote_port == 0,
        f.kind is Socks ==> (local matches Some((Some(a), p)) ==> a.loopback()),
        f.ns_inherited == (ns is None),
        f.ns == (match ns {
            Some(n) => n,
            None => match default_ns {
                Some(d) => d,
                None => Ns::Host,
            },
        }),
        f.local_port_auto == (local is None),
        f.local_addr == (match local {
            Some((Some(a), p)) => a,
            _ => bind,
        }),
        f.local_port == (match local {
            Some((a, p)) => p,
            None => if f.kind is Socks {
                SOCKS_DEFAULT_PORT as int
            } else {
                f.remote_port
            },
        }),
    ensures
        forward_of(written_spec(ns, t, local), bind, default_ns) == Ok::<Forward, SpecFault>(f),
{
    let s = written_spec(ns, t, local);
    let prefer = if f.kind is Socks {
        SOCKS_DEFAULT_PORT as int
    } else {
        f.remote_port
    };
    let l = match local {
        None => t,
        Some((None, p)) => crate::text::decimal(p),
        Some((Some(a), p)) => endpoint_text(a, p),
    };
    let b = if local is None {
        t
    } else {
        t + "->"@ + l
    };
    match local {
        None => {},
        Some((None, p)) => {
            lemma_port(p, s);
            lemma_bare_bind(p, s);
            lemma_arrow_shape(t, l);
        },
        Some((Some(a), p)) => {
            lemma_endpoint(a, p, s);
            lemma_arrow_shape(t, l);
        },
    }
    lemma_around_arrow(t, l);
    lemma_body_reads(f, bind, s, b, t, l);
    if let Some(n) = ns {
        lemma_wire_start(n);
        law_ns_wire_roundtrip(n);
    }
    lemma_prefix_reads(f, bind, default_ns, s, b);
}

/// `[NS@]HOST:PORT[->[ADDR:]LOCAL]` dials that port of that host in that namespace, and
/// listens on that port of that address. What is left out is taken from the defaults of
/// the session, and a local port that is left out is the remote one, which may fall back.
pub proof fn law_host_spec(
    ns: Option<Ns>,
    host: Seq<char>,
    port: int,
    local: Option<(Option<IpAddr>, int)>,
    bind: IpAddr,
    default_ns: Option<Ns>,
)
    requires
        can_be_written(ns),
        is_local_end(local),
        is_plain_host(host),
        !crate::text::is_part("->"@, host),
        ns is None ==> !host.contains('@'),
        1 <= port <= 65535,
    ensures
        ({
            let read = forward_of(
                written_spec(ns, host + ":"@ + crate::text::decimal(port), local),
                bind,
                default_ns,
            );
            &&& read matches Ok(f)
            &&& f.kind is Direct
            &&& f.remote_host == host
            &&& f.remote_port == port
            &&& ns matches Some(n) ==> f.ns == n && !f.ns_inherited
            &&& ns is None ==> f.ns_inherited && f.ns == (match default_ns {
                Some(d) => d,
                None => Ns::Host,
            })
            &&& local is None ==> f.local_addr == bind && f.local_port == port
                && f.local_port_auto
            &&& local matches Some((a, p)) ==> f.local_port == p && !f.local_port_auto
                && f.local_addr == (match a {
                Some(x) => x,
                None => bind,
            })
        }),
{
    let t = host + ":"@ + crate::text::decimal(port);
    let s = written_spec(ns, t, local);
    lemma_port(port, s);
    lemma_host_port(host, port, s);
    lemma_host_port_clean(host, port);
    let f = Forward {
        ns: match ns {
            Some(n) => n,
            None => match default_ns {
                Some(d) => d,
                None => Ns::Host,
            },
        },
        ns_inherited: ns is None,
        remote_host: host,
        remote_port: port,
        local_addr: match local {
            Some((Some(a), p)) => a,
            _ => bind,
        },
        local_port: match local {
            Some((a, p)) => p,
            None => port,
        },
        local_port_auto: local is None,
        kind: ForwardKind::Direct,
    };
    lemma_written(f, ns, t, local, bind, default_ns);
}

/// `[NS@]PORT[->[ADDR:]LOCAL]` dials that port of the loopback address, 127.0.0.1.
pub proof fn law_port_spec(
    ns: Option<Ns>,
    port: int,
    local: Option<(Option<IpAddr>, int)>,
    bind: IpAddr,
    default_ns: Option<Ns>,
)
    requires
        can_be_written(ns),
        is_local_end(local),
        1 <= port <= 65535,
    ensures
        ({
            let read = forward_of(
                written_spec(ns, crate::text::decimal(port), local),
                bind,
                default_ns,
            );
            &&& read matches Ok(f)
            &&& f.kind is Direct
            &&& f.remote_host == "127.0.0.1"@
            &&& f.remote_port == port
            &&& ns matches Some(n) ==> f.ns == n && !f.ns_inherited
            &&& ns is None ==> f.ns_inherited && f.ns == (match default_ns {
                Some(d) => d,
                None => Ns::Host,
            })
            &&& local is None ==> f.local_addr == bind && f.local_port == port
                && f.local_port_auto
            &&& local matches Some((a, p)) ==> f.local_port == p && !f.local_port_auto
                && f.local_addr == (match a {
                Some(x) => x,
                None => bind,
            })
        }),
{
    let t = crate::text::decimal(port);
    let s = written_spec(ns, t, local);
    lemma_port(port, s);
    lemma_bare_port(port, s);
    crate::text::lemma_decimal_digits(port);
    assert(crate::text::is_digit(t[0]));
    assert(!crate::text::is_part("->"@, t)) by {
        reveal_strlit("->");
        if crate::text::is_part("->"@, t) {
            let k = choose|k: int| #[trigger] crate::text::occurs_at(t, "->"@, k);
            assert(t.subrange(k, k + 2)[0] == t[k]);
            assert(t.contains('-'));
        }
    }
    let f = Forward {
        ns: match ns {
            Some(n) => n,
            None => match default_ns {
                Some(d) => d,
                None => Ns::Host,
            },
        },
        ns_inherited: ns is None,
        remote_host: "127.0.0.1"@,
        remote_port: port,
        local_addr: match local {
            Some((Some(a), p)) => a,
            _ => bind,
        },
        local_port: match local {
            Some((a, p)) => p,
            None => port,
        },
        local_port_auto: local is None,
        kind: ForwardKind::Direct,
    };
    lemma_written(f, ns, t, local, bind, default_ns);
}

/// `[NS@]socks[->[ADDR:]LOCAL]` is a proxy, on port 1080 where none is given, and only on
/// a loopback address where one is.
pub proof fn law_socks_spec(
    ns: Option<Ns>,
    local: Option<(Option<IpAddr>, int)>,
    bind: IpAddr,
    default_ns: Option<Ns>,
)
    requires
        can_be_written(ns),
        is_local_end(local),
        local matches Some((Some(a), p)) ==> a.loopback(),
    ensures
        ({
            let read = forward_of(written_spec(ns, "socks"@, local), bind, default_ns);
            &&& read matches Ok(f)
            &&& f.kind is Socks
            &&& ns matches Some(n) ==> f.ns == n && !f.ns_inherited
            &&& ns is None ==> f.ns_inherited && f.ns == (match default_ns {
                Some(d) => d,
                None => Ns::Host,
            })
            &&& local is None ==> f.local_addr == bind && f.local_port == 1080
                && f.local_port_auto
            &&& local matches Some((a, p)) ==> f.local_port == p && !f.local_port_auto
                && f.local_addr == (match a {
                Some(x) => x,
                None => bind,
            })
        }),
{
    lemma_socks_word();
    let f = Forward {
        ns: match ns {
            Some(n) => n,
            None => match default_ns {
                Some(d) => d,
                None => Ns::Host,
            },
        },
        ns_inherited: ns is None,
        remote_host: Seq::empty(),
        remote_port: 0,
        local_addr: match local {
            Some((Some(a), p)) => a,
            _ => bind,
        },
        local_port: match local {
            Some((a, p)) => p,
            None => 1080,
        },
        local_port_auto: local is None,
        kind: ForwardKind::Socks,
    };
    lemma_written(f, ns, "socks"@, local, bind, default_ns);
}

/// A forward that was read has ports, and dials a host that stands in the spec or the
/// loopback address.
pub proof fn law_ports_in_range(input: Seq<char>, bind: IpAddr, default_ns: Option<Ns>)
    ensures
        forward_of(input, bind, default_ns) matches Ok(f) ==> 1 <= f.local_port <= 65535 && (
        f.kind is Direct ==> 1 <= f.remote_port <= 65535),
        reverse_of(input) matches Ok(r) ==> 1 <= r.remote_bind_port <= 65535 && 1 <= r.local_port
            <= 65535,
        crate::text::trimmed(input).len() == 0 ==> forward_of(input, bind, default_ns) is Err
            && reverse_of(input) is Err,
{
    lemma_read(input, bind, default_ns);
    lemma_reverse_read(input);
}

/// A reverse spec `[NS@][ADDR:]PORT->[HOST:]LOCAL` listens on that port of that address
/// on the remote side (127.0.0.1 where none is given), and dials that port of that host
/// on the local side (127.0.0.1 where none is given).
pub proof fn law_reverse_spec(
    ns: Option<Ns>,
    addr: Option<IpAddr>,
    port: int,
    host: Option<Seq<char>>,
    local: int,
)
    requires
        can_be_written(ns),
        1 <= port <= 65535,
        1 <= local <= 65535,
        host matches Some(h) ==> is_plain_host(h) && (ns is None ==> !h.contains('@')),
    ensures
        ({
            let bind = match addr {
                Some(a) => endpoint_text(a, port),
                None => crate::text::decimal(port),
            };
            let to = match host {
                Some(h) => h + ":"@ + crate::text::decimal(local),
                None => crate::text::decimal(local),
            };
            let read = reverse_of(
                match ns {
                    Some(n) => n.wire() + "@"@ + (bind + "->"@ + to),
                    None => bind + "->"@ + to,
                },
            );
            &&& read matches Ok(r)
            &&& r.ns == (match ns {
                Some(n) => n,
                None => Ns::Host,
            })
            &&& r.remote_bind_port == port
            &&& r.remote_bind_addr == (match addr {
                Some(a) => a,
                None => IpAddr::V4(crate::net::Ipv4Addr { a: 127, b: 0, c: 0, d: 1 }),
            })
            &&& r.local_port == local
            &&& r.local_host == (match host {
                Some(h) => h,
                None => "127.0.0.1"@,
            })
        }),
{
    let bind = match addr {
        Some(a) => endpoint_text(a, port),
        None => crate::text::decimal(port),
    };
    let to = match host {
        Some(h) => h + ":"@ + crate::text::decimal(local),
        None => crate::text::decimal(local),
    };
    let t = bind + "->"@ + to;
    let s = match ns {
        Some(n) => n.wire() + "@"@ + t,
        None => t,
    };
    let r = Reverse {
        ns: match ns {
            Some(n) => n,
            None => Ns::Host,
        },
        remote_bind_addr: match addr {
            Some(a) => a,
            None => IpAddr::local(),
        },
        remote_bind_port: port,
        local_host: match host {
            Some(h) => h,
            None => "127.0.0.1"@,
        },
        local_port: local,
    };
    lemma_port(port, s);
    lemma_port(local, s);
    lemma_bare_bind(port, s);
    lemma_bare_port(local, s);
    if let Some(a) = addr {
        lemma_endpoint(a, port, s);
        lemma_endpoint_no_dash(a, port);
    }
    if let Some(h) = host {
        lemma_host_port(h, local, s);
        lemma_colon_at(h, local);
    }
    assert(!crate::text::is_part("->"@, bind)) by {
        reveal_strlit("->");
        if crate::text::is_part("->"@, bind) {
            let k = choose|k: int| #[trigger] crate::text::occurs_at(bind, "->"@, k);
            assert(bind.subrange(k, k + 2)[0] == bind[k]);
            assert(bind.contains('-'));
        }
    }
    lemma_bind_to(r, addr, s, bind, to);
    lemma_arrow_ends(bind, to);
    assert("@"@.len() == 1 && "@"@[0] == '@') by {
        reveal_strlit("@");
    }
    match ns {
        None => {
            crate::text::lemma_trim_tight(s);
            crate::text::lemma_cut_none(s, "@"@);
        },
        Some(n) => {
            let w = n.wire();
            lemma_wire_start(n);
            law_ns_wire_roundtrip(n);
            assert(s[0] == w[0]);
            assert(s.last() == t.last());
            crate::text::lemma_trim_tight(s);
            crate::text::lemma_cut_first_char(w, "@"@, t);
        },
    }
}

proof fn lemma_colon_at(h: Seq<char>, p: int)
    requires
        1 <= p <= 65535,
        h.len() > 0,
    ensures
        (h + ":"@ + crate::text::decimal(p)).len() > 0,
        !h.contains('@') ==> !(h + ":"@ + crate::text::decimal(p)).contains('@'),
{
    reveal_strlit(":");
    let d = crate::text::decimal(p);
    let t = h + ":"@ + d;
    lemma_port(p, t);
    assert forall|i: int| 0 <= i < t.len() && !h.contains('@') implies t[i] != '@' by {
        if i < h.len() {
            assert(t[i] == h[i]);
            assert(h.contains(h[i]));
        } else if i > h.len() {
            assert(t[i] == d[i - h.len() - 1]);
            assert(d.contains(d[i - h.len() - 1]));
        }
    }
}

proof fn lemma_bind_to(
    r: Reverse,
    addr: Option<IpAddr>,
    raw: Seq<char>,
    b: Seq<char>,
    l: Seq<char>,
)
    requires
        bind_port_of(b, raw) == Ok::<(Option<IpAddr>, int), SpecFault>(
            (addr, r.remote_bind_port),
        ),
        r.remote_bind_addr == (match addr {
            Some(a) => a,
            None => IpAddr::local(),
        }),
        host_port_of(l, raw) == Ok::<(Seq<char>, int), SpecFault>((r.local_host, r.local_port)),
        crate::text::is_tight(b),
        crate::text::is_tight(l),
        !crate::text::is_part("->"@, b),
    ensures
        reverse_target_of(b + "->"@ + l, raw, r.ns) == Ok::<Reverse, SpecFault>(r),
{
    lemma_around_arrow(b, l);
    assert(crate::text::cut_first(b + "->"@ + l, "->"@) is Some);
}

} // verus!
