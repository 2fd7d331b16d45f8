//! What the command line asks for, as plain values.

use crate::forward::{debug_char, debug_str};
use crate::net::IpAddr;
use crate::text::{parse_unsigned, to_chars, trim, NumError};
use vstd::prelude::*;

verus! {

/// The default action: start a forwarding session.
#[derive(Debug)]
pub struct RunArgs {
    /// Remote host (an SSH alias or user@host).
    pub host: Option<String>,
    /// Forward specs.
    pub specs: Vec<String>,
    /// Reverse forward specs.
    pub reverse: Vec<String>,
    /// A named profile to load.
    pub profile: Option<String>,
    /// Run the client in the background.
    pub daemon: bool,
    /// UDP address the remote agent should bind.
    pub remote_udp: Option<String>,
    /// Carry the data plane over SSH.
    pub via_ssh: bool,
    /// Force the direct data plane, clearing any remembered choice of SSH.
    pub no_via_ssh: bool,
    /// Default local bind address.
    pub bind: Option<IpAddr>,
    /// Namespace of specs that name none, in wire form.
    pub ns: Option<String>,
    /// Seconds the remote agent outlives its last client.
    pub agent_grace: u64,
}

/// The remote agent role, launched over SSH.
#[derive(Debug)]
pub struct AgentArgs {
    /// Address to bind the listener on.
    pub listen: String,
    /// Seconds to hold the session open with no client attached.
    pub grace_secs: u64,
    /// Stay attached to the launching terminal.
    pub foreground: bool,
    /// Serve the SSH-tunnel transport.
    pub tunnel: bool,
}

impl Default for AgentArgs {
    fn default() -> (r: Self)
        ensures
            r.listen@ == "0.0.0.0:0"@,
            r.grace_secs == 300,
            !r.foreground,
            !r.tunnel,
    {
        AgentArgs {
            listen: "0.0.0.0:0".to_owned(),
            grace_secs: 300,
            foreground: false,
            tunnel: false,
        }
    }
}

/// A subcommand that works on a host.
#[derive(Debug)]
pub enum Command {
    /// Add forwards to the running session.
    Add { host: String, specs: Vec<String>, reverse: bool },
    /// Remove forwards from the running session.
    Drop { host: String, specs: Vec<String>, all: bool, reverse: bool },
    /// Remove every forward from the running session.
    Clear { host: String },
    /// List the active forwards.
    List { host: String },
    /// Show the status of the session.
    Status { host: String },
    /// Stop the session.
    Stop { host: String },
    /// Change the default namespace of the session; none for the agent's own.
    Ns { host: String, ns: Option<String> },
}

/// Why a text is no duration.
#[derive(Debug, PartialEq, Eq)]
pub enum GraceError {
    /// There is nothing to read.
    Empty,
    /// A unit other than seconds, minutes, hours and days.
    UnknownUnit(char),
    /// The number of this text is none.
    Invalid(String, NumError),
    /// This text is more seconds than can be counted.
    TooLarge(String),
}

/// The model of a [`GraceError`].
#[verifier::ext_equal]
pub enum GraceFault {
    Empty,
    UnknownUnit(char),
    Invalid(Seq<char>, NumError),
    TooLarge(Seq<char>),
}

impl View for GraceError {
    type V = GraceFault;

    open spec fn view(&self) -> GraceFault {
        match self {
            GraceError::Empty => GraceFault::Empty,
            GraceError::UnknownUnit(c) => GraceFault::UnknownUnit(*c),
            GraceError::Invalid(s, e) => GraceFault::Invalid(s@, *e),
            GraceError::TooLarge(s) => GraceFault::TooLarge(s@),
        }
    }
}

impl GraceFault {
    /// The message for this error.
    pub open spec fn text(self) -> Seq<char> {
        match self {
            GraceFault::Empty => "empty duration"@,
            GraceFault::UnknownUnit(c) => "unknown duration unit "@ + crate::forward::debug_char_text(c)
                + "; use s, m, h, or d"@,
            GraceFault::Invalid(s, e) => "invalid duration "@ + crate::forward::debug_text(s)
                + ": "@ + e.text(),
            GraceFault::TooLarge(s) => "duration "@ + crate::forward::debug_text(s)
                + " is too large"@,
        }
    }
}

impl GraceError {
    /// The message for this error.
    pub fn message(&self) -> (r: String)
        ensures
            r@ == self@.text(),
    {
        match self {
            GraceError::Empty => String::from_str("empty duration"),
            GraceError::UnknownUnit(c) => String::from_str("unknown duration unit ").concat(
                debug_char(*c).as_str(),
            ).concat("; use s, m, h, or d"),
            GraceError::Invalid(s, e) => String::from_str("invalid duration ").concat(
                debug_str(s.as_str()).as_str(),
            ).concat(": ").concat(e.message()),
            GraceError::TooLarge(s) => String::from_str("duration ").concat(
                debug_str(s.as_str()).as_str(),
            ).concat(" is too large"),
        }
    }
}

/// How many seconds a unit stands for.
pub open spec fn unit_secs(c: char) -> Option<int> {
    if c == 's' {
        Some(1)
    } else if c == 'm' {
        Some(60)
    } else if c == 'h' {
        Some(3600)
    } else if c == 'd' {
        Some(86400)
    } else {
        None
    }
}

/// The seconds that a duration denotes: a number, with a unit behind it or none for
/// seconds.
pub open spec fn grace_of(text: Seq<char>) -> Result<int, GraceFault> {
    let s = crate::text::trimmed(text);
    if s.len() == 0 {
        Err(GraceFault::Empty)
    } else {
        let c = s.last();
        if unit_secs(c) is None && !crate::text::is_digit(c) {
            Err(GraceFault::UnknownUnit(c))
        } else {
            let (digits, unit) = match unit_secs(c) {
                Some(u) => (s.drop_last(), u),
                None => (s, 1),
            };
            match crate::text::unsigned_value(crate::text::trimmed(digits), u64::MAX as int) {
                Err(e) => Err(GraceFault::Invalid(s, e)),
                Ok(n) => if n * unit > u64::MAX {
                    Err(GraceFault::TooLarge(s))
                } else {
                    Ok(n * unit)
                },
            }
        }
    }
}

/// Parses a human duration like `30s`, `15m`, `12h`, `2d` into seconds. A bare
/// number is seconds.
pub fn parse_grace(text: &str) -> (r: Result<u64, GraceError>)
    ensures
        match r {
            Ok(n) => grace_of(text@) == Ok::<int, GraceFault>(n as int),
            Err(e) => grace_of(text@) == Err::<int, GraceFault>(e@),
        },
{
    let s: &str = trim(text);
    let cs: Vec<char> = to_chars(s);
    if cs.len() == 0 {
        return Err(GraceError::Empty);
    }
    let c: char = cs[cs.len() - 1];
    let unit: u64 = if c == 's' {
        1
    } else if c == 'm' {
        60
    } else if c == 'h' {
        3600
    } else if c == 'd' {
        86400
    } else if c >= '0' && c <= '9' {
        0
    } else {
        return Err(GraceError::UnknownUnit(c));
    };
    let digits: &str = if unit == 0 {
        s
    } else {
        s.substring_char(0, cs.len() - 1)
    };
    proof {
        assert(s@.subrange(0, s@.len() - 1) =~= s@.drop_last());
    }
    let factor: u64 = if unit == 0 {
        1
    } else {
        unit
    };
    match parse_unsigned(trim(digits), u64::MAX) {
        Err(e) => Err(GraceError::Invalid(s.to_owned(), e)),
        Ok(n) => match n.checked_mul(factor) {
            Some(secs) => Ok(secs),
            None => Err(GraceError::TooLarge(s.to_owned())),
        },
    }
}

/// What is wrong with the configured default bind address.
pub open spec fn bind_addr_fault(v: Seq<char>) -> Seq<char> {
    "PORTMANAGER_BIND_ADDR="@ + crate::forward::debug_text(v) + " is not a valid IP address"@
}

/// Resolves the default local bind address: the flag if given, else the environment
/// variable, else none. A blank variable is no variable.
pub fn resolve_default_bind(flag: Option<IpAddr>, env: Option<&str>) -> (r: Result<
    Option<IpAddr>,
    String,
>)
    ensures
        match flag {
            Some(a) => r == Ok::<Option<IpAddr>, String>(Some(a)),
            None => match env {
                None => r == Ok::<Option<IpAddr>, String>(None),
                Some(v) => {
                    let t = crate::text::trimmed(v@);
                    if t.len() == 0 {
                        r == Ok::<Option<IpAddr>, String>(None)
                    } else {
                        match crate::net::ip_of(t) {
                            Some(a) => r == Ok::<Option<IpAddr>, String>(Some(a)),
                            None => r matches Err(e) && e@ == bind_addr_fault(v@),
                        }
                    }
                },
            },
        },
{
    match flag {
        Some(a) => Ok(Some(a)),
        None => match env {
            None => Ok(None),
            Some(v) => {
                let t: &str = trim(v);
                if t.is_empty() {
                    return Ok(None);
                }
                match IpAddr::parse(t) {
                    Some(a) => Ok(Some(a)),
                    None => Err(
                        String::from_str("PORTMANAGER_BIND_ADDR=").concat(
                            debug_str(v).as_str(),
                        ).concat(" is not a valid IP address"),
                    ),
                }
            },
        },
    }
}

/// The logging level for a count of `-v`.
pub fn log_level(verbose: u8) -> (r: &'static str)
    ensures
        r@ == (if verbose == 0 {
            "info"@
        } else if verbose == 1 {
            "debug"@
        } else {
            "trace"@
        }),
{
    if verbose == 0 {
        "info"
    } else if verbose == 1 {
        "debug"
    } else {
        "trace"
    }
}

/// A number of seconds, minutes, hours or days is that many; a bare number is seconds. What
/// does not fit is refused, as is a text that ends in any other unit.
pub proof fn law_grace(n: int, text: Seq<char>)
    requires
        0 <= n <= u64::MAX,
    ensures
        ({
            let d = crate::text::decimal(n);
            &&& grace_of(d) == Ok::<int, GraceFault>(n)
            &&& grace_of(d.push('s')) == Ok::<int, GraceFault>(n)
            &&& 60 * n <= u64::MAX ==> grace_of(d.push('m')) == Ok::<int, GraceFault>(60 * n)
            &&& 3600 * n <= u64::MAX ==> grace_of(d.push('h')) == Ok::<int, GraceFault>(3600 * n)
            &&& 86400 * n <= u64::MAX ==> grace_of(d.push('d')) == Ok::<int, GraceFault>(86400 * n)
            &&& 60 * n > u64::MAX ==> grace_of(d.push('m')) == Err::<int, GraceFault>(
                GraceFault::TooLarge(d.push('m')),
            )
            &&& 3600 * n > u64::MAX ==> grace_of(d.push('h')) == Err::<int, GraceFault>(
                GraceFault::TooLarge(d.push('h')),
            )
            &&& 86400 * n > u64::MAX ==> grace_of(d.push('d')) == Err::<int, GraceFault>(
                GraceFault::TooLarge(d.push('d')),
            )
        }),
        ({
            let t = crate::text::trimmed(text);
            &&& t.len() == 0 ==> grace_of(text) == Err::<int, GraceFault>(GraceFault::Empty)
            &&& t.len() > 0 && !crate::text::is_digit(t.last()) && t.last() != 's' && t.last()
                != 'm' && t.last() != 'h' && t.last() != 'd' ==> grace_of(text) == Err::<
                int,
                GraceFault,
            >(GraceFault::UnknownUnit(t.last()))
        }),
{
    let d = crate::text::decimal(n);
    crate::text::lemma_decimal_digits(n);
    crate::text::lemma_decimal_roundtrip(n, u64::MAX as int);
    assert(crate::text::is_digit(d[0]));
    assert(crate::text::is_digit(d[d.len() - 1]));
    crate::text::lemma_trim_tight(d);
    lemma_with_unit(d, 's');
    lemma_with_unit(d, 'm');
    lemma_with_unit(d, 'h');
    lemma_with_unit(d, 'd');
}

proof fn lemma_with_unit(d: Seq<char>, c: char)
    requires
        d.len() > 0,
        crate::text::is_digit(d[0]),
        c == 's' || c == 'm' || c == 'h' || c == 'd',
    ensures
        crate::text::trimmed(d.push(c)) == d.push(c),
        d.push(c).drop_last() == d,
        d.push(c).last() == c,
{
    assert(d.push(c)[0] == d[0]);
    crate::text::lemma_trim_tight(d.push(c));
    assert(d.push(c).drop_last() =~= d);
}

} // verus!
