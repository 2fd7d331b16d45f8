//! Minimal SOCKS5 (RFC 1928) server handshake for the dynamic-proxy forward.
//!
//! A `socks` forward binds a local listener whose target isn't fixed: each
//! accepted connection first speaks the SOCKS5 greeting and CONNECT request,
//! which names the real destination. Domain targets are passed through verbatim
//! so that names resolve on the *remote* side. Only no-auth CONNECT is
//! supported.

use crate::net::{from_be16, hex_digits, Ipv4Addr, Ipv6Addr};
use crate::text::{copy_bytes, push_bytes, string_from_utf8};
use vstd::prelude::*;

pub mod rep;

verus! {

/// SOCKS protocol version byte.
pub const VERSION: u8 = 0x05;

/// "No authentication required" method.
pub const METHOD_NO_AUTH: u8 = 0x00;

/// "No acceptable methods" sentinel returned to the client.
pub const METHOD_NONE: u8 = 0xFF;

/// CONNECT command (the only one supported).
pub const CMD_CONNECT: u8 = 0x01;

pub const ATYP_IPV4: u8 = 0x01;

pub const ATYP_DOMAIN: u8 = 0x03;

pub const ATYP_IPV6: u8 = 0x04;

/// Why a negotiation failed.
#[derive(Debug, PartialEq, Eq)]
pub enum SocksError {
    /// The greeting is not of SOCKS5.
    Version(u8),
    /// The client insists on authentication.
    NoMethod,
    /// The request is not of SOCKS5.
    RequestVersion(u8),
    /// A command other than CONNECT.
    Command(u8),
    /// The domain name is not UTF-8; what is wrong with it.
    Domain(String),
    /// An unknown type of address.
    AddressType(u8),
}

/// The model of a [`SocksError`].
#[verifier::ext_equal]
pub enum SocksFault {
    Version(u8),
    NoMethod,
    RequestVersion(u8),
    Command(u8),
    Domain(Seq<char>),
    AddressType(u8),
}

impl View for SocksError {
    type V = SocksFault;

    open spec fn view(&self) -> SocksFault {
        match self {
            SocksError::Version(v) => SocksFault::Version(*v),
            SocksError::NoMethod => SocksFault::NoMethod,
            SocksError::RequestVersion(v) => SocksFault::RequestVersion(*v),
            SocksError::Command(c) => SocksFault::Command(*c),
            SocksError::Domain(e) => SocksFault::Domain(e@),
            SocksError::AddressType(t) => SocksFault::AddressType(*t),
        }
    }
}

/// `0x` and the hexadecimal digits of a byte.
pub open spec fn hex_byte(b: u8) -> Seq<char> {
    "0x"@ + crate::net::hexadecimal(b as int)
}

impl SocksFault {
    /// The message for this error.
    pub open spec fn text(self) -> Seq<char> {
        match self {
            SocksFault::Version(v) => "unsupported SOCKS version "@ + hex_byte(v)
                + " (only SOCKS5)"@,
            SocksFault::NoMethod => "client offered no no-auth method"@,
            SocksFault::RequestVersion(v) => "bad SOCKS version in request: "@ + hex_byte(v),
            SocksFault::Command(c) => "unsupported SOCKS command "@ + hex_byte(c)
                + " (only CONNECT)"@,
            SocksFault::Domain(e) => "invalid domain name: "@ + e,
            SocksFault::AddressType(t) => "unsupported SOCKS address type "@ + hex_byte(t),
        }
    }
}

fn show_byte(b: u8) -> (r: String)
    ensures
        r@ == hex_byte(b),
{
    String::from_str("0x").concat(hex_digits(b as u16).as_str())
}

impl SocksError {
    /// The message for this error.
    pub fn message(&self) -> (r: String)
        ensures
            r@ == self@.text(),
    {
        match self {
            SocksError::Version(v) => String::from_str("unsupported SOCKS version ").concat(
                show_byte(*v).as_str(),
            ).concat(" (only SOCKS5)"),
            SocksError::NoMethod => String::from_str("client offered no no-auth method"),
            SocksError::RequestVersion(v) => String::from_str(
                "bad SOCKS version in request: ",
            ).concat(show_byte(*v).as_str()),
            SocksError::Command(c) => String::from_str("unsupported SOCKS command ").concat(
                show_byte(*c).as_str(),
            ).concat(" (only CONNECT)"),
            SocksError::Domain(e) => String::from_str("invalid domain name: ").concat(e.as_str()),
            SocksError::AddressType(t) => String::from_str(
                "unsupported SOCKS address type ",
            ).concat(show_byte(*t).as_str()),
        }
    }
}

/// Where a negotiation stands after the bytes received so far.
#[derive(Debug)]
pub enum SocksProgress {
    /// Read on until there are this many bytes in all.
    Need(usize),
    /// The requested target.
    Target(String, u16),
    /// The negotiation failed.
    Failed(SocksError),
}

/// The model of a [`SocksProgress`].
#[verifier::ext_equal]
pub enum SocksState {
    Need(int),
    Target(Seq<char>, int),
    Failed(SocksFault),
}

impl View for SocksProgress {
    type V = SocksState;

    open spec fn view(&self) -> SocksState {
        match self {
            SocksProgress::Need(n) => SocksState::Need(*n as int),
            SocksProgress::Target(h, p) => SocksState::Target(h@, *p as int),
            SocksProgress::Failed(e) => SocksState::Failed(e@),
        }
    }
}

/// The reply frame with code `code`. The bound address is reported as
/// `0.0.0.0:0`: there is no meaningful local bind to surface.
pub open spec fn reply_frame(code: u8) -> Seq<u8> {
    seq![VERSION, code, 0u8, ATYP_IPV4, 0u8, 0u8, 0u8, 0u8, 0u8, 0u8]
}

/// What is sent to choose a method.
pub open spec fn method_choice(method: u8) -> Seq<u8> {
    seq![VERSION, method]
}

/// The state once the address of the request, which ends at `end`, is known.
pub open spec fn with_port(b: Seq<u8>, end: int, host: Seq<char>) -> SocksState {
    if b.len() < end + 2 {
        SocksState::Need(end + 2)
    } else {
        SocksState::Target(host, crate::net::be16(b[end], b[end + 1]))
    }
}

/// The address of the request, whose fixed part ends at `at`.
pub open spec fn address_of(b: Seq<u8>, at: int) -> SocksState {
    let atyp = b[at - 1];
    if atyp == ATYP_IPV4 {
        if b.len() < at + 4 {
            SocksState::Need(at + 4)
        } else {
            with_port(b, at + 4, crate::net::v4_from_bytes(b.subrange(at, at + 4)).text())
        }
    } else if atyp == ATYP_DOMAIN {
        if b.len() < at + 1 {
            SocksState::Need(at + 1)
        } else {
            let end = at + 1 + b[at];
            if b.len() < end {
                SocksState::Need(end)
            } else {
                let name = b.subrange(at + 1, end);
                if vstd::utf8::valid_utf8(name) {
                    with_port(b, end, vstd::utf8::decode_utf8(name))
                } else {
                    SocksState::Failed(SocksFault::Domain(crate::text::utf8_error_text(name)))
                }
            }
        }
    } else if atyp == ATYP_IPV6 {
        if b.len() < at + 16 {
            SocksState::Need(at + 16)
        } else {
            with_port(b, at + 16, crate::net::v6_from_bytes(b.subrange(at, at + 16)).text())
        }
    } else {
        SocksState::Failed(SocksFault::AddressType(atyp))
    }
}

/// What has to be sent by now, and where the negotiation stands, after the client
/// sent `b`.
pub open spec fn negotiation_of(b: Seq<u8>) -> (Seq<u8>, SocksState) {
    let none = Seq::<u8>::empty();
    if b.len() < 2 {
        (none, SocksState::Need(2))
    } else if b[0] != VERSION {
        (none, SocksState::Failed(SocksFault::Version(b[0])))
    } else {
        let m = 2 + b[1];
        if b.len() < m {
            (none, SocksState::Need(m))
        } else if !b.subrange(2, m).contains(METHOD_NO_AUTH) {
            (method_choice(METHOD_NONE), SocksState::Failed(SocksFault::NoMethod))
        } else {
            let chosen = method_choice(METHOD_NO_AUTH);
            if b.len() < m + 4 {
                (chosen, SocksState::Need(m + 4))
            } else if b[m] != VERSION {
                (chosen, SocksState::Failed(SocksFault::RequestVersion(b[m])))
            } else if b[m + 1] != CMD_CONNECT {
                (
                    chosen + reply_frame(rep::COMMAND_NOT_SUPPORTED),
                    SocksState::Failed(SocksFault::Command(b[m + 1])),
                )
            } else {
                let state = address_of(b, m + 4);
                if state matches SocksState::Failed(SocksFault::AddressType(_)) {
                    (chosen + reply_frame(rep::ADDRESS_TYPE_NOT_SUPPORTED), state)
                } else {
                    (chosen, state)
                }
            }
        }
    }
}

/// The reply frame with code `code`.
pub fn reply(code: u8) -> (r: Vec<u8>)
    ensures
        r@ == reply_frame(code),
{
    let mut v: Vec<u8> = Vec::new();
    v.push(VERSION);
    v.push(code);
    v.push(0);
    v.push(ATYP_IPV4);
    v.push(0);
    v.push(0);
    v.push(0);
    v.push(0);
    v.push(0);
    v.push(0);
    proof {
        assert(v@ =~= reply_frame(code));
    }
    v
}

fn choose_method(method: u8) -> (r: Vec<u8>)
    ensures
        r@ == method_choice(method),
{
    let mut v: Vec<u8> = Vec::new();
    v.push(VERSION);
    v.push(method);
    proof {
        assert(v@ =~= method_choice(method));
    }
    v
}

fn read_port(b: &[u8], end: usize, host: String) -> (r: SocksProgress)
    requires
        end <= b@.len(),
        end <= 1000,
    ensures
        r@ == with_port(b@, end as int, host@),
{
    if b.len() < end + 2 {
        SocksProgress::Need(end + 2)
    } else {
        SocksProgress::Target(host, from_be16(b[end], b[end + 1]))
    }
}

fn read_address(b: &[u8], at: usize) -> (r: SocksProgress)
    requires
        1 <= at <= b@.len(),
        at <= 500,
    ensures
        r@ == address_of(b@, at as int),
{
    let atyp: u8 = b[at - 1];
    if atyp == ATYP_IPV4 {
        if b.len() < at + 4 {
            return SocksProgress::Need(at + 4);
        }
        let a: Vec<u8> = copy_bytes(b, at, at + 4);
        read_port(b, at + 4, Ipv4Addr::from_bytes(a.as_slice()).to_text())
    } else if atyp == ATYP_DOMAIN {
        if b.len() < at + 1 {
            return SocksProgress::Need(at + 1);
        }
        let end: usize = at + 1 + b[at] as usize;
        if b.len() < end {
            return SocksProgress::Need(end);
        }
        match string_from_utf8(copy_bytes(b, at + 1, end)) {
            Ok(name) => read_port(b, end, name),
            Err(e) => SocksProgress::Failed(SocksError::Domain(e)),
        }
    } else if atyp == ATYP_IPV6 {
        if b.len() < at + 16 {
            return SocksProgress::Need(at + 16);
        }
        let a: Vec<u8> = copy_bytes(b, at, at + 16);
        read_port(b, at + 16, Ipv6Addr::from_bytes(a.as_slice()).to_text())
    } else {
        SocksProgress::Failed(SocksError::AddressType(atyp))
    }
}

fn offers_no_auth(b: &[u8], m: usize) -> (r: bool)
    requires
        2 <= m <= b@.len(),
    ensures
        r == b@.subrange(2, m as int).contains(METHOD_NO_AUTH),
{
    let ghost t = b@.subrange(2, m as int);
    let mut i: usize = 2;
    while i < m
        invariant
            2 <= i <= m <= b@.len(),
            t == b@.subrange(2, m as int),
            forall|j: int| 2 <= j < i ==> b@[j] != METHOD_NO_AUTH,
        decreases m - i,
    {
        if b[i] == METHOD_NO_AUTH {
            assert(t[i - 2] == METHOD_NO_AUTH);
            return true;
        }
        i = i + 1;
    }
    false
}

/// Runs the greeting and the CONNECT request over the bytes that the client sent
/// so far. Gives all that has to be sent to the client by now (what was sent for
/// fewer bytes is a prefix of it) and where the negotiation stands. The success
/// reply is left to the caller, once the upstream stream is open.
pub fn negotiate(b: &[u8]) -> (r: (Vec<u8>, SocksProgress))
    ensures
        (r.0@, r.1@) == negotiation_of(b@),
{
    if b.len() < 2 {
        return (Vec::new(), SocksProgress::Need(2));
    }
    if b[0] != VERSION {
        return (Vec::new(), SocksProgress::Failed(SocksError::Version(b[0])));
    }
    let m: usize = 2 + b[1] as usize;
    if b.len() < m {
        return (Vec::new(), SocksProgress::Need(m));
    }
    if !offers_no_auth(b, m) {
        return (choose_method(METHOD_NONE), SocksProgress::Failed(SocksError::NoMethod));
    }
    let mut out: Vec<u8> = choose_method(METHOD_NO_AUTH);
    if b.len() < m + 4 {
        return (out, SocksProgress::Need(m + 4));
    }
    if b[m] != VERSION {
        return (out, SocksProgress::Failed(SocksError::RequestVersion(b[m])));
    }
    if b[m + 1] != CMD_CONNECT {
        push_bytes(&mut out, reply(rep::COMMAND_NOT_SUPPORTED).as_slice());
        return (out, SocksProgress::Failed(SocksError::Command(b[m + 1])));
    }
    let state = read_address(b, m + 4);
    if let SocksProgress::Failed(SocksError::AddressType(_)) = &state {
        push_bytes(&mut out, reply(rep::ADDRESS_TYPE_NOT_SUPPORTED).as_slice());
    }
    (out, state)
}

/// What was sent stays sent: more bytes from the client only add to it. A
/// negotiation that came to its end stays as it ended.
pub proof fn law_negotiation_grows(a: Seq<u8>, more: Seq<u8>)
    ensures
        negotiation_of(a).0.is_prefix_of(negotiation_of(a + more).0),
        !(negotiation_of(a).1 is Need) ==> negotiation_of(a + more) == negotiation_of(a),
        negotiation_of(a).1 matches SocksState::Need(n) ==> n > a.len(),
{
    let b = a + more;
    if a.len() >= 2 && a[0] == VERSION {
        let m = 2 + a[1];
        assert(b[0] == a[0] && b[1] == a[1]);
        if a.len() >= m {
            assert(b.subrange(2, m) =~= a.subrange(2, m));
            if a.len() >= m + 4 {
                assert(b[m] == a[m] && b[m + 1] == a[m + 1] && b[m + 3] == a[m + 3]);
                let at = m + 4;
                if a.len() >= at + 4 {
                    assert(b.subrange(at, at + 4) =~= a.subrange(at, at + 4));
                }
                if a.len() >= at + 16 {
                    assert(b.subrange(at, at + 16) =~= a.subrange(at, at + 16));
                }
                if a.len() > at {
                    assert(b[at] == a[at]);
                    let end = at + 1 + a[at];
                    if a.len() >= end {
                        assert(b.subrange(at + 1, end) =~= a.subrange(at + 1, end));
                    }
                }
            }
        }
    }
}

/// The bytes of a client that offers `methods` and then asks, with the command `cmd`,
/// for an address of the type `atyp`, of which `rest` is given.
pub open spec fn client_bytes(methods: Seq<u8>, cmd: u8, atyp: u8, rest: Seq<u8>) -> Seq<u8> {
    seq![5u8, methods.len() as u8] + methods + seq![5u8, cmd, 0u8, atyp] + rest
}

proof fn lemma_client_bytes(methods: Seq<u8>, cmd: u8, atyp: u8, rest: Seq<u8>)
    requires
        methods.len() <= 255,
    ensures
        ({
            let b = client_bytes(methods, cmd, atyp, rest);
            let m: int = 2 + methods.len() as int;
            &&& b.len() == m + 4 + rest.len()
            &&& b[0] == 5
            &&& b[1] as int == methods.len()
            &&& b.subrange(2, m) == methods
            &&& b[m] == 5
            &&& b[m + 1] == cmd
            &&& b[m + 3] == atyp
            &&& b.skip(m + 4) == rest
            &&& forall|i: int| 0 <= i < rest.len() ==> b[m + 4 + i] == #[trigger] rest[i]
        }),
{
    let b = client_bytes(methods, cmd, atyp, rest);
    let m: int = 2 + methods.len() as int;
    assert(b.subrange(2, m) =~= methods);
    assert(b.skip(m + 4) =~= rest);
}

/// A client that offers no authentication among its methods and asks for an IPv4 address
/// gets a stream to that address, octet by octet, and to that port.
pub proof fn law_ipv4_is_dialed(methods: Seq<u8>, a: u8, b: u8, c: u8, d: u8, hi: u8, lo: u8)
    requires
        methods.len() <= 255,
        methods.contains(0u8),
    ensures
        negotiation_of(client_bytes(methods, 1, 1, seq![a, b, c, d, hi, lo])) == (
            seq![5u8, 0u8],
            SocksState::Target(
                crate::text::decimal(a as int) + seq!['.'] + crate::text::decimal(b as int) + seq![
                    '.',
                ] + crate::text::decimal(c as int) + seq!['.'] + crate::text::decimal(d as int),
                hi * 256 + lo,
            ),
        ),
{
    let rest = seq![a, b, c, d, hi, lo];
    let all = client_bytes(methods, 1, 1, rest);
    lemma_client_bytes(methods, 1, 1, rest);
    let at: int = 2 + methods.len() as int + 4;
    assert(all[at + 0] == rest[0]);
    assert(all[at + 1] == rest[1]);
    assert(all[at + 2] == rest[2]);
    assert(all[at + 3] == rest[3]);
    assert(all[at + 4] == rest[4]);
    assert(all[at + 5] == rest[5]);
    assert(all.subrange(at, at + 4) =~= seq![a, b, c, d]);
    assert(method_choice(METHOD_NO_AUTH) =~= seq![5u8, 0u8]);
    let host = crate::text::decimal(a as int) + seq!['.'] + crate::text::decimal(b as int) + seq![
        '.',
    ] + crate::text::decimal(c as int) + seq!['.'] + crate::text::decimal(d as int);
    assert((crate::net::Ipv4Addr { a, b, c, d }).text() =~= host);
}

/// A client that asks for an IPv6 address gets a stream to the address with those eight
/// groups, each of two bytes with the high one first, and to that port.
pub proof fn law_ipv6_is_dialed(methods: Seq<u8>, g: Seq<u8>, hi: u8, lo: u8)
    requires
        methods.len() <= 255,
        methods.contains(0u8),
        g.len() == 16,
    ensures
        negotiation_of(client_bytes(methods, 1, 4, g + seq![hi, lo])) == (
            seq![5u8, 0u8],
            SocksState::Target(
                (crate::net::Ipv6Addr {
                    g0: (g[0] * 256 + g[1]) as u16,
                    g1: (g[2] * 256 + g[3]) as u16,
                    g2: (g[4] * 256 + g[5]) as u16,
                    g3: (g[6] * 256 + g[7]) as u16,
                    g4: (g[8] * 256 + g[9]) as u16,
                    g5: (g[10] * 256 + g[11]) as u16,
                    g6: (g[12] * 256 + g[13]) as u16,
                    g7: (g[14] * 256 + g[15]) as u16,
                }).text(),
                hi * 256 + lo,
            ),
        ),
{
    let rest = g + seq![hi, lo];
    let all = client_bytes(methods, 1, 4, rest);
    lemma_client_bytes(methods, 1, 4, rest);
    let at: int = 2 + methods.len() as int + 4;
    assert(all[at + 16] == rest[16]);
    assert(all[at + 17] == rest[17]);
    assert(all.subrange(at, at + 16) =~= g) by {
        assert forall|i: int| 0 <= i < 16 implies all[at + i] == g[i] by {
            assert(rest[i] == g[i]);
        }
    }
    assert(method_choice(METHOD_NO_AUTH) =~= seq![5u8, 0u8]);
}

/// What cannot be served is refused as the protocol says: another version at once, a
/// client without a method for it with the code 255, another command with the reply 7,
/// and another type of address with the reply 8.
pub proof fn law_refusals(methods: Seq<u8>, cmd: u8, atyp: u8, rest: Seq<u8>, b: Seq<u8>)
    requires
        methods.len() <= 255,
    ensures
        b.len() >= 2 && b[0] != 5 ==> negotiation_of(b) == (
            Seq::<u8>::empty(),
            SocksState::Failed(SocksFault::Version(b[0])),
        ),
        !methods.contains(0u8) ==> negotiation_of(client_bytes(methods, cmd, atyp, rest)) == (
            seq![5u8, 255u8],
            SocksState::Failed(SocksFault::NoMethod),
        ),
        methods.contains(0u8) && cmd != 1 ==> negotiation_of(
            client_bytes(methods, cmd, atyp, rest),
        ) == (
            seq![5u8, 0u8, 5u8, 7u8, 0u8, 1u8, 0u8, 0u8, 0u8, 0u8, 0u8, 0u8],
            SocksState::Failed(SocksFault::Command(cmd)),
        ),
        methods.contains(0u8) && atyp != 1 && atyp != 3 && atyp != 4 ==> negotiation_of(
            client_bytes(methods, 1, atyp, rest),
        ) == (
            seq![5u8, 0u8, 5u8, 8u8, 0u8, 1u8, 0u8, 0u8, 0u8, 0u8, 0u8, 0u8],
            SocksState::Failed(SocksFault::AddressType(atyp)),
        ),
{
    lemma_client_bytes(methods, cmd, atyp, rest);
    lemma_client_bytes(methods, 1, atyp, rest);
    assert(method_choice(METHOD_NO_AUTH) =~= seq![5u8, 0u8]);
    assert(method_choice(METHOD_NONE) =~= seq![5u8, 255u8]);
    assert(method_choice(METHOD_NO_AUTH) + reply_frame(7u8) =~= seq![
        5u8,
        0u8,
        5u8,
        7u8,
        0u8,
        1u8,
        0u8,
        0u8,
        0u8,
        0u8,
        0u8,
        0u8,
    ]);
    assert(method_choice(METHOD_NO_AUTH) + reply_frame(8u8) =~= seq![
        5u8,
        0u8,
        5u8,
        8u8,
        0u8,
        1u8,
        0u8,
        0u8,
        0u8,
        0u8,
        0u8,
        0u8,
    ]);
}

/// A client whose command is another than CONNECT, or who is not of version 5 in the
/// request, never gets a target.
pub proof fn law_target_needs_connect(b: Seq<u8>)
    ensures
        negotiation_of(b).1 is Target ==> b.len() >= 2 && b[0] == 5 && b.len() >= 2 + b[1] + 4
            && b.subrange(2, 2 + b[1]).contains(0u8) && b[2 + b[1]] == 5 && b[2 + b[1] + 1] == 1
            && (b[2 + b[1] + 3] == 1 || b[2 + b[1] + 3] == 3 || b[2 + b[1] + 3] == 4),
{
}

/// The names that a client asks for reach the remote side unchanged.
pub proof fn law_domain_passes_through(name: Seq<char>, port: int)
    requires
        vstd::utf8::encode_utf8(name).len() <= 255,
        0 <= port <= 65535,
    ensures
        ({
            let n = vstd::utf8::encode_utf8(name);
            let b = seq![VERSION, 1u8, METHOD_NO_AUTH] + seq![
                VERSION,
                CMD_CONNECT,
                0u8,
                ATYP_DOMAIN,
                n.len() as u8,
            ] + n + seq![(port / 256) as u8, (port % 256) as u8];
            negotiation_of(b) == (method_choice(METHOD_NO_AUTH), SocksState::Target(name, port))
        }),
{
    let n = vstd::utf8::encode_utf8(name);
    let b = seq![VERSION, 1u8, METHOD_NO_AUTH] + seq![
        VERSION,
        CMD_CONNECT,
        0u8,
        ATYP_DOMAIN,
        n.len() as u8,
    ] + n + seq![(port / 256) as u8, (port % 256) as u8];
    assert(b.subrange(2, 3)[0] == METHOD_NO_AUTH);
    assert(b.subrange(2, 3).contains(METHOD_NO_AUTH));
    assert(b.subrange(8, 8int + n.len()) =~= n);
    vstd::utf8::encode_utf8_valid_utf8(name);
    vstd::utf8::encode_utf8_decode_utf8(name);
}

} // verus!
