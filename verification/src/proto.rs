//! On-the-wire stream framing.
//!
//! Each forwarded TCP connection maps to one bidirectional stream. The client
//! opens the stream and writes a small [`StreamHeader`] naming the target (and
//! optionally the namespace to dial it from); the agent reads it, connects, and
//! then bytes are spliced both ways until either side closes.

use crate::net::from_be16;
use crate::text::{copy_bytes, dec, push_bytes, string_from_utf8};
use vstd::prelude::*;

verus! {

/// Current stream-protocol version.
pub const VERSION: u8 = 1;

/// Bound on the variable-length header fields, in bytes.
pub const MAX_FIELD: usize = 255;

/// Per-stream target descriptor written by the client at stream open.
#[derive(Debug, PartialEq, Eq)]
pub struct StreamHeader {
    /// Namespace selector in wire form (empty = agent's host namespace).
    pub ns: String,
    /// Target host the agent should connect to.
    pub host: String,
    /// Target port the agent should connect to.
    pub port: u16,
}

/// The model of a [`StreamHeader`].
#[verifier::ext_equal]
pub struct Header {
    pub ns: Seq<char>,
    pub host: Seq<char>,
    pub port: int,
}

impl View for StreamHeader {
    type V = Header;

    open spec fn view(&self) -> Header {
        Header { ns: self.ns@, host: self.host@, port: self.port as int }
    }
}

impl Clone for StreamHeader {
    fn clone(&self) -> (r: Self)
        ensures
            r@ == self@,
    {
        StreamHeader { ns: self.ns.clone(), host: self.host.clone(), port: self.port }
    }
}

/// Why a header cannot be written or read.
#[derive(Debug, PartialEq, Eq)]
pub enum HeaderError {
    /// A field is longer than its length prefix can say.
    FieldTooLong,
    /// The first byte names another version of the protocol.
    UnsupportedVersion(u8),
    /// A field is not UTF-8; what is wrong with it.
    NotUtf8(String),
}

/// The model of a [`HeaderError`].
#[verifier::ext_equal]
pub enum HeaderFault {
    FieldTooLong,
    UnsupportedVersion(u8),
    NotUtf8(Seq<char>),
}

impl View for HeaderError {
    type V = HeaderFault;

    open spec fn view(&self) -> HeaderFault {
        match self {
            HeaderError::FieldTooLong => HeaderFault::FieldTooLong,
            HeaderError::UnsupportedVersion(v) => HeaderFault::UnsupportedVersion(*v),
            HeaderError::NotUtf8(e) => HeaderFault::NotUtf8(e@),
        }
    }
}

impl HeaderError {
    /// The message for this error.
    pub fn message(&self) -> (r: String)
        ensures
            r@ == (match self@ {
                HeaderFault::FieldTooLong => "header field exceeds 255 bytes"@,
                HeaderFault::UnsupportedVersion(v) => "unsupported stream protocol version "@
                    + crate::text::decimal(v as int),
                HeaderFault::NotUtf8(e) => e,
            }),
    {
        match self {
            HeaderError::FieldTooLong => String::from_str("header field exceeds 255 bytes"),
            HeaderError::UnsupportedVersion(v) => String::from_str(
                "unsupported stream protocol version ",
            ).concat(dec(*v as u64).as_str()),
            HeaderError::NotUtf8(e) => e.clone(),
        }
    }
}

/// The UTF-8 bytes of a text.
pub open spec fn utf8(s: Seq<char>) -> Seq<u8> {
    vstd::utf8::encode_utf8(s)
}

impl Header {
    /// Whether both fields fit their length prefixes.
    pub open spec fn fits(self) -> bool {
        utf8(self.host).len() <= MAX_FIELD && utf8(self.ns).len() <= MAX_FIELD
    }

    /// The bytes of the header:
    /// `version:u8 | port:u16_be | host_len:u8 | host | ns_len:u8 | ns`.
    pub open spec fn bytes(self) -> Seq<u8> {
        seq![VERSION, (self.port / 256) as u8, (self.port % 256) as u8] + (seq![
            utf8(self.host).len() as u8,
        ] + utf8(self.host)) + (seq![utf8(self.ns).len() as u8] + utf8(self.ns))
    }
}

/// What the bytes read so far amount to.
#[derive(Debug)]
pub enum HeaderProgress {
    /// Not a whole header yet: read on until there are this many bytes in all.
    Need(usize),
    /// A whole header, and how many bytes it took.
    Got(StreamHeader, usize),
    /// No header.
    Bad(HeaderError),
}

/// The model of a [`HeaderProgress`].
#[verifier::ext_equal]
pub enum HeaderState {
    Need(int),
    Got(Header, int),
    Bad(HeaderFault),
}

impl View for HeaderProgress {
    type V = HeaderState;

    open spec fn view(&self) -> HeaderState {
        match self {
            HeaderProgress::Need(n) => HeaderState::Need(*n as int),
            HeaderProgress::Got(h, n) => HeaderState::Got(h@, *n as int),
            HeaderProgress::Bad(e) => HeaderState::Bad(e@),
        }
    }
}

/// What a length-prefixed field at position `at` amounts to.
pub enum FieldState {
    Need(int),
    Got(Seq<char>, int),
    Bad(HeaderFault),
}

/// The length-prefixed UTF-8 field at position `at`.
pub open spec fn field_of(b: Seq<u8>, at: int) -> FieldState {
    if b.len() < at + 1 {
        FieldState::Need(at + 1)
    } else {
        let end = at + 1 + b[at];
        if b.len() < end {
            FieldState::Need(end)
        } else {
            let f = b.subrange(at + 1, end);
            if vstd::utf8::valid_utf8(f) {
                FieldState::Got(vstd::utf8::decode_utf8(f), end)
            } else {
                FieldState::Bad(HeaderFault::NotUtf8(crate::text::utf8_error_text(f)))
            }
        }
    }
}

/// The header at the start of `b`.
pub open spec fn header_of(b: Seq<u8>) -> HeaderState {
    if b.len() < 3 {
        HeaderState::Need(3)
    } else if b[0] != VERSION {
        HeaderState::Bad(HeaderFault::UnsupportedVersion(b[0]))
    } else {
        match field_of(b, 3) {
            FieldState::Need(n) => HeaderState::Need(n),
            FieldState::Bad(e) => HeaderState::Bad(e),
            FieldState::Got(host, at) => match field_of(b, at) {
                FieldState::Need(n) => HeaderState::Need(n),
                FieldState::Bad(e) => HeaderState::Bad(e),
                FieldState::Got(ns, end) => HeaderState::Got(
                    Header { ns, host, port: crate::net::be16(b[1], b[2]) },
                    end,
                ),
            },
        }
    }
}

enum Field {
    Need(usize),
    Got(String, usize),
    Bad(HeaderError),
}

fn read_field(b: &[u8], at: usize) -> (r: Field)
    requires
        at <= 1000,
    ensures
        match r {
            Field::Need(n) => field_of(b@, at as int) == FieldState::Need(n as int),
            Field::Got(s, n) => field_of(b@, at as int) == FieldState::Got(s@, n as int) && n <= at
                + 256,
            Field::Bad(e) => field_of(b@, at as int) == FieldState::Bad(e@),
        },
{
    if b.len() < at + 1 {
        return Field::Need(at + 1);
    }
    let end: usize = at + 1 + b[at] as usize;
    if b.len() < end {
        return Field::Need(end);
    }
    match string_from_utf8(copy_bytes(b, at + 1, end)) {
        Ok(s) => Field::Got(s, end),
        Err(e) => Field::Bad(HeaderError::NotUtf8(e)),
    }
}

impl StreamHeader {
    /// The bytes of the header, where both fields fit.
    pub fn encode(&self) -> (r: Result<Vec<u8>, HeaderError>)
        ensures
            match r {
                Ok(v) => self@.fits() && v@ == self@.bytes(),
                Err(e) => !self@.fits() && e@ == HeaderFault::FieldTooLong,
            },
    {
        let host: &[u8] = self.host.as_str().as_bytes();
        let ns: &[u8] = self.ns.as_str().as_bytes();
        if host.len() > MAX_FIELD || ns.len() > MAX_FIELD {
            return Err(HeaderError::FieldTooLong);
        }
        let mut v: Vec<u8> = Vec::new();
        v.push(VERSION);
        v.push((self.port / 256) as u8);
        v.push((self.port % 256) as u8);
        v.push(host.len() as u8);
        push_bytes(&mut v, host);
        v.push(ns.len() as u8);
        push_bytes(&mut v, ns);
        proof {
            assert(v@ =~= self@.bytes());
        }
        Ok(v)
    }

    /// Reads the header at the start of the bytes received so far, or says how
    /// many bytes it takes to go on.
    pub fn decode(b: &[u8]) -> (r: HeaderProgress)
        ensures
            r@ == header_of(b@),
    {
        if b.len() < 3 {
            return HeaderProgress::Need(3);
        }
        if b[0] != VERSION {
            return HeaderProgress::Bad(HeaderError::UnsupportedVersion(b[0]));
        }
        let port: u16 = from_be16(b[1], b[2]);
        match read_field(b, 3) {
            Field::Need(n) => HeaderProgress::Need(n),
            Field::Bad(e) => HeaderProgress::Bad(e),
            Field::Got(host, at) => match read_field(b, at) {
                Field::Need(n) => HeaderProgress::Need(n),
                Field::Bad(e) => HeaderProgress::Bad(e),
                Field::Got(ns, end) => HeaderProgress::Got(StreamHeader { ns, host, port }, end),
            },
        }
    }
}

/// A length-prefixed field reads back, whatever stands around it.
proof fn lemma_field(a: Seq<u8>, s: Seq<char>, rest: Seq<u8>)
    requires
        utf8(s).len() <= 255,
    ensures
        field_of(a + (seq![utf8(s).len() as u8] + utf8(s)) + rest, a.len() as int)
            == FieldState::Got(s, a.len() + 1int + utf8(s).len()),
{
    let f = utf8(s);
    let b = a + (seq![f.len() as u8] + f) + rest;
    let at = a.len() as int;
    assert(b[at] == f.len() as u8);
    assert(b.subrange(at + 1, at + 1 + f.len()) =~= f);
    vstd::utf8::encode_utf8_valid_utf8(s);
    vstd::utf8::encode_utf8_decode_utf8(s);
}

/// Reading the bytes of a header gives the header, and takes exactly those bytes,
/// whatever follows them.
pub proof fn law_header_roundtrip(h: Header, rest: Seq<u8>)
    requires
        h.fits(),
        0 <= h.port <= 65535,
    ensures
        header_of(h.bytes() + rest) == HeaderState::Got(h, h.bytes().len() as int),
{
    let fixed = seq![VERSION, (h.port / 256) as u8, (h.port % 256) as u8];
    let host = seq![utf8(h.host).len() as u8] + utf8(h.host);
    let ns = seq![utf8(h.ns).len() as u8] + utf8(h.ns);
    let b = h.bytes() + rest;
    assert(b =~= fixed + host + (ns + rest));
    lemma_field(fixed, h.host, ns + rest);
    assert(b =~= (fixed + host) + ns + rest);
    lemma_field(fixed + host, h.ns, rest);
    assert(b[1] == (h.port / 256) as u8);
    assert(b[2] == (h.port % 256) as u8);
}

/// While a header is incomplete the reader asks for more bytes than there are,
/// and for no more than the header has; so a reader that fetches what is asked
/// for ends with the header and nothing beyond it.
pub proof fn law_header_prefix(h: Header, n: int)
    requires
        h.fits(),
        0 <= h.port <= 65535,
        0 <= n < h.bytes().len(),
    ensures
        header_of(h.bytes().take(n)) matches HeaderState::Need(m) && n < m <= h.bytes().len(),
{
    let whole = h.bytes();
    let b = whole.take(n);
    let fixed = seq![VERSION, (h.port / 256) as u8, (h.port % 256) as u8];
    let host = seq![utf8(h.host).len() as u8] + utf8(h.host);
    let ns = seq![utf8(h.ns).len() as u8] + utf8(h.ns);
    let at = 3 + host.len();
    assert(whole =~= fixed + host + ns);
    if n >= 3 {
        assert(b[0] == VERSION);
        if n >= 4 {
            assert(b[3] == whole[3]);
            assert(whole[3] == utf8(h.host).len() as u8);
        }
        if n >= at {
            let rest = ns.take(n - at);
            assert(b =~= fixed + host + rest);
            lemma_field(fixed, h.host, rest);
            if n > at {
                assert(b[at as int] == whole[at as int]);
                assert(whole[at as int] == utf8(h.ns).len() as u8);
            }
        }
    }
}

/// The bytes of a header stand where the protocol has them: the version 1, the port with
/// its high byte first, and then the host and the namespace, each behind its length.
pub proof fn law_header_layout(h: Header)
    requires
        h.fits(),
        0 <= h.port <= 65535,
    ensures
        ({
            let b = h.bytes();
            let host = vstd::utf8::encode_utf8(h.host);
            let ns = vstd::utf8::encode_utf8(h.ns);
            &&& b.len() == 5 + host.len() + ns.len()
            &&& b[0] == 1
            &&& b[1] * 256 + b[2] == h.port
            &&& b[3] == host.len()
            &&& b.subrange(4, 4 + host.len() as int) == host
            &&& b[4 + host.len() as int] == ns.len()
            &&& b.skip(5 + host.len() as int) == ns
        }),
{
    let b = h.bytes();
    let host = utf8(h.host);
    let ns = utf8(h.ns);
    assert(b.subrange(4, 4 + host.len() as int) =~= host);
    assert(b.skip(5 + host.len() as int) =~= ns);
}

/// A field fits exactly where it has at most 255 bytes.
pub proof fn law_fits(h: Header)
    ensures
        h.fits() <==> vstd::utf8::encode_utf8(h.host).len() <= 255 && vstd::utf8::encode_utf8(
            h.ns,
        ).len() <= 255,
{
}

/// A header of another version is refused, whatever follows.
pub proof fn law_other_version_refused(b: Seq<u8>)
    requires
        b.len() >= 3,
        b[0] != 1,
    ensures
        header_of(b) == HeaderState::Bad(HeaderFault::UnsupportedVersion(b[0])),
{
}

/// What is asked for next ends where a part of the header ends: the version and the port
/// are three bytes, and each field is preceded by one that gives its length.
pub proof fn law_header_needs(b: Seq<u8>)
    ensures
        b.len() < 3 ==> header_of(b) == HeaderState::Need(3),
        b.len() == 3 && b[0] == VERSION ==> header_of(b) == HeaderState::Need(4),
        b.len() > 3 && b[0] == VERSION && b.len() < 4 + b[3] ==> header_of(b) == HeaderState::Need(
            4 + b[3],
        ),
        b.len() > 3 && b[0] == VERSION && b.len() == 4 + b[3] && vstd::utf8::valid_utf8(
            b.skip(4),
        ) ==> header_of(b) == HeaderState::Need(5 + b[3]),
        header_of(b) matches HeaderState::Need(n) ==> n > b.len(),
{
    if b.len() > 3 && b.len() == 4 + b[3] {
        assert(b.subrange(4, b.len() as int) =~= b.skip(4));
    }
}

} // verus!
