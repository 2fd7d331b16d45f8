//! Bootstrap handshake exchanged over the (authenticated) SSH pipe.
//!
//! The client writes a [`Hello`] to the agent's stdin; the agent replies with a
//! [`Ready`] on its stdout. Secrets (the session token) ride the SSH channel,
//! never argv.
//!
//! Wire format is one newline-terminated ASCII line per message:
//! ```text
//! PM-HELLO v2 <client_fp_hex> <token_hex>
//! PM-READY v2 <udp_port> <agent_fp_hex> <session_id_hex> <agent_version>
//! PM-ERROR <message...>
//! ```

use crate::crypto::{array32, ct_eq_bytes, parse_hex, Fingerprint, HexFault};
use crate::forward::debug_str;
use crate::hexcode::hex_encode;
use crate::text::{dec, parse_unsigned, split_whitespace, str_eq, strip_prefix, trim, NumError};
use vstd::prelude::*;

verus! {

/// Handshake/wire protocol version.
pub const PROTO_VERSION: u32 = 2;

/// The operating system gave no randomness.
#[derive(Debug, Clone, Copy, PartialEq, Eq, Structural)]
pub struct RandomError;

/// The error type of `getrandom`, carried through unopened.
#[verifier::external_type_specification]
#[verifier::external_body]
pub struct ExGetrandomError(getrandom::Error);

/// `getrandom::fill` on a fresh buffer of `n` bytes. Of the bytes nothing is
/// claimed but how many there are.
#[verifier::external_body]
pub(crate) fn random_bytes(n: usize) -> (r: Result<Vec<u8>, getrandom::Error>)
    ensures
        r matches Ok(v) ==> v@.len() == n,
{
    let mut buf = vec![0u8; n];
    getrandom::fill(&mut buf)?;
    Ok(buf)
}

/// 32-byte shared secret used to authorize SSH-less re-attach to a live agent.
#[derive(PartialEq, Eq)]
pub struct Token {
    bytes: [u8; 32],
}

/// 16-byte logical session identifier (decoupled from any QUIC connection).
#[derive(Clone, Copy, PartialEq, Eq)]
pub struct SessionId {
    bytes: [u8; 16],
}

impl View for Token {
    type V = Seq<u8>;

    closed spec fn view(&self) -> Seq<u8> {
        self.bytes@
    }
}

impl View for SessionId {
    type V = Seq<u8>;

    closed spec fn view(&self) -> Seq<u8> {
        self.bytes@
    }
}

impl Clone for Token {
    fn clone(&self) -> (r: Self)
        ensures
            r@ == self@,
    {
        Token { bytes: self.bytes }
    }
}

impl Token {
    /// The token with these bytes.
    pub fn from_bytes(bytes: [u8; 32]) -> (r: Token)
        ensures
            r@ == bytes@,
    {
        Token { bytes }
    }

    /// The bytes of the token.
    pub fn as_bytes(&self) -> (r: &[u8; 32])
        ensures
            r@ == self@,
    {
        &self.bytes
    }

    /// The token made of what came of drawing 32 random bytes.
    pub fn drawn(outcome: Result<Vec<u8>, getrandom::Error>) -> (r: Result<Token, RandomError>)
        requires
            outcome matches Ok(v) ==> v@.len() == 32,
        ensures
            match outcome {
                Ok(v) => r matches Ok(t) && t@ == v@,
                Err(_) => r == Err::<Token, RandomError>(RandomError),
            },
    {
        match outcome {
            Ok(v) => Ok(Token { bytes: array32(&v) }),
            Err(_) => Err(RandomError),
        }
    }

    /// Generates a token from the OS randomness: [`Token::drawn`] of 32 fresh bytes.
    /// What they are, and whether there are any, is up to the system.
    pub fn random() -> (r: Result<Token, RandomError>)
        ensures
            r matches Ok(t) ==> t@.len() == 32,
    {
        Token::drawn(random_bytes(32))
    }

    /// Lower-case hexadecimal text.
    pub fn to_hex(&self) -> (r: String)
        ensures
            r@ == crate::hexcode::hex_of(self@),
            self@.len() == 32,
    {
        hex_encode(self.bytes.as_slice())
    }

    /// Parses a hexadecimal text of 32 bytes.
    pub fn from_hex(s: &str) -> (r: Result<Token, HexFault>)
        ensures
            crate::error::outcome_plain(r) == crate::crypto::bytes_of_hex(s@, 32),
    {
        match parse_hex(s, 32) {
            Ok(v) => Ok(Token { bytes: array32(&v) }),
            Err(e) => Err(e),
        }
    }

    /// Constant-time equality.
    pub fn ct_eq(&self, other: &Token) -> (r: bool)
        ensures
            r == (self@ == other@),
    {
        ct_eq_bytes(self.bytes.as_slice(), other.bytes.as_slice())
    }
}

fn array16(v: &Vec<u8>) -> (r: [u8; 16])
    requires
        v@.len() == 16,
    ensures
        r@ == v@,
{
    let mut r: [u8; 16] = [0u8; 16];
    let mut i: usize = 0;
    while i < 16
        invariant
            i <= 16,
            v@.len() == 16,
            forall|j: int| 0 <= j < i ==> r@[j] == v@[j],
        decreases 16 - i,
    {
        r[i] = v[i];
        i = i + 1;
    }
    proof {
        assert(r@ =~= v@);
    }
    r
}

impl SessionId {
    /// The identifier made of what came of drawing 16 random bytes.
    pub fn drawn(outcome: Result<Vec<u8>, getrandom::Error>) -> (r: Result<SessionId, RandomError>)
        requires
            outcome matches Ok(v) ==> v@.len() == 16,
        ensures
            match outcome {
                Ok(v) => r matches Ok(t) && t@ == v@,
                Err(_) => r == Err::<SessionId, RandomError>(RandomError),
            },
    {
        match outcome {
            Ok(v) => Ok(SessionId { bytes: array16(&v) }),
            Err(_) => Err(RandomError),
        }
    }

    /// Generates an identifier from the OS randomness: [`SessionId::drawn`] of 16 fresh bytes.
    /// What they are, and whether there are any, is up to the system.
    pub fn random() -> (r: Result<SessionId, RandomError>)
        ensures
            r matches Ok(t) ==> t@.len() == 16,
    {
        SessionId::drawn(random_bytes(16))
    }

    /// Lower-case hexadecimal text.
    pub fn to_hex(&self) -> (r: String)
        ensures
            r@ == crate::hexcode::hex_of(self@),
            self@.len() == 16,
    {
        hex_encode(self.bytes.as_slice())
    }

    /// Parses a hexadecimal text of 16 bytes.
    pub fn from_hex(s: &str) -> (r: Result<SessionId, HexFault>)
        ensures
            crate::error::outcome_plain(r) == crate::crypto::bytes_of_hex(s@, 16),
    {
        match parse_hex(s, 16) {
            Ok(v) => Ok(SessionId { bytes: array16(&v) }),
            Err(e) => Err(e),
        }
    }

    /// Constant-time equality.
    pub fn ct_eq(&self, other: &SessionId) -> (r: bool)
        ensures
            r == (self@ == other@),
    {
        ct_eq_bytes(self.bytes.as_slice(), other.bytes.as_slice())
    }
}

impl core::fmt::Debug for Token {
    /// Writes the bytes in hexadecimal.
    fn fmt(&self, f: &mut core::fmt::Formatter<'_>) -> (r: core::fmt::Result)
        ensures
            r is Ok ==> crate::text::text_taken(*final(f)) == crate::text::text_taken(*old(f))
                + ("Token("@ + crate::hexcode::hex_of(self@) + ")"@),
    {
        let shown: String = String::from_str("Token(").concat(self.to_hex().as_str()).concat(
            ")",
        );
        f.write_str(shown.as_str())
    }
}

impl core::fmt::Debug for SessionId {
    /// Writes the bytes in hexadecimal.
    fn fmt(&self, f: &mut core::fmt::Formatter<'_>) -> (r: core::fmt::Result)
        ensures
            r is Ok ==> crate::text::text_taken(*final(f)) == crate::text::text_taken(*old(f))
                + ("SessionId("@ + crate::hexcode::hex_of(self@) + ")"@),
    {
        let shown: String = String::from_str("SessionId(").concat(self.to_hex().as_str()).concat(
            ")",
        );
        f.write_str(shown.as_str())
    }
}

// ---- what can be wrong with a line -------------------------------------

/// Why a handshake line was rejected.
#[derive(Debug, PartialEq, Eq)]
pub enum HandshakeError {
    /// The other side sent an error line with this message.
    Reported(String),
    /// The line does not begin with the expected tag.
    WrongTag(String, Option<String>),
    /// The other side speaks another version of the protocol.
    VersionMismatch(String),
    /// The line does not have the fields that its tag calls for.
    FieldCount(String),
    /// The field in the place of the UDP port is none.
    BadPort(NumError),
    /// The field in the place of a fingerprint is none.
    BadFingerprint(HexFault),
    /// The field in the place of a secret or identifier of this many bytes is none.
    BadSecret(HexFault, usize),
    /// The pipe was closed before a line with this tag came.
    Closed(String),
}

/// The model of a [`HandshakeError`].
#[verifier::ext_equal]
pub enum HandshakeFault {
    Reported(Seq<char>),
    WrongTag(Seq<char>, Option<Seq<char>>),
    VersionMismatch(Seq<char>),
    FieldCount(Seq<char>),
    BadPort(NumError),
    BadFingerprint(HexFault),
    BadSecret(HexFault, int),
    Closed(Seq<char>),
}

impl View for HandshakeError {
    type V = HandshakeFault;

    open spec fn view(&self) -> HandshakeFault {
        match self {
            HandshakeError::Reported(m) => HandshakeFault::Reported(m@),
            HandshakeError::WrongTag(t, None) => HandshakeFault::WrongTag(t@, None),
            HandshakeError::WrongTag(t, Some(g)) => HandshakeFault::WrongTag(t@, Some(g@)),
            HandshakeError::VersionMismatch(v) => HandshakeFault::VersionMismatch(v@),
            HandshakeError::FieldCount(t) => HandshakeFault::FieldCount(t@),
            HandshakeError::BadPort(e) => HandshakeFault::BadPort(*e),
            HandshakeError::BadFingerprint(e) => HandshakeFault::BadFingerprint(*e),
            HandshakeError::BadSecret(e, n) => HandshakeFault::BadSecret(*e, *n as int),
            HandshakeError::Closed(t) => HandshakeFault::Closed(t@),
        }
    }
}

impl HandshakeFault {
    /// The message for this error.
    pub open spec fn text(self) -> Seq<char> {
        match self {
            HandshakeFault::Reported(m) => "agent reported: "@ + m,
            HandshakeFault::WrongTag(t, None) => "expected "@ + t + ", got None"@,
            HandshakeFault::WrongTag(t, Some(g)) => "expected "@ + t + ", got Some("@
                + crate::forward::debug_text(g) + ")"@,
            HandshakeFault::VersionMismatch(v) => "protocol version mismatch: agent sent "@
                + crate::forward::debug_text(v),
            HandshakeFault::FieldCount(t) => "malformed "@ + t + ": wrong field count"@,
            HandshakeFault::BadPort(e) => "invalid udp port: "@ + e.text(),
            HandshakeFault::BadFingerprint(HexFault::NotHex) => "fingerprint is not valid hex"@,
            HandshakeFault::BadFingerprint(
                HexFault::WrongLength,
            ) => "fingerprint must be 32 bytes (64 hex chars)"@,
            HandshakeFault::BadSecret(HexFault::NotHex, n) => "value is not valid hex"@,
            HandshakeFault::BadSecret(HexFault::WrongLength, n) => "expected "@
                + crate::text::decimal(n) + " bytes"@,
            HandshakeFault::Closed(t) => "connection closed before "@ + t,
        }
    }
}

impl HandshakeError {
    /// The message for this error.
    pub fn message(&self) -> (r: String)
        ensures
            r@ == self@.text(),
    {
        match self {
            HandshakeError::Reported(m) => String::from_str("agent reported: ").concat(m.as_str()),
            HandshakeError::WrongTag(t, None) => String::from_str("expected ").concat(
                t.as_str(),
            ).concat(", got None"),
            HandshakeError::WrongTag(t, Some(g)) => String::from_str("expected ").concat(
                t.as_str(),
            ).concat(", got Some(").concat(debug_str(g.as_str()).as_str()).concat(")"),
            HandshakeError::VersionMismatch(v) => String::from_str(
                "protocol version mismatch: agent sent ",
            ).concat(debug_str(v.as_str()).as_str()),
            HandshakeError::FieldCount(t) => String::from_str("malformed ").concat(
                t.as_str(),
            ).concat(": wrong field count"),
            HandshakeError::BadPort(e) => String::from_str("invalid udp port: ").concat(
                e.message(),
            ),
            HandshakeError::BadFingerprint(HexFault::NotHex) => String::from_str(
                "fingerprint is not valid hex",
            ),
            HandshakeError::BadFingerprint(HexFault::WrongLength) => String::from_str(
                "fingerprint must be 32 bytes (64 hex chars)",
            ),
            HandshakeError::BadSecret(HexFault::NotHex, _) => String::from_str(
                "value is not valid hex",
            ),
            HandshakeError::BadSecret(HexFault::WrongLength, n) => String::from_str(
                "expected ",
            ).concat(dec(*n as u64).as_str()).concat(" bytes"),
            HandshakeError::Closed(t) => String::from_str("connection closed before ").concat(
                t.as_str(),
            ),
        }
    }
}

// ---- lines -------------------------------------------------------------

/// The version field of every line.
pub open spec fn version_word() -> Seq<char> {
    "v"@ + crate::text::decimal(PROTO_VERSION as int)
}

/// The words of a line that begins with `tag` and names the protocol version.
pub open spec fn tagged_words(line: Seq<char>, tag: Seq<char>) -> Result<
    Seq<Seq<char>>,
    HandshakeFault,
> {
    let w = crate::text::words(line);
    if w.len() > 0 && w[0] == "PM-ERROR"@ {
        let t = crate::text::trimmed(line);
        Err(
            HandshakeFault::Reported(
                crate::text::trimmed(
                    match crate::text::after_prefix(t, "PM-ERROR"@) {
                        Some(m) => m,
                        None => t,
                    },
                ),
            ),
        )
    } else if w.len() == 0 {
        Err(HandshakeFault::WrongTag(tag, None))
    } else if w[0] != tag {
        Err(HandshakeFault::WrongTag(tag, Some(w[0])))
    } else if w.len() == 1 {
        Err(HandshakeFault::VersionMismatch(Seq::empty()))
    } else if w[1] != version_word() {
        Err(HandshakeFault::VersionMismatch(w[1]))
    } else {
        Ok(w)
    }
}

/// Splits a line and verifies the expected tag and version. A `PM-ERROR` line is
/// surfaced as an error carrying its message.
pub fn check_tagged_line<'a>(line: &'a str, expected_tag: &str) -> (r: Result<
    Vec<&'a str>,
    HandshakeError,
>)
    ensures
        match r {
            Ok(v) => tagged_words(line@, expected_tag@) == Ok::<Seq<Seq<char>>, HandshakeFault>(
                crate::text::texts(v@),
            ),
            Err(e) => tagged_words(line@, expected_tag@) == Err::<Seq<Seq<char>>, HandshakeFault>(
                e@,
            ),
        },
{
    let parts: Vec<&'a str> = split_whitespace(line);
    let ghost w = crate::text::texts(parts@);
    if parts.len() == 0 {
        return Err(HandshakeError::WrongTag(expected_tag.to_owned(), None));
    }
    assert(w[0] == parts@[0]@);
    if str_eq(parts[0], "PM-ERROR") {
        let t: &str = trim(line);
        let m: &str = match strip_prefix(t, "PM-ERROR") {
            Some(m) => m,
            None => t,
        };
        return Err(HandshakeError::Reported(trim(m).to_owned()));
    }
    if !str_eq(parts[0], expected_tag) {
        return Err(HandshakeError::WrongTag(expected_tag.to_owned(), Some(parts[0].to_owned())));
    }
    if parts.len() == 1 {
        return Err(HandshakeError::VersionMismatch(String::new()));
    }
    assert(w[1] == parts@[1]@);
    let want: String = String::from_str("v").concat(dec(PROTO_VERSION as u64).as_str());
    if !str_eq(parts[1], want.as_str()) {
        return Err(HandshakeError::VersionMismatch(parts[1].to_owned()));
    }
    Ok(parts)
}

/// What to do with one line read while waiting for a message: an empty read is
/// the end of the pipe, a blank line (stray shell output) is skipped, and
/// anything else is the message.
pub fn take_line(line: &str, expected_tag: &str) -> (r: Result<Option<String>, HandshakeError>)
    ensures
        match r {
            Err(e) => line@.len() == 0 && e@ == HandshakeFault::Closed(expected_tag@),
            Ok(None) => line@.len() > 0 && crate::text::trimmed(line@).len() == 0,
            Ok(Some(s)) => s@ == crate::text::trimmed(line@) && s@.len() > 0 && line@.len() > 0,
        },
        r is Err <==> line@.len() == 0,
{
    if line.is_empty() {
        return Err(HandshakeError::Closed(expected_tag.to_owned()));
    }
    let t: &str = trim(line);
    if t.is_empty() {
        Ok(None)
    } else {
        Ok(Some(t.to_owned()))
    }
}

/// Client -> agent: client identity + session secret.
#[derive(Debug)]
pub struct Hello {
    pub client_fp: Fingerprint,
    pub token: Token,
}

/// The model of a [`Hello`].
#[verifier::ext_equal]
pub struct HelloMsg {
    pub client_fp: Seq<u8>,
    pub token: Seq<u8>,
}

impl View for Hello {
    type V = HelloMsg;

    open spec fn view(&self) -> HelloMsg {
        HelloMsg { client_fp: self.client_fp@, token: self.token@ }
    }
}

impl HelloMsg {
    /// The line that carries this message.
    pub open spec fn line(self) -> Seq<char> {
        "PM-HELLO"@ + " "@ + version_word() + " "@ + crate::hexcode::hex_of(self.client_fp) + " "@
            + crate::hexcode::hex_of(self.token) + "\n"@
    }
}

/// The message that a line carries.
pub open spec fn hello_of(line: Seq<char>) -> Result<HelloMsg, HandshakeFault> {
    match tagged_words(line, "PM-HELLO"@) {
        Err(e) => Err(e),
        Ok(w) => if w.len() != 4 {
            Err(HandshakeFault::FieldCount("HELLO"@))
        } else {
            match crate::crypto::bytes_of_hex(w[2], 32) {
                Err(e) => Err(HandshakeFault::BadFingerprint(e)),
                Ok(fp) => match crate::crypto::bytes_of_hex(w[3], 32) {
                    Err(e) => Err(HandshakeFault::BadSecret(e, 32)),
                    Ok(token) => Ok(HelloMsg { client_fp: fp, token }),
                },
            }
        },
    }
}

impl Hello {
    /// Serializes to the one-line wire form (newline-terminated).
    pub fn to_line(&self) -> (r: String)
        ensures
            r@ == self@.line(),
    {
        String::from_str("PM-HELLO").concat(" ").concat(
            String::from_str("v").concat(dec(PROTO_VERSION as u64).as_str()).as_str(),
        ).concat(" ").concat(self.client_fp.to_hex().as_str()).concat(" ").concat(
            self.token.to_hex().as_str(),
        ).concat("\n")
    }

    /// Parses a wire line.
    pub fn parse_line(line: &str) -> (r: Result<Hello, HandshakeError>)
        ensures
            crate::error::outcome(r) == hello_of(line@),
    {
        match check_tagged_line(line, "PM-HELLO") {
            Err(e) => Err(e),
            Ok(parts) => {
                if parts.len() != 4 {
                    return Err(HandshakeError::FieldCount("HELLO".to_owned()));
                }
                let ghost w = crate::text::texts(parts@);
                assert(w[2] == parts@[2]@ && w[3] == parts@[3]@);
                match Fingerprint::from_hex(parts[2]) {
                    Err(e) => Err(HandshakeError::BadFingerprint(e)),
                    Ok(client_fp) => match Token::from_hex(parts[3]) {
                        Err(e) => Err(HandshakeError::BadSecret(e, 32)),
                        Ok(token) => Ok(Hello { client_fp, token }),
                    },
                }
            },
        }
    }
}

/// Agent -> client: where to reach the QUIC listener and how to pin it.
#[derive(Debug)]
pub struct Ready {
    pub udp_port: u16,
    pub agent_fp: Fingerprint,
    pub session_id: SessionId,
    /// Version of the agent binary, so the client can detect skew.
    pub version: String,
}

/// The model of a [`Ready`].
#[verifier::ext_equal]
pub struct ReadyMsg {
    pub udp_port: int,
    pub agent_fp: Seq<u8>,
    pub session_id: Seq<u8>,
    pub version: Seq<char>,
}

impl View for Ready {
    type V = ReadyMsg;

    open spec fn view(&self) -> ReadyMsg {
        ReadyMsg {
            udp_port: self.udp_port as int,
            agent_fp: self.agent_fp@,
            session_id: self.session_id@,
            version: self.version@,
        }
    }
}

impl ReadyMsg {
    /// The line that carries this message.
    pub open spec fn line(self) -> Seq<char> {
        "PM-READY"@ + " "@ + version_word() + " "@ + crate::text::decimal(self.udp_port) + " "@
            + crate::hexcode::hex_of(self.agent_fp) + " "@ + crate::hexcode::hex_of(
            self.session_id,
        ) + " "@ + self.version + "\n"@
    }
}

/// The message that a line carries.
pub open spec fn ready_of(line: Seq<char>) -> Result<ReadyMsg, HandshakeFault> {
    match tagged_words(line, "PM-READY"@) {
        Err(e) => Err(e),
        Ok(w) => if w.len() != 6 {
            Err(HandshakeFault::FieldCount("READY"@))
        } else {
            match crate::text::unsigned_value(w[2], 65535) {
                Err(e) => Err(HandshakeFault::BadPort(e)),
                Ok(udp_port) => match crate::crypto::bytes_of_hex(w[3], 32) {
                    Err(e) => Err(HandshakeFault::BadFingerprint(e)),
                    Ok(fp) => match crate::crypto::bytes_of_hex(w[4], 16) {
                        Err(e) => Err(HandshakeFault::BadSecret(e, 16)),
                        Ok(sid) => Ok(
                            ReadyMsg { udp_port, agent_fp: fp, session_id: sid, version: w[5] },
                        ),
                    },
                },
            }
        },
    }
}

impl Ready {
    /// Serializes to the one-line wire form (newline-terminated).
    pub fn to_line(&self) -> (r: String)
        ensures
            r@ == self@.line(),
    {
        String::from_str("PM-READY").concat(" ").concat(
            String::from_str("v").concat(dec(PROTO_VERSION as u64).as_str()).as_str(),
        ).concat(" ").concat(dec(self.udp_port as u64).as_str()).concat(" ").concat(
            self.agent_fp.to_hex().as_str(),
        ).concat(" ").concat(self.session_id.to_hex().as_str()).concat(" ").concat(
            self.version.as_str(),
        ).concat("\n")
    }

    /// Parses a wire line.
    pub fn parse_line(line: &str) -> (r: Result<Ready, HandshakeError>)
        ensures
            crate::error::outcome(r) == ready_of(line@),
    {
        match check_tagged_line(line, "PM-READY") {
            Err(e) => Err(e),
            Ok(parts) => {
                if parts.len() != 6 {
                    return Err(HandshakeError::FieldCount("READY".to_owned()));
                }
                let ghost w = crate::text::texts(parts@);
                assert(w[2] == parts@[2]@ && w[3] == parts@[3]@ && w[4] == parts@[4]@ && w[5]
                    == parts@[5]@);
                match parse_unsigned(parts[2], 65535) {
                    Err(e) => Err(HandshakeError::BadPort(e)),
                    Ok(p) => match Fingerprint::from_hex(parts[3]) {
                        Err(e) => Err(HandshakeError::BadFingerprint(e)),
                        Ok(agent_fp) => match SessionId::from_hex(parts[4]) {
                            Err(e) => Err(HandshakeError::BadSecret(e, 16)),
                            Ok(session_id) => Ok(
                                Ready {
                                    udp_port: p as u16,
                                    agent_fp,
                                    session_id,
                                    version: parts[5].to_owned(),
                                },
                            ),
                        },
                    },
                }
            },
        }
    }
}

/// The line that carries an error message.
pub open spec fn error_line_of(message: Seq<char>) -> Seq<char> {
    "PM-ERROR"@ + " "@ + message + "\n"@
}

/// Formats a `PM-ERROR` line.
pub fn error_line(message: &str) -> (r: String)
    ensures
        r@ == error_line_of(message@),
{
    String::from_str("PM-ERROR").concat(" ").concat(message).concat("\n")
}

// ---- laws --------------------------------------------------------------

proof fn lemma_word(w: Seq<char>, rest: Seq<char>, sep: Seq<char>)
    requires
        w.len() > 0,
        crate::text::no_white(w),
        sep == " "@ || sep == "\n"@,
    ensures
        crate::text::words(rest + sep + w) == crate::text::words(rest).push(w),
        crate::text::words(rest + sep) == crate::text::words(rest),
{
    reveal_strlit(" ");
    reveal_strlit("\n");
    let c = sep[0];
    assert(sep =~= seq![c]);
    crate::text::lemma_words_join(rest, c, w);
    crate::text::lemma_words_single(w);
    assert(crate::text::words(rest) + seq![w] =~= crate::text::words(rest).push(w));
    assert((rest + sep).drop_last() =~= rest);
    assert((rest + sep).last() == c);
}

proof fn lemma_hex_word(bytes: Seq<u8>)
    requires
        bytes.len() > 0,
    ensures
        crate::hexcode::hex_of(bytes).len() > 0,
        crate::text::no_white(crate::hexcode::hex_of(bytes)),
{
    crate::hexcode::lemma_hex_of(bytes);
    crate::hexcode::lemma_hex_chars(bytes);
}

proof fn lemma_version_word()
    ensures
        version_word().len() > 0,
        crate::text::no_white(version_word()),
{
    reveal_strlit("v");
    let d = crate::text::decimal(PROTO_VERSION as int);
    crate::text::lemma_decimal_digits(PROTO_VERSION as int);
    let v = version_word();
    assert forall|i: int| 0 <= i < v.len() implies !crate::text::is_white(#[trigger] v[i]) by {
        if i > 0 {
            assert(v[i] == d[i - 1]);
        }
    }
}

/// Reading the line of a hello gives the hello.
pub proof fn law_hello_roundtrip(m: HelloMsg)
    requires
        m.client_fp.len() == 32,
        m.token.len() == 32,
    ensures
        hello_of(m.line()) == Ok::<HelloMsg, HandshakeFault>(m),
{
    reveal_strlit("PM-HELLO");
    reveal_strlit("PM-ERROR");
    let a = "PM-HELLO"@;
    let v = version_word();
    let f = crate::hexcode::hex_of(m.client_fp);
    let t = crate::hexcode::hex_of(m.token);
    lemma_version_word();
    lemma_hex_word(m.client_fp);
    lemma_hex_word(m.token);
    crate::text::lemma_words_single(a);
    lemma_word(v, a, " "@);
    lemma_word(f, a + " "@ + v, " "@);
    lemma_word(t, a + " "@ + v + " "@ + f, " "@);
    lemma_word(t, a + " "@ + v + " "@ + f + " "@ + t, "\n"@);
    let w = crate::text::words(m.line());
    assert(w =~= seq![a, v, f, t]);
    assert(a[3] != "PM-ERROR"@[3]);
    crate::crypto::lemma_hex_text_reads(m.client_fp);
    crate::crypto::lemma_hex_text_reads(m.token);
}

/// Reading the line of a ready message gives the message. (A version is one word.)
pub proof fn law_ready_roundtrip(m: ReadyMsg)
    requires
        0 <= m.udp_port <= 65535,
        m.agent_fp.len() == 32,
        m.session_id.len() == 16,
        m.version.len() > 0,
        crate::text::no_white(m.version),
    ensures
        ready_of(m.line()) == Ok::<ReadyMsg, HandshakeFault>(m),
{
    reveal_strlit("PM-READY");
    reveal_strlit("PM-ERROR");
    let a = "PM-READY"@;
    let v = version_word();
    let p = crate::text::decimal(m.udp_port);
    let f = crate::hexcode::hex_of(m.agent_fp);
    let t = crate::hexcode::hex_of(m.session_id);
    lemma_version_word();
    lemma_hex_word(m.agent_fp);
    lemma_hex_word(m.session_id);
    crate::text::lemma_decimal_digits(m.udp_port);
    crate::text::lemma_decimal_roundtrip(m.udp_port, 65535);
    assert(crate::text::no_white(p)) by {
        assert forall|i: int| 0 <= i < p.len() implies !crate::text::is_white(#[trigger] p[i]) by {
            assert(crate::text::is_digit(p[i]));
        }
    }
    crate::text::lemma_words_single(a);
    let s1 = a + " "@ + v;
    let s2 = s1 + " "@ + p;
    let s3 = s2 + " "@ + f;
    let s4 = s3 + " "@ + t;
    let s5 = s4 + " "@ + m.version;
    lemma_word(v, a, " "@);
    lemma_word(p, s1, " "@);
    lemma_word(f, s2, " "@);
    lemma_word(t, s3, " "@);
    lemma_word(m.version, s4, " "@);
    lemma_word(m.version, s5, "\n"@);
    let w = crate::text::words(m.line());
    assert(w =~= seq![a, v, p, f, t, m.version]);
    assert(a[3] != "PM-ERROR"@[3]);
    crate::crypto::lemma_hex_text_reads(m.agent_fp);
    crate::crypto::lemma_hex_text_reads(m.session_id);
}

/// Trailing white space goes from a text that ends in something else before it
/// only up to there.
proof fn lemma_trimmed_end_after(a: Seq<char>, b: Seq<char>)
    requires
        a.len() > 0,
        !crate::text::is_white(a.last()),
    ensures
        crate::text::trimmed_end(a + b) == a + crate::text::trimmed_end(b),
    decreases b.len(),
{
    if b.len() == 0 {
        assert(a + b =~= a);
    } else {
        assert((a + b).last() == b.last());
        if crate::text::is_white(b.last()) {
            assert((a + b).drop_last() =~= a + b.drop_last());
            lemma_trimmed_end_after(a, b.drop_last());
        }
    }
}

/// Trimming what was trimmed at the end already gives the same as trimming it.
proof fn lemma_trim_either_way(s: Seq<char>)
    ensures
        crate::text::trimmed(crate::text::trimmed_end(s)) == crate::text::trimmed(s),
    decreases s.len(),
{
    if s.len() > 0 && crate::text::is_white(s.last()) {
        let t = s.drop_last();
        lemma_trim_either_way(t);
        lemma_trimmed_start_then_end(s);
    } else {
        assert(crate::text::trimmed_end(s) == s);
    }
}

/// White space at the end makes no difference to trimming.
proof fn lemma_trimmed_start_then_end(s: Seq<char>)
    requires
        s.len() > 0,
        crate::text::is_white(s.last()),
    ensures
        crate::text::trimmed(s) == crate::text::trimmed(s.drop_last()),
    decreases s.len(),
{
    let t = s.drop_last();
    if crate::text::is_white(s[0]) {
        if s.len() == 1 {
            assert(s.drop_first() =~= Seq::<char>::empty());
            assert(t =~= Seq::<char>::empty());
        } else {
            assert(s.drop_first().drop_last() =~= t.drop_first());
            assert(t[0] == s[0]);
            lemma_trimmed_start_then_end(s.drop_first());
        }
    } else {
        assert(t.len() > 0);
        assert(t[0] == s[0]);
    }
}

/// An error line is surfaced with its message, without the white space around it,
/// whichever message was expected.
pub proof fn law_error_line_surfaces(message: Seq<char>)
    ensures
        hello_of(error_line_of(message)) == Err::<HelloMsg, HandshakeFault>(
            HandshakeFault::Reported(crate::text::trimmed(message)),
        ),
        ready_of(error_line_of(message)) == Err::<ReadyMsg, HandshakeFault>(
            HandshakeFault::Reported(crate::text::trimmed(message)),
        ),
{
    reveal_strlit("PM-ERROR");
    reveal_strlit(" ");
    reveal_strlit("\n");
    let a = "PM-ERROR"@;
    let line = error_line_of(message);
    let rest = " "@ + message;
    let t = a + rest;
    assert(line =~= a + seq![' '] + (message + "\n"@));
    crate::text::lemma_words_join(a, ' ', message + "\n"@);
    crate::text::lemma_words_single(a);
    assert(crate::text::words(line)[0] == a);
    assert(line[0] == 'P');
    assert(crate::text::trimmed_start(line) == line);
    assert(line.drop_last() =~= t);
    assert(crate::text::trimmed_end(line) == crate::text::trimmed_end(t));
    lemma_trimmed_end_after(a, rest);
    let r = crate::text::trimmed_end(rest);
    let shown = a + r;
    assert(shown.subrange(0, 8) =~= a);
    assert(crate::text::occurs_at(shown, a, 0));
    assert(shown.skip(8) =~= r);
    lemma_trim_either_way(rest);
    assert(rest.drop_first() =~= message);
    assert(rest[0] == ' ');
    assert(crate::text::trimmed_start(rest) == crate::text::trimmed_start(message));
}

/// A hello is the tag, the version, the client's fingerprint and the token, in this order;
/// a ready message is the tag, the version, the port, the agent's fingerprint, the session
/// and the agent's version. A line ends with the line.
pub proof fn law_fields(h: HelloMsg, m: ReadyMsg)
    requires
        h.client_fp.len() == 32,
        h.token.len() == 32,
        0 <= m.udp_port <= 65535,
        m.agent_fp.len() == 32,
        m.session_id.len() == 16,
        m.version.len() > 0,
        crate::text::no_white(m.version),
    ensures
        crate::text::words(h.line()) == seq![
            "PM-HELLO"@,
            "v2"@,
            crate::hexcode::hex_of(h.client_fp),
            crate::hexcode::hex_of(h.token),
        ],
        h.line().last() == '\n',
        crate::text::words(m.line()) == seq![
            "PM-READY"@,
            "v2"@,
            crate::text::decimal(m.udp_port),
            crate::hexcode::hex_of(m.agent_fp),
            crate::hexcode::hex_of(m.session_id),
            m.version,
        ],
        m.line().last() == '\n',
{
    reveal_strlit("\n");
    law_version_word();
    lemma_hello_words(h);
    lemma_ready_words(m);
}

/// The version of the protocol as it stands in a line.
pub proof fn law_version_word()
    ensures
        version_word() == "v2"@,
{
    reveal_strlit("v");
    reveal_strlit("v2");
    reveal_with_fuel(crate::text::decimal, 2);
    assert(version_word() =~= "v2"@);
}

proof fn lemma_hello_words(m: HelloMsg)
    requires
        m.client_fp.len() == 32,
        m.token.len() == 32,
    ensures
        crate::text::words(m.line()) == seq![
            "PM-HELLO"@,
            version_word(),
            crate::hexcode::hex_of(m.client_fp),
            crate::hexcode::hex_of(m.token),
        ],
{
    reveal_strlit("PM-HELLO");
    let a = "PM-HELLO"@;
    let v = version_word();
    let f = crate::hexcode::hex_of(m.client_fp);
    let t = crate::hexcode::hex_of(m.token);
    lemma_version_word();
    lemma_hex_word(m.client_fp);
    lemma_hex_word(m.token);
    crate::text::lemma_words_single(a);
    lemma_word(v, a, " "@);
    lemma_word(f, a + " "@ + v, " "@);
    lemma_word(t, a + " "@ + v + " "@ + f, " "@);
    lemma_word(t, a + " "@ + v + " "@ + f + " "@ + t, "\n"@);
    assert(crate::text::words(m.line()) =~= seq![a, v, f, t]);
}

proof fn lemma_ready_words(m: ReadyMsg)
    requires
        0 <= m.udp_port <= 65535,
        m.agent_fp.len() == 32,
        m.session_id.len() == 16,
        m.version.len() > 0,
        crate::text::no_white(m.version),
    ensures
        crate::text::words(m.line()) == seq![
            "PM-READY"@,
            version_word(),
            crate::text::decimal(m.udp_port),
            crate::hexcode::hex_of(m.agent_fp),
            crate::hexcode::hex_of(m.session_id),
            m.version,
        ],
{
    reveal_strlit("PM-READY");
    let a = "PM-READY"@;
    let v = version_word();
    let p = crate::text::decimal(m.udp_port);
    let f = crate::hexcode::hex_of(m.agent_fp);
    let t = crate::hexcode::hex_of(m.session_id);
    lemma_version_word();
    lemma_hex_word(m.agent_fp);
    lemma_hex_word(m.session_id);
    crate::text::lemma_decimal_digits(m.udp_port);
    assert(crate::text::no_white(p)) by {
        assert forall|i: int| 0 <= i < p.len() implies !crate::text::is_white(#[trigger] p[i]) by {
            assert(crate::text::is_digit(p[i]));
        }
    }
    crate::text::lemma_words_single(a);
    let s1 = a + " "@ + v;
    let s2 = s1 + " "@ + p;
    let s3 = s2 + " "@ + f;
    let s4 = s3 + " "@ + t;
    let s5 = s4 + " "@ + m.version;
    lemma_word(v, a, " "@);
    lemma_word(p, s1, " "@);
    lemma_word(f, s2, " "@);
    lemma_word(t, s3, " "@);
    lemma_word(m.version, s4, " "@);
    lemma_word(m.version, s5, "\n"@);
    assert(crate::text::words(m.line()) =~= seq![a, v, p, f, t, m.version]);
}

/// A line is read as a message only where it has the tag, this version and as many fields
/// as the message has; any other line is refused, and for the first of these that it lacks.
pub proof fn law_line_needs(line: Seq<char>)
    ensures
        ({
            let w = crate::text::words(line);
            &&& hello_of(line) is Ok ==> w.len() == 4 && w[0] == "PM-HELLO"@ && w[1] == "v2"@
            &&& ready_of(line) is Ok ==> w.len() == 6 && w[0] == "PM-READY"@ && w[1] == "v2"@
            &&& w.len() > 0 && w[0] != "PM-HELLO"@ && w[0] != "PM-ERROR"@ ==> hello_of(line)
                == Err::<HelloMsg, HandshakeFault>(
                HandshakeFault::WrongTag("PM-HELLO"@, Some(w[0])),
            )
            &&& w.len() > 0 && w[0] != "PM-READY"@ && w[0] != "PM-ERROR"@ ==> ready_of(line)
                == Err::<ReadyMsg, HandshakeFault>(
                HandshakeFault::WrongTag("PM-READY"@, Some(w[0])),
            )
            &&& w.len() > 1 && w[0] == "PM-READY"@ && w[1] != "v2"@ ==> ready_of(line) == Err::<
                ReadyMsg,
                HandshakeFault,
            >(HandshakeFault::VersionMismatch(w[1]))
            &&& w.len() > 1 && w[0] == "PM-HELLO"@ && w[1] != "v2"@ ==> hello_of(line) == Err::<
                HelloMsg,
                HandshakeFault,
            >(HandshakeFault::VersionMismatch(w[1]))
        }),
{
    law_version_word();
    reveal_strlit("PM-HELLO");
    reveal_strlit("PM-READY");
    reveal_strlit("PM-ERROR");
    assert("PM-HELLO"@[3] != "PM-ERROR"@[3]);
    assert("PM-READY"@[3] != "PM-ERROR"@[3]);
}

} // verus!
