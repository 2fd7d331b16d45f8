//! Per-session ephemeral identities and certificate pinning.
//!
//! There is no PKI. At bootstrap each side generates a throwaway self-signed
//! certificate; the SHA-256 fingerprints are swapped over the (already
//! authenticated) SSH channel and pinned. Both sides accept *only* the one
//! pinned fingerprint, via a constant-time compare.

use crate::hexcode::{hex_decode, hex_encode};
use crate::text::trim;
use vstd::prelude::*;

verus! {

/// Default QUIC keep-alive interval (the heartbeat), in milliseconds.
pub const DEFAULT_KEEP_ALIVE: u64 = 3000;

/// Default QUIC idle timeout, in milliseconds: finite, so that a dead connection
/// is noticed soon; its expiry triggers a re-attach, not the end of the session.
pub const DEFAULT_MAX_IDLE: u64 = 20000;

/// Why a text is not the hexadecimal form of a secret or fingerprint.
#[derive(Debug, Clone, Copy, PartialEq, Eq, Structural)]
pub enum HexFault {
    /// Not pairs of hexadecimal digits.
    NotHex,
    /// Not the right number of bytes.
    WrongLength,
}

/// The SHA-256 digest of some bytes.
pub uninterp spec fn sha256_of(data: Seq<u8>) -> Seq<u8>;

/// `sha2::Sha256::digest`: the 32-byte digest of `data`, which depends on `data`
/// alone.
#[verifier::external_body]
pub(crate) fn sha256(data: &[u8]) -> (r: [u8; 32])
    ensures
        r@ == sha256_of(data@),
{
    <sha2::Sha256 as sha2::Digest>::digest(data).into()
}

/// The bytes that the trimmed text `s` spells in hexadecimal, if there are `n`.
pub open spec fn bytes_of_hex(s: Seq<char>, n: int) -> Result<Seq<u8>, HexFault> {
    let e = vstd::utf8::encode_utf8(crate::text::trimmed(s));
    if !crate::hexcode::is_hex(e) {
        Err(HexFault::NotHex)
    } else if e.len() / 2 != n {
        Err(HexFault::WrongLength)
    } else {
        Ok(crate::hexcode::unhex(e))
    }
}

/// Reads `n` bytes from their hexadecimal text, with white space around it
/// allowed.
pub fn parse_hex(s: &str, n: usize) -> (r: Result<Vec<u8>, HexFault>)
    ensures
        match r {
            Ok(v) => bytes_of_hex(s@, n as int) == Ok::<Seq<u8>, HexFault>(v@) && v@.len() == n,
            Err(e) => bytes_of_hex(s@, n as int) == Err::<Seq<u8>, HexFault>(e),
        },
{
    match hex_decode(trim(s)) {
        Err(_) => Err(HexFault::NotHex),
        Ok(v) => {
            if v.len() == n {
                Ok(v)
            } else {
                Err(HexFault::WrongLength)
            }
        },
    }
}

proof fn lemma_diff(d: u8, a: u8, b: u8)
    ensures
        (d | (a ^ b)) == 0 <==> d == 0 && a == b,
{
    assert((d | (a ^ b)) == 0 <==> d == 0 && a == b) by (bit_vector);
}

/// Compares two byte strings of equal length, in a time that depends on the
/// length alone.
pub fn ct_eq_bytes(a: &[u8], b: &[u8]) -> (r: bool)
    requires
        a@.len() == b@.len(),
    ensures
        r == (a@ == b@),
{
    let mut diff: u8 = 0;
    let mut i: usize = 0;
    proof {
        assert(a@.take(0) =~= b@.take(0));
    }
    while i < a.len()
        invariant
            i <= a.len(),
            a@.len() == b@.len(),
            diff == 0 <==> a@.take(i as int) == b@.take(i as int),
        decreases a.len() - i,
    {
        proof {
            lemma_diff(diff, a@[i as int], b@[i as int]);
            let x = a@.take(i + 1);
            let y = b@.take(i + 1);
            assert(x =~= a@.take(i as int).push(a@[i as int]));
            assert(y =~= b@.take(i as int).push(b@[i as int]));
            if x == y {
                assert(x.drop_last() =~= a@.take(i as int));
                assert(y.drop_last() =~= b@.take(i as int));
                assert(x.last() == y.last());
            }
        }
        diff = diff | (a[i] ^ b[i]);
        i = i + 1;
    }
    proof {
        assert(a@.take(i as int) =~= a@);
        assert(b@.take(i as int) =~= b@);
    }
    diff == 0
}

/// Copies 32 bytes into an array.
pub(crate) fn array32(v: &Vec<u8>) -> (r: [u8; 32])
    requires
        v@.len() == 32,
    ensures
        r@ == v@,
{
    let mut r: [u8; 32] = [0u8; 32];
    let mut i: usize = 0;
    while i < 32
        invariant
            i <= 32,
            v@.len() == 32,
            forall|j: int| 0 <= j < i ==> r@[j] == v@[j],
        decreases 32 - i,
    {
        r[i] = v[i];
        i = i + 1;
    }
    proof {
        assert(r@ =~= v@);
    }
    r
}

/// A SHA-256 certificate fingerprint.
#[derive(Clone, Copy, PartialEq, Eq)]
pub struct Fingerprint {
    bytes: [u8; 32],
}

impl View for Fingerprint {
    type V = Seq<u8>;

    closed spec fn view(&self) -> Seq<u8> {
        self.bytes@
    }
}

impl Fingerprint {
    /// Computes the fingerprint of a DER-encoded certificate.
    pub fn of(cert: &Vec<u8>) -> (r: Fingerprint)
        ensures
            r@ == sha256_of(cert@),
            r@.len() == 32,
    {
        Fingerprint { bytes: sha256(cert.as_slice()) }
    }

    /// Lower-case hexadecimal text, for exchange over the SSH channel.
    pub fn to_hex(&self) -> (r: String)
        ensures
            r@ == crate::hexcode::hex_of(self@),
            self@.len() == 32,
    {
        hex_encode(self.bytes.as_slice())
    }

    /// Parses a hexadecimal text of 32 bytes.
    pub fn from_hex(s: &str) -> (r: Result<Fingerprint, HexFault>)
        ensures
            crate::error::outcome_plain(r) == bytes_of_hex(s@, 32),
    {
        match parse_hex(s, 32) {
            Ok(v) => Ok(Fingerprint { bytes: array32(&v) }),
            Err(e) => Err(e),
        }
    }

    /// Constant-time equality, to avoid leaking match progress via timing.
    pub fn ct_eq(&self, other: &Fingerprint) -> (r: bool)
        ensures
            r == (self@ == other@),
    {
        ct_eq_bytes(self.bytes.as_slice(), other.bytes.as_slice())
    }
}

impl core::fmt::Debug for Fingerprint {
    /// Writes the bytes in hexadecimal.
    fn fmt(&self, f: &mut core::fmt::Formatter<'_>) -> (r: core::fmt::Result)
        ensures
            r is Ok ==> crate::text::text_taken(*final(f)) == crate::text::text_taken(*old(f))
                + ("Fingerprint("@ + crate::hexcode::hex_of(self@) + ")"@),
    {
        let shown: String = String::from_str("Fingerprint(").concat(self.to_hex().as_str()).concat(
            ")",
        );
        f.write_str(shown.as_str())
    }
}

/// A throwaway per-session identity: a self-signed certificate in DER form, its
/// private key in PKCS#8 form, and the fingerprint of the certificate.
pub struct Identity {
    pub cert: Vec<u8>,
    pub key: Vec<u8>,
    pub fingerprint: Fingerprint,
}

/// No certificate could be made.
#[derive(Debug, Clone, Copy, PartialEq, Eq, Structural)]
pub struct CertError;

/// The error type of `rcgen`, carried through unopened.
#[verifier::external_type_specification]
#[verifier::external_body]
pub struct ExRcgenError(rcgen::Error);

/// `rcgen::generate_simple_self_signed`, with the certificate and the key in DER
/// form, for the one name that every certificate here carries. Both are made from fresh
/// randomness, so nothing is claimed of them.
#[verifier::external_body]
fn self_signed(name: &str) -> (r: Result<(Vec<u8>, Vec<u8>), rcgen::Error>)
    requires
        name@ == "portmanager"@,
{
    let ck = rcgen::generate_simple_self_signed(vec![name.to_string()])?;
    Ok((ck.cert.der().to_vec(), ck.signing_key.serialize_der()))
}

impl Identity {
    /// The identity made of a certificate and its key.
    pub fn from_parts(cert: Vec<u8>, key: Vec<u8>) -> (r: Identity)
        ensures
            r.cert@ == cert@,
            r.key@ == key@,
            r.fingerprint@ == sha256_of(cert@),
    {
        let fingerprint = Fingerprint::of(&cert);
        Identity { cert, key, fingerprint }
    }

    /// The identity made of what came of making a certificate and its key.
    pub fn made(outcome: Result<(Vec<u8>, Vec<u8>), rcgen::Error>) -> (r: Result<
        Identity,
        CertError,
    >)
        ensures
            match outcome {
                Ok((cert, key)) => r matches Ok(id) && id.cert@ == cert@ && id.key@ == key@
                    && id.fingerprint@ == sha256_of(cert@),
                Err(_) => r == Err::<Identity, CertError>(CertError),
            },
    {
        match outcome {
            Ok((cert, key)) => Ok(Identity::from_parts(cert, key)),
            Err(_) => Err(CertError),
        }
    }

    /// Generates a fresh ephemeral self-signed identity: [`Identity::made`] of a new
    /// certificate. Whether one can be made is up to the system's randomness.
    pub fn generate() -> (r: Result<Identity, CertError>)
        ensures
            r matches Ok(id) ==> id.fingerprint@ == sha256_of(id.cert@),
    {
        Identity::made(self_signed("portmanager"))
    }
}

/// Whether a peer that presents the certificate `end_entity` is the one pinned.
pub fn check_pin(expected: &Fingerprint, end_entity: &Vec<u8>) -> (r: bool)
    ensures
        r == (sha256_of(end_entity@) == expected@),
{
    Fingerprint::of(end_entity).ct_eq(expected)
}

/// QUIC keep-alive / idle timing knobs, in milliseconds.
#[derive(Debug, Clone, Copy, PartialEq, Eq, Structural)]
pub struct Timing {
    pub keep_alive: u64,
    pub max_idle: u64,
}

impl Default for Timing {
    fn default() -> (r: Self)
        ensures
            r.keep_alive == DEFAULT_KEEP_ALIVE,
            r.max_idle == DEFAULT_MAX_IDLE,
    {
        Timing { keep_alive: DEFAULT_KEEP_ALIVE, max_idle: DEFAULT_MAX_IDLE }
    }
}

/// A fingerprint survives being written in hexadecimal and read again.
pub proof fn law_fingerprint_roundtrip(fp: Seq<u8>)
    requires
        fp.len() == 32,
    ensures
        bytes_of_hex(crate::hexcode::hex_of(fp), 32) == Ok::<Seq<u8>, HexFault>(fp),
{
    lemma_hex_text_reads(fp);
}

/// The hexadecimal text of some bytes reads back.
pub proof fn lemma_hex_text_reads(bytes: Seq<u8>)
    ensures
        bytes_of_hex(crate::hexcode::hex_of(bytes), bytes.len() as int) == Ok::<Seq<u8>, HexFault>(
            bytes,
        ),
        crate::text::is_tight(crate::hexcode::hex_of(bytes)),
{
    let s = crate::hexcode::hex_of(bytes);
    crate::hexcode::lemma_hex_chars(bytes);
    crate::hexcode::lemma_hex_of(bytes);
    crate::hexcode::lemma_hex_roundtrip(bytes);
    crate::text::lemma_trim_tight(s);
    assert(vstd::utf8::encode_utf8(s).len() / 2 == bytes.len()) by {
        assert(crate::hexcode::unhex(vstd::utf8::encode_utf8(s)).len() == bytes.len());
    }
}

} // verus!
