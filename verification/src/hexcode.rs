//! Bytes as hexadecimal text.

use vstd::prelude::*;

verus! {

/// The lower-case hexadecimal digit for `d`, as a byte.
pub open spec fn nibble_char(d: int) -> char {
    crate::net::hex_char(d)
}

/// Two lower-case hexadecimal digits for every byte, the high one first.
pub open spec fn hex_of(bytes: Seq<u8>) -> Seq<char>
    decreases bytes.len(),
{
    if bytes.len() == 0 {
        Seq::empty()
    } else {
        hex_of(bytes.drop_last()).push(nibble_char(bytes.last() as int / 16)).push(
            nibble_char(bytes.last() as int % 16),
        )
    }
}

/// The value of a hexadecimal digit given as an ASCII byte.
pub open spec fn nibble(b: u8) -> Option<int> {
    if 0x30 <= b <= 0x39 {
        Some(b - 0x30)
    } else if 0x61 <= b <= 0x66 {
        Some(b - 0x61 + 10)
    } else if 0x41 <= b <= 0x46 {
        Some(b - 0x41 + 10)
    } else {
        None
    }
}

/// Whether `text` consists of pairs of hexadecimal digits.
pub open spec fn is_hex(text: Seq<u8>) -> bool {
    text.len() % 2 == 0 && forall|i: int| 0 <= i < text.len() ==> nibble(#[trigger] text[i]) is Some
}

/// The bytes that a text of pairs of hexadecimal digits spells.
pub open spec fn unhex(text: Seq<u8>) -> Seq<u8> {
    Seq::new(
        (text.len() / 2) as nat,
        |i: int| (nibble(text[2 * i])->0 * 16 + nibble(text[2 * i + 1])->0) as u8,
    )
}

/// The error type of `hex::decode`, carried through unopened.
#[verifier::external_type_specification]
#[verifier::external_body]
pub struct ExFromHexError(hex::FromHexError);

/// `hex::encode`: two lower-case hexadecimal digits per byte.
#[verifier::external_body]
pub(crate) fn hex_encode(bytes: &[u8]) -> (r: String)
    ensures
        r@ == hex_of(bytes@),
{
    hex::encode(bytes)
}

/// `hex::decode`: succeeds exactly on texts of pairs of hexadecimal digits of
/// either case, and gives one byte per pair. It looks at the UTF-8 bytes of the
/// text.
#[verifier::external_body]
pub(crate) fn hex_decode(text: &str) -> (r: Result<Vec<u8>, hex::FromHexError>)
    ensures
        r is Ok <==> is_hex(vstd::utf8::encode_utf8(text@)),
        r matches Ok(v) ==> v@ == unhex(vstd::utf8::encode_utf8(text@)),
{
    hex::decode(text)
}

proof fn lemma_nibble(d: int)
    requires
        0 <= d < 16,
    ensures
        nibble(nibble_char(d) as u8) == Some(d),
        '\0' <= nibble_char(d) <= '\u{7f}',
        !crate::text::is_white(nibble_char(d)),
{
}

/// What the hexadecimal text of some bytes looks like, character by character.
pub proof fn lemma_hex_of(bytes: Seq<u8>)
    ensures
        hex_of(bytes).len() == 2 * bytes.len(),
        forall|i: int|
            0 <= i < bytes.len() ==> #[trigger] hex_of(bytes)[2 * i] == nibble_char(
                bytes[i] as int / 16,
            ) && hex_of(bytes)[2 * i + 1] == nibble_char(bytes[i] as int % 16),
    decreases bytes.len(),
{
    if bytes.len() > 0 {
        let t = bytes.drop_last();
        lemma_hex_of(t);
        assert forall|i: int| 0 <= i < bytes.len() implies #[trigger] hex_of(bytes)[2 * i]
            == nibble_char(bytes[i] as int / 16) && hex_of(bytes)[2 * i + 1] == nibble_char(
            bytes[i] as int % 16,
        ) by {
            if i < t.len() {
                assert(hex_of(t)[2 * i] == nibble_char(t[i] as int / 16));
            }
        }
    }
}

/// Hexadecimal text has no white space in it.
pub proof fn lemma_hex_chars(bytes: Seq<u8>)
    ensures
        forall|i: int|
            0 <= i < hex_of(bytes).len() ==> !crate::text::is_white(#[trigger] hex_of(bytes)[i])
                && '\0' <= hex_of(bytes)[i] <= '\u{7f}',
    decreases bytes.len(),
{
    if bytes.len() > 0 {
        let t = hex_of(bytes.drop_last());
        lemma_hex_chars(bytes.drop_last());
        lemma_nibble(bytes.last() as int / 16);
        lemma_nibble(bytes.last() as int % 16);
        assert forall|i: int| 0 <= i < hex_of(bytes).len() implies !crate::text::is_white(
            #[trigger] hex_of(bytes)[i],
        ) && '\0' <= hex_of(bytes)[i] <= '\u{7f}' by {
            if i < t.len() {
                assert(hex_of(bytes)[i] == t[i]);
            }
        }
    }
}

/// Decoding the hexadecimal text of some bytes gives the bytes.
pub proof fn lemma_hex_roundtrip(bytes: Seq<u8>)
    ensures
        is_hex(vstd::utf8::encode_utf8(hex_of(bytes))),
        unhex(vstd::utf8::encode_utf8(hex_of(bytes))) == bytes,
{
    let s = hex_of(bytes);
    lemma_hex_of(bytes);
    lemma_hex_chars(bytes);
    assert(vstd::utf8::is_ascii_chars(s));
    vstd::utf8::is_ascii_chars_encode_utf8(s);
    let e = vstd::utf8::encode_utf8(s);
    assert(e.len() == s.len());
    assert forall|i: int| 0 <= i < bytes.len() implies nibble(e[2 * i]) == Some(
        bytes[i] as int / 16,
    ) && nibble(e[2 * i + 1]) == Some(bytes[i] as int % 16) by {
        lemma_nibble(bytes[i] as int / 16);
        lemma_nibble(bytes[i] as int % 16);
        assert(s[2 * i] == nibble_char(bytes[i] as int / 16));
    }
    assert forall|i: int| 0 <= i < e.len() implies nibble(#[trigger] e[i]) is Some by {
        let k = i / 2;
        assert(i == 2 * k || i == 2 * k + 1);
        assert(nibble(e[2 * k]) is Some);
    }
    assert(unhex(e) =~= bytes);
}

} // verus!
