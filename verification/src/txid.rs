use vstd::prelude::*;

use crate::error::BitcoinError;

verus! {

/// A fixed 32-byte transaction identifier.
///
/// Equality is byte-wise and the textual interchange form is the lowercase
/// hex rendering of the raw bytes in stored order (no byte reversal).
#[derive(Debug, PartialEq, Eq, Clone)]
pub struct Txid(pub [u8; 32]);

impl View for Txid {
    type V = Seq<u8>;

    open spec fn view(&self) -> Seq<u8> {
        self.0@
    }
}

/// Whether `c` is an ASCII hex digit, in either case.
pub open spec fn spec_is_hex_digit(c: char) -> bool {
    ('0' <= c && c <= '9') || ('a' <= c && c <= 'f') || ('A' <= c && c <= 'F')
}

/// The numeric value of an ASCII hex digit.
pub open spec fn spec_hex_digit_value(c: char) -> u8
    recommends
        spec_is_hex_digit(c),
{
    if '0' <= c && c <= '9' {
        (c as u8 - '0' as u8) as u8
    } else if 'a' <= c && c <= 'f' {
        (c as u8 - 'a' as u8 + 10) as u8
    } else {
        (c as u8 - 'A' as u8 + 10) as u8
    }
}

/// The lowercase hex digit for a nibble.
pub open spec fn spec_hex_digit_lower(n: u8) -> char
    recommends
        n < 16,
{
    if n < 10 {
        (('0' as u8 + n) as u8) as char
    } else {
        (('a' as u8 + (n - 10)) as u8) as char
    }
}

/// The lowercase hex rendering of a byte sequence: two digits per byte,
/// high nibble first, bytes in order.
pub open spec fn spec_hex_encoded(b: Seq<u8>) -> Seq<char> {
    Seq::new(
        2 * b.len(),
        |i: int| if i % 2 == 0 {
            spec_hex_digit_lower(b[i / 2] / 16)
        } else {
            spec_hex_digit_lower(b[i / 2] % 16)
        },
    )
}

/// Whether a character sequence is a well-formed hex string: even length,
/// every character a hex digit of either case.
pub open spec fn spec_is_hex_string(s: Seq<char>) -> bool {
    s.len() % 2 == 0 && (forall|i: int| 0 <= i < s.len() ==> spec_is_hex_digit(#[trigger] s[i]))
}

/// The bytes a well-formed hex string denotes: one byte per digit pair.
pub open spec fn spec_hex_decoded(s: Seq<char>) -> Seq<u8>
    recommends
        spec_is_hex_string(s),
{
    Seq::new(
        s.len() / 2,
        |i: int| (16 * spec_hex_digit_value(s[2 * i]) + spec_hex_digit_value(
            s[2 * i + 1],
        )) as u8,
    )
}

/// Relies on hex::encode: the lowercase hex string of the bytes, two digits
/// per byte, high nibble first, in stored order.
#[verifier::external_body]
pub(crate) fn hex_encode_bytes(b: &[u8]) -> (r: String)
    ensures
        r@ == spec_hex_encoded(b@),
{
    hex::encode(b)
}

/// Relies on hex::decode: succeeds exactly on even-length strings made of
/// hex digits of either case, returning one byte per digit pair; the
/// error (odd length or a stray character) is mapped to `InvalidFormat`.
#[verifier::external_body]
fn hex_decode_str(s: &str) -> (r: Result<Vec<u8>, BitcoinError>)
    ensures
        r is Ok <==> spec_is_hex_string(s@),
        r matches Ok(v) ==> v@ == spec_hex_decoded(s@),
        r matches Err(e) ==> e == BitcoinError::InvalidFormat,
{
    hex::decode(s).map_err(|_| BitcoinError::InvalidFormat)
}

impl Txid {
    /// The textual interchange form: 64 lowercase hex characters.
    pub fn to_hex(&self) -> (r: String)
        ensures
            r@ == spec_hex_encoded(self@),
    {
        hex_encode_bytes(self.0.as_slice())
    }

    /// Parse the textual interchange form, which must denote exactly
    /// 32 bytes; anything else is an `InvalidFormat` error.
    pub fn from_hex(s: &str) -> (r: Result<Self, BitcoinError>)
        ensures
            r is Ok <==> (spec_is_hex_string(s@) && s@.len() == 64),
            r matches Ok(t) ==> t@ == spec_hex_decoded(s@),
            r matches Err(e) ==> e == BitcoinError::InvalidFormat,
    {
        match hex_decode_str(s) {
            Err(e) => Err(e),
            Ok(v) => {
                if v.len() != 32 {
                    Err(BitcoinError::InvalidFormat)
                } else {
                    Ok(txid_from_slice(v.as_slice()))
                }
            },
        }
    }
}

/// Copy exactly 32 bytes into a fresh identifier.
pub(crate) fn txid_from_slice(b: &[u8]) -> (t: Txid)
    requires
        b@.len() == 32,
    ensures
        t@ == b@,
{
    let mut arr: [u8; 32] = [0u8; 32];
    for i in 0..32
        invariant
            b@.len() == 32,
            forall|j: int| 0 <= j < i ==> arr@[j] == b@[j],
    {
        arr[i] = b[i];
    }
    assert(arr@ =~= b@);
    Txid(arr)
}

/// Hex round trip: rendering any byte sequence yields a well-formed hex
/// string that decodes back to the same bytes.
pub proof fn lemma_hex_round_trip(b: Seq<u8>)
    ensures
        spec_is_hex_string(spec_hex_encoded(b)),
        spec_hex_decoded(spec_hex_encoded(b)) == b,
{
    let s = spec_hex_encoded(b);
    assert forall|i: int| 0 <= i < s.len() implies spec_is_hex_digit(#[trigger] s[i]) by {
        let n = if i % 2 == 0 {
            b[i / 2] / 16
        } else {
            b[i / 2] % 16
        };
        assert(n < 16);
    }
    assert forall|i: int| 0 <= i < b.len() implies spec_hex_decoded(s)[i] == b[i] by {
        let hi = b[i] / 16;
        let lo = b[i] % 16;
        assert(s[2 * i] == spec_hex_digit_lower(hi));
        assert(s[2 * i + 1] == spec_hex_digit_lower(lo));
        assert(spec_hex_digit_value(spec_hex_digit_lower(hi)) == hi);
        assert(spec_hex_digit_value(spec_hex_digit_lower(lo)) == lo);
    }
    assert(spec_hex_decoded(s) =~= b);
}

} // verus!
