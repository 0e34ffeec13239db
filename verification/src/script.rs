use vstd::prelude::*;
use vstd::slice::*;

use crate::compact_size::CompactSize;
use crate::compact_size::lemma_compact_size_decode_encode_prefix;
use crate::compact_size::lemma_compact_size_decode_truncated;
use crate::compact_size::spec_compact_size_decode;
use crate::compact_size::spec_compact_size_encode;
use crate::buf::append_bytes;
use crate::error::BitcoinError;

verus! {

/// An opaque length-prefixed byte payload. The wire form is the payload
/// length as a CompactSize, followed by the payload verbatim; nothing ever
/// interprets the contents.
#[derive(Debug, PartialEq, Eq, Clone)]
pub struct Script {
    pub bytes: Vec<u8>,
}

impl View for Script {
    type V = Seq<u8>;

    open spec fn view(&self) -> Seq<u8> {
        self.bytes@
    }
}

/// The wire encoding of a script payload: its length as a CompactSize,
/// then the payload bytes.
pub open spec fn spec_script_encode(p: Seq<u8>) -> Seq<u8> {
    spec_compact_size_encode(p.len() as u64) + p
}

/// What decoding a script from the front of `b` yields: the declared
/// number of payload bytes after the length header, or `None` when the
/// header is short or the declared payload overruns the buffer.
pub open spec fn spec_script_decode(b: Seq<u8>) -> Option<(Seq<u8>, int)> {
    match spec_compact_size_decode(b) {
        None => None,
        Some((len, header)) => {
            if header + len <= b.len() {
                Some((b.subrange(header, header + len), header + len))
            } else {
                None
            }
        },
    }
}

impl Script {
    pub fn new(bytes: Vec<u8>) -> (r: Self)
        ensures
            r@ == bytes@,
    {
        Script { bytes }
    }

    /// A read-only view of the raw payload.
    pub fn payload(&self) -> (r: &Vec<u8>)
        ensures
            r@ == self@,
    {
        &self.bytes
    }

    /// Encode as the length prefix followed by the payload.
    pub fn to_bytes(&self) -> (r: Vec<u8>)
        ensures
            r@ == spec_script_encode(self@),
    {
        let length = CompactSize::new(self.bytes.len() as u64);
        let mut out = length.to_bytes();
        append_bytes(&mut out, self.bytes.as_slice());
        out
    }

    /// Decode a script from the front of `bytes`, reporting how many bytes
    /// were consumed (header plus payload).
    pub fn from_bytes(bytes: &[u8]) -> (r: Result<(Self, usize), BitcoinError>)
        ensures
            r is Ok <==> spec_script_decode(bytes@) is Some,
            r matches Ok(p) ==> spec_script_decode(bytes@) == Some((p.0@, p.1 as int)),
            r matches Err(e) ==> e == BitcoinError::InsufficientBytes,
    {
        match CompactSize::from_bytes(bytes) {
            Err(e) => Err(e),
            Ok((length, header)) => {
                let remaining = (bytes.len() - header) as u64;
                if length.value > remaining {
                    Err(BitcoinError::InsufficientBytes)
                } else {
                    let total = header + length.value as usize;
                    let payload = slice_to_vec(slice_subrange(bytes, header, total));
                    Ok((Script::new(payload), total))
                }
            },
        }
    }
}

/// Decoding reads an encoding back from the front of any longer buffer.
pub proof fn lemma_script_decode_encode_prefix(p: Seq<u8>, tail: Seq<u8>)
    requires
        p.len() <= u64::MAX,
    ensures
        spec_script_decode(spec_script_encode(p) + tail) == Some(
            (p, spec_script_encode(p).len() as int),
        ),
        spec_script_encode(p).len() == spec_compact_size_encode(p.len() as u64).len() + p.len(),
{
    let h = spec_compact_size_encode(p.len() as u64);
    let b = spec_script_encode(p) + tail;
    assert(b =~= h + (p + tail));
    lemma_compact_size_decode_encode_prefix(p.len() as u64, p + tail);
    assert(b.subrange(h.len() as int, (h.len() + p.len()) as int) =~= p);
}

/// Round-trip law: decoding an encoding yields the original payload and
/// consumes the whole encoding.
pub proof fn lemma_script_round_trip(p: Seq<u8>)
    requires
        p.len() <= u64::MAX,
    ensures
        spec_script_decode(spec_script_encode(p)) == Some(
            (p, spec_script_encode(p).len() as int),
        ),
{
    lemma_script_decode_encode_prefix(p, Seq::empty());
    assert(spec_script_encode(p) + Seq::empty() =~= spec_script_encode(p));
}

/// Truncation: every strict prefix of an encoding fails to decode, whether
/// it cuts the length header or the payload short.
pub proof fn lemma_script_decode_truncated(p: Seq<u8>, k: int)
    requires
        p.len() <= u64::MAX,
        0 <= k < spec_script_encode(p).len(),
    ensures
        spec_script_decode(spec_script_encode(p).take(k)) is None,
{
    let h = spec_compact_size_encode(p.len() as u64);
    let e = spec_script_encode(p);
    if k < h.len() {
        assert(e.take(k) =~= h.take(k));
        lemma_compact_size_decode_truncated(p.len() as u64, k);
    } else {
        assert(e.take(k) =~= h + p.take(k - h.len()));
        lemma_compact_size_decode_encode_prefix(p.len() as u64, p.take(k - h.len()));
    }
}

} // verus!
