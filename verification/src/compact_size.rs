use vstd::bytes::*;
use vstd::prelude::*;
use vstd::slice::*;

use crate::error::BitcoinError;

verus! {

/// A variable-length unsigned 64-bit integer (the CompactSize wire form).
///
/// The encoding uses the smallest discriminator that can represent the
/// value: one raw byte up to `0xFC`, or a `0xFD`/`0xFE`/`0xFF` marker
/// followed by 2, 4 or 8 little-endian bytes.
#[derive(Debug, PartialEq, Eq, Clone, Structural)]
pub struct CompactSize {
    pub value: u64,
}

/// The canonical wire encoding of a CompactSize value: the smallest form
/// that can hold `v`.
pub open spec fn spec_compact_size_encode(v: u64) -> Seq<u8> {
    if v <= 0xFC {
        seq![v as u8]
    } else if v <= 0xFFFF {
        seq![0xFDu8] + spec_u16_to_le_bytes(v as u16)
    } else if v <= 0xFFFFFFFF {
        seq![0xFEu8] + spec_u32_to_le_bytes(v as u32)
    } else {
        seq![0xFFu8] + spec_u64_to_le_bytes(v)
    }
}

/// What decoding a byte sequence as a CompactSize yields: the value and the
/// number of bytes consumed, or `None` when too few bytes are available.
/// Non-canonical encodings are accepted: the width is chosen by the
/// discriminator byte alone, never checked against the value.
pub open spec fn spec_compact_size_decode(b: Seq<u8>) -> Option<(u64, int)> {
    if b.len() == 0 {
        None
    } else if b[0] <= 0xFC {
        Some((b[0] as u64, 1))
    } else if b[0] == 0xFD {
        if b.len() >= 3 {
            Some((spec_u16_from_le_bytes(b.subrange(1, 3)) as u64, 3))
        } else {
            None
        }
    } else if b[0] == 0xFE {
        if b.len() >= 5 {
            Some((spec_u32_from_le_bytes(b.subrange(1, 5)) as u64, 5))
        } else {
            None
        }
    } else {
        if b.len() >= 9 {
            Some((spec_u64_from_le_bytes(b.subrange(1, 9)), 9))
        } else {
            None
        }
    }
}

impl CompactSize {
    pub fn new(value: u64) -> (r: Self)
        ensures
            r.value == value,
    {
        CompactSize { value }
    }

    /// Encode in the canonical (minimal) form.
    pub fn to_bytes(&self) -> (r: Vec<u8>)
        ensures
            r@ == spec_compact_size_encode(self.value),
    {
        if self.value <= 0xFC {
            let mut out: Vec<u8> = Vec::new();
            out.push(self.value as u8);
            assert(out@ =~= spec_compact_size_encode(self.value));
            out
        } else if self.value <= 0xFFFF {
            let mut out: Vec<u8> = Vec::new();
            out.push(0xFD);
            let mut tail = u16_to_le_bytes(self.value as u16);
            out.append(&mut tail);
            assert(out@ =~= spec_compact_size_encode(self.value));
            out
        } else if self.value <= 0xFFFFFFFF {
            let mut out: Vec<u8> = Vec::new();
            out.push(0xFE);
            let mut tail = u32_to_le_bytes(self.value as u32);
            out.append(&mut tail);
            assert(out@ =~= spec_compact_size_encode(self.value));
            out
        } else {
            let mut out: Vec<u8> = Vec::new();
            out.push(0xFF);
            let mut tail = u64_to_le_bytes(self.value);
            out.append(&mut tail);
            assert(out@ =~= spec_compact_size_encode(self.value));
            out
        }
    }

    /// Decode a CompactSize from the front of `bytes`, reporting how many
    /// bytes were consumed.
    pub fn from_bytes(bytes: &[u8]) -> (r: Result<(Self, usize), BitcoinError>)
        ensures
            r is Ok <==> spec_compact_size_decode(bytes@) is Some,
            r matches Ok(p) ==> spec_compact_size_decode(bytes@) == Some((p.0.value, p.1 as int)),
            r matches Err(e) ==> e == BitcoinError::InsufficientBytes,
    {
        if bytes.len() == 0 {
            return Err(BitcoinError::InsufficientBytes);
        }
        let d = *slice_index_get(bytes, 0);
        if d <= 0xFC {
            Ok((CompactSize::new(d as u64), 1))
        } else if d == 0xFD {
            if bytes.len() < 3 {
                return Err(BitcoinError::InsufficientBytes);
            }
            let v = u16_from_le_bytes(slice_subrange(bytes, 1, 3)) as u64;
            Ok((CompactSize::new(v), 3))
        } else if d == 0xFE {
            if bytes.len() < 5 {
                return Err(BitcoinError::InsufficientBytes);
            }
            let v = u32_from_le_bytes(slice_subrange(bytes, 1, 5)) as u64;
            Ok((CompactSize::new(v), 5))
        } else {
            if bytes.len() < 9 {
                return Err(BitcoinError::InsufficientBytes);
            }
            let v = u64_from_le_bytes(slice_subrange(bytes, 1, 9));
            Ok((CompactSize::new(v), 9))
        }
    }
}

/// Canonical minimality: the encoding is exactly as wide as the value
/// requires, and the first byte is the matching discriminator.
pub proof fn lemma_compact_size_encode_minimal(v: u64)
    ensures
        v <= 0xFC ==> spec_compact_size_encode(v) == seq![v as u8],
        0xFD <= v <= 0xFFFF ==> spec_compact_size_encode(v).len() == 3
            && spec_compact_size_encode(v)[0] == 0xFD,
        0x10000 <= v <= 0xFFFFFFFF ==> spec_compact_size_encode(v).len() == 5
            && spec_compact_size_encode(v)[0] == 0xFE,
        v > 0xFFFFFFFF ==> spec_compact_size_encode(v).len() == 9
            && spec_compact_size_encode(v)[0] == 0xFF,
{
    lemma_auto_spec_u16_to_from_le_bytes();
    lemma_auto_spec_u32_to_from_le_bytes();
    lemma_auto_spec_u64_to_from_le_bytes();
}

/// Decoding reads an encoding back from the front of any longer buffer:
/// the same value comes out and exactly the encoding's bytes are consumed.
pub proof fn lemma_compact_size_decode_encode_prefix(v: u64, tail: Seq<u8>)
    ensures
        spec_compact_size_decode(spec_compact_size_encode(v) + tail) == Some(
            (v, spec_compact_size_encode(v).len() as int),
        ),
{
    lemma_auto_spec_u16_to_from_le_bytes();
    lemma_auto_spec_u32_to_from_le_bytes();
    lemma_auto_spec_u64_to_from_le_bytes();
    let e = spec_compact_size_encode(v);
    let b = e + tail;
    if v <= 0xFC {
        assert(b[0] == v as u8);
    } else if v <= 0xFFFF {
        assert(b[0] == 0xFDu8);
        assert(b.subrange(1, 3) =~= spec_u16_to_le_bytes(v as u16));
        assert(spec_u16_from_le_bytes(spec_u16_to_le_bytes(v as u16)) == v as u16);
    } else if v <= 0xFFFFFFFF {
        assert(b[0] == 0xFEu8);
        assert(b.subrange(1, 5) =~= spec_u32_to_le_bytes(v as u32));
        assert(spec_u32_from_le_bytes(spec_u32_to_le_bytes(v as u32)) == v as u32);
    } else {
        assert(b[0] == 0xFFu8);
        assert(b.subrange(1, 9) =~= spec_u64_to_le_bytes(v));
    }
}

/// Round-trip law: decoding an encoding yields the original value and
/// consumes the whole encoding.
pub proof fn lemma_compact_size_round_trip(v: u64)
    ensures
        spec_compact_size_decode(spec_compact_size_encode(v)) == Some(
            (v, spec_compact_size_encode(v).len() as int),
        ),
{
    lemma_compact_size_decode_encode_prefix(v, Seq::empty());
    assert(spec_compact_size_encode(v) + Seq::empty() =~= spec_compact_size_encode(v));
}

/// Boundary truncation: every strict prefix of an encoding fails to decode.
pub proof fn lemma_compact_size_decode_truncated(v: u64, k: int)
    requires
        0 <= k < spec_compact_size_encode(v).len(),
    ensures
        spec_compact_size_decode(spec_compact_size_encode(v).take(k)) is None,
{
    lemma_auto_spec_u16_to_from_le_bytes();
    lemma_auto_spec_u32_to_from_le_bytes();
    lemma_auto_spec_u64_to_from_le_bytes();
    let e = spec_compact_size_encode(v);
    let p = e.take(k);
    if k > 0 {
        assert(p[0] == e[0]);
    }
}

} // verus!
