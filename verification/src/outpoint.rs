use vstd::bytes::*;
use vstd::prelude::*;
use vstd::slice::*;

use crate::error::BitcoinError;
use crate::txid::Txid;
use crate::txid::txid_from_slice;

verus! {

/// A reference to an output of a prior transaction: a 32-byte identifier
/// and an output index. Fixed 36-byte wire size.
#[derive(Debug, PartialEq, Eq, Clone)]
pub struct OutPoint {
    pub txid: Txid,
    pub vout: u32,
}

/// The mathematical value of an outpoint: identifier bytes and index.
#[verifier::ext_equal]
pub struct OutPointModel {
    pub txid: Seq<u8>,
    pub vout: u32,
}

impl OutPointModel {
    /// The identifier holds exactly 32 bytes.
    pub open spec fn wf(self) -> bool {
        self.txid.len() == 32
    }
}

impl View for OutPoint {
    type V = OutPointModel;

    open spec fn view(&self) -> OutPointModel {
        OutPointModel { txid: self.txid@, vout: self.vout }
    }
}

/// The wire encoding of an outpoint: 32 identifier bytes, then the index
/// as 4 little-endian bytes.
pub open spec fn spec_outpoint_encode(o: OutPointModel) -> Seq<u8> {
    o.txid + spec_u32_to_le_bytes(o.vout)
}

/// What decoding an outpoint from the front of `b` yields: `None` when
/// fewer than 36 bytes are available, else the split value and 36.
pub open spec fn spec_outpoint_decode(b: Seq<u8>) -> Option<(OutPointModel, int)> {
    if b.len() >= 36 {
        Some(
            (
                OutPointModel {
                    txid: b.subrange(0, 32),
                    vout: spec_u32_from_le_bytes(b.subrange(32, 36)),
                },
                36,
            ),
        )
    } else {
        None
    }
}

impl OutPoint {
    pub fn new(txid: [u8; 32], vout: u32) -> (r: Self)
        ensures
            r@ == (OutPointModel { txid: txid@, vout }),
    {
        OutPoint { txid: Txid(txid), vout }
    }

    /// Encode as exactly 36 bytes.
    pub fn to_bytes(&self) -> (r: Vec<u8>)
        ensures
            r@ == spec_outpoint_encode(self@),
    {
        let mut out = slice_to_vec(self.txid.0.as_slice());
        let mut idx = u32_to_le_bytes(self.vout);
        out.append(&mut idx);
        assert(out@ =~= spec_outpoint_encode(self@));
        out
    }

    /// Decode an outpoint from the front of `bytes`, consuming 36 bytes.
    pub fn from_bytes(bytes: &[u8]) -> (r: Result<(Self, usize), BitcoinError>)
        ensures
            r is Ok <==> spec_outpoint_decode(bytes@) is Some,
            r matches Ok(p) ==> spec_outpoint_decode(bytes@) == Some((p.0@, p.1 as int)),
            r matches Err(e) ==> e == BitcoinError::InsufficientBytes,
    {
        if bytes.len() < 36 {
            return Err(BitcoinError::InsufficientBytes);
        }
        let txid = txid_from_slice(slice_subrange(bytes, 0, 32));
        let vout = u32_from_le_bytes(slice_subrange(bytes, 32, 36));
        Ok((OutPoint { txid, vout }, 36))
    }
}

/// Decoding reads an encoding back from the front of any longer buffer.
pub proof fn lemma_outpoint_decode_encode_prefix(o: OutPointModel, tail: Seq<u8>)
    requires
        o.wf(),
    ensures
        spec_outpoint_decode(spec_outpoint_encode(o) + tail) == Some((o, 36int)),
        spec_outpoint_encode(o).len() == 36,
{
    lemma_auto_spec_u32_to_from_le_bytes();
    let b = spec_outpoint_encode(o) + tail;
    assert(b.subrange(0, 32) =~= o.txid);
    assert(b.subrange(32, 36) =~= spec_u32_to_le_bytes(o.vout));
    let d = spec_outpoint_decode(b)->Some_0;
    assert(d.0 =~= o);
}

/// Round-trip law: decoding an encoding yields the original outpoint and
/// consumes all 36 bytes.
pub proof fn lemma_outpoint_round_trip(o: OutPointModel)
    requires
        o.wf(),
    ensures
        spec_outpoint_decode(spec_outpoint_encode(o)) == Some((o, 36int)),
        spec_outpoint_encode(o).len() == 36,
{
    lemma_outpoint_decode_encode_prefix(o, Seq::empty());
    assert(spec_outpoint_encode(o) + Seq::empty() =~= spec_outpoint_encode(o));
}

/// Boundary truncation: every strict prefix of an encoding fails to decode.
pub proof fn lemma_outpoint_decode_truncated(o: OutPointModel, k: int)
    requires
        o.wf(),
        0 <= k < spec_outpoint_encode(o).len(),
    ensures
        spec_outpoint_decode(spec_outpoint_encode(o).take(k)) is None,
{
    lemma_auto_spec_u32_to_from_le_bytes();
}

} // verus!
