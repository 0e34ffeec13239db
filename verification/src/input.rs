use vstd::bytes::*;
use vstd::prelude::*;
use vstd::slice::*;

use crate::error::BitcoinError;
use crate::outpoint::OutPoint;
use crate::outpoint::OutPointModel;
use crate::outpoint::lemma_outpoint_decode_encode_prefix;
use crate::outpoint::lemma_outpoint_decode_truncated;
use crate::outpoint::spec_outpoint_decode;
use crate::outpoint::spec_outpoint_encode;
use crate::script::Script;
use crate::script::lemma_script_decode_encode_prefix;
use crate::script::lemma_script_decode_truncated;
use crate::script::spec_script_decode;
use crate::script::spec_script_encode;

verus! {

/// One transaction input: the outpoint it spends, its script payload and
/// a 32-bit sequence number.
#[derive(Debug, PartialEq, Eq, Clone)]
pub struct TransactionInput {
    pub previous_output: OutPoint,
    pub script_sig: Script,
    pub sequence: u32,
}

/// The mathematical value of a transaction input.
#[verifier::ext_equal]
pub struct TransactionInputModel {
    pub previous_output: OutPointModel,
    pub script_sig: Seq<u8>,
    pub sequence: u32,
}

impl TransactionInputModel {
    /// The outpoint is well formed and the script length is encodable.
    pub open spec fn wf(self) -> bool {
        self.previous_output.wf() && self.script_sig.len() <= u64::MAX
    }
}

impl View for TransactionInput {
    type V = TransactionInputModel;

    open spec fn view(&self) -> TransactionInputModel {
        TransactionInputModel {
            previous_output: self.previous_output@,
            script_sig: self.script_sig@,
            sequence: self.sequence,
        }
    }
}

/// The wire encoding of an input: outpoint, script, then the sequence
/// number as 4 little-endian bytes.
pub open spec fn spec_input_encode(i: TransactionInputModel) -> Seq<u8> {
    spec_outpoint_encode(i.previous_output) + spec_script_encode(i.script_sig)
        + spec_u32_to_le_bytes(i.sequence)
}

/// What decoding an input from the front of `b` yields: the outpoint,
/// then the script, then 4 more bytes for the sequence number; `None` as
/// soon as any of the three runs out of bytes.
pub open spec fn spec_input_decode(b: Seq<u8>) -> Option<(TransactionInputModel, int)> {
    match spec_outpoint_decode(b) {
        None => None,
        Some((outpoint, n1)) => match spec_script_decode(b.skip(n1)) {
            None => None,
            Some((script, n2)) => {
                let used = n1 + n2;
                if used + 4 <= b.len() {
                    Some(
                        (
                            TransactionInputModel {
                                previous_output: outpoint,
                                script_sig: script,
                                sequence: spec_u32_from_le_bytes(b.subrange(used, used + 4)),
                            },
                            used + 4,
                        ),
                    )
                } else {
                    None
                }
            },
        },
    }
}

impl TransactionInput {
    pub fn new(previous_output: OutPoint, script_sig: Script, sequence: u32) -> (r: Self)
        ensures
            r@ == (TransactionInputModel {
                previous_output: previous_output@,
                script_sig: script_sig@,
                sequence,
            }),
    {
        TransactionInput { previous_output, script_sig, sequence }
    }

    /// Encode as outpoint bytes, script bytes, then the sequence number.
    pub fn to_bytes(&self) -> (r: Vec<u8>)
        ensures
            r@ == spec_input_encode(self@),
    {
        let mut out = self.previous_output.to_bytes();
        let mut script = self.script_sig.to_bytes();
        out.append(&mut script);
        let mut seq_bytes = u32_to_le_bytes(self.sequence);
        out.append(&mut seq_bytes);
        assert(out@ =~= spec_input_encode(self@));
        out
    }

    /// Decode an input from the front of `bytes`, reporting the total
    /// bytes consumed; a failure in any part propagates unchanged.
    pub fn from_bytes(bytes: &[u8]) -> (r: Result<(Self, usize), BitcoinError>)
        ensures
            r is Ok <==> spec_input_decode(bytes@) is Some,
            r matches Ok(p) ==> spec_input_decode(bytes@) == Some((p.0@, p.1 as int)),
            r matches Err(e) ==> e == BitcoinError::InsufficientBytes,
    {
        let (previous_output, used_op) = match OutPoint::from_bytes(bytes) {
            Err(e) => {
                return Err(e);
            },
            Ok(p) => p,
        };
        assert(bytes@.skip(used_op as int) =~= bytes@.subrange(used_op as int, bytes@.len() as int));
        let rest = slice_subrange(bytes, used_op, bytes.len());
        let (script_sig, used_sc) = match Script::from_bytes(rest) {
            Err(e) => {
                return Err(e);
            },
            Ok(p) => p,
        };
        let used = used_op + used_sc;
        if bytes.len() - used < 4 {
            return Err(BitcoinError::InsufficientBytes);
        }
        let sequence = u32_from_le_bytes(slice_subrange(bytes, used, used + 4));
        Ok((TransactionInput::new(previous_output, script_sig, sequence), used + 4))
    }
}

/// Decoding reads an encoding back from the front of any longer buffer.
pub proof fn lemma_input_decode_encode_prefix(i: TransactionInputModel, tail: Seq<u8>)
    requires
        i.wf(),
    ensures
        spec_input_decode(spec_input_encode(i) + tail) == Some(
            (i, spec_input_encode(i).len() as int),
        ),
        spec_input_encode(i).len() == 36 + spec_script_encode(i.script_sig).len() + 4,
{
    let op = spec_outpoint_encode(i.previous_output);
    let sc = spec_script_encode(i.script_sig);
    let sq = spec_u32_to_le_bytes(i.sequence);
    lemma_auto_spec_u32_to_from_le_bytes();
    let b = spec_input_encode(i) + tail;
    assert(b =~= op + (sc + (sq + tail)));
    lemma_outpoint_decode_encode_prefix(i.previous_output, sc + (sq + tail));
    assert(b.skip(36) =~= sc + (sq + tail));
    lemma_script_decode_encode_prefix(i.script_sig, sq + tail);
    let used = 36 + sc.len() as int;
    assert(b.subrange(used, used + 4) =~= sq);
    let d = spec_input_decode(b)->Some_0;
    assert(d.0 =~= i);
}

/// Round-trip law: decoding an encoding yields the original input and
/// consumes the whole encoding.
pub proof fn lemma_input_round_trip(i: TransactionInputModel)
    requires
        i.wf(),
    ensures
        spec_input_decode(spec_input_encode(i)) == Some(
            (i, spec_input_encode(i).len() as int),
        ),
{
    lemma_input_decode_encode_prefix(i, Seq::empty());
    assert(spec_input_encode(i) + Seq::empty() =~= spec_input_encode(i));
}

/// Truncation: every strict prefix of an encoding fails to decode, at
/// whichever of the three parts it cuts short.
pub proof fn lemma_input_decode_truncated(i: TransactionInputModel, k: int)
    requires
        i.wf(),
        0 <= k < spec_input_encode(i).len(),
    ensures
        spec_input_decode(spec_input_encode(i).take(k)) is None,
{
    let op = spec_outpoint_encode(i.previous_output);
    let sc = spec_script_encode(i.script_sig);
    let sq = spec_u32_to_le_bytes(i.sequence);
    lemma_auto_spec_u32_to_from_le_bytes();
    lemma_outpoint_decode_encode_prefix(i.previous_output, sc + sq);
    lemma_script_decode_encode_prefix(i.script_sig, sq);
    let e = spec_input_encode(i);
    let p = e.take(k);
    if k < 36 {
        assert(p.len() < 36);
    } else {
        lemma_outpoint_decode_encode_prefix(i.previous_output, (sc + sq).take(k - 36));
        assert(p =~= op + (sc + sq).take(k - 36));
        assert(p.skip(36) =~= (sc + sq).take(k - 36));
        if k - 36 < sc.len() {
            assert((sc + sq).take(k - 36) =~= sc.take(k - 36));
            lemma_script_decode_truncated(i.script_sig, k - 36);
        } else {
            assert((sc + sq).take(k - 36) =~= sc + sq.take(k - 36 - sc.len()));
            lemma_script_decode_encode_prefix(i.script_sig, sq.take(k - 36 - sc.len()));
            assert(36 + sc.len() + 4 > k);
        }
    }
}

} // verus!
