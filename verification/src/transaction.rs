use vstd::bytes::*;
use vstd::prelude::*;
use vstd::slice::*;

use crate::compact_size::CompactSize;
use crate::compact_size::lemma_compact_size_decode_encode_prefix;
use crate::compact_size::lemma_compact_size_decode_truncated;
use crate::compact_size::spec_compact_size_decode;
use crate::compact_size::spec_compact_size_encode;
use crate::error::BitcoinError;
use crate::input::TransactionInput;
use crate::input::TransactionInputModel;
use crate::input::lemma_input_decode_encode_prefix;
use crate::input::lemma_input_decode_truncated;
use crate::input::spec_input_decode;
use crate::input::spec_input_encode;

verus! {

/// A legacy transaction: a version, a sequence of inputs and a lock time.
/// The wire form carries the input count as a CompactSize between the
/// version and the inputs.
#[derive(Debug, PartialEq, Eq, Clone)]
pub struct BitcoinTransaction {
    pub version: u32,
    pub inputs: Vec<TransactionInput>,
    pub lock_time: u32,
}

/// The mathematical value of a transaction.
#[verifier::ext_equal]
pub struct BitcoinTransactionModel {
    pub version: u32,
    pub inputs: Seq<TransactionInputModel>,
    pub lock_time: u32,
}

impl BitcoinTransactionModel {
    /// Every input is well formed and the input count is encodable.
    pub open spec fn wf(self) -> bool {
        self.inputs.len() <= u64::MAX && (forall|i: int|
            0 <= i < self.inputs.len() ==> (#[trigger] self.inputs[i]).wf())
    }
}

impl View for BitcoinTransaction {
    type V = BitcoinTransactionModel;

    open spec fn view(&self) -> BitcoinTransactionModel {
        BitcoinTransactionModel {
            version: self.version,
            inputs: Seq::new(self.inputs@.len(), |i: int| self.inputs@[i]@),
            lock_time: self.lock_time,
        }
    }
}

/// The concatenation of the wire encodings of a sequence of inputs.
pub open spec fn spec_inputs_encode(s: Seq<TransactionInputModel>) -> Seq<u8>
    decreases s.len(),
{
    if s.len() == 0 {
        Seq::empty()
    } else {
        spec_input_encode(s[0]) + spec_inputs_encode(s.drop_first())
    }
}

/// What decoding exactly `n` consecutive inputs from the front of `b`
/// yields: the inputs and the total bytes consumed, or `None` as soon as
/// one of them runs out of bytes.
pub open spec fn spec_inputs_decode(b: Seq<u8>, n: nat) -> Option<
    (Seq<TransactionInputModel>, int),
>
    decreases n,
{
    if n == 0 {
        Some((Seq::empty(), 0))
    } else {
        match spec_input_decode(b) {
            None => None,
            Some((first, used)) => match spec_inputs_decode(b.skip(used), (n - 1) as nat) {
                None => None,
                Some((rest, used_rest)) => Some((seq![first] + rest, used + used_rest)),
            },
        }
    }
}

/// The wire encoding of a transaction: 4-byte little-endian version, the
/// input count as a CompactSize, each input in order, then the 4-byte
/// little-endian lock time.
pub open spec fn spec_transaction_encode(t: BitcoinTransactionModel) -> Seq<u8> {
    spec_u32_to_le_bytes(t.version) + spec_compact_size_encode(t.inputs.len() as u64)
        + spec_inputs_encode(t.inputs) + spec_u32_to_le_bytes(t.lock_time)
}

/// What decoding a transaction from the front of `b` yields: the version,
/// the declared count of inputs, then 4 more bytes for the lock time;
/// `None` as soon as any part runs out of bytes.
pub open spec fn spec_transaction_decode(b: Seq<u8>) -> Option<(BitcoinTransactionModel, int)> {
    if b.len() < 4 {
        None
    } else {
        match spec_compact_size_decode(b.skip(4)) {
            None => None,
            Some((count, used_count)) => match spec_inputs_decode(
                b.skip(4 + used_count),
                count as nat,
            ) {
                None => None,
                Some((inputs, used_inputs)) => {
                    let used = 4 + used_count + used_inputs;
                    if used + 4 <= b.len() {
                        Some(
                            (
                                BitcoinTransactionModel {
                                    version: spec_u32_from_le_bytes(b.subrange(0, 4)),
                                    inputs: inputs,
                                    lock_time: spec_u32_from_le_bytes(b.subrange(used, used + 4)),
                                },
                                used + 4,
                            ),
                        )
                    } else {
                        None
                    }
                },
            },
        }
    }
}

/// Appending one more input to a sequence appends its encoding.
proof fn lemma_inputs_encode_push(s: Seq<TransactionInputModel>, x: TransactionInputModel)
    ensures
        spec_inputs_encode(s.push(x)) == spec_inputs_encode(s) + spec_input_encode(x),
    decreases s.len(),
{
    if s.len() == 0 {
        assert(s.push(x)[0] == x);
        assert(s.push(x).drop_first() =~= Seq::<TransactionInputModel>::empty());
        assert(spec_inputs_encode(Seq::<TransactionInputModel>::empty()) == Seq::<u8>::empty());
        assert(spec_inputs_encode(s.push(x)) == spec_input_encode(x) + Seq::<u8>::empty());
        assert(spec_inputs_encode(s.push(x)) =~= spec_inputs_encode(s) + spec_input_encode(x));
    } else {
        assert(s.push(x)[0] == s[0]);
        assert(s.push(x).drop_first() =~= s.drop_first().push(x));
        lemma_inputs_encode_push(s.drop_first(), x);
        assert(spec_inputs_encode(s.push(x)) =~= spec_inputs_encode(s) + spec_input_encode(x));
    }
}

/// Decoding reads a sequence of input encodings back from the front of
/// any longer buffer.
pub proof fn lemma_inputs_decode_encode_prefix(s: Seq<TransactionInputModel>, tail: Seq<u8>)
    requires
        forall|i: int| 0 <= i < s.len() ==> (#[trigger] s[i]).wf(),
    ensures
        spec_inputs_decode(spec_inputs_encode(s) + tail, s.len()) == Some(
            (s, spec_inputs_encode(s).len() as int),
        ),
    decreases s.len(),
{
    if s.len() == 0 {
        assert(spec_inputs_encode(s) + tail =~= tail);
        assert(s =~= Seq::<TransactionInputModel>::empty());
    } else {
        let first = s[0];
        let rest = s.drop_first();
        let e0 = spec_input_encode(first);
        let erest = spec_inputs_encode(rest);
        let b = spec_inputs_encode(s) + tail;
        assert(b =~= e0 + (erest + tail));
        lemma_input_decode_encode_prefix(first, erest + tail);
        assert(b.skip(e0.len() as int) =~= erest + tail);
        assert(forall|i: int| 0 <= i < rest.len() ==> (#[trigger] rest[i]).wf());
        lemma_inputs_decode_encode_prefix(rest, tail);
        let d = spec_inputs_decode(b, s.len())->Some_0;
        assert(d.0 =~= seq![first] + rest);
        assert(seq![first] + rest =~= s);
        assert(spec_inputs_encode(s).len() == e0.len() + erest.len());
    }
}

/// Truncation: a strict prefix of the encoding of `n` inputs never
/// decodes as `n` inputs.
pub proof fn lemma_inputs_decode_truncated(s: Seq<TransactionInputModel>, k: int)
    requires
        forall|i: int| 0 <= i < s.len() ==> (#[trigger] s[i]).wf(),
        0 <= k < spec_inputs_encode(s).len(),
    ensures
        spec_inputs_decode(spec_inputs_encode(s).take(k), s.len()) is None,
    decreases s.len(),
{
    let first = s[0];
    let rest = s.drop_first();
    let e0 = spec_input_encode(first);
    let erest = spec_inputs_encode(rest);
    let p = spec_inputs_encode(s).take(k);
    lemma_input_decode_encode_prefix(first, erest);
    assert(forall|i: int| 0 <= i < rest.len() ==> (#[trigger] rest[i]).wf());
    if k < e0.len() {
        assert(p =~= e0.take(k));
        lemma_input_decode_truncated(first, k);
    } else {
        assert(p =~= e0 + erest.take(k - e0.len()));
        lemma_input_decode_encode_prefix(first, erest.take(k - e0.len()));
        assert(p.skip(e0.len() as int) =~= erest.take(k - e0.len()));
        lemma_inputs_decode_truncated(rest, k - e0.len());
    }
}

/// Decoding reads a transaction encoding back from the front of any
/// longer buffer.
pub proof fn lemma_transaction_decode_encode_prefix(t: BitcoinTransactionModel, tail: Seq<u8>)
    requires
        t.wf(),
    ensures
        spec_transaction_decode(spec_transaction_encode(t) + tail) == Some(
            (t, spec_transaction_encode(t).len() as int),
        ),
{
    lemma_auto_spec_u32_to_from_le_bytes();
    let vle = spec_u32_to_le_bytes(t.version);
    let cse = spec_compact_size_encode(t.inputs.len() as u64);
    let ie = spec_inputs_encode(t.inputs);
    let lle = spec_u32_to_le_bytes(t.lock_time);
    let b = spec_transaction_encode(t) + tail;
    assert(b.subrange(0, 4) =~= vle);
    assert(b.skip(4) =~= cse + (ie + (lle + tail)));
    lemma_compact_size_decode_encode_prefix(t.inputs.len() as u64, ie + (lle + tail));
    let h = cse.len() as int;
    assert(b.skip(4 + h) =~= ie + (lle + tail));
    lemma_inputs_decode_encode_prefix(t.inputs, lle + tail);
    let used = 4 + h + ie.len() as int;
    assert(b.subrange(used, used + 4) =~= lle);
    let d = spec_transaction_decode(b)->Some_0;
    assert(d.0 =~= t);
}

/// Every transaction value is well formed as a model: identifiers hold
/// 32 bytes by construction, and script and input counts fit in memory.
/// The round-trip law therefore applies to every value of the type.
pub proof fn lemma_transaction_view_wf(t: &BitcoinTransaction)
    ensures
        t@.wf(),
{
    broadcast use vstd::std_specs::vec::axiom_spec_len;

    assert(vstd::std_specs::vec::spec_vec_len(&t.inputs) == t.inputs@.len());
    assert forall|i: int| 0 <= i < t@.inputs.len() implies (#[trigger] t@.inputs[i]).wf() by {
        let script = &t.inputs@[i].script_sig.bytes;
        assert(vstd::std_specs::vec::spec_vec_len(script) == script@.len());
        assert(t@.inputs[i].previous_output.txid.len() == 32);
    }
}

/// Round-trip law: decoding an encoding yields the original transaction
/// and consumes the whole encoding.
pub proof fn lemma_transaction_round_trip(t: BitcoinTransactionModel)
    requires
        t.wf(),
    ensures
        spec_transaction_decode(spec_transaction_encode(t)) == Some(
            (t, spec_transaction_encode(t).len() as int),
        ),
{
    lemma_transaction_decode_encode_prefix(t, Seq::empty());
    assert(spec_transaction_encode(t) + Seq::empty() =~= spec_transaction_encode(t));
}

/// Truncation: every strict prefix of a transaction encoding fails to
/// decode, at whichever field or input it cuts short.
pub proof fn lemma_transaction_decode_truncated(t: BitcoinTransactionModel, k: int)
    requires
        t.wf(),
        0 <= k < spec_transaction_encode(t).len(),
    ensures
        spec_transaction_decode(spec_transaction_encode(t).take(k)) is None,
{
    lemma_auto_spec_u32_to_from_le_bytes();
    let vle = spec_u32_to_le_bytes(t.version);
    let cse = spec_compact_size_encode(t.inputs.len() as u64);
    let ie = spec_inputs_encode(t.inputs);
    let lle = spec_u32_to_le_bytes(t.lock_time);
    let h = cse.len() as int;
    let p = spec_transaction_encode(t).take(k);
    lemma_compact_size_decode_encode_prefix(t.inputs.len() as u64, ie + lle);
    lemma_inputs_decode_encode_prefix(t.inputs, lle);
    if k < 4 {
        assert(p.len() < 4);
    } else {
        if k - 4 < h {
            assert(p.skip(4) =~= cse.take(k - 4));
            lemma_compact_size_decode_truncated(t.inputs.len() as u64, k - 4);
        } else {
            assert(p.skip(4) =~= cse + (ie + lle).take(k - 4 - h));
            lemma_compact_size_decode_encode_prefix(
                t.inputs.len() as u64,
                (ie + lle).take(k - 4 - h),
            );
            if k - 4 - h < ie.len() {
                assert(p.skip(4 + h) =~= ie.take(k - 4 - h));
                lemma_inputs_decode_truncated(t.inputs, k - 4 - h);
            } else {
                assert(p.skip(4 + h) =~= ie + lle.take(k - 4 - h - ie.len()));
                lemma_inputs_decode_encode_prefix(t.inputs, lle.take(k - 4 - h - ie.len()));
                assert(4 + h + ie.len() + 4 > k);
            }
        }
    }
}

impl BitcoinTransaction {
    pub fn new(version: u32, inputs: Vec<TransactionInput>, lock_time: u32) -> (r: Self)
        ensures
            r@ == (BitcoinTransactionModel {
                version,
                inputs: Seq::new(inputs@.len(), |i: int| inputs@[i]@),
                lock_time,
            }),
    {
        BitcoinTransaction { version, inputs, lock_time }
    }

    /// Encode as version, input count, each input, then lock time.
    pub fn to_bytes(&self) -> (r: Vec<u8>)
        ensures
            r@ == spec_transaction_encode(self@),
    {
        let mut out = u32_to_le_bytes(self.version);
        let input_count = CompactSize::new(self.inputs.len() as u64);
        let mut count_bytes = input_count.to_bytes();
        out.append(&mut count_bytes);
        let ghost header = out@;
        assert(self@.inputs.take(0) =~= Seq::empty());
        let n = self.inputs.len();
        for i in 0..n
            invariant
                n == self.inputs@.len(),
                out@ == header + spec_inputs_encode(self@.inputs.take(i as int)),
                header == spec_u32_to_le_bytes(self.version) + spec_compact_size_encode(
                    self.inputs@.len() as u64,
                ),
        {
            let mut input_bytes = self.inputs[i].to_bytes();
            out.append(&mut input_bytes);
            proof {
                lemma_inputs_encode_push(self@.inputs.take(i as int), self@.inputs[i as int]);
                assert(self@.inputs.take(i + 1) =~= self@.inputs.take(i as int).push(
                    self@.inputs[i as int],
                ));
            }
        }
        let mut lock_bytes = u32_to_le_bytes(self.lock_time);
        out.append(&mut lock_bytes);
        assert(self@.inputs.take(n as int) =~= self@.inputs);
        assert(out@ =~= spec_transaction_encode(self@));
        out
    }

    /// Decode a transaction from the front of `bytes`, reporting the total
    /// bytes consumed. Exactly the declared count of inputs is read, one
    /// by one; a huge declared count simply fails on the first input that
    /// runs out of bytes.
    pub fn from_bytes(bytes: &[u8]) -> (r: Result<(Self, usize), BitcoinError>)
        ensures
            r is Ok <==> spec_transaction_decode(bytes@) is Some,
            r matches Ok(p) ==> spec_transaction_decode(bytes@) == Some((p.0@, p.1 as int)),
            r matches Err(e) ==> e == BitcoinError::InsufficientBytes,
    {
        if bytes.len() < 4 {
            return Err(BitcoinError::InsufficientBytes);
        }
        let version = u32_from_le_bytes(slice_subrange(bytes, 0, 4));
        assert(bytes@.skip(4) =~= bytes@.subrange(4, bytes@.len() as int));
        let (input_count, used_count) = match CompactSize::from_bytes(
            slice_subrange(bytes, 4, bytes.len()),
        ) {
            Err(e) => {
                return Err(e);
            },
            Ok(p) => p,
        };
        let count = input_count.value;
        let start: usize = 4 + used_count;
        let ghost whole = spec_inputs_decode(bytes@.skip(start as int), count as nat);
        let mut inputs: Vec<TransactionInput> = Vec::new();
        let mut offset: usize = start;
        let mut i: u64 = 0;
        while i < count
            invariant
                i <= count,
                start <= offset <= bytes@.len(),
                i == inputs@.len(),
                bytes@.len() >= 4,
                spec_compact_size_decode(bytes@.skip(4)) == Some((count, used_count as int)),
                start == 4 + used_count,
                whole == spec_inputs_decode(bytes@.skip(start as int), count as nat),
                (match spec_inputs_decode(bytes@.skip(offset as int), (count - i) as nat) {
                    Some(p) => whole == Some(
                        (
                            Seq::new(inputs@.len(), |k: int| inputs@[k]@) + p.0,
                            (offset - start) + p.1,
                        ),
                    ),
                    None => whole is None,
                }),
            decreases count - i,
        {
            assert(bytes@.skip(offset as int) =~= bytes@.subrange(
                offset as int,
                bytes@.len() as int,
            ));
            let (input, used) = match TransactionInput::from_bytes(
                slice_subrange(bytes, offset, bytes.len()),
            ) {
                Err(e) => {
                    return Err(e);
                },
                Ok(p) => p,
            };
            let ghost iv = Seq::new(inputs@.len(), |k: int| inputs@[k]@);
            proof {
                assert(bytes@.skip(offset as int).skip(used as int) =~= bytes@.skip(
                    offset + used,
                ));
                let tail_dec = spec_inputs_decode(
                    bytes@.skip(offset + used),
                    (count - i - 1) as nat,
                );
                if tail_dec is Some {
                    let p = tail_dec->Some_0;
                    assert(iv + (seq![input@] + p.0) =~= iv.push(input@) + p.0);
                }
            }
            inputs.push(input);
            proof {
                assert(Seq::new(inputs@.len(), |k: int| inputs@[k]@) =~= iv.push(input@));
            }
            offset = offset + used;
            i = i + 1;
        }
        assert(spec_inputs_decode(bytes@.skip(offset as int), 0) == Some(
            (Seq::<TransactionInputModel>::empty(), 0int),
        ));
        assert(Seq::new(inputs@.len(), |k: int| inputs@[k]@) + Seq::empty() =~= Seq::new(
            inputs@.len(),
            |k: int| inputs@[k]@,
        ));
        if bytes.len() - offset < 4 {
            return Err(BitcoinError::InsufficientBytes);
        }
        let lock_time = u32_from_le_bytes(slice_subrange(bytes, offset, offset + 4));
        let tx = BitcoinTransaction::new(version, inputs, lock_time);
        proof {
            let d = spec_transaction_decode(bytes@)->Some_0;
            assert(d.0 =~= tx@);
        }
        Ok((tx, offset + 4))
    }
}

} // verus!
