use vstd::prelude::*;
use vstd::string::StringExecFns;

use crate::input::TransactionInput;
use crate::input::TransactionInputModel;
use crate::transaction::BitcoinTransaction;
use crate::transaction::BitcoinTransactionModel;
use crate::txid::hex_encode_bytes;
use crate::txid::spec_hex_encoded;

verus! {

/// The decimal digit for a value below ten.
pub open spec fn spec_decimal_digit(n: nat) -> char
    recommends
        n < 10,
{
    (('0' as u8 + n) as u8) as char
}

/// The decimal rendering of a number: most significant digit first, no
/// sign, no padding, a single `0` for zero.
pub open spec fn spec_decimal_digits(n: nat) -> Seq<char>
    decreases n,
{
    if n < 10 {
        seq![spec_decimal_digit(n)]
    } else {
        spec_decimal_digits(n / 10).push(spec_decimal_digit(n % 10))
    }
}

/// The uppercase hex digit for a nibble.
pub open spec fn spec_hex_digit_upper(n: u8) -> char
    recommends
        n < 16,
{
    if n < 10 {
        (('0' as u8 + n) as u8) as char
    } else {
        (('A' as u8 + (n - 10)) as u8) as char
    }
}

/// The zero-padded 8-digit uppercase hex rendering of a 32-bit value.
pub open spec fn spec_hex8_upper(x: u32) -> Seq<char> {
    seq![
        spec_hex_digit_upper(((x / 0x10000000) % 16) as u8),
        spec_hex_digit_upper(((x / 0x1000000) % 16) as u8),
        spec_hex_digit_upper(((x / 0x100000) % 16) as u8),
        spec_hex_digit_upper(((x / 0x10000) % 16) as u8),
        spec_hex_digit_upper(((x / 0x1000) % 16) as u8),
        spec_hex_digit_upper(((x / 0x100) % 16) as u8),
        spec_hex_digit_upper(((x / 0x10) % 16) as u8),
        spec_hex_digit_upper((x % 16) as u8),
    ]
}

/// Relies on core's `Display` for `u64`: the plain decimal digits of the
/// value, no sign, no padding.
#[verifier::external_body]
fn u64_to_decimal(x: u64) -> (r: String)
    ensures
        r@ == spec_decimal_digits(x as nat),
{
    format!("{}", x)
}

/// Relies on core's `UpperHex` for `u32` with a zero-padded width of 8.
#[verifier::external_body]
fn u32_to_hex8_upper(x: u32) -> (r: String)
    ensures
        r@ == spec_hex8_upper(x),
{
    format!("{:08X}", x)
}

/// The diagnostic rendering of one input, at position `idx` in its
/// transaction.
pub open spec fn spec_render_input(i: TransactionInputModel, idx: nat) -> Seq<char> {
    "    Input "@ + spec_decimal_digits(idx) + ":\n"@ + "      Previous Output Txid: "@
        + spec_hex_encoded(i.previous_output.txid) + "\n"@ + "      Previous Output Vout: "@
        + spec_decimal_digits(i.previous_output.vout as nat) + "\n"@
        + "      Script Sig Length: "@ + spec_decimal_digits(i.script_sig.len()) + "\n"@
        + "      Script Sig: "@ + spec_hex_encoded(i.script_sig) + "\n"@ + "      Sequence: 0x"@
        + spec_hex8_upper(i.sequence) + "\n"@
}

/// The renderings of a sequence of inputs, numbered from `idx` upward.
pub open spec fn spec_render_inputs(s: Seq<TransactionInputModel>, idx: nat) -> Seq<char>
    decreases s.len(),
{
    if s.len() == 0 {
        Seq::empty()
    } else {
        spec_render_input(s[0], idx) + spec_render_inputs(s.drop_first(), idx + 1)
    }
}

/// The whole multi-line diagnostic rendering of a transaction. This is a
/// debugging aid, not a wire format: nothing decodes it.
pub open spec fn spec_render_transaction(t: BitcoinTransactionModel) -> Seq<char> {
    "Bitcoin Transaction:\n"@ + "  Version: "@ + spec_decimal_digits(t.version as nat) + "\n"@
        + "  Inputs ("@ + spec_decimal_digits(t.inputs.len()) + "): \n"@ + spec_render_inputs(
        t.inputs,
        0,
    ) + "  Lock Time: "@ + spec_decimal_digits(t.lock_time as nat)
}

/// Numbering one more input at the end extends the rendering at the end.
proof fn lemma_render_inputs_push(
    s: Seq<TransactionInputModel>,
    x: TransactionInputModel,
    idx: nat,
)
    ensures
        spec_render_inputs(s.push(x), idx) == spec_render_inputs(s, idx) + spec_render_input(
            x,
            idx + s.len(),
        ),
    decreases s.len(),
{
    if s.len() == 0 {
        assert(s.push(x)[0] == x);
        assert(s.push(x).drop_first() =~= Seq::<TransactionInputModel>::empty());
        assert(spec_render_inputs(Seq::<TransactionInputModel>::empty(), idx + 1) == Seq::<
            char,
        >::empty());
        assert(spec_render_inputs(s.push(x), idx) =~= spec_render_inputs(s, idx)
            + spec_render_input(x, idx + s.len()));
    } else {
        assert(s.push(x)[0] == s[0]);
        assert(s.push(x).drop_first() =~= s.drop_first().push(x));
        lemma_render_inputs_push(s.drop_first(), x, idx + 1);
        assert(spec_render_inputs(s.push(x), idx) =~= spec_render_inputs(s, idx)
            + spec_render_input(x, idx + s.len()));
    }
}

/// Render one input as its block of diagnostic lines.
#[verifier::rlimit(60)]
fn render_input(input: &TransactionInput, idx: u64) -> (r: String)
    ensures
        r@ == spec_render_input(input@, idx as nat),
{
    let mut out = String::new();
    out.append("    Input ");
    let idx_text = u64_to_decimal(idx);
    out.append(idx_text.as_str());
    out.append(":\n");
    out.append("      Previous Output Txid: ");
    let txid_text = input.previous_output.txid.to_hex();
    out.append(txid_text.as_str());
    out.append("\n");
    out.append("      Previous Output Vout: ");
    let vout_text = u64_to_decimal(input.previous_output.vout as u64);
    out.append(vout_text.as_str());
    out.append("\n");
    out.append("      Script Sig Length: ");
    let len_text = u64_to_decimal(input.script_sig.bytes.len() as u64);
    out.append(len_text.as_str());
    out.append("\n");
    out.append("      Script Sig: ");
    let script_text = hex_encode_bytes(input.script_sig.bytes.as_slice());
    out.append(script_text.as_str());
    out.append("\n");
    out.append("      Sequence: 0x");
    let seq_text = u32_to_hex8_upper(input.sequence);
    out.append(seq_text.as_str());
    out.append("\n");
    assert(out@ =~= spec_render_input(input@, idx as nat));
    out
}

impl BitcoinTransaction {
    /// The deterministic multi-line diagnostic rendering: version, input
    /// count, every input's fields, then the lock time.
    #[verifier::rlimit(60)]
    pub fn to_text(&self) -> (r: String)
        ensures
            r@ == spec_render_transaction(self@),
    {
        let mut out = String::new();
        out.append("Bitcoin Transaction:\n");
        out.append("  Version: ");
        let version_text = u64_to_decimal(self.version as u64);
        out.append(version_text.as_str());
        out.append("\n");
        out.append("  Inputs (");
        let count_text = u64_to_decimal(self.inputs.len() as u64);
        out.append(count_text.as_str());
        out.append("): \n");
        let ghost header = out@;
        assert(self@.inputs.take(0) =~= Seq::<TransactionInputModel>::empty());
        assert(out@ =~= header + spec_render_inputs(self@.inputs.take(0), 0));
        let n = self.inputs.len();
        for i in 0..n
            invariant
                n == self.inputs@.len(),
                out@ == header + spec_render_inputs(self@.inputs.take(i as int), 0),
                header == "Bitcoin Transaction:\n"@ + "  Version: "@ + spec_decimal_digits(
                    self.version as nat,
                ) + "\n"@ + "  Inputs ("@ + spec_decimal_digits(self.inputs@.len()) + "): \n"@,
        {
            let line = render_input(&self.inputs[i], i as u64);
            out.append(line.as_str());
            proof {
                lemma_render_inputs_push(self@.inputs.take(i as int), self@.inputs[i as int], 0);
                assert(self@.inputs.take(i + 1) =~= self@.inputs.take(i as int).push(
                    self@.inputs[i as int],
                ));
                assert(out@ =~= header + spec_render_inputs(self@.inputs.take(i + 1), 0));
            }
        }
        out.append("  Lock Time: ");
        let lock_text = u64_to_decimal(self.lock_time as u64);
        out.append(lock_text.as_str());
        assert(self@.inputs.take(n as int) =~= self@.inputs);
        assert(out@ =~= spec_render_transaction(self@));
        out
    }
}

} // verus!
