//! A binary codec for a simplified legacy Bitcoin transaction wire format.
//!
//! The codec converts between raw byte sequences and structured values:
//! a variable-length integer ([`CompactSize`]), a fixed 32-byte transaction
//! identifier ([`Txid`]), an outpoint reference ([`OutPoint`]), a
//! length-prefixed script payload ([`Script`]), a transaction input
//! ([`TransactionInput`]) and a whole transaction ([`BitcoinTransaction`]).
//! Every `to_bytes` / `from_bytes` pair is specified against a mathematical
//! encoding and decoding function over byte sequences, and round-trip and
//! truncation laws are proved for each structure.

mod buf;
mod compact_size;
mod error;
mod input;
mod outpoint;
mod script;
mod text;
mod transaction;
mod txid;

pub use compact_size::CompactSize;
pub use compact_size::lemma_compact_size_encode_minimal;
pub use compact_size::lemma_compact_size_round_trip;
pub use compact_size::lemma_compact_size_decode_truncated;
pub use compact_size::spec_compact_size_decode;
pub use compact_size::spec_compact_size_encode;
pub use error::BitcoinError;
pub use input::TransactionInput;
pub use input::TransactionInputModel;
pub use input::lemma_input_round_trip;
pub use input::lemma_input_decode_truncated;
pub use input::spec_input_decode;
pub use input::spec_input_encode;
pub use outpoint::OutPoint;
pub use outpoint::OutPointModel;
pub use outpoint::lemma_outpoint_round_trip;
pub use outpoint::lemma_outpoint_decode_truncated;
pub use outpoint::spec_outpoint_decode;
pub use outpoint::spec_outpoint_encode;
pub use script::Script;
pub use script::lemma_script_round_trip;
pub use script::lemma_script_decode_truncated;
pub use script::spec_script_decode;
pub use script::spec_script_encode;
pub use transaction::BitcoinTransaction;
pub use transaction::BitcoinTransactionModel;
pub use transaction::lemma_transaction_round_trip;
pub use transaction::lemma_transaction_view_wf;
pub use transaction::lemma_transaction_decode_truncated;
pub use transaction::spec_inputs_decode;
pub use transaction::spec_inputs_encode;
pub use transaction::spec_transaction_decode;
pub use transaction::spec_transaction_encode;
pub use text::spec_render_transaction;
pub use txid::Txid;
pub use txid::lemma_hex_round_trip;
pub use txid::spec_hex_decoded;
pub use txid::spec_hex_encoded;
pub use txid::spec_is_hex_string;
