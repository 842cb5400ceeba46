//! A binary codec for a simplified Bitcoin transaction wire format.
//!
//! Each structure serializes itself with `to_bytes` and parses itself out of
//! a byte buffer with `from_bytes`, reporting exactly how many bytes it
//! consumed and failing cleanly on truncated input.
mod compact_size;
mod error;
mod hex_text;
mod outpoint;
mod script;
mod transaction;
mod tx_input;
mod txid;

pub use compact_size::CompactSize;
pub use compact_size::lemma_compact_size_decode_bounds;
pub use compact_size::lemma_compact_size_encode_len;
pub use compact_size::lemma_compact_size_round_trip;
pub use compact_size::spec_compact_size_decode;
pub use compact_size::spec_compact_size_encode;
pub use error::BitcoinError;
pub use hex_text::lemma_hex_decode_len;
pub use hex_text::lemma_hex_round_trip;
pub use hex_text::spec_hex_decode;
pub use hex_text::spec_hex_encode;
pub use hex_text::spec_is_hex_digit;
pub use outpoint::OutPoint;
pub use outpoint::OutPointModel;
pub use outpoint::lemma_outpoint_decode_bounds;
pub use outpoint::lemma_outpoint_round_trip;
pub use outpoint::lemma_outpoint_truncated;
pub use outpoint::spec_outpoint_decode;
pub use outpoint::spec_outpoint_encode;
pub use outpoint::spec_outpoint_wf;
pub use script::Script;
pub use script::lemma_script_decode_bounds;
pub use script::lemma_script_round_trip;
pub use script::lemma_script_two_byte_prefix;
pub use script::lemma_script_truncated;
pub use script::spec_script_decode;
pub use script::spec_script_encode;
pub use transaction::BitcoinTransaction;
pub use transaction::TxModel;
pub use transaction::lemma_inputs_decode_bounds;
pub use transaction::lemma_inputs_encode_push;
pub use transaction::lemma_inputs_round_trip;
pub use transaction::lemma_transaction_round_trip;
pub use transaction::lemma_transaction_truncated;
pub use transaction::lemma_transaction_view_wf;
pub use transaction::lemma_zero_input_transaction;
pub use transaction::spec_inputs_decode;
pub use transaction::spec_inputs_encode;
pub use transaction::spec_tx_decode;
pub use transaction::spec_tx_encode;
pub use transaction::spec_tx_wf;
pub use tx_input::InputModel;
pub use tx_input::TransactionInput;
pub use tx_input::lemma_input_decode_bounds;
pub use tx_input::lemma_input_round_trip;
pub use tx_input::lemma_input_truncated;
pub use tx_input::spec_input_decode;
pub use tx_input::spec_input_encode;
pub use tx_input::spec_input_wf;
pub use txid::Txid;
