//! One transaction input: previous output, signature script, sequence.
use vstd::prelude::*;
use vstd::bytes::lemma_auto_spec_u32_to_from_le_bytes;
use vstd::bytes::spec_u32_from_le_bytes;
use vstd::bytes::spec_u32_to_le_bytes;
use vstd::bytes::u32_from_le_bytes;
use vstd::bytes::u32_to_le_bytes;
use vstd::slice::slice_subrange;

use crate::error::BitcoinError;
use crate::outpoint::OutPoint;
use crate::outpoint::OutPointModel;
use crate::outpoint::lemma_outpoint_round_trip;
use crate::outpoint::spec_outpoint_decode;
use crate::outpoint::spec_outpoint_encode;
use crate::outpoint::spec_outpoint_wf;
use crate::script::Script;
use crate::script::lemma_script_decode_bounds;
use crate::script::lemma_script_round_trip;
use crate::script::spec_script_decode;
use crate::script::spec_script_encode;

verus! {

/// Mathematical model of a `TransactionInput`.
#[verifier::ext_equal]
pub ghost struct InputModel {
    pub previous_output: OutPointModel,
    pub script_sig: Seq<u8>,
    pub sequence: u32,
}

/// A well-formed input: its outpoint is well-formed and its script length
/// fits in a `u64`. Every executable `TransactionInput` satisfies this.
pub open spec fn spec_input_wf(i: InputModel) -> bool {
    spec_outpoint_wf(i.previous_output) && i.script_sig.len() <= u64::MAX
}

/// The encoding: outpoint, then script, then the sequence number.
pub open spec fn spec_input_encode(i: InputModel) -> Seq<u8> {
    spec_outpoint_encode(i.previous_output) + spec_script_encode(i.script_sig)
        + spec_u32_to_le_bytes(i.sequence)
}

/// What decoding a `TransactionInput` from the front of `s` yields: the
/// three parts in order, with the total consumed length, or `None` as soon
/// as any part is truncated.
pub open spec fn spec_input_decode(s: Seq<u8>) -> Option<(InputModel, int)> {
    match spec_outpoint_decode(s) {
        Some((op, n1)) => match spec_script_decode(s.subrange(n1, s.len() as int)) {
            Some((sc, n2)) => {
                let c = n1 + n2;
                if s.len() >= c + 4 {
                    Some(
                        (
                            InputModel {
                                previous_output: op,
                                script_sig: sc,
                                sequence: spec_u32_from_le_bytes(s.subrange(c, c + 4)),
                            },
                            c + 4,
                        ),
                    )
                } else {
                    None
                }
            },
            None => None,
        },
        None => None,
    }
}

/// A transaction input: the output it spends, its signature script, and a
/// 32-bit sequence number.
#[derive(Debug, PartialEq, Eq, Clone)]
pub struct TransactionInput {
    pub previous_output: OutPoint,
    pub script_sig: Script,
    pub sequence: u32,
}

impl View for TransactionInput {
    type V = InputModel;

    open spec fn view(&self) -> InputModel {
        InputModel {
            previous_output: self.previous_output@,
            script_sig: self.script_sig@,
            sequence: self.sequence,
        }
    }
}

impl DeepView for TransactionInput {
    type V = InputModel;

    open spec fn deep_view(&self) -> InputModel {
        self@
    }
}

impl TransactionInput {
    pub fn new(previous_output: OutPoint, script_sig: Script, sequence: u32) -> (r: Self)
        ensures
            r@ == (InputModel {
                previous_output: previous_output@,
                script_sig: script_sig@,
                sequence,
            }),
    {
        TransactionInput { previous_output, script_sig, sequence }
    }

    /// Serialize the three parts in order and concatenate them.
    pub fn to_bytes(&self) -> (r: Vec<u8>)
        ensures
            r@ == spec_input_encode(self@),
    {
        let mut bytes: Vec<u8> = Vec::new();
        let mut outpoint_bytes = self.previous_output.to_bytes();
        bytes.append(&mut outpoint_bytes);
        let mut script_bytes = self.script_sig.to_bytes();
        bytes.append(&mut script_bytes);
        let mut sequence_bytes = u32_to_le_bytes(self.sequence);
        bytes.append(&mut sequence_bytes);
        proof {
            assert(bytes@ =~= spec_input_encode(self@));
        }
        bytes
    }

    /// Parse a `TransactionInput` from the front of `bytes`: outpoint, then
    /// script, then four bytes of sequence. All-or-nothing: the first
    /// truncated part aborts the whole parse.
    pub fn from_bytes(bytes: &[u8]) -> (r: Result<(Self, usize), BitcoinError>)
        ensures
            match r {
                Ok(p) => spec_input_decode(bytes@) == Some((p.0@, p.1 as int))
                    && 41 <= p.1 <= bytes@.len(),
                Err(e) => spec_input_decode(bytes@) is None
                    && e == BitcoinError::InsufficientBytes,
            },
    {
        let (previous_output, outpoint_bytes) = match OutPoint::from_bytes(bytes) {
            Ok(p) => p,
            Err(e) => {
                return Err(e);
            },
        };
        let rest = slice_subrange(bytes, outpoint_bytes, bytes.len());
        let (script_sig, script_bytes) = match Script::from_bytes(rest) {
            Ok(p) => p,
            Err(e) => {
                return Err(e);
            },
        };
        let consumed = outpoint_bytes + script_bytes;
        if bytes.len() - consumed < 4 {
            return Err(BitcoinError::InsufficientBytes);
        }
        let sequence = u32_from_le_bytes(slice_subrange(bytes, consumed, consumed + 4));
        let r = TransactionInput::new(previous_output, script_sig, sequence);
        proof {
            assert(r@ =~= spec_input_decode(bytes@)->Some_0.0);
        }
        Ok((r, consumed + 4))
    }
}

/// A decoded input consumed at least 41 bytes (36 of outpoint, one of
/// length prefix, 4 of sequence) and no more than the buffer holds.
pub proof fn lemma_input_decode_bounds(s: Seq<u8>)
    ensures
        spec_input_decode(s) matches Some(p) ==> 41 <= p.1 <= s.len(),
{
    if spec_input_decode(s) is Some {
        lemma_script_decode_bounds(s.subrange(36, s.len() as int));
    }
}

/// Truncation: any buffer shorter than an input's minimum 41-byte width
/// fails.
pub proof fn lemma_input_truncated(s: Seq<u8>)
    requires
        s.len() < 41,
    ensures
        spec_input_decode(s) is None,
{
    if s.len() >= 36 {
        lemma_script_decode_bounds(s.subrange(36, s.len() as int));
    }
}

/// Round trip: decoding the encoding of a well-formed input, with any
/// trailing bytes after it, yields it back and consumes exactly the
/// encoding's length.
pub proof fn lemma_input_round_trip(i: InputModel, t: Seq<u8>)
    requires
        spec_input_wf(i),
    ensures
        spec_input_decode(spec_input_encode(i) + t) == Some(
            (i, spec_input_encode(i).len() as int),
        ),
{
    lemma_auto_spec_u32_to_from_le_bytes();
    let script_enc = spec_script_encode(i.script_sig);
    let seq_enc = spec_u32_to_le_bytes(i.sequence);
    let s = spec_input_encode(i) + t;
    assert(s =~= spec_outpoint_encode(i.previous_output) + (script_enc + (seq_enc + t)));
    lemma_outpoint_round_trip(i.previous_output, script_enc + (seq_enc + t));
    assert(s.subrange(36, s.len() as int) =~= script_enc + (seq_enc + t));
    lemma_script_round_trip(i.script_sig, seq_enc + t);
    let c = 36 + script_enc.len() as int;
    assert(s.subrange(c, c + 4) =~= seq_enc);
    assert(spec_input_decode(s)->Some_0.0 =~= i);
}

} // verus!
