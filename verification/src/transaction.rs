//! The top-level transaction record: version, inputs, lock time.
use vstd::prelude::*;
use vstd::bytes::lemma_auto_spec_u32_to_from_le_bytes;
use vstd::bytes::spec_u32_from_le_bytes;
use vstd::bytes::spec_u32_to_le_bytes;
use vstd::bytes::u32_from_le_bytes;
use vstd::bytes::u32_to_le_bytes;
use vstd::slice::slice_subrange;

use crate::compact_size::CompactSize;
use crate::compact_size::lemma_compact_size_round_trip;
use crate::compact_size::spec_compact_size_decode;
use crate::compact_size::spec_compact_size_encode;
use crate::error::BitcoinError;
use crate::tx_input::InputModel;
use crate::tx_input::TransactionInput;
use crate::tx_input::lemma_input_decode_bounds;
use crate::tx_input::lemma_input_round_trip;
use crate::tx_input::spec_input_decode;
use crate::tx_input::spec_input_encode;
use crate::tx_input::spec_input_wf;

verus! {

/// Mathematical model of a `BitcoinTransaction`.
#[verifier::ext_equal]
pub ghost struct TxModel {
    pub version: u32,
    pub inputs: Seq<InputModel>,
    pub lock_time: u32,
}

/// A well-formed transaction: its input count fits in a `u64` and every
/// input is well-formed. Every executable `BitcoinTransaction` satisfies
/// this.
pub open spec fn spec_tx_wf(t: TxModel) -> bool {
    t.inputs.len() <= u64::MAX && forall|j: int|
        0 <= j < t.inputs.len() ==> spec_input_wf(#[trigger] t.inputs[j])
}

/// The concatenation of the encodings of a sequence of inputs, in order.
pub open spec fn spec_inputs_encode(inputs: Seq<InputModel>) -> Seq<u8>
    decreases inputs.len(),
{
    if inputs.len() == 0 {
        Seq::empty()
    } else {
        spec_input_encode(inputs[0]) + spec_inputs_encode(inputs.drop_first())
    }
}

/// The encoding: version, CompactSize input count, each input in order,
/// lock time.
pub open spec fn spec_tx_encode(t: TxModel) -> Seq<u8> {
    spec_u32_to_le_bytes(t.version) + spec_compact_size_encode(t.inputs.len() as u64)
        + spec_inputs_encode(t.inputs) + spec_u32_to_le_bytes(t.lock_time)
}

/// What decoding exactly `k` consecutive inputs from the front of `s`
/// yields: the inputs and the total consumed length, or `None` as soon as
/// one of them is truncated.
pub open spec fn spec_inputs_decode(s: Seq<u8>, k: nat) -> Option<(Seq<InputModel>, int)>
    decreases k,
{
    if k == 0 {
        Some((Seq::empty(), 0int))
    } else {
        match spec_input_decode(s) {
            Some((i, n)) => match spec_inputs_decode(
                s.subrange(n, s.len() as int),
                (k - 1) as nat,
            ) {
                Some((rest, m)) => Some((seq![i] + rest, n + m)),
                None => None,
            },
            None => None,
        }
    }
}

/// What decoding a `BitcoinTransaction` from the front of `s` yields. The
/// decoded input count drives how many inputs are read; trailing bytes
/// after the lock time are left unconsumed.
pub open spec fn spec_tx_decode(s: Seq<u8>) -> Option<(TxModel, int)> {
    if s.len() < 4 {
        None
    } else {
        match spec_compact_size_decode(s.subrange(4, s.len() as int)) {
            Some((count, nc)) => match spec_inputs_decode(
                s.subrange(4 + nc, s.len() as int),
                count as nat,
            ) {
                Some((inputs, ni)) => {
                    let c = 4 + nc + ni;
                    if s.len() >= c + 4 {
                        Some(
                            (
                                TxModel {
                                    version: spec_u32_from_le_bytes(s.subrange(0, 4)),
                                    inputs,
                                    lock_time: spec_u32_from_le_bytes(s.subrange(c, c + 4)),
                                },
                                c + 4,
                            ),
                        )
                    } else {
                        None
                    }
                },
                None => None,
            },
            None => None,
        }
    }
}

/// A transaction: a 32-bit version, an ordered sequence of inputs, and a
/// 32-bit lock time.
#[derive(Debug, PartialEq, Eq, Clone)]
pub struct BitcoinTransaction {
    pub version: u32,
    pub inputs: Vec<TransactionInput>,
    pub lock_time: u32,
}

impl View for BitcoinTransaction {
    type V = TxModel;

    open spec fn view(&self) -> TxModel {
        TxModel {
            version: self.version,
            inputs: self.inputs.deep_view(),
            lock_time: self.lock_time,
        }
    }
}

impl BitcoinTransaction {
    pub fn new(version: u32, inputs: Vec<TransactionInput>, lock_time: u32) -> (r: Self)
        ensures
            r@ == (TxModel { version, inputs: inputs.deep_view(), lock_time }),
    {
        BitcoinTransaction { version, inputs, lock_time }
    }

    /// Serialize: version, input count as CompactSize, each input in order,
    /// lock time.
    pub fn to_bytes(&self) -> (r: Vec<u8>)
        ensures
            r@ == spec_tx_encode(self@),
    {
        let mut bytes: Vec<u8> = Vec::new();
        let mut version_bytes = u32_to_le_bytes(self.version);
        bytes.append(&mut version_bytes);
        let input_count = CompactSize::new(self.inputs.len() as u64);
        let mut count_bytes = input_count.to_bytes();
        bytes.append(&mut count_bytes);
        let ghost header = bytes@;
        let mut idx: usize = 0;
        while idx < self.inputs.len()
            invariant
                idx <= self.inputs.len(),
                bytes@ == header + spec_inputs_encode(self.inputs.deep_view().take(idx as int)),
                header == spec_u32_to_le_bytes(self.version) + spec_compact_size_encode(
                    self.inputs.len() as u64,
                ),
            decreases self.inputs.len() - idx,
        {
            let mut input_bytes = self.inputs[idx].to_bytes();
            bytes.append(&mut input_bytes);
            proof {
                let dv = self.inputs.deep_view();
                assert(dv.take(idx + 1) =~= dv.take(idx as int).push(dv[idx as int]));
                lemma_inputs_encode_push(dv.take(idx as int), dv[idx as int]);
            }
            idx += 1;
        }
        proof {
            assert(self.inputs.deep_view().take(self.inputs.len() as int) =~= self
                .inputs
                .deep_view());
        }
        let mut lock_time_bytes = u32_to_le_bytes(self.lock_time);
        bytes.append(&mut lock_time_bytes);
        proof {
            assert(bytes@ =~= spec_tx_encode(self@));
        }
        bytes
    }

    /// Parse a `BitcoinTransaction` from the front of `bytes`: version,
    /// input count, exactly that many inputs, lock time. The first
    /// truncated part aborts the whole parse; trailing bytes after the lock
    /// time are not an error and stay unconsumed.
    pub fn from_bytes(bytes: &[u8]) -> (r: Result<(Self, usize), BitcoinError>)
        ensures
            match r {
                Ok(p) => spec_tx_decode(bytes@) == Some((p.0@, p.1 as int))
                    && 9 <= p.1 <= bytes@.len(),
                Err(e) => spec_tx_decode(bytes@) is None
                    && e == BitcoinError::InsufficientBytes,
            },
    {
        if bytes.len() < 4 {
            return Err(BitcoinError::InsufficientBytes);
        }
        let version = u32_from_le_bytes(slice_subrange(bytes, 0, 4));
        let after_version = slice_subrange(bytes, 4, bytes.len());
        let (input_count, count_bytes) = match CompactSize::from_bytes(after_version) {
            Ok(p) => p,
            Err(e) => {
                return Err(e);
            },
        };
        let mut consumed: usize = 4 + count_bytes;
        let ghost body_start = consumed as int;
        let ghost body = bytes@.subrange(body_start, bytes@.len() as int);
        let ghost count = input_count.value as nat;
        let mut inputs: Vec<TransactionInput> = Vec::new();
        let mut i: u64 = 0;
        while i < input_count.value
            invariant
                i <= input_count.value,
                inputs.deep_view().len() == i,
                4 <= body_start <= consumed <= bytes@.len(),
                body_start == 4 + count_bytes,
                count == input_count.value as nat,
                body == bytes@.subrange(body_start, bytes@.len() as int),
                spec_compact_size_decode(bytes@.subrange(4, bytes@.len() as int)) == Some(
                    (input_count.value, count_bytes as int),
                ),
                spec_inputs_decode(body, count) == (match spec_inputs_decode(
                    bytes@.subrange(consumed as int, bytes@.len() as int),
                    (input_count.value - i) as nat,
                ) {
                    Some(p) => Some(
                        (inputs.deep_view() + p.0, (consumed - body_start) + p.1),
                    ),
                    None => None::<(Seq<InputModel>, int)>,
                }),
            decreases input_count.value - i,
        {
            let rest = slice_subrange(bytes, consumed, bytes.len());
            let ghost cur = bytes@.subrange(consumed as int, bytes@.len() as int);
            let ghost k_left = (input_count.value - i) as nat;
            let (input, input_bytes) = match TransactionInput::from_bytes(rest) {
                Ok(p) => p,
                Err(e) => {
                    proof {
                        assert(spec_inputs_decode(cur, k_left) is None);
                        assert(spec_inputs_decode(body, count) is None);
                        assert(spec_tx_decode(bytes@) is None);
                    }
                    return Err(e);
                },
            };
            let ghost prev_dv = inputs.deep_view();
            inputs.push(input);
            proof {
                assert(inputs.deep_view() =~= prev_dv.push(input@));
                let next = bytes@.subrange(consumed + input_bytes, bytes@.len() as int);
                assert(cur.subrange(input_bytes as int, cur.len() as int) =~= next);
                let k_next = (k_left - 1) as nat;
                if spec_inputs_decode(next, k_next) is Some {
                    let p2 = spec_inputs_decode(next, k_next)->Some_0;
                    assert(spec_inputs_decode(cur, k_left) == Some(
                        (seq![input@] + p2.0, input_bytes + p2.1),
                    ));
                    assert(prev_dv + (seq![input@] + p2.0) =~= prev_dv.push(input@) + p2.0);
                } else {
                    assert(spec_inputs_decode(cur, k_left) is None);
                }
            }
            consumed = consumed + input_bytes;
            i = i + 1;
        }
        proof {
            let remaining = bytes@.subrange(consumed as int, bytes@.len() as int);
            assert(spec_inputs_decode(remaining, 0) == Some((Seq::<InputModel>::empty(), 0int)));
            assert(inputs.deep_view() + Seq::<InputModel>::empty() =~= inputs.deep_view());
            assert(spec_inputs_decode(body, count) == Some(
                (inputs.deep_view(), consumed - body_start),
            ));
        }
        if bytes.len() - consumed < 4 {
            return Err(BitcoinError::InsufficientBytes);
        }
        let lock_time = u32_from_le_bytes(slice_subrange(bytes, consumed, consumed + 4));
        let r = BitcoinTransaction::new(version, inputs, lock_time);
        proof {
            assert(r@ =~= spec_tx_decode(bytes@)->Some_0.0);
        }
        Ok((r, consumed + 4))
    }
}

/// Appending one input to a sequence appends its encoding to the
/// sequence's encoding.
pub proof fn lemma_inputs_encode_push(inputs: Seq<InputModel>, x: InputModel)
    ensures
        spec_inputs_encode(inputs.push(x)) == spec_inputs_encode(inputs) + spec_input_encode(x),
    decreases inputs.len(),
{
    if inputs.len() == 0 {
        assert(inputs.push(x)[0] == x);
        assert(inputs.push(x).drop_first() =~= Seq::<InputModel>::empty());
        assert(spec_inputs_encode(inputs.push(x)) == spec_input_encode(x) + spec_inputs_encode(
            Seq::<InputModel>::empty(),
        ));
        assert(spec_input_encode(x) + Seq::<u8>::empty() =~= spec_input_encode(x));
        assert(spec_inputs_encode(inputs) + spec_input_encode(x) =~= spec_input_encode(x));
    } else {
        lemma_inputs_encode_push(inputs.drop_first(), x);
        assert(inputs.push(x)[0] == inputs[0]);
        assert(inputs.push(x).drop_first() =~= inputs.drop_first().push(x));
        assert(spec_inputs_encode(inputs.push(x)) == spec_input_encode(inputs[0])
            + spec_inputs_encode(inputs.drop_first().push(x)));
        assert(spec_inputs_encode(inputs.push(x)) == spec_input_encode(inputs[0]) + (
        spec_inputs_encode(inputs.drop_first()) + spec_input_encode(x)));
        assert(spec_input_encode(inputs[0]) + (spec_inputs_encode(inputs.drop_first())
            + spec_input_encode(x)) =~= (spec_input_encode(inputs[0]) + spec_inputs_encode(
            inputs.drop_first(),
        )) + spec_input_encode(x));
        assert(spec_inputs_encode(inputs) == spec_input_encode(inputs[0]) + spec_inputs_encode(
            inputs.drop_first(),
        ));
    }
}

/// A sequence of decoded inputs has exactly the requested count and
/// consumed no more than the buffer holds.
pub proof fn lemma_inputs_decode_bounds(s: Seq<u8>, k: nat)
    ensures
        spec_inputs_decode(s, k) matches Some(p) ==> p.0.len() == k && 0 <= p.1 <= s.len(),
    decreases k,
{
    if k > 0 && spec_inputs_decode(s, k) is Some {
        lemma_input_decode_bounds(s);
        let n = spec_input_decode(s)->Some_0.1;
        lemma_inputs_decode_bounds(s.subrange(n, s.len() as int), (k - 1) as nat);
    }
}

/// Round trip for input sequences: decoding the concatenated encodings of
/// `inputs.len()` well-formed inputs, with any trailing bytes after them,
/// yields them back and consumes exactly the encodings' length.
#[verifier::rlimit(50)]
pub proof fn lemma_inputs_round_trip(inputs: Seq<InputModel>, t: Seq<u8>)
    requires
        forall|j: int| 0 <= j < inputs.len() ==> spec_input_wf(#[trigger] inputs[j]),
    ensures
        spec_inputs_decode(spec_inputs_encode(inputs) + t, inputs.len() as nat) == Some(
            (inputs, spec_inputs_encode(inputs).len() as int),
        ),
    decreases inputs.len(),
{
    if inputs.len() == 0 {
        assert(Seq::<InputModel>::empty() =~= inputs);
    } else {
        let head = inputs[0];
        let rest = inputs.drop_first();
        let head_enc = spec_input_encode(head);
        let rest_enc = spec_inputs_encode(rest);
        let s = spec_inputs_encode(inputs) + t;
        assert(s =~= head_enc + (rest_enc + t));
        lemma_input_round_trip(head, rest_enc + t);
        assert(spec_input_decode(s) == Some((head, head_enc.len() as int)));
        assert(s.subrange(head_enc.len() as int, s.len() as int) =~= rest_enc + t);
        lemma_inputs_round_trip(rest, t);
        assert(spec_inputs_decode(rest_enc + t, rest.len() as nat) == Some(
            (rest, rest_enc.len() as int),
        ));
        assert(seq![head] + rest =~= inputs);
        assert(spec_inputs_decode(s, inputs.len() as nat) == Some(
            (inputs, head_enc.len() + rest_enc.len() as int),
        ));
        assert(spec_inputs_encode(inputs).len() == head_enc.len() + rest_enc.len());
    }
}

/// Truncation: any buffer shorter than a transaction's minimum 9-byte
/// width (version, at least one count byte, lock time) fails.
pub proof fn lemma_transaction_truncated(s: Seq<u8>)
    requires
        s.len() < 9,
    ensures
        spec_tx_decode(s) is None,
{
    if s.len() >= 4 {
        let sub = s.subrange(4, s.len() as int);
        if spec_compact_size_decode(sub) is Some {
            let count = spec_compact_size_decode(sub)->Some_0.0;
            let nc = spec_compact_size_decode(sub)->Some_0.1;
            lemma_inputs_decode_bounds(s.subrange(4 + nc, s.len() as int), count as nat);
        }
    }
}

/// Round trip: decoding the encoding of a well-formed transaction, with
/// any trailing bytes after it, yields it back and consumes exactly the
/// encoding's length — strictly less than the buffer's length whenever
/// trailing bytes are present.
pub proof fn lemma_transaction_round_trip(x: TxModel, t: Seq<u8>)
    requires
        spec_tx_wf(x),
    ensures
        spec_tx_decode(spec_tx_encode(x) + t) == Some(
            (x, spec_tx_encode(x).len() as int),
        ),
        t.len() > 0 ==> spec_tx_encode(x).len() < (spec_tx_encode(x) + t).len(),
{
    lemma_auto_spec_u32_to_from_le_bytes();
    let count = x.inputs.len() as u64;
    let version_enc = spec_u32_to_le_bytes(x.version);
    let count_enc = spec_compact_size_encode(count);
    let inputs_enc = spec_inputs_encode(x.inputs);
    let lock_enc = spec_u32_to_le_bytes(x.lock_time);
    let s = spec_tx_encode(x) + t;
    assert(s.subrange(0, 4) =~= version_enc);
    assert(s.subrange(4, s.len() as int) =~= count_enc + (inputs_enc + (lock_enc + t)));
    lemma_compact_size_round_trip(count, inputs_enc + (lock_enc + t));
    let nc = count_enc.len() as int;
    assert(s.subrange(4 + nc, s.len() as int) =~= inputs_enc + (lock_enc + t));
    lemma_inputs_round_trip(x.inputs, lock_enc + t);
    let c = 4 + nc + inputs_enc.len() as int;
    assert(s.subrange(c, c + 4) =~= lock_enc);
    assert(spec_tx_decode(s)->Some_0.0 =~= x);
}

/// A zero-input transaction encodes to exactly nine bytes — version, one
/// count byte, lock time — and decoding consumes exactly those nine, with
/// an empty input sequence, whatever follows them.
pub proof fn lemma_zero_input_transaction(x: TxModel, t: Seq<u8>)
    requires
        x.inputs.len() == 0,
    ensures
        spec_tx_encode(x).len() == 9,
        spec_tx_decode(spec_tx_encode(x) + t) == Some((x, 9int)),
{
    lemma_auto_spec_u32_to_from_le_bytes();
    lemma_transaction_round_trip(x, t);
}

/// The view of every executable transaction is well-formed, so the round
/// trip law applies to every value `to_bytes` can be called on.
pub proof fn lemma_transaction_view_wf(tx: &BitcoinTransaction)
    ensures
        spec_tx_wf(tx@),
{
    broadcast use vstd::std_specs::vec::axiom_spec_len;

    assert(vstd::std_specs::vec::spec_vec_len(&tx.inputs) == tx.inputs@.len());
    assert forall|j: int| 0 <= j < tx@.inputs.len() implies spec_input_wf(
        #[trigger] tx@.inputs[j],
    ) by {
        let inp = tx.inputs@[j];
        assert(tx@.inputs[j] == inp@);
        assert(vstd::std_specs::vec::spec_vec_len(&inp.script_sig.bytes) == inp
            .script_sig
            .bytes@
            .len());
    }
}

} // verus!
