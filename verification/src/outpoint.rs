//! A reference to a previous transaction output: txid plus output index.
use vstd::prelude::*;
use vstd::bytes::lemma_auto_spec_u32_to_from_le_bytes;
use vstd::bytes::spec_u32_from_le_bytes;
use vstd::bytes::spec_u32_to_le_bytes;
use vstd::bytes::u32_from_le_bytes;
use vstd::bytes::u32_to_le_bytes;
use vstd::slice::slice_index_get;
use vstd::slice::slice_subrange;

use crate::error::BitcoinError;
use crate::txid::Txid;

verus! {

/// Mathematical model of an `OutPoint`: the txid's bytes and the output
/// index.
#[verifier::ext_equal]
pub ghost struct OutPointModel {
    pub txid: Seq<u8>,
    pub vout: u32,
}

/// A well-formed outpoint carries exactly 32 txid bytes. Every executable
/// `OutPoint` satisfies this by construction.
pub open spec fn spec_outpoint_wf(op: OutPointModel) -> bool {
    op.txid.len() == 32
}

/// The fixed 36-byte encoding: txid bytes then the index, little-endian.
pub open spec fn spec_outpoint_encode(op: OutPointModel) -> Seq<u8> {
    op.txid + spec_u32_to_le_bytes(op.vout)
}

/// What decoding an `OutPoint` from the front of `s` yields: 36 bytes are
/// required and always exactly 36 are consumed.
pub open spec fn spec_outpoint_decode(s: Seq<u8>) -> Option<(OutPointModel, int)> {
    if s.len() < 36 {
        None
    } else {
        Some(
            (
                OutPointModel {
                    txid: s.subrange(0, 32),
                    vout: spec_u32_from_le_bytes(s.subrange(32, 36)),
                },
                36int,
            ),
        )
    }
}

/// A previous-output reference: a `Txid` and a 32-bit output index.
#[derive(Debug, PartialEq, Eq, Clone)]
pub struct OutPoint {
    pub txid: Txid,
    pub vout: u32,
}

impl View for OutPoint {
    type V = OutPointModel;

    open spec fn view(&self) -> OutPointModel {
        OutPointModel { txid: self.txid@, vout: self.vout }
    }
}

impl OutPoint {
    pub fn new(txid: [u8; 32], vout: u32) -> (r: Self)
        ensures
            r@ == (OutPointModel { txid: txid@, vout }),
    {
        OutPoint { txid: Txid(txid), vout }
    }

    /// Serialize as txid bytes followed by the index — fixed 36 bytes.
    pub fn to_bytes(&self) -> (r: Vec<u8>)
        ensures
            r@ == spec_outpoint_encode(self@),
            r@.len() == 36,
    {
        let mut bytes: Vec<u8> = Vec::new();
        bytes.extend_from_slice(self.txid.0.as_slice());
        let mut vout_bytes = u32_to_le_bytes(self.vout);
        bytes.append(&mut vout_bytes);
        proof {
            lemma_auto_spec_u32_to_from_le_bytes();
            assert(bytes@ =~= spec_outpoint_encode(self@));
        }
        bytes
    }

    /// Parse an `OutPoint` from the front of `bytes`: fails only when fewer
    /// than 36 bytes remain, and always consumes exactly 36.
    pub fn from_bytes(bytes: &[u8]) -> (r: Result<(Self, usize), BitcoinError>)
        ensures
            match r {
                Ok(p) => spec_outpoint_decode(bytes@) == Some((p.0@, p.1 as int)) && p.1 == 36,
                Err(e) => spec_outpoint_decode(bytes@) is None
                    && e == BitcoinError::InsufficientBytes,
            },
    {
        if bytes.len() < 36 {
            return Err(BitcoinError::InsufficientBytes);
        }
        let mut txid: [u8; 32] = [0u8; 32];
        let mut i: usize = 0;
        while i < 32
            invariant
                i <= 32,
                bytes@.len() >= 36,
                forall|j: int| 0 <= j < i ==> txid@[j] == bytes@[j],
            decreases 32 - i,
        {
            txid[i] = *slice_index_get(bytes, i);
            i += 1;
        }
        let vout = u32_from_le_bytes(slice_subrange(bytes, 32, 36));
        let r = OutPoint { txid: Txid(txid), vout };
        proof {
            assert(txid@ =~= bytes@.subrange(0, 32));
            assert(r@ =~= spec_outpoint_decode(bytes@)->Some_0.0);
        }
        Ok((r, 36))
    }
}

/// A decoded outpoint consumed exactly 36 bytes, within the buffer.
pub proof fn lemma_outpoint_decode_bounds(s: Seq<u8>)
    ensures
        spec_outpoint_decode(s) matches Some(p) ==> p.1 == 36 <= s.len(),
{
}

/// Truncation: any buffer shorter than the fixed 36-byte width fails.
pub proof fn lemma_outpoint_truncated(s: Seq<u8>)
    requires
        s.len() < 36,
    ensures
        spec_outpoint_decode(s) is None,
{
}

/// Round trip: decoding the encoding of a well-formed outpoint, with any
/// trailing bytes after it, yields it back and consumes exactly 36 bytes.
pub proof fn lemma_outpoint_round_trip(op: OutPointModel, t: Seq<u8>)
    requires
        spec_outpoint_wf(op),
    ensures
        spec_outpoint_decode(spec_outpoint_encode(op) + t) == Some((op, 36int)),
{
    lemma_auto_spec_u32_to_from_le_bytes();
    let s = spec_outpoint_encode(op) + t;
    assert(s.subrange(0, 32) =~= op.txid);
    assert(s.subrange(32, 36) =~= spec_u32_to_le_bytes(op.vout));
    assert(spec_outpoint_decode(s)->Some_0.0 =~= op);
}

} // verus!
