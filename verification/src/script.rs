//! A length-prefixed opaque byte blob.
use vstd::prelude::*;
use vstd::slice::slice_subrange;
use vstd::slice::slice_to_vec;

use crate::compact_size::CompactSize;
use crate::compact_size::lemma_compact_size_round_trip;
use crate::compact_size::spec_compact_size_decode;
use crate::compact_size::spec_compact_size_encode;
use crate::error::BitcoinError;

verus! {

/// The encoding of a script: its length as a CompactSize, then the raw
/// bytes. Meaningful when the length fits in a `u64`, which holds of every
/// executable `Script`.
pub open spec fn spec_script_encode(s: Seq<u8>) -> Seq<u8> {
    spec_compact_size_encode(s.len() as u64) + s
}

/// What decoding a `Script` from the front of `s` yields: the payload bytes
/// and the total number of bytes consumed (length prefix plus payload), or
/// `None` when the prefix is truncated or fewer payload bytes remain than
/// the prefix declares.
pub open spec fn spec_script_decode(s: Seq<u8>) -> Option<(Seq<u8>, int)> {
    match spec_compact_size_decode(s) {
        Some((len, n)) => if s.len() >= n + len {
            Some((s.subrange(n, n + len), n + len))
        } else {
            None
        },
        None => None,
    }
}

/// An owned byte sequence of arbitrary length, with no interpretation of
/// its contents.
#[derive(Debug, PartialEq, Eq, Clone)]
pub struct Script {
    pub bytes: Vec<u8>,
}

impl View for Script {
    type V = Seq<u8>;

    open spec fn view(&self) -> Seq<u8> {
        self.bytes@
    }
}

impl Script {
    pub fn new(bytes: Vec<u8>) -> (r: Self)
        ensures
            r@ == bytes@,
    {
        Script { bytes }
    }

    /// Serialize as a CompactSize length prefix followed by the raw bytes.
    pub fn to_bytes(&self) -> (r: Vec<u8>)
        ensures
            r@ == spec_script_encode(self@),
    {
        let length = CompactSize::new(self.bytes.len() as u64);
        let mut result = length.to_bytes();
        result.extend_from_slice(self.bytes.as_slice());
        result
    }

    /// Parse a `Script` from the front of `bytes`: the declared payload
    /// length is bounded only by what the buffer actually holds.
    pub fn from_bytes(bytes: &[u8]) -> (r: Result<(Self, usize), BitcoinError>)
        ensures
            match r {
                Ok(p) => spec_script_decode(bytes@) == Some((p.0@, p.1 as int))
                    && 1 <= p.1 <= bytes@.len(),
                Err(e) => spec_script_decode(bytes@) is None
                    && e == BitcoinError::InsufficientBytes,
            },
    {
        let (length, length_bytes) = match CompactSize::from_bytes(bytes) {
            Ok(p) => p,
            Err(e) => {
                return Err(e);
            },
        };
        let available = bytes.len() - length_bytes;
        if (available as u64) < length.value {
            return Err(BitcoinError::InsufficientBytes);
        }
        let script_length = length.value as usize;
        let script_bytes = slice_to_vec(
            slice_subrange(bytes, length_bytes, length_bytes + script_length),
        );
        Ok((Script::new(script_bytes), length_bytes + script_length))
    }
}

/// A decoded script consumed at least its one-byte length prefix and no
/// more than the buffer holds.
pub proof fn lemma_script_decode_bounds(s: Seq<u8>)
    ensures
        spec_script_decode(s) matches Some(p) ==> 1 <= p.1 <= s.len() && p.0.len() < p.1,
{
}

/// Truncation: the empty buffer fails, and so does a buffer holding fewer
/// payload bytes than its length prefix declares.
pub proof fn lemma_script_truncated(s: Seq<u8>)
    ensures
        s.len() == 0 ==> spec_script_decode(s) is None,
        spec_compact_size_decode(s) matches Some(p) && s.len() < p.1 + p.0
            ==> spec_script_decode(s) is None,
{
}

/// A script whose length needs more than one byte but fits in two uses the
/// `0xFD` branch for its length prefix: one prefix byte, two length bytes,
/// then the payload.
pub proof fn lemma_script_two_byte_prefix(p: Seq<u8>)
    requires
        253 <= p.len() <= 0xFFFF,
    ensures
        spec_script_encode(p)[0] == 0xFDu8,
        spec_script_encode(p).len() == 3 + p.len(),
{
    vstd::bytes::lemma_auto_spec_u16_to_from_le_bytes();
}

/// Round trip: decoding the encoding of any payload whose length fits in a
/// `u64`, with any trailing bytes after it, yields the payload back and
/// consumes exactly the encoding's length.
pub proof fn lemma_script_round_trip(p: Seq<u8>, t: Seq<u8>)
    requires
        p.len() <= u64::MAX,
    ensures
        spec_script_decode(spec_script_encode(p) + t) == Some(
            (p, spec_script_encode(p).len() as int),
        ),
{
    let len = p.len() as u64;
    let prefix = spec_compact_size_encode(len);
    let s = spec_script_encode(p) + t;
    assert(s =~= prefix + (p + t));
    lemma_compact_size_round_trip(len, p + t);
    assert(spec_compact_size_decode(s) == Some((len, prefix.len() as int)));
    assert(s.subrange(prefix.len() as int, prefix.len() + len) =~= p);
}

} // verus!
