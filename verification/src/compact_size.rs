//! The CompactSize variable-length integer encoding.
//!
//! A `u64` is encoded with a prefix-byte discriminated scheme: values up to
//! 252 are a single byte; larger values are `0xFD`, `0xFE` or `0xFF` followed
//! by a 2-, 4- or 8-byte little-endian payload. Encoding always picks the
//! minimal branch for the value's magnitude; decoding is permissive and
//! accepts any branch whose payload is present.
use vstd::prelude::*;
use vstd::bytes::lemma_auto_spec_u16_to_from_le_bytes;
use vstd::bytes::lemma_auto_spec_u32_to_from_le_bytes;
use vstd::bytes::lemma_auto_spec_u64_to_from_le_bytes;
use vstd::bytes::spec_u16_from_le_bytes;
use vstd::bytes::spec_u16_to_le_bytes;
use vstd::bytes::spec_u32_from_le_bytes;
use vstd::bytes::spec_u32_to_le_bytes;
use vstd::bytes::spec_u64_from_le_bytes;
use vstd::bytes::spec_u64_to_le_bytes;
use vstd::bytes::u16_from_le_bytes;
use vstd::bytes::u16_to_le_bytes;
use vstd::bytes::u32_from_le_bytes;
use vstd::bytes::u32_to_le_bytes;
use vstd::bytes::u64_from_le_bytes;
use vstd::bytes::u64_to_le_bytes;
use vstd::slice::slice_index_get;
use vstd::slice::slice_subrange;

use crate::error::BitcoinError;

verus! {

/// The canonical (minimal) encoding of a CompactSize value.
pub open spec fn spec_compact_size_encode(v: u64) -> Seq<u8> {
    if v <= 252 {
        seq![v as u8]
    } else if v <= 0xFFFF {
        seq![0xFDu8] + spec_u16_to_le_bytes(v as u16)
    } else if v <= 0xFFFF_FFFF {
        seq![0xFEu8] + spec_u32_to_le_bytes(v as u32)
    } else {
        seq![0xFFu8] + spec_u64_to_le_bytes(v)
    }
}

/// What decoding a CompactSize from the front of `s` yields: the value and
/// the number of bytes consumed, or `None` if `s` is too short for the
/// branch its first byte selects.
pub open spec fn spec_compact_size_decode(s: Seq<u8>) -> Option<(u64, int)> {
    if s.len() < 1 {
        None
    } else if s[0] <= 252 {
        Some((s[0] as u64, 1int))
    } else if s[0] == 0xFD {
        if s.len() < 3 {
            None
        } else {
            Some((spec_u16_from_le_bytes(s.subrange(1, 3)) as u64, 3int))
        }
    } else if s[0] == 0xFE {
        if s.len() < 5 {
            None
        } else {
            Some((spec_u32_from_le_bytes(s.subrange(1, 5)) as u64, 5int))
        }
    } else {
        if s.len() < 9 {
            None
        } else {
            Some((spec_u64_from_le_bytes(s.subrange(1, 9)), 9int))
        }
    }
}

/// A count or length carried on the wire in CompactSize form.
#[derive(Debug, PartialEq, Eq, Clone)]
pub struct CompactSize {
    pub value: u64,
}

impl View for CompactSize {
    type V = u64;

    open spec fn view(&self) -> u64 {
        self.value
    }
}

impl CompactSize {
    pub fn new(value: u64) -> (r: Self)
        ensures
            r.value == value,
    {
        CompactSize { value }
    }

    /// Serialize into the minimal prefix-discriminated form.
    pub fn to_bytes(&self) -> (r: Vec<u8>)
        ensures
            r@ == spec_compact_size_encode(self.value),
    {
        if self.value <= 252 {
            let mut bytes: Vec<u8> = Vec::new();
            bytes.push(self.value as u8);
            proof {
                assert(bytes@ =~= spec_compact_size_encode(self.value));
            }
            bytes
        } else if self.value <= 0xFFFF {
            let mut bytes: Vec<u8> = Vec::new();
            bytes.push(0xFD);
            let mut payload = u16_to_le_bytes(self.value as u16);
            bytes.append(&mut payload);
            proof {
                assert(bytes@ =~= spec_compact_size_encode(self.value));
            }
            bytes
        } else if self.value <= 0xFFFF_FFFF {
            let mut bytes: Vec<u8> = Vec::new();
            bytes.push(0xFE);
            let mut payload = u32_to_le_bytes(self.value as u32);
            bytes.append(&mut payload);
            proof {
                assert(bytes@ =~= spec_compact_size_encode(self.value));
            }
            bytes
        } else {
            let mut bytes: Vec<u8> = Vec::new();
            bytes.push(0xFF);
            let mut payload = u64_to_le_bytes(self.value);
            bytes.append(&mut payload);
            proof {
                assert(bytes@ =~= spec_compact_size_encode(self.value));
            }
            bytes
        }
    }

    /// Parse a CompactSize from the front of `bytes`, reporting the value and
    /// the number of bytes consumed.
    pub fn from_bytes(bytes: &[u8]) -> (r: Result<(Self, usize), BitcoinError>)
        ensures
            match r {
                Ok(p) => spec_compact_size_decode(bytes@) == Some((p.0.value, p.1 as int))
                    && 1 <= p.1 <= bytes@.len(),
                Err(e) => spec_compact_size_decode(bytes@) is None
                    && e == BitcoinError::InsufficientBytes,
            },
    {
        if bytes.len() == 0 {
            return Err(BitcoinError::InsufficientBytes);
        }
        let b0 = *slice_index_get(bytes, 0);
        if b0 <= 252 {
            Ok((CompactSize::new(b0 as u64), 1))
        } else if b0 == 0xFD {
            if bytes.len() < 3 {
                return Err(BitcoinError::InsufficientBytes);
            }
            let v = u16_from_le_bytes(slice_subrange(bytes, 1, 3));
            Ok((CompactSize::new(v as u64), 3))
        } else if b0 == 0xFE {
            if bytes.len() < 5 {
                return Err(BitcoinError::InsufficientBytes);
            }
            let v = u32_from_le_bytes(slice_subrange(bytes, 1, 5));
            Ok((CompactSize::new(v as u64), 5))
        } else {
            if bytes.len() < 9 {
                return Err(BitcoinError::InsufficientBytes);
            }
            let v = u64_from_le_bytes(slice_subrange(bytes, 1, 9));
            Ok((CompactSize::new(v), 9))
        }
    }
}

/// A decoded CompactSize consumed at least one byte and no more than the
/// buffer holds.
pub proof fn lemma_compact_size_decode_bounds(s: Seq<u8>)
    ensures
        spec_compact_size_decode(s) matches Some(p) ==> 1 <= p.1 <= s.len(),
{
}

/// Round trip: decoding the canonical encoding of `v`, with any trailing
/// bytes after it, yields `v` and consumes exactly the encoding's length.
pub proof fn lemma_compact_size_round_trip(v: u64, t: Seq<u8>)
    ensures
        spec_compact_size_decode(spec_compact_size_encode(v) + t) == Some(
            (v, spec_compact_size_encode(v).len() as int),
        ),
{
    let e = spec_compact_size_encode(v);
    let s = e + t;
    if v <= 252 {
        assert(s[0] == v as u8);
    } else if v <= 0xFFFF {
        lemma_auto_spec_u16_to_from_le_bytes();
        assert(s[0] == 0xFDu8);
        assert(s.subrange(1, 3) =~= spec_u16_to_le_bytes(v as u16));
        assert(spec_u16_from_le_bytes(spec_u16_to_le_bytes(v as u16)) == v as u16);
    } else if v <= 0xFFFF_FFFF {
        lemma_auto_spec_u32_to_from_le_bytes();
        assert(s[0] == 0xFEu8);
        assert(s.subrange(1, 5) =~= spec_u32_to_le_bytes(v as u32));
        assert(spec_u32_from_le_bytes(spec_u32_to_le_bytes(v as u32)) == v as u32);
    } else {
        lemma_auto_spec_u64_to_from_le_bytes();
        assert(s[0] == 0xFFu8);
        assert(s.subrange(1, 9) =~= spec_u64_to_le_bytes(v));
    }
}

/// The encoding's length is determined by the value's magnitude range.
pub proof fn lemma_compact_size_encode_len(v: u64)
    ensures
        v <= 252 ==> spec_compact_size_encode(v).len() == 1,
        253 <= v <= 0xFFFF ==> spec_compact_size_encode(v).len() == 3,
        0x1_0000 <= v <= 0xFFFF_FFFF ==> spec_compact_size_encode(v).len() == 5,
        v > 0xFFFF_FFFF ==> spec_compact_size_encode(v).len() == 9,
{
    if 253 <= v <= 0xFFFF {
        lemma_auto_spec_u16_to_from_le_bytes();
    } else if 0x1_0000 <= v <= 0xFFFF_FFFF {
        lemma_auto_spec_u32_to_from_le_bytes();
    } else if v > 0xFFFF_FFFF {
        lemma_auto_spec_u64_to_from_le_bytes();
    }
}

} // verus!
