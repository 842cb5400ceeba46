//! The 32-byte transaction identifier.
use vstd::prelude::*;

use crate::error::BitcoinError;
use crate::hex_text::hex_decode;
use crate::hex_text::hex_encode;
use crate::hex_text::lemma_hex_decode_len;
use crate::hex_text::lemma_hex_round_trip;
use crate::hex_text::spec_hex_decode;
use crate::hex_text::spec_hex_encode;
use crate::hex_text::spec_is_hex_digit;

verus! {

/// An opaque 32-byte identifier. On the wire it is raw bytes, order
/// preserved; its human-readable form is lowercase hex text.
#[derive(Debug, PartialEq, Eq, Clone)]
pub struct Txid(pub [u8; 32]);

impl View for Txid {
    type V = Seq<u8>;

    open spec fn view(&self) -> Seq<u8> {
        self.0@
    }
}

impl Txid {
    /// Render as 64 lowercase hex digits, byte order preserved.
    pub fn to_hex(&self) -> (r: String)
        ensures
            r@ == spec_hex_encode(self@),
            r@.len() == 64,
    {
        proof {
            lemma_hex_round_trip(self@);
        }
        hex_encode(self.0.as_slice())
    }

    /// Parse from hex text. Succeeds exactly on 64 hex digits (upper or
    /// lower case accepted); anything else — a non-hex character, or text
    /// decoding to other than 32 bytes — is `InvalidFormat`.
    pub fn from_hex(text: &str) -> (r: Result<Txid, BitcoinError>)
        ensures
            match r {
                Ok(t) => text@.len() == 64 && (forall|i: int|
                    0 <= i < text@.len() ==> spec_is_hex_digit(#[trigger] text@[i])) && t@
                    == spec_hex_decode(text@),
                Err(e) => e == BitcoinError::InvalidFormat && !(text@.len() == 64 && forall|
                    i: int,
                |
                    0 <= i < text@.len() ==> spec_is_hex_digit(#[trigger] text@[i])),
            },
    {
        let bytes = match hex_decode(text) {
            Ok(b) => b,
            Err(_) => {
                return Err(BitcoinError::InvalidFormat);
            },
        };
        proof {
            lemma_hex_decode_len(text@);
        }
        if bytes.len() != 32 {
            return Err(BitcoinError::InvalidFormat);
        }
        let mut id: [u8; 32] = [0u8; 32];
        let mut i: usize = 0;
        while i < 32
            invariant
                i <= 32,
                bytes@.len() == 32,
                forall|j: int| 0 <= j < i ==> id@[j] == bytes@[j],
            decreases 32 - i,
        {
            id[i] = bytes[i];
            i += 1;
        }
        proof {
            assert(id@ =~= bytes@);
        }
        Ok(Txid(id))
    }
}

} // verus!
