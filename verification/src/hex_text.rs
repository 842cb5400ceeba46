//! Hex text conversion, used for the human-readable form of a `Txid`.
//!
//! The conversions themselves are performed by the `hex` crate; this module
//! states exactly what they produce, as spec functions over byte and
//! character sequences, and proves that they invert each other.
use vstd::prelude::*;

verus! {

/// The lowercase hex digit for a nibble.
pub open spec fn spec_hex_digit_char(n: u8) -> char
    recommends
        n < 16,
{
    if n == 0 {
        '0'
    } else if n == 1 {
        '1'
    } else if n == 2 {
        '2'
    } else if n == 3 {
        '3'
    } else if n == 4 {
        '4'
    } else if n == 5 {
        '5'
    } else if n == 6 {
        '6'
    } else if n == 7 {
        '7'
    } else if n == 8 {
        '8'
    } else if n == 9 {
        '9'
    } else if n == 10 {
        'a'
    } else if n == 11 {
        'b'
    } else if n == 12 {
        'c'
    } else if n == 13 {
        'd'
    } else if n == 14 {
        'e'
    } else {
        'f'
    }
}

/// The lowercase hex rendering of a byte sequence: two digits per byte,
/// high nibble first.
pub open spec fn spec_hex_encode(s: Seq<u8>) -> Seq<char>
    decreases s.len(),
{
    if s.len() == 0 {
        Seq::empty()
    } else {
        seq![
            spec_hex_digit_char(s[0] / 16),
            spec_hex_digit_char(s[0] % 16),
        ] + spec_hex_encode(s.drop_first())
    }
}

/// Whether `c` is a hex digit, upper or lower case.
pub open spec fn spec_is_hex_digit(c: char) -> bool {
    ('0' as u32) <= (c as u32) <= ('9' as u32) || ('a' as u32) <= (c as u32) <= ('f' as u32)
        || ('A' as u32) <= (c as u32) <= ('F' as u32)
}

/// The nibble a hex digit denotes.
pub open spec fn spec_hex_digit_value(c: char) -> u8
    recommends
        spec_is_hex_digit(c),
{
    if ('0' as u32) <= (c as u32) <= ('9' as u32) {
        ((c as u32) - ('0' as u32)) as u8
    } else if ('a' as u32) <= (c as u32) <= ('f' as u32) {
        ((c as u32) - ('a' as u32) + 10) as u8
    } else {
        ((c as u32) - ('A' as u32) + 10) as u8
    }
}

/// The bytes a sequence of hex digit pairs denotes. Meaningful when the
/// length is even and every character is a hex digit.
pub open spec fn spec_hex_decode(s: Seq<char>) -> Seq<u8>
    decreases s.len(),
{
    if s.len() < 2 {
        Seq::empty()
    } else {
        seq![(spec_hex_digit_value(s[0]) * 16 + spec_hex_digit_value(s[1])) as u8]
            + spec_hex_decode(s.subrange(2, s.len() as int))
    }
}

/// Decoding halves the length, rounding down.
pub proof fn lemma_hex_decode_len(s: Seq<char>)
    ensures
        spec_hex_decode(s).len() == s.len() / 2,
    decreases s.len(),
{
    if s.len() >= 2 {
        lemma_hex_decode_len(s.subrange(2, s.len() as int));
    }
}

/// The two digits of a byte decode back to it.
proof fn lemma_hex_digit_round_trip(n: u8)
    requires
        n < 16,
    ensures
        spec_is_hex_digit(spec_hex_digit_char(n)),
        spec_hex_digit_value(spec_hex_digit_char(n)) == n,
{
}

/// Round trip: rendering any byte sequence as hex yields twice as many
/// characters, all hex digits, and decoding them yields the bytes back.
pub proof fn lemma_hex_round_trip(b: Seq<u8>)
    ensures
        spec_hex_encode(b).len() == 2 * b.len(),
        forall|i: int| 0 <= i < 2 * b.len() ==> spec_is_hex_digit(#[trigger] spec_hex_encode(b)[i]),
        spec_hex_decode(spec_hex_encode(b)) == b,
    decreases b.len(),
{
    if b.len() == 0 {
        assert(spec_hex_decode(spec_hex_encode(b)) =~= b);
    } else {
        let hi = b[0] / 16;
        let lo = b[0] % 16;
        lemma_hex_digit_round_trip(hi);
        lemma_hex_digit_round_trip(lo);
        lemma_hex_round_trip(b.drop_first());
        let e = spec_hex_encode(b);
        assert(e.subrange(2, e.len() as int) =~= spec_hex_encode(b.drop_first()));
        assert(spec_hex_digit_value(e[0]) * 16 + spec_hex_digit_value(e[1]) == b[0]);
        assert(spec_hex_decode(e) =~= b);
    }
}

/// Declares `hex::FromHexError`, the error `hex::decode` returns, so that
/// the wrapper below can hand it back; callers map it to `InvalidFormat`.
#[verifier::external_type_specification]
#[verifier::external_body]
pub struct ExFromHexError(hex::FromHexError);

/// Relies on `hex::encode`: every byte becomes two lowercase hex digits,
/// high nibble first.
#[verifier::external_body]
pub(crate) fn hex_encode(data: &[u8]) -> (r: String)
    ensures
        r@ == spec_hex_encode(data@),
{
    hex::encode(data)
}

/// Relies on `hex::decode`: it succeeds exactly when the input is an even
/// number of hex digits (upper or lower case), and then yields the byte
/// each digit pair denotes; it errs on an odd length or a non-hex
/// character.
#[verifier::external_body]
pub(crate) fn hex_decode(text: &str) -> (r: Result<Vec<u8>, hex::FromHexError>)
    ensures
        r is Ok <==> (text@.len() % 2 == 0 && forall|i: int|
            0 <= i < text@.len() ==> spec_is_hex_digit(#[trigger] text@[i])),
        r matches Ok(v) ==> v@ == spec_hex_decode(text@),
{
    hex::decode(text)
}

} // verus!
