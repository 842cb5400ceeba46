use bitcoin_codec::BitcoinError;
use bitcoin_codec::CompactSize;

fn round_trip(value: u64) -> Vec<u8> {
    let cs = CompactSize::new(value);
    let encoded = cs.to_bytes();
    let (decoded, consumed) = CompactSize::from_bytes(&encoded).unwrap();
    assert_eq!(decoded.value, value);
    assert_eq!(consumed, encoded.len());
    encoded
}

#[test]
fn single_byte_boundary() {
    let encoded = round_trip(252);
    assert_eq!(encoded, vec![252]);
}

#[test]
fn two_byte_boundary_low() {
    let encoded = round_trip(253);
    assert_eq!(encoded, vec![0xFD, 253, 0]);
}

#[test]
fn two_byte_boundary_high() {
    let encoded = round_trip(65535);
    assert_eq!(encoded, vec![0xFD, 0xFF, 0xFF]);
}

#[test]
fn four_byte_boundary_low() {
    let encoded = round_trip(65536);
    assert_eq!(encoded, vec![0xFE, 0x00, 0x00, 0x01, 0x00]);
}

#[test]
fn four_byte_boundary_high() {
    let encoded = round_trip(4294967295);
    assert_eq!(encoded, vec![0xFE, 0xFF, 0xFF, 0xFF, 0xFF]);
}

#[test]
fn eight_byte_boundary_low() {
    let encoded = round_trip(4294967296);
    assert_eq!(encoded, vec![0xFF, 0x00, 0x00, 0x00, 0x00, 0x01, 0x00, 0x00, 0x00]);
}

#[test]
fn zero_and_small_values() {
    assert_eq!(round_trip(0), vec![0]);
    assert_eq!(round_trip(1), vec![1]);
    assert_eq!(round_trip(u64::MAX).len(), 9);
}

#[test]
fn decode_is_permissive_about_overlong_encodings() {
    // 5 would canonically be a single byte, but the 0xFD form still decodes.
    let (decoded, consumed) = CompactSize::from_bytes(&[0xFD, 5, 0]).unwrap();
    assert_eq!(decoded.value, 5);
    assert_eq!(consumed, 3);
}

#[test]
fn decode_ignores_trailing_bytes() {
    let (decoded, consumed) = CompactSize::from_bytes(&[7, 99, 99]).unwrap();
    assert_eq!(decoded.value, 7);
    assert_eq!(consumed, 1);
}

#[test]
fn empty_buffer_is_insufficient() {
    assert_eq!(
        CompactSize::from_bytes(&[]).unwrap_err(),
        BitcoinError::InsufficientBytes
    );
}

#[test]
fn truncated_payloads_are_insufficient() {
    assert_eq!(
        CompactSize::from_bytes(&[0xFD, 1]).unwrap_err(),
        BitcoinError::InsufficientBytes
    );
    assert_eq!(
        CompactSize::from_bytes(&[0xFE, 1, 2, 3]).unwrap_err(),
        BitcoinError::InsufficientBytes
    );
    assert_eq!(
        CompactSize::from_bytes(&[0xFF, 1, 2, 3, 4, 5, 6, 7]).unwrap_err(),
        BitcoinError::InsufficientBytes
    );
}
