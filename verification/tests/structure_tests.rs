use bitcoin_codec::BitcoinError;
use bitcoin_codec::OutPoint;
use bitcoin_codec::Script;
use bitcoin_codec::TransactionInput;

#[test]
fn outpoint_round_trip() {
    let txid = [0xAB; 32];
    let op = OutPoint::new(txid, 7);
    let encoded = op.to_bytes();
    assert_eq!(encoded.len(), 36);
    assert_eq!(&encoded[0..32], &txid[..]);
    assert_eq!(&encoded[32..36], &[7, 0, 0, 0]);
    let (decoded, consumed) = OutPoint::from_bytes(&encoded).unwrap();
    assert_eq!(decoded, op);
    assert_eq!(consumed, 36);
}

#[test]
fn outpoint_vout_is_little_endian() {
    let op = OutPoint::new([0; 32], 0x01020304);
    let encoded = op.to_bytes();
    assert_eq!(&encoded[32..36], &[0x04, 0x03, 0x02, 0x01]);
}

#[test]
fn outpoint_thirty_five_bytes_is_insufficient() {
    let buffer = [0u8; 35];
    assert_eq!(
        OutPoint::from_bytes(&buffer).unwrap_err(),
        BitcoinError::InsufficientBytes
    );
}

#[test]
fn outpoint_ignores_trailing_bytes() {
    let mut buffer = OutPoint::new([1; 32], 2).to_bytes();
    buffer.push(0xEE);
    buffer.push(0xEE);
    let (_, consumed) = OutPoint::from_bytes(&buffer).unwrap();
    assert_eq!(consumed, 36);
}

#[test]
fn empty_script_round_trip() {
    let script = Script::new(vec![]);
    let encoded = script.to_bytes();
    assert_eq!(encoded, vec![0]);
    let (decoded, consumed) = Script::from_bytes(&encoded).unwrap();
    assert_eq!(decoded, script);
    assert_eq!(consumed, 1);
}

#[test]
fn small_script_round_trip() {
    let script = Script::new(vec![0x51, 0x52, 0x53]);
    let encoded = script.to_bytes();
    assert_eq!(encoded, vec![3, 0x51, 0x52, 0x53]);
    let (decoded, consumed) = Script::from_bytes(&encoded).unwrap();
    assert_eq!(decoded, script);
    assert_eq!(consumed, 4);
}

#[test]
fn large_script_uses_two_byte_length_prefix() {
    let payload: Vec<u8> = (0..300).map(|i| (i % 251) as u8).collect();
    let script = Script::new(payload.clone());
    let encoded = script.to_bytes();
    assert_eq!(encoded[0], 0xFD);
    assert_eq!(&encoded[1..3], &[0x2C, 0x01]); // 300 little-endian
    assert_eq!(&encoded[3..], &payload[..]);
    let (decoded, consumed) = Script::from_bytes(&encoded).unwrap();
    assert_eq!(decoded.bytes, payload);
    assert_eq!(consumed, encoded.len());
}

#[test]
fn script_length_boundary_two_fifty_three() {
    let script = Script::new(vec![0x00; 253]);
    let encoded = script.to_bytes();
    assert_eq!(encoded[0], 0xFD);
    assert_eq!(&encoded[1..3], &[253, 0]);
    assert_eq!(encoded.len(), 3 + 253);
    let (decoded, consumed) = Script::from_bytes(&encoded).unwrap();
    assert_eq!(decoded, script);
    assert_eq!(consumed, encoded.len());
}

#[test]
fn script_declared_length_exceeding_buffer_is_insufficient() {
    // Declares 10 payload bytes but only 5 are present.
    let buffer = [10u8, 1, 2, 3, 4, 5];
    assert_eq!(
        Script::from_bytes(&buffer).unwrap_err(),
        BitcoinError::InsufficientBytes
    );
}

#[test]
fn script_empty_buffer_is_insufficient() {
    assert_eq!(
        Script::from_bytes(&[]).unwrap_err(),
        BitcoinError::InsufficientBytes
    );
}

#[test]
fn input_round_trip() {
    let input = TransactionInput::new(
        OutPoint::new([0xCD; 32], 1),
        Script::new(vec![0xAA, 0xBB]),
        0xFFFFFFFE,
    );
    let encoded = input.to_bytes();
    assert_eq!(encoded.len(), 36 + 3 + 4);
    let (decoded, consumed) = TransactionInput::from_bytes(&encoded).unwrap();
    assert_eq!(decoded, input);
    assert_eq!(consumed, encoded.len());
}

#[test]
fn input_missing_sequence_is_insufficient() {
    let input = TransactionInput::new(
        OutPoint::new([0xCD; 32], 1),
        Script::new(vec![]),
        0xFFFFFFFF,
    );
    let encoded = input.to_bytes();
    let truncated = &encoded[..encoded.len() - 1];
    assert_eq!(
        TransactionInput::from_bytes(truncated).unwrap_err(),
        BitcoinError::InsufficientBytes
    );
}

#[test]
fn input_forty_bytes_is_insufficient() {
    let buffer = [0u8; 40];
    assert_eq!(
        TransactionInput::from_bytes(&buffer).unwrap_err(),
        BitcoinError::InsufficientBytes
    );
}
