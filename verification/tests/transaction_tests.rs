use bitcoin_codec::BitcoinError;
use bitcoin_codec::BitcoinTransaction;
use bitcoin_codec::OutPoint;
use bitcoin_codec::Script;
use bitcoin_codec::TransactionInput;

fn sample_input(txid_byte: u8, vout: u32) -> TransactionInput {
    TransactionInput::new(
        OutPoint::new([txid_byte; 32], vout),
        Script::new(vec![]),
        0xFFFFFFFF,
    )
}

#[test]
fn two_input_transaction_round_trip() {
    let tx = BitcoinTransaction::new(1, vec![sample_input(0x11, 0), sample_input(0x22, 5)], 0);
    let encoded = tx.to_bytes();
    // version 1, count byte 0x02, two 41-byte inputs, lock time 0.
    assert_eq!(&encoded[0..4], &[1, 0, 0, 0]);
    assert_eq!(encoded[4], 0x02);
    assert_eq!(encoded.len(), 4 + 1 + 41 + 41 + 4);
    let (decoded, consumed) = BitcoinTransaction::from_bytes(&encoded).unwrap();
    assert_eq!(decoded, tx);
    assert_eq!(consumed, encoded.len());
}

#[test]
fn zero_input_transaction_consumes_nine_bytes() {
    let tx = BitcoinTransaction::new(2, vec![], 777);
    let encoded = tx.to_bytes();
    assert_eq!(encoded.len(), 9);
    let (decoded, consumed) = BitcoinTransaction::from_bytes(&encoded).unwrap();
    assert_eq!(consumed, 9);
    assert_eq!(decoded.inputs.len(), 0);
    assert_eq!(decoded.version, 2);
    assert_eq!(decoded.lock_time, 777);
}

#[test]
fn trailing_bytes_stay_unconsumed() {
    let tx = BitcoinTransaction::new(1, vec![sample_input(0x33, 9)], 42);
    let mut buffer = tx.to_bytes();
    let tx_len = buffer.len();
    buffer.extend_from_slice(&[0xDE, 0xAD, 0xBE, 0xEF]);
    let (decoded, consumed) = BitcoinTransaction::from_bytes(&buffer).unwrap();
    assert_eq!(decoded, tx);
    assert_eq!(consumed, tx_len);
    assert!(consumed < buffer.len());
    assert_eq!(&buffer[consumed..], &[0xDE, 0xAD, 0xBE, 0xEF]);
}

#[test]
fn version_and_lock_time_are_little_endian() {
    let tx = BitcoinTransaction::new(0x01020304, vec![], 0x0A0B0C0D);
    let encoded = tx.to_bytes();
    assert_eq!(&encoded[0..4], &[0x04, 0x03, 0x02, 0x01]);
    assert_eq!(&encoded[5..9], &[0x0D, 0x0C, 0x0B, 0x0A]);
}

#[test]
fn transaction_with_script_payloads_round_trips() {
    let tx = BitcoinTransaction::new(
        1,
        vec![
            TransactionInput::new(
                OutPoint::new([0xA1; 32], 3),
                Script::new(vec![0x76, 0xA9, 0x14]),
                0,
            ),
            TransactionInput::new(
                OutPoint::new([0xB2; 32], 0),
                Script::new((0..260).map(|i| (i % 256) as u8).collect()),
                1,
            ),
        ],
        500_000_000,
    );
    let encoded = tx.to_bytes();
    let (decoded, consumed) = BitcoinTransaction::from_bytes(&encoded).unwrap();
    assert_eq!(decoded, tx);
    assert_eq!(consumed, encoded.len());
}

#[test]
fn hand_built_buffer_parses_field_by_field() {
    let mut buffer: Vec<u8> = vec![3, 0, 0, 0]; // version
    buffer.push(1); // input count
    buffer.extend_from_slice(&[9; 32]); // txid
    buffer.extend_from_slice(&[4, 0, 0, 0]); // vout
    buffer.push(1); // script length
    buffer.push(0xAB); // script byte
    buffer.extend_from_slice(&[5, 0, 0, 0]); // sequence
    buffer.extend_from_slice(&[6, 0, 0, 0]); // lock time
    let (tx, consumed) = BitcoinTransaction::from_bytes(&buffer).unwrap();
    assert_eq!(consumed, buffer.len());
    assert_eq!(tx.version, 3);
    assert_eq!(tx.lock_time, 6);
    assert_eq!(tx.inputs.len(), 1);
    assert_eq!(tx.inputs[0].previous_output.txid.0, [9; 32]);
    assert_eq!(tx.inputs[0].previous_output.vout, 4);
    assert_eq!(tx.inputs[0].script_sig.bytes, vec![0xAB]);
    assert_eq!(tx.inputs[0].sequence, 5);
    assert_eq!(tx.to_bytes(), buffer);
}

#[test]
fn input_count_uses_two_byte_prefix_past_252() {
    let inputs: Vec<TransactionInput> = (0..253).map(|i| sample_input(i as u8, i)).collect();
    let tx = BitcoinTransaction::new(1, inputs, 0);
    let encoded = tx.to_bytes();
    assert_eq!(encoded[4], 0xFD);
    assert_eq!(&encoded[5..7], &[253, 0]);
    assert_eq!(encoded.len(), 4 + 3 + 253 * 41 + 4);
    let (decoded, consumed) = BitcoinTransaction::from_bytes(&encoded).unwrap();
    assert_eq!(decoded, tx);
    assert_eq!(consumed, encoded.len());
}

#[test]
fn eight_byte_buffer_is_insufficient() {
    let buffer = [0u8; 8];
    assert_eq!(
        BitcoinTransaction::from_bytes(&buffer).unwrap_err(),
        BitcoinError::InsufficientBytes
    );
}

#[test]
fn missing_version_is_insufficient() {
    assert_eq!(
        BitcoinTransaction::from_bytes(&[1, 0, 0]).unwrap_err(),
        BitcoinError::InsufficientBytes
    );
}

#[test]
fn truncated_mid_input_is_insufficient() {
    let tx = BitcoinTransaction::new(1, vec![sample_input(0x44, 1), sample_input(0x55, 2)], 0);
    let encoded = tx.to_bytes();
    // Cut inside the second input.
    let truncated = &encoded[..encoded.len() - 10];
    assert_eq!(
        BitcoinTransaction::from_bytes(truncated).unwrap_err(),
        BitcoinError::InsufficientBytes
    );
}

#[test]
fn missing_lock_time_is_insufficient() {
    let tx = BitcoinTransaction::new(1, vec![sample_input(0x66, 0)], 9);
    let encoded = tx.to_bytes();
    let truncated = &encoded[..encoded.len() - 4];
    assert_eq!(
        BitcoinTransaction::from_bytes(truncated).unwrap_err(),
        BitcoinError::InsufficientBytes
    );
}

#[test]
fn declared_count_larger_than_buffer_is_insufficient() {
    // version, count 3, then nothing.
    let buffer = [0u8, 0, 0, 0, 3];
    assert_eq!(
        BitcoinTransaction::from_bytes(&buffer).unwrap_err(),
        BitcoinError::InsufficientBytes
    );
}
