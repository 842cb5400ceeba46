use bitcoin_codec::BitcoinError;
use bitcoin_codec::Txid;

#[test]
fn to_hex_renders_each_byte_as_two_lowercase_digits() {
    let mut bytes = [0u8; 32];
    for (i, b) in bytes.iter_mut().enumerate() {
        *b = i as u8;
    }
    let txid = Txid(bytes);
    let expected = "000102030405060708090a0b0c0d0e0f101112131415161718191a1b1c1d1e1f";
    assert_eq!(txid.to_hex(), expected);
}

#[test]
fn to_hex_of_zero_bytes() {
    let txid = Txid([0u8; 32]);
    let expected: String = "00".repeat(32);
    assert_eq!(txid.to_hex(), expected);
}

#[test]
fn hex_round_trip() {
    let txid = Txid([0xC7; 32]);
    let text = txid.to_hex();
    assert_eq!(text.len(), 64);
    let back = Txid::from_hex(&text).unwrap();
    assert_eq!(back, txid);
}

#[test]
fn from_hex_accepts_uppercase() {
    let text: String = "AB".repeat(32);
    let txid = Txid::from_hex(&text).unwrap();
    assert_eq!(txid, Txid([0xAB; 32]));
}

#[test]
fn from_hex_preserves_byte_order() {
    let mut text = String::from("01");
    text.push_str(&"00".repeat(30));
    text.push_str("ff");
    let txid = Txid::from_hex(&text).unwrap();
    assert_eq!(txid.0[0], 0x01);
    assert_eq!(txid.0[31], 0xFF);
}

#[test]
fn from_hex_rejects_wrong_length() {
    let short: String = "ab".repeat(31);
    assert_eq!(Txid::from_hex(&short).unwrap_err(), BitcoinError::InvalidFormat);
    let long: String = "ab".repeat(33);
    assert_eq!(Txid::from_hex(&long).unwrap_err(), BitcoinError::InvalidFormat);
}

#[test]
fn from_hex_rejects_odd_length() {
    let mut text: String = "ab".repeat(31);
    text.push('a');
    assert_eq!(Txid::from_hex(&text).unwrap_err(), BitcoinError::InvalidFormat);
}

#[test]
fn from_hex_rejects_non_hex_characters() {
    let mut text: String = "ab".repeat(31);
    text.push_str("zz");
    assert_eq!(Txid::from_hex(&text).unwrap_err(), BitcoinError::InvalidFormat);
}
