use bitcoin_codec::BitcoinError;
use bitcoin_codec::OutPoint;
use bitcoin_codec::Script;
use bitcoin_codec::TransactionInput;

#[test]
fn outpoint_encodes_to_36_bytes() {
    let mut txid = [0u8; 32];
    txid[0] = 0x11;
    txid[31] = 0x22;
    let outpoint = OutPoint::new(txid, 7);
    let encoded = outpoint.to_bytes();
    assert_eq!(encoded.len(), 36);
    assert_eq!(&encoded[0..32], &txid);
    assert_eq!(&encoded[32..36], &[0x07, 0x00, 0x00, 0x00]);
}

#[test]
fn outpoint_round_trips() {
    let mut txid = [0u8; 32];
    for (i, b) in txid.iter_mut().enumerate() {
        *b = (31 - i) as u8;
    }
    let outpoint = OutPoint::new(txid, 0xDEADBEEF);
    let encoded = outpoint.to_bytes();
    let (decoded, consumed) = OutPoint::from_bytes(&encoded).unwrap();
    assert_eq!(decoded, outpoint);
    assert_eq!(consumed, 36);
}

#[test]
fn outpoint_short_buffer_fails() {
    assert_eq!(
        OutPoint::from_bytes(&[0u8; 35]),
        Err(BitcoinError::InsufficientBytes)
    );
    assert_eq!(OutPoint::from_bytes(&[]), Err(BitcoinError::InsufficientBytes));
}

#[test]
fn outpoint_decode_keeps_trailing_bytes() {
    let mut buffer = vec![0u8; 40];
    buffer[32] = 0x01;
    let (decoded, consumed) = OutPoint::from_bytes(&buffer).unwrap();
    assert_eq!(decoded.vout, 1);
    assert_eq!(consumed, 36);
}

#[test]
fn script_round_trips() {
    let script = Script::new(vec![0x51, 0x52, 0x53]);
    let encoded = script.to_bytes();
    assert_eq!(encoded, vec![0x03, 0x51, 0x52, 0x53]);
    let (decoded, consumed) = Script::from_bytes(&encoded).unwrap();
    assert_eq!(decoded, script);
    assert_eq!(consumed, 4);
}

#[test]
fn empty_script_is_one_length_byte() {
    let script = Script::new(Vec::new());
    let encoded = script.to_bytes();
    assert_eq!(encoded, vec![0x00]);
    let (decoded, consumed) = Script::from_bytes(&encoded).unwrap();
    assert_eq!(decoded.payload().len(), 0);
    assert_eq!(consumed, 1);
}

#[test]
fn script_truncated_payload_fails() {
    let mut buffer = vec![0x0A];
    buffer.extend_from_slice(&[0xAA; 9]);
    assert_eq!(
        Script::from_bytes(&buffer),
        Err(BitcoinError::InsufficientBytes)
    );
}

#[test]
fn script_with_wide_length_header_round_trips() {
    let payload = vec![0xCC; 0xFD];
    let script = Script::new(payload.clone());
    let encoded = script.to_bytes();
    assert_eq!(encoded.len(), 3 + 0xFD);
    assert_eq!(&encoded[0..3], &[0xFD, 0xFD, 0x00]);
    let (decoded, consumed) = Script::from_bytes(&encoded).unwrap();
    assert_eq!(decoded.payload(), &payload);
    assert_eq!(consumed, encoded.len());
}

#[test]
fn input_round_trips() {
    let outpoint = OutPoint::new([0x42u8; 32], 3);
    let script = Script::new(vec![0x00, 0x01]);
    let input = TransactionInput::new(outpoint, script, 0xFFFFFFFE);
    let encoded = input.to_bytes();
    assert_eq!(encoded.len(), 36 + 3 + 4);
    let (decoded, consumed) = TransactionInput::from_bytes(&encoded).unwrap();
    assert_eq!(decoded, input);
    assert_eq!(consumed, encoded.len());
}

#[test]
fn input_missing_sequence_fails() {
    let outpoint = OutPoint::new([0u8; 32], 0);
    let script = Script::new(Vec::new());
    let input = TransactionInput::new(outpoint, script, 1);
    let encoded = input.to_bytes();
    let truncated = &encoded[..encoded.len() - 1];
    assert_eq!(
        TransactionInput::from_bytes(truncated),
        Err(BitcoinError::InsufficientBytes)
    );
}
