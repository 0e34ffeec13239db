use bitcoin_codec::BitcoinError;
use bitcoin_codec::BitcoinTransaction;
use bitcoin_codec::OutPoint;
use bitcoin_codec::Script;
use bitcoin_codec::TransactionInput;

#[test]
fn empty_transaction_is_nine_bytes() {
    let tx = BitcoinTransaction::new(1, Vec::new(), 0);
    let encoded = tx.to_bytes();
    assert_eq!(
        encoded,
        vec![0x01, 0x00, 0x00, 0x00, 0x00, 0x00, 0x00, 0x00, 0x00]
    );
    let (decoded, consumed) = BitcoinTransaction::from_bytes(&encoded).unwrap();
    assert_eq!(decoded, tx);
    assert_eq!(consumed, 9);
}

#[test]
fn single_input_transaction_is_41_bytes() {
    let outpoint = OutPoint::new([0u8; 32], 0xFFFFFFFF);
    let input = TransactionInput::new(outpoint, Script::new(Vec::new()), 0xFFFFFFFF);
    let tx = BitcoinTransaction::new(1, vec![input], 0);
    let encoded = tx.to_bytes();
    assert_eq!(encoded.len(), 4 + 1 + (36 + 1 + 4) + 4);
    let (decoded, consumed) = BitcoinTransaction::from_bytes(&encoded).unwrap();
    assert_eq!(decoded, tx);
    assert_eq!(consumed, encoded.len());
}

#[test]
fn two_input_transaction_round_trips() {
    let input_a = TransactionInput::new(
        OutPoint::new([0x01u8; 32], 0),
        Script::new(vec![0xAB]),
        0,
    );
    let input_b = TransactionInput::new(
        OutPoint::new([0x02u8; 32], 1),
        Script::new(vec![0xCD, 0xEF]),
        5,
    );
    let tx = BitcoinTransaction::new(2, vec![input_a, input_b], 830000);
    let encoded = tx.to_bytes();
    let (decoded, consumed) = BitcoinTransaction::from_bytes(&encoded).unwrap();
    assert_eq!(decoded, tx);
    assert_eq!(consumed, encoded.len());
}

#[test]
fn declared_count_larger_than_available_inputs_fails() {
    let input = TransactionInput::new(
        OutPoint::new([0x03u8; 32], 9),
        Script::new(vec![0x11]),
        7,
    );
    let tx = BitcoinTransaction::new(1, vec![input], 0);
    let mut encoded = tx.to_bytes();
    // Declare two inputs while the buffer holds bytes for only one.
    encoded[4] = 0x02;
    assert_eq!(
        BitcoinTransaction::from_bytes(&encoded),
        Err(BitcoinError::InsufficientBytes)
    );
}

#[test]
fn missing_lock_time_fails() {
    let tx = BitcoinTransaction::new(1, Vec::new(), 7);
    let encoded = tx.to_bytes();
    let truncated = &encoded[..encoded.len() - 1];
    assert_eq!(
        BitcoinTransaction::from_bytes(truncated),
        Err(BitcoinError::InsufficientBytes)
    );
}

#[test]
fn every_strict_prefix_of_an_encoding_fails() {
    let input = TransactionInput::new(
        OutPoint::new([0x07u8; 32], 2),
        Script::new(vec![0x01, 0x02, 0x03]),
        0xFEEDFACE,
    );
    let tx = BitcoinTransaction::new(2, vec![input], 100);
    let encoded = tx.to_bytes();
    for k in 0..encoded.len() {
        assert_eq!(
            BitcoinTransaction::from_bytes(&encoded[..k]),
            Err(BitcoinError::InsufficientBytes)
        );
    }
}

#[test]
fn transaction_decode_ignores_trailing_bytes() {
    let tx = BitcoinTransaction::new(3, Vec::new(), 4);
    let mut encoded = tx.to_bytes();
    encoded.push(0x99);
    let (decoded, consumed) = BitcoinTransaction::from_bytes(&encoded).unwrap();
    assert_eq!(decoded, tx);
    assert_eq!(consumed, 9);
}

#[test]
fn renders_diagnostic_text() {
    let mut txid = [0u8; 32];
    txid[0] = 0xAA;
    let input = TransactionInput::new(
        OutPoint::new(txid, 5),
        Script::new(vec![0x51]),
        0xFFFFFFFF,
    );
    let tx = BitcoinTransaction::new(1, vec![input], 42);
    let text = tx.to_text();
    let expected = format!(
        "Bitcoin Transaction:\n  Version: 1\n  Inputs (1): \n    Input 0:\n      Previous Output Txid: aa{}\n      Previous Output Vout: 5\n      Script Sig Length: 1\n      Script Sig: 51\n      Sequence: 0xFFFFFFFF\n  Lock Time: 42",
        "00".repeat(31)
    );
    assert_eq!(text, expected);
}

#[test]
fn renders_empty_transaction_text() {
    let tx = BitcoinTransaction::new(2, Vec::new(), 0);
    assert_eq!(
        tx.to_text(),
        "Bitcoin Transaction:\n  Version: 2\n  Inputs (0): \n  Lock Time: 0"
    );
}
