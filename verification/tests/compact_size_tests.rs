use bitcoin_codec::BitcoinError;
use bitcoin_codec::CompactSize;

#[test]
fn encode_one_byte_values() {
    assert_eq!(CompactSize::new(0).to_bytes(), vec![0x00]);
    assert_eq!(CompactSize::new(1).to_bytes(), vec![0x01]);
    assert_eq!(CompactSize::new(0xFC).to_bytes(), vec![0xFC]);
}

#[test]
fn encode_three_byte_values() {
    assert_eq!(CompactSize::new(0xFD).to_bytes(), vec![0xFD, 0xFD, 0x00]);
    assert_eq!(CompactSize::new(0xFFFF).to_bytes(), vec![0xFD, 0xFF, 0xFF]);
}

#[test]
fn encode_five_byte_values() {
    assert_eq!(
        CompactSize::new(0x10000).to_bytes(),
        vec![0xFE, 0x00, 0x00, 0x01, 0x00]
    );
    assert_eq!(
        CompactSize::new(0xFFFFFFFF).to_bytes(),
        vec![0xFE, 0xFF, 0xFF, 0xFF, 0xFF]
    );
}

#[test]
fn encode_nine_byte_values() {
    assert_eq!(
        CompactSize::new(0x100000000).to_bytes(),
        vec![0xFF, 0x00, 0x00, 0x00, 0x00, 0x01, 0x00, 0x00, 0x00]
    );
}

#[test]
fn round_trip_each_width() {
    for value in [0u64, 1, 0xFC, 0xFD, 0x1234, 0xFFFF, 0x10000, 0xFFFFFFFF, 0x100000000, u64::MAX]
    {
        let encoded = CompactSize::new(value).to_bytes();
        let (decoded, consumed) = CompactSize::from_bytes(&encoded).unwrap();
        assert_eq!(decoded.value, value);
        assert_eq!(consumed, encoded.len());
    }
}

#[test]
fn decode_accepts_non_canonical_forms() {
    let (decoded, consumed) = CompactSize::from_bytes(&[0xFD, 0x05, 0x00]).unwrap();
    assert_eq!(decoded.value, 5);
    assert_eq!(consumed, 3);
    let (decoded, consumed) = CompactSize::from_bytes(&[0xFE, 0x05, 0x00, 0x00, 0x00]).unwrap();
    assert_eq!(decoded.value, 5);
    assert_eq!(consumed, 5);
}

#[test]
fn decode_empty_fails() {
    assert_eq!(
        CompactSize::from_bytes(&[]),
        Err(BitcoinError::InsufficientBytes)
    );
}

#[test]
fn decode_truncated_wide_forms_fail() {
    assert_eq!(
        CompactSize::from_bytes(&[0xFD, 0x05]),
        Err(BitcoinError::InsufficientBytes)
    );
    assert_eq!(
        CompactSize::from_bytes(&[0xFE, 0x01, 0x02, 0x03]),
        Err(BitcoinError::InsufficientBytes)
    );
    assert_eq!(
        CompactSize::from_bytes(&[0xFF, 0x01, 0x02, 0x03, 0x04, 0x05, 0x06, 0x07]),
        Err(BitcoinError::InsufficientBytes)
    );
}

#[test]
fn decode_value_ignores_trailing_bytes() {
    let (decoded, consumed) = CompactSize::from_bytes(&[0x2A, 0xAA, 0xBB]).unwrap();
    assert_eq!(decoded.value, 0x2A);
    assert_eq!(consumed, 1);
}
