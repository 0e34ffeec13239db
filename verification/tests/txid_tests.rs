use bitcoin_codec::BitcoinError;
use bitcoin_codec::Txid;

// The hex form renders the bytes in stored order, with no reversal. Common
// transaction-id displays reverse the bytes; this codec deliberately does
// not, and this test pins that convention.
#[test]
fn to_hex_is_lowercase_in_stored_order() {
    let mut bytes = [0u8; 32];
    bytes[0] = 0xAB;
    bytes[1] = 0x01;
    bytes[31] = 0xEF;
    let txid = Txid(bytes);
    let hex_form = txid.to_hex();
    assert_eq!(hex_form.len(), 64);
    assert!(hex_form.starts_with("ab01"));
    assert!(hex_form.ends_with("ef"));
    assert_eq!(&hex_form[4..62], &"00".repeat(29));
}

#[test]
fn from_hex_round_trips() {
    let mut bytes = [0u8; 32];
    for (i, b) in bytes.iter_mut().enumerate() {
        *b = i as u8;
    }
    let txid = Txid(bytes);
    let parsed = Txid::from_hex(&txid.to_hex()).unwrap();
    assert_eq!(parsed, txid);
}

#[test]
fn from_hex_accepts_uppercase() {
    let parsed = Txid::from_hex(&"AB".repeat(32)).unwrap();
    assert_eq!(parsed.0, [0xABu8; 32]);
}

#[test]
fn from_hex_rejects_wrong_length() {
    assert_eq!(
        Txid::from_hex(&"ab".repeat(31)),
        Err(BitcoinError::InvalidFormat)
    );
    assert_eq!(
        Txid::from_hex(&"ab".repeat(33)),
        Err(BitcoinError::InvalidFormat)
    );
    assert_eq!(Txid::from_hex(""), Err(BitcoinError::InvalidFormat));
}

#[test]
fn from_hex_rejects_odd_length_and_stray_characters() {
    let mut odd = "ab".repeat(31);
    odd.push('a');
    assert_eq!(Txid::from_hex(&odd), Err(BitcoinError::InvalidFormat));
    let mut stray = "ab".repeat(31);
    stray.push_str("zz");
    assert_eq!(Txid::from_hex(&stray), Err(BitcoinError::InvalidFormat));
}
