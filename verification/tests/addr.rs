use std::str::FromStr;

use iroh_nym_transport::hex::to_hex;
use iroh_nym_transport::{
    from_custom_addr, is_nym_addr, to_custom_addr, AddrParseError, CustomAddr, NymAddr, Recipient,
    NYM_ADDR_SIZE, NYM_TRANSPORT_ID,
};

const TEXT: &str = "5WdCMZXZBkGsXwPqzxwJqf9sSzyRLt3xmhuGDBaXiQh5.7nFB8HqKM9jxExRkfhUoLb6oo2LSCDDesP5uuXH5iWY1@3yv4qTKVxC5Vqgtshzkcm8nT1q9zeETnj3RMDiaREeB5";

const BYTES: [u8; 96] = [
    67, 5, 132, 146, 3, 236, 116, 89, 254, 57, 131, 159, 69, 181, 55, 208, 12, 108, 136, 83, 58, 76,
    171, 195, 31, 98, 92, 64, 68, 53, 156, 184, 100, 189, 73, 3, 238, 103, 156, 108, 124, 199, 42,
    79, 172, 98, 81, 177, 182, 100, 167, 164, 74, 183, 199, 213, 162, 173, 102, 112, 30, 159, 148,
    66, 44, 75, 230, 182, 138, 114, 170, 163, 209, 82, 204, 100, 118, 91, 57, 150, 212, 147, 151,
    135, 148, 16, 213, 223, 182, 164, 242, 37, 40, 73, 137, 228,
];

// No point of the curve has this y coordinate.
const NO_KEYS: [u8; 96] = [2; 96];

#[test]
fn test_custom_addr_roundtrip() {
    let mut bytes = [0u8; 96];
    for (i, b) in bytes.iter_mut().enumerate() {
        *b = (i * 7) as u8;
    }
    let addr = NymAddr::from_bytes(bytes);

    let custom = addr.to_custom_addr();
    assert!(is_nym_addr(&custom));

    let unpacked = NymAddr::from_custom_addr(&custom).unwrap();
    assert_eq!(addr, unpacked);
}

#[test]
fn constants_have_their_values() {
    assert_eq!(NYM_TRANSPORT_ID, 5134669);
    assert_eq!(NYM_TRANSPORT_ID.to_be_bytes(), *b"\0\0\0\0\0NYM");
    assert_eq!(NYM_ADDR_SIZE, 96);
}

#[test]
fn as_bytes_gives_the_bytes() {
    assert_eq!(NymAddr::from_bytes(BYTES).as_bytes(), &BYTES);
}

#[test]
fn custom_addr_agrees_with_iroh() {
    let custom = NymAddr::from_bytes(BYTES).to_custom_addr();
    let iroh = iroh_base::CustomAddr::from_parts(NYM_TRANSPORT_ID, &BYTES);
    assert_eq!(custom.id(), iroh.id());
    assert_eq!(custom.data(), iroh.data());
}

#[test]
fn foreign_addresses_are_refused() {
    let other_id = CustomAddr::from_parts(NYM_TRANSPORT_ID + 1, &BYTES);
    let too_short = CustomAddr::from_parts(NYM_TRANSPORT_ID, &BYTES[..95]);
    let too_long = CustomAddr::from_parts(NYM_TRANSPORT_ID, &[3; 97]);
    let empty = CustomAddr::from_parts(NYM_TRANSPORT_ID, &[]);
    for addr in [other_id, too_short, too_long, empty] {
        assert!(!is_nym_addr(&addr));
        assert_eq!(NymAddr::from_custom_addr(&addr), None);
        assert_eq!(from_custom_addr(&addr), None);
    }
}

#[test]
fn read_addr_gives_back_its_custom_addr() {
    let custom = CustomAddr::from_parts(NYM_TRANSPORT_ID, &NO_KEYS);
    let again = NymAddr::from_custom_addr(&custom).unwrap().to_custom_addr();
    assert_eq!(again.id(), custom.id());
    assert_eq!(again.data(), custom.data());
}

#[test]
fn recipient_survives_conversions() {
    let recipient = Recipient::try_from_bytes(BYTES).unwrap();
    assert_eq!(recipient.to_bytes(), BYTES);

    let addr = NymAddr::from_recipient(&recipient);
    assert_eq!(addr, NymAddr(BYTES));
    assert_eq!(addr.to_recipient(), Some(recipient));

    let custom = to_custom_addr(&recipient);
    assert_eq!(custom.data(), &BYTES[..]);
    assert_eq!(from_custom_addr(&custom), Some(recipient));
}

#[test]
fn bytes_that_are_no_keys_are_no_recipient() {
    assert_eq!(Recipient::try_from_bytes(NO_KEYS), None);
    assert_eq!(NymAddr(NO_KEYS).to_recipient(), None);
    let custom = NymAddr(NO_KEYS).to_custom_addr();
    assert!(is_nym_addr(&custom));
    assert_eq!(from_custom_addr(&custom), None);

    // The encryption key may be any bytes; both identity keys must be points.
    let mut bytes = [3u8; 96];
    bytes[32..64].copy_from_slice(&[2; 32]);
    assert!(Recipient::try_from_bytes(bytes).is_some());
    let mut bytes = [3u8; 96];
    bytes[..32].copy_from_slice(&[2; 32]);
    assert!(Recipient::try_from_bytes(bytes).is_none());
    let mut bytes = [3u8; 96];
    bytes[64..].copy_from_slice(&[2; 32]);
    assert!(Recipient::try_from_bytes(bytes).is_none());
}

#[test]
fn recipient_is_shown_as_its_text() {
    assert_eq!(NymAddr(BYTES).to_string(), TEXT);
    assert_eq!(Recipient::try_from_bytes(BYTES).unwrap().to_string(), TEXT);
}

#[test]
fn other_bytes_are_shown_in_hex() {
    assert_eq!(NymAddr(NO_KEYS).to_string(), "02".repeat(96));
    assert_eq!(NymAddr(NO_KEYS).show(None), "02".repeat(96));
    assert_eq!(NymAddr(NO_KEYS).show(Some("name".to_string())), "name");
    assert_eq!(to_hex(&[0x00, 0x09, 0x0a, 0x9f, 0xab, 0xff]), "00090a9fabff");
    assert_eq!(to_hex(&[]), "");
}

#[test]
fn text_is_read_back() {
    assert_eq!(NymAddr::from_str(TEXT), Ok(NymAddr(BYTES)));
    assert_eq!(NymAddr::parse(TEXT), Ok(NymAddr(BYTES)));
    assert_eq!(NymAddr(BYTES).to_string().parse::<NymAddr>(), Ok(NymAddr(BYTES)));
    let parsed = Recipient::parse(TEXT);
    assert_eq!(parsed, Recipient::try_from_bytes(BYTES));
    assert_eq!(NymAddr::from_parsed(parsed), Ok(NymAddr(BYTES)));
}

#[test]
fn leading_zeros_survive_the_text() {
    // Base58 writes each leading zero byte as a digit of its own.
    let mut bytes = [3u8; 96];
    bytes[32..64].copy_from_slice(&[0; 32]);
    let recipient = Recipient::try_from_bytes(bytes).unwrap();
    assert!(recipient.to_string().contains(&"1".repeat(32)));
    assert_eq!(Recipient::parse(&recipient.to_string()), Some(recipient));
}

#[test]
fn other_text_is_refused() {
    let gateway = TEXT.split('@').next().unwrap();
    let doubled = format!("{TEXT}@{TEXT}");
    let no_dot = TEXT.replace('.', "");
    let bad_digit = TEXT.replacen('5', "0", 1);
    let hex = NymAddr(NO_KEYS).to_string();
    for text in ["", "nothing", "a.b@c", gateway, &doubled, &no_dot, &bad_digit, &hex] {
        assert_eq!(NymAddr::from_str(text), Err(AddrParseError::InvalidFormat));
    }
    assert_eq!(NymAddr::from_parsed(None), Err(AddrParseError::InvalidFormat));
}

#[test]
fn errors_have_their_texts() {
    assert_eq!(AddrParseError::InvalidFormat.to_string(), "invalid Nym address format");
    assert_eq!(AddrParseError::WrongTransportId.to_string(), "wrong transport ID");
}
