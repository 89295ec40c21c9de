use formatting::hex::{hex_string, to_hex, DisplayHex, ToHex};
use formatting::prettier::PrettyPrint;

#[test]
fn bytes_as_lowercase_digits() {
    assert_eq!(to_hex(&[0xde, 0xad, 0xbe, 0xef]), "deadbeef");
    assert_eq!(to_hex(&[0x00, 0x0f, 0x10, 0xff]), "000f10ff");
    assert_eq!(to_hex(&[]), "");
}

#[test]
fn prefix_is_added_on_request() {
    let bytes: &[u8] = &[0x01, 0xab];
    assert_eq!(bytes.to_hex(), "01ab");
    assert_eq!(bytes.to_hex_with_prefix(), "0x01ab");
    assert_eq!(hex_string(&[], true), "0x");
}

#[test]
fn display_hex_wraps_bytes() {
    let data = vec![0xcau8, 0xfe];
    let shown = DisplayHex::new(data.as_slice());
    assert_eq!(shown.to_hex(), "cafe");
    assert_eq!(shown.to_hex_with_prefix(), "0xcafe");
    assert_eq!(shown.to_pretty_string(), "0xcafe");
}
