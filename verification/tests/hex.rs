use mtproto::hex::{into_bytes, to_hex};

#[test]
fn to_hex_formats_bytes() {
    assert_eq!(to_hex(&[]), "");
    assert_eq!(to_hex(&[0x00]), "00");
    assert_eq!(to_hex(&[0x00, 0x1f, 0xab, 0xff]), "001fabff");
}

#[test]
fn into_bytes_parses_hex() {
    let r: [u8; 4] = into_bytes("0a1b2c3d");
    assert_eq!(r, [0x0a, 0x1b, 0x2c, 0x3d]);
    let upper: [u8; 2] = into_bytes("FFA0");
    assert_eq!(upper, [0xff, 0xa0]);
}

#[test]
fn hex_roundtrip() {
    let bytes = [0u8, 1, 2, 3, 0x7f, 0x80, 0xfe, 0xff];
    let s = to_hex(&bytes);
    let back: [u8; 8] = into_bytes(&s);
    assert_eq!(back, bytes);
}
