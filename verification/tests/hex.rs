use merkle_hash::bytes_to_hex;
use merkle_hash::Encodable;

#[test]
fn known_bytes_render_in_lowercase_hex() {
    assert_eq!(bytes_to_hex(&[0x00, 0x0f, 0xa5, 0xff]), "000fa5ff");
}

#[test]
fn empty_input_renders_empty() {
    assert_eq!(bytes_to_hex(&[]), "");
}

#[test]
fn every_nibble_value_renders() {
    assert_eq!(
        bytes_to_hex(&[0x01, 0x23, 0x45, 0x67, 0x89, 0xab, 0xcd, 0xef]),
        "0123456789abcdef"
    );
}

#[test]
fn vec_to_hex_string_matches_bytes_to_hex() {
    let v: Vec<u8> = vec![1, 2, 3, 254];
    assert_eq!(v.to_hex_string(), bytes_to_hex(&v));
}

#[test]
fn slice_to_hex_string_matches_bytes_to_hex() {
    let v: Vec<u8> = vec![0xde, 0xad, 0xbe, 0xef];
    assert_eq!(v[..].to_hex_string(), "deadbeef");
}

#[test]
fn hex_matches_blake3_own_rendering() {
    let h = blake3::hash(b"xyz");
    assert_eq!(bytes_to_hex(h.as_bytes()), h.to_hex().to_string());
}
