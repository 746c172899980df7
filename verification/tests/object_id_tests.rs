use room_hub::object_id::to_object_id;

#[test]
fn parses_24_lowercase_hex_digits() {
    let oid = to_object_id("0123456789abcdef01234567").unwrap();
    assert_eq!(oid.to_hex(), "0123456789abcdef01234567");
}

#[test]
fn parses_uppercase_and_normalizes_to_lowercase() {
    let oid = to_object_id("ABCDEF0123456789ABCDEF01").unwrap();
    assert_eq!(oid.to_hex(), "abcdef0123456789abcdef01");
}

#[test]
fn rejects_wrong_length() {
    assert!(to_object_id("").is_err());
    assert!(to_object_id("0123456789abcdef0123456").is_err());
    assert!(to_object_id("0123456789abcdef012345678").is_err());
}

#[test]
fn rejects_non_hex_characters() {
    assert!(to_object_id("0123456789abcdef0123456g").is_err());
    assert!(to_object_id("zzzzzzzzzzzzzzzzzzzzzzzz").is_err());
    assert!(to_object_id("0123456789abcdef 1234567").is_err());
}

#[test]
fn hex_round_trip_preserves_the_bytes() {
    let text = "4af1b2c3d4e5f60718293a4b";
    let oid = to_object_id(text).unwrap();
    let hex = oid.to_hex();
    assert_eq!(hex, text);
    let oid2 = to_object_id(&hex).unwrap();
    assert_eq!(oid2.to_hex(), text);
}
