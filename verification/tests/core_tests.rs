use lib::hash::{fnv1a_hash, hash_params};
use lib::uuid::Uuid;
use lib::wal::crc64;

#[test]
fn test_deterministic() {
    let a = fnv1a_hash(b"hello world");
    let b = fnv1a_hash(b"hello world");
    assert_eq!(a, b);
}

#[test]
fn test_different_inputs() {
    let a = fnv1a_hash(b"hello");
    let b = fnv1a_hash(b"world");
    assert_ne!(a, b);
}

#[test]
fn test_uuid_roundtrip() {
    let id = Uuid::new_v4();
    let s = id.to_hyphenated();
    let parsed = Uuid::parse(&s).unwrap();
    assert_eq!(id, parsed);
}

#[test]
fn test_uuid_uniqueness() {
    let a = Uuid::new_v4();
    let b = Uuid::new_v4();
    assert_ne!(a, b);
}

#[test]
fn test_uuid_version_bits() {
    let id = Uuid::new_v4();
    assert_eq!(id.as_bytes()[6] >> 4, 4);
    assert_eq!(id.as_bytes()[8] >> 6, 2);
}

#[test]
fn test_uuid_from_bytes() {
    let bytes = [1u8; 16];
    let id = Uuid::from_bytes(bytes);
    assert_eq!(id.as_bytes(), &bytes);
}

#[test]
fn test_uuid_bulk_uniqueness() {
    let mut set = std::collections::HashSet::new();
    for _ in 0..1000 {
        let id = Uuid::new_v4();
        assert!(set.insert(id), "UUID collision detected");
    }
}

#[test]
fn test_crc64_deterministic() {
    let c1 = crc64(b"hello world");
    let c2 = crc64(b"hello world");
    assert_eq!(c1, c2);
    assert_ne!(c1, crc64(b"hello worlD"));
}

#[test]
fn fnv1a_known_values() {
    // FNV-1a 64 of the empty input is the offset basis.
    assert_eq!(fnv1a_hash(b""), 0xcbf29ce484222325);
    assert_eq!(fnv1a_hash(b"a"), 0xaf63dc4c8601ec8c);
    assert_eq!(hash_params("a"), 0xaf63dc4c8601ec8c);
}

#[test]
fn uuid_text_form() {
    let id = Uuid::from_bytes([
        0x12, 0x34, 0x56, 0x78, 0x9a, 0xbc, 0x4d, 0xef, 0x80, 0x01, 0x02, 0x03, 0x04, 0x05, 0x06, 0x07,
    ]);
    assert_eq!(id.to_hyphenated(), "12345678-9abc-4def-8001-020304050607");
    let back = Uuid::parse("12345678-9ABC-4DEF-8001-020304050607").unwrap();
    assert_eq!(back, id);
    let plain = Uuid::parse("123456789abc4def8001020304050607").unwrap();
    assert_eq!(plain, id);
}

#[test]
fn uuid_parse_errors() {
    assert_eq!(Uuid::parse("1234").unwrap_err(), "invalid UUID length: 1234");
    assert_eq!(
        Uuid::parse("zz345678-9abc-4def-8001-020304050607").unwrap_err(),
        "invalid hex in UUID: zz345678-9abc-4def-8001-020304050607"
    );
}
