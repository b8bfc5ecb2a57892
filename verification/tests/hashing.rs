use yamlist::hash::{hash, hash_bytes, HASH_LIMIT};
use yamlist::ident::HashedIdentifier;

#[test]
fn known_hashes() {
    assert_eq!(hash(""), 0);
    assert_eq!(hash("a"), 0x01_e8b7_be43);
    assert_eq!(hash("damage_max"), 0x0a_a3cb_8810);
}

#[test]
fn hash_ignores_ascii_case() {
    assert_eq!(hash("A"), hash("a"));
    assert_eq!(hash("Damage_Max"), hash("damage_max"));
}

#[test]
fn hash_is_stable_across_calls() {
    for text in ["", "a", "flinch_start", "wait", "a much longer label with spaces"] {
        assert_eq!(hash(text), hash(text));
        assert_eq!(hash(text), hash(&text.to_string()));
    }
}

#[test]
fn hash_agrees_with_the_reference() {
    for text in ["", "a", "jump_aerial_f", "attack_s3_s", "0x0000000001", "été", "wait_2"] {
        assert_eq!(hash(text), hash40::hash40(text).0);
        assert!(hash(text) < HASH_LIMIT);
    }
}

#[test]
fn hash_carries_the_length_above_the_checksum() {
    assert_eq!(hash("abc") >> 32, 3);
    assert_eq!(hash("0123456789abcdef") >> 32, 16);
}

#[test]
fn identifier_of_a_label_is_its_hash() {
    assert_eq!(HashedIdentifier::from_label("damage_max").value(), 0x0a_a3cb_8810);
    assert_eq!(HashedIdentifier::from_label("a"), HashedIdentifier::new(0x01_e8b7_be43));
}

#[test]
fn identifier_keeps_forty_bits() {
    assert_eq!(HashedIdentifier::new(u64::MAX).value(), 0xff_ffff_ffff);
    assert_eq!(HashedIdentifier::new(0x123_0000_0000_0007).value(), 7);
    assert_eq!(HashedIdentifier::new(0x1a_2b3c_4d5e).value(), 0x1a_2b3c_4d5e);
}

#[test]
fn identifiers_are_equal_when_their_values_are() {
    assert!(HashedIdentifier::new(5).same(&HashedIdentifier::new(5)));
    assert!(!HashedIdentifier::new(5).same(&HashedIdentifier::new(6)));
    assert!(HashedIdentifier::from_label("a").same(&HashedIdentifier::from_label("A")));
    assert_eq!(HashedIdentifier::new(5), HashedIdentifier::new(5));
    assert_eq!(HashedIdentifier::new(5), HashedIdentifier::new(5 + (1 << 40)));
    assert_ne!(HashedIdentifier::new(5), HashedIdentifier::new(6));
}

#[test]
fn hash_agrees_with_the_reference_on_many_strings() {
    let mut text = String::new();
    for length in 0..600usize {
        assert_eq!(hash(&text), hash40::hash40(&text).0);
        let code = 32 + (length * 7 + length / 3) % 95;
        text.push(char::from(code as u8));
    }
    for code in 0..128u8 {
        let text = format!("{}x{}", char::from(code), char::from(code));
        assert_eq!(hash(&text), hash40::hash40(&text).0);
    }
    for text in ["\u{e9}t\u{e9}", "\u{4e2d}\u{6587}", "\u{1f600}", "A\u{c9}Z"] {
        assert_eq!(hash(text), hash40::hash40(text).0);
    }
}

#[test]
fn hash_keeps_eight_bits_of_the_length() {
    let long = "a".repeat(256 + 3);
    assert_eq!(hash(&long) >> 32, 3);
    assert_eq!(hash(&"b".repeat(256)) >> 32, 0);
    assert_eq!(hash(&"b".repeat(255)) >> 32, 255);
}

#[test]
fn hash_of_a_string_is_the_hash_of_its_bytes() {
    for text in ["", "a", "damage_max", "\u{e9}"] {
        assert_eq!(hash(text), hash_bytes(text.as_bytes()));
    }
    assert_eq!(hash_bytes(b"123456789") & 0xffff_ffff, 0xcbf4_3926);
    assert_eq!(hash_bytes(b"123456789") >> 32, 9);
    assert_eq!(hash_bytes(&[0xff, 0x00, 0x41]), hash_bytes(&[0xff, 0x00, 0x61]));
    assert_ne!(hash_bytes(&[0x5b]), hash_bytes(&[0x7b]));
    assert_ne!(hash_bytes(&[0x40]), hash_bytes(&[0x60]));
}
