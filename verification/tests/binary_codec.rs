use yamlist::binary::{decode, encode, DecodeError};
use yamlist::ident::HashedIdentifier;
use yamlist::model::{Animation, Extra, MotionEntry, MotionList};

fn header(count: u64) -> Vec<u8> {
    let mut bytes = vec![0x4d, 0x4c, 0x53, 0x54, 1, 0, 0, 0];
    bytes.extend_from_slice(&count.to_le_bytes());
    bytes
}

fn first_entry_bytes() -> Vec<u8> {
    let mut bytes = Vec::new();
    bytes.extend_from_slice(&[0x5e, 0x4d, 0x3c, 0x2b, 0x1a, 0, 0, 0]);
    bytes.extend_from_slice(&[0x01, 0, 0, 0, 0, 0, 0, 0]);
    bytes.extend_from_slice(&[0x03, 0x80]);
    bytes.push(4);
    bytes.push(1);
    bytes.extend_from_slice(&[32, 0, 0, 0]);
    bytes.extend_from_slice(&[0xdd, 0xcc, 0xbb, 0xaa, 0x05, 0, 0, 0]);
    bytes.push(7);
    bytes.extend_from_slice(&[0, 0, 0]);
    bytes.extend_from_slice(&[0x10, 0, 0, 0, 0, 0, 0, 0]);
    bytes.extend_from_slice(&[0xff, 0xff, 0xff, 0xff, 0xff, 0, 0, 0]);
    bytes.extend_from_slice(&[1, 2, 3, 1]);
    bytes
}

fn second_entry_bytes() -> Vec<u8> {
    let mut bytes = Vec::new();
    bytes.extend_from_slice(&[0x02, 0, 0, 0, 0, 0, 0, 0]);
    bytes.extend_from_slice(&[0x03, 0, 0, 0, 0, 0, 0, 0]);
    bytes.extend_from_slice(&[0, 0]);
    bytes.push(0);
    bytes.push(0);
    bytes.extend_from_slice(&[0, 0, 0, 0]);
    bytes
}

fn two_entry_blob() -> Vec<u8> {
    let mut bytes = header(2);
    bytes.extend(first_entry_bytes());
    bytes.extend(second_entry_bytes());
    bytes
}

fn first_entry() -> MotionEntry {
    MotionEntry {
        identifier: HashedIdentifier::new(0x1a_2b3c_4d5e),
        game_script: HashedIdentifier::new(1),
        flags: 0x8003,
        blend_frames: 4,
        animations: vec![Animation { name: HashedIdentifier::new(0x05_aabb_ccdd), unk: 7 }],
        scripts: vec![HashedIdentifier::new(0x10), HashedIdentifier::new(0xff_ffff_ffff)],
        extra: Some(Extra { xlu_start: 1, xlu_end: 2, cancel_frame: 3, no_stop_intp: true }),
    }
}

fn second_entry() -> MotionEntry {
    MotionEntry {
        identifier: HashedIdentifier::new(2),
        game_script: HashedIdentifier::new(3),
        flags: 0,
        blend_frames: 0,
        animations: vec![],
        scripts: vec![],
        extra: None,
    }
}

#[test]
fn empty_list_has_only_a_header() {
    let bytes = encode(&MotionList::new());
    assert_eq!(bytes, vec![0x4d, 0x4c, 0x53, 0x54, 1, 0, 0, 0, 0, 0, 0, 0, 0, 0, 0, 0]);
    assert_eq!(decode(&bytes), Ok(MotionList::new()));
}

#[test]
fn two_entry_blob_decodes_in_file_order_and_encodes_back() {
    let blob = two_entry_blob();
    let list = decode(&blob).unwrap();
    assert_eq!(list.len(), 2);
    assert_eq!(list.entries[0], first_entry());
    assert_eq!(list.entries[1], second_entry());
    assert!(list.fits_layout());
    assert_eq!(encode(&list), blob);
}

#[test]
fn entry_layout_is_exact() {
    let list = MotionList { entries: vec![first_entry()] };
    assert!(list.fits_layout());
    let mut expected = header(1);
    expected.extend(first_entry_bytes());
    assert_eq!(encode(&list), expected);
}

#[test]
fn decoding_an_encoded_list_gives_the_list() {
    let list = MotionList { entries: vec![second_entry(), first_entry(), second_entry()] };
    assert!(list.fits_layout());
    assert_eq!(decode(&encode(&list)), Ok(list));
}

#[test]
fn padding_follows_the_animation_count() {
    for count in 0..9usize {
        let animations: Vec<Animation> = (0..count)
            .map(|i| Animation { name: HashedIdentifier::new(i as u64), unk: i as u8 })
            .collect();
        let entry = MotionEntry { animations, ..second_entry() };
        let list = MotionList { entries: vec![entry] };
        assert!(list.fits_layout());
        let bytes = encode(&list);
        let pad = (4 - count % 4) % 4;
        assert_eq!(bytes.len(), 16 + 24 + 9 * count + pad);
        assert_eq!(bytes[16 + 20] as usize, 9 * count + pad);
        assert_eq!(decode(&bytes), Ok(list));
    }
}

#[test]
fn short_input_is_truncated() {
    assert_eq!(decode(&[]), Err(DecodeError::Truncated));
    assert_eq!(decode(&[0x4d, 0x4c, 0x53]), Err(DecodeError::Truncated));
    assert_eq!(decode(&two_entry_blob()[..15]), Err(DecodeError::Truncated));
}

#[test]
fn missing_entries_are_truncated() {
    let blob = two_entry_blob();
    assert_eq!(decode(&header(1)), Err(DecodeError::Truncated));
    assert_eq!(decode(&blob[..16 + 23]), Err(DecodeError::Truncated));
    assert_eq!(decode(&blob[..16 + 24 + 31]), Err(DecodeError::Truncated));
    assert_eq!(decode(&blob[..blob.len() - 1]), Err(DecodeError::Truncated));
    assert_eq!(decode(&header(u64::MAX)), Err(DecodeError::Truncated));
}

#[test]
fn foreign_magic_is_refused() {
    let mut blob = two_entry_blob();
    blob[0] = 0x4e;
    assert_eq!(decode(&blob), Err(DecodeError::BadMagic));
}

#[test]
fn other_versions_are_refused() {
    let mut blob = two_entry_blob();
    blob[4] = 2;
    assert_eq!(decode(&blob), Err(DecodeError::UnsupportedVersion));
    blob[4] = 1;
    blob[7] = 1;
    assert_eq!(decode(&blob), Err(DecodeError::UnsupportedVersion));
}

#[test]
fn magic_is_looked_at_before_the_version() {
    let mut blob = two_entry_blob();
    blob[0] = 0;
    blob[4] = 9;
    assert_eq!(decode(&blob), Err(DecodeError::BadMagic));
}

#[test]
fn trailing_bytes_are_malformed() {
    let mut blob = two_entry_blob();
    blob.push(0);
    assert_eq!(decode(&blob), Err(DecodeError::Malformed));
}

#[test]
fn identifier_above_forty_bits_is_malformed() {
    let mut blob = two_entry_blob();
    blob[16 + 5] = 1;
    assert_eq!(decode(&blob), Err(DecodeError::Malformed));
    let mut blob = two_entry_blob();
    blob[16 + 8 + 7] = 0x80;
    assert_eq!(decode(&blob), Err(DecodeError::Malformed));
    let mut blob = two_entry_blob();
    blob[16 + 24 + 6] = 1;
    assert_eq!(decode(&blob), Err(DecodeError::Malformed));
    let mut blob = two_entry_blob();
    blob[16 + 24 + 12 + 5] = 1;
    assert_eq!(decode(&blob), Err(DecodeError::Malformed));
}

#[test]
fn padding_that_is_not_zero_is_malformed() {
    let mut blob = two_entry_blob();
    blob[16 + 24 + 9 + 1] = 1;
    assert_eq!(decode(&blob), Err(DecodeError::Malformed));
}

#[test]
fn truth_byte_above_one_is_malformed() {
    let mut blob = two_entry_blob();
    blob[16 + 24 + 31] = 2;
    assert_eq!(decode(&blob), Err(DecodeError::Malformed));
}

#[test]
fn body_length_that_fits_no_layout_is_malformed() {
    let mut blob = header(1);
    blob.extend(second_entry_bytes());
    blob[16 + 20] = 2;
    blob.extend_from_slice(&[0, 0]);
    assert_eq!(decode(&blob), Err(DecodeError::Malformed));
    let mut blob = header(1);
    blob.extend(second_entry_bytes());
    blob[16 + 19] = 1;
    blob[16 + 20] = 8;
    blob.extend_from_slice(&[0; 8]);
    assert_eq!(decode(&blob), Err(DecodeError::Malformed));
}

#[test]
fn oversized_entry_does_not_fit() {
    let animations: Vec<Animation> =
        (0..256).map(|_| Animation { name: HashedIdentifier::new(0), unk: 0 }).collect();
    let entry = MotionEntry { animations, ..second_entry() };
    assert!(!entry.fits_layout());
    assert!(!MotionList { entries: vec![second_entry(), entry] }.fits_layout());
    assert!(first_entry().fits_layout());
}
