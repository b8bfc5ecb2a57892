use yamlist::binary::{encode, DecodeError};
use yamlist::convert::{assemble, disassemble, ConvertError};
use yamlist::ident::HashedIdentifier;
use yamlist::labels::LabelDictionary;
use yamlist::model::{Animation, Extra, MotionEntry, MotionList};
use yamlist::text::ParseError;

fn blob() -> Vec<u8> {
    let entry = |seed: u64, extra: Option<Extra>| MotionEntry {
        identifier: HashedIdentifier::new(seed),
        game_script: HashedIdentifier::new(seed + 1),
        flags: seed as u16,
        blend_frames: seed as u8,
        animations: (0..seed % 5)
            .map(|i| Animation { name: HashedIdentifier::new(seed * 31 + i), unk: i as u8 })
            .collect(),
        scripts: (0..seed % 3).map(|i| HashedIdentifier::new(seed * 17 + i)).collect(),
        extra,
    };
    let list = MotionList {
        entries: vec![
            entry(0x1a_2b3c_4d5e, None),
            entry(7, Some(Extra { xlu_start: 9, xlu_end: 8, cancel_frame: 7, no_stop_intp: false })),
            entry(3, Some(Extra { xlu_start: 0, xlu_end: 0, cancel_frame: 0, no_stop_intp: true })),
            entry(0xff_ffff_fff0, None),
        ],
    };
    assert!(list.fits_layout());
    encode(&list)
}

#[test]
fn blob_survives_the_journey_through_text() {
    let mut dictionary = LabelDictionary::new();
    assert_eq!(dictionary.load("0x1a2b3c4d5e,flinch_start\n0x7,Label\n0x8,wait"), Ok(()));
    let original = blob();
    let text = disassemble(&original, &dictionary).unwrap();
    assert!(text.contains("flinch_start"));
    assert_eq!(assemble(&text, &dictionary), Ok(original));
}

#[test]
fn blob_survives_the_journey_without_labels() {
    let dictionary = LabelDictionary::new();
    let original = blob();
    let text = disassemble(&original, &dictionary).unwrap();
    assert_eq!(assemble(&text, &dictionary), Ok(original));
}

#[test]
fn text_written_with_labels_assembles_without_them_only_by_hash() {
    let mut dictionary = LabelDictionary::new();
    assert_eq!(dictionary.load("0x1a2b3c4d5e,flinch_start"), Ok(()));
    let original = blob();
    let text = disassemble(&original, &dictionary).unwrap();
    let other = assemble(&text, &LabelDictionary::new()).unwrap();
    assert_ne!(other, original);
    assert_eq!(other.len(), original.len());
}

#[test]
fn bytes_that_are_no_blob_are_refused() {
    let dictionary = LabelDictionary::new();
    assert_eq!(
        disassemble(&[1, 2, 3], &dictionary),
        Err(ConvertError::Decode(DecodeError::Truncated))
    );
    assert_eq!(
        disassemble(&[0; 16], &dictionary),
        Err(ConvertError::Decode(DecodeError::BadMagic))
    );
}

#[test]
fn text_that_is_no_list_is_refused() {
    let dictionary = LabelDictionary::new();
    assert_eq!(assemble("{", &dictionary), Err(ConvertError::Parse(ParseError::Syntax)));
    assert_eq!(assemble("- {}", &dictionary), Err(ConvertError::Parse(ParseError::MissingField)));
    assert_eq!(assemble("3", &dictionary), Err(ConvertError::Parse(ParseError::TypeMismatch)));
}

#[test]
fn empty_sequence_assembles_to_a_header() {
    let dictionary = LabelDictionary::new();
    assert_eq!(
        assemble("[]", &dictionary),
        Ok(vec![0x4d, 0x4c, 0x53, 0x54, 1, 0, 0, 0, 0, 0, 0, 0, 0, 0, 0, 0])
    );
}
