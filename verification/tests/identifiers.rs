use yamlist::hash::hash;
use yamlist::ident::HashedIdentifier;
use yamlist::labels::LabelDictionary;

fn dictionary() -> LabelDictionary {
    let mut dictionary = LabelDictionary::new();
    assert_eq!(dictionary.load("0x1a2b3c4d5e,flinch_start\n0x7,Label"), Ok(()));
    dictionary
}

#[test]
fn known_identifier_renders_as_its_label() {
    let id = HashedIdentifier::new(0x1a_2b3c_4d5e);
    assert_eq!(id.render(&dictionary()), "flinch_start");
}

#[test]
fn unknown_identifier_renders_as_its_raw_literal() {
    let id = HashedIdentifier::new(0x1a_2b3c_4d5e);
    assert_eq!(id.render(&LabelDictionary::new()), "0x1a2b3c4d5e");
    assert_eq!(HashedIdentifier::new(5).render(&dictionary()), "0x0000000005");
}

#[test]
fn raw_literal_of_an_unknown_identifier_reads_back() {
    let dictionary = dictionary();
    for value in [0u64, 5, 0x8, 0xff_ffff_ffff, hash("flinch_start")] {
        let id = HashedIdentifier::new(value);
        let text = id.render(&dictionary);
        assert!(text.starts_with("0x"));
        assert_eq!(HashedIdentifier::parse(&text, &dictionary), id);
    }
}

#[test]
fn what_is_rendered_reads_back() {
    let dictionary = dictionary();
    for value in [0x1a_2b3c_4d5eu64, 7, 8, 0] {
        let id = HashedIdentifier::new(value);
        assert_eq!(HashedIdentifier::parse(&id.render(&dictionary), &dictionary), id);
    }
}

#[test]
fn label_reads_as_the_hash_it_was_loaded_for() {
    let dictionary = dictionary();
    assert_ne!(hash("Label"), 7);
    assert_eq!(HashedIdentifier::parse("Label", &dictionary).value(), 7);
    assert_eq!(HashedIdentifier::parse("flinch_start", &dictionary).value(), 0x1a_2b3c_4d5e);
}

#[test]
fn unknown_label_reads_as_its_hash() {
    let dictionary = dictionary();
    assert_eq!(HashedIdentifier::parse("damage_max", &dictionary).value(), 0x0a_a3cb_8810);
    assert_eq!(HashedIdentifier::parse("label", &dictionary).value(), hash("label"));
    assert_eq!(
        HashedIdentifier::parse("Label", &LabelDictionary::new()).value(),
        hash("Label")
    );
    assert_eq!(HashedIdentifier::parse("0x12", &dictionary).value(), hash("0x12"));
}

#[test]
fn raw_literal_is_read_before_the_dictionary_is_asked() {
    let dictionary = dictionary();
    assert_eq!(HashedIdentifier::parse("0x0000000007", &dictionary).value(), 7);
    assert_eq!(HashedIdentifier::parse("0x1a2b3c4d5e", &dictionary).value(), 0x1a_2b3c_4d5e);
    assert_eq!(HashedIdentifier::parse("0x1A2B3C4D5E", &dictionary).value(), 0x1a_2b3c_4d5e);
}
