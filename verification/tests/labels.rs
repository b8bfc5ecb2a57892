use yamlist::hash::hash;
use yamlist::ident::HashedIdentifier;
use yamlist::labels::{LabelDictionary, LoadError};
use yamlist::literal::{parse_hex, parse_prefixed_hex, parse_raw_literal, render_raw_literal};

fn id(value: u64) -> HashedIdentifier {
    HashedIdentifier::new(value)
}

#[test]
fn empty_dictionary_knows_nothing() {
    let dictionary = LabelDictionary::new();
    assert_eq!(dictionary.lookup(id(1)), None);
    assert_eq!(dictionary.reverse_lookup("one"), None);
}

#[test]
fn load_reads_pairs_line_by_line() {
    let mut dictionary = LabelDictionary::new();
    let source = "0x1a2b3c4d5e,flinch_start\n0x0000000001,one\r\n\n0x2,two";
    assert_eq!(dictionary.load(source), Ok(()));
    assert_eq!(dictionary.lookup(id(0x1a_2b3c_4d5e)), Some("flinch_start".to_string()));
    assert_eq!(dictionary.lookup(id(1)), Some("one".to_string()));
    assert_eq!(dictionary.lookup(id(2)), Some("two".to_string()));
    assert_eq!(dictionary.lookup(id(3)), None);
    assert_eq!(dictionary.reverse_lookup("flinch_start"), Some(id(0x1a_2b3c_4d5e)));
    assert_eq!(dictionary.reverse_lookup("two"), Some(id(2)));
    assert_eq!(dictionary.reverse_lookup("three"), None);
}

#[test]
fn load_of_an_empty_source_changes_nothing() {
    let mut dictionary = LabelDictionary::new();
    assert_eq!(dictionary.load(""), Ok(()));
    assert_eq!(dictionary.load("\n\r\n\n"), Ok(()));
    assert_eq!(dictionary.lookup(id(0)), None);
}

#[test]
fn label_runs_to_the_end_of_the_line() {
    let mut dictionary = LabelDictionary::new();
    assert_eq!(dictionary.load("0xA,a,b c\n0xb,\n"), Ok(()));
    assert_eq!(dictionary.lookup(id(10)), Some("a,b c".to_string()));
    assert_eq!(dictionary.lookup(id(11)), Some(String::new()));
    assert_eq!(dictionary.reverse_lookup(""), Some(id(11)));
}

#[test]
fn first_pair_wins() {
    let mut dictionary = LabelDictionary::new();
    assert_eq!(dictionary.load("0x1,first\n0x1,second\n0x2,first\n0x3,third"), Ok(()));
    assert_eq!(dictionary.lookup(id(1)), Some("first".to_string()));
    assert_eq!(dictionary.lookup(id(2)), None);
    assert_eq!(dictionary.lookup(id(3)), Some("third".to_string()));
    assert_eq!(dictionary.reverse_lookup("first"), Some(id(1)));
    assert_eq!(dictionary.reverse_lookup("second"), None);
}

#[test]
fn second_load_adds_to_the_first() {
    let mut dictionary = LabelDictionary::new();
    assert_eq!(dictionary.load("0x1,one"), Ok(()));
    assert_eq!(dictionary.load("0x1,uno\n0x2,two"), Ok(()));
    assert_eq!(dictionary.lookup(id(1)), Some("one".to_string()));
    assert_eq!(dictionary.lookup(id(2)), Some("two".to_string()));
}

#[test]
fn label_in_the_form_of_a_raw_literal_is_passed_over() {
    let mut dictionary = LabelDictionary::new();
    assert_eq!(dictionary.load("0x5,0x0000000007\n0x6,0x7"), Ok(()));
    assert_eq!(dictionary.lookup(id(5)), None);
    assert_eq!(dictionary.lookup(id(6)), Some("0x7".to_string()));
    assert!(!dictionary.insert(id(8), "0x00000000AB".to_string()));
    assert_eq!(dictionary.lookup(id(8)), None);
}

#[test]
fn insert_tells_whether_the_pair_was_taken() {
    let mut dictionary = LabelDictionary::new();
    assert!(dictionary.insert(id(1), "one".to_string()));
    assert!(!dictionary.insert(id(1), "uno".to_string()));
    assert!(!dictionary.insert(id(2), "one".to_string()));
    assert!(dictionary.insert(id(2), "two".to_string()));
    assert_eq!(dictionary.lookup(id(1)), Some("one".to_string()));
    assert_eq!(dictionary.reverse_lookup("one"), Some(id(1)));
    assert_eq!(dictionary.reverse_lookup("uno"), None);
    dictionary.well_formed();
}

#[test]
fn loaded_hash_need_not_be_the_hash_of_the_label() {
    let mut dictionary = LabelDictionary::new();
    assert_eq!(dictionary.load("0x7,Label"), Ok(()));
    assert_ne!(hash("Label"), 7);
    assert_eq!(dictionary.reverse_lookup("Label"), Some(id(7)));
    assert_eq!(dictionary.lookup(id(hash("Label"))), None);
}

#[test]
fn line_without_comma_is_refused() {
    let mut dictionary = LabelDictionary::new();
    assert_eq!(
        dictionary.load("0x1,a\n\nnocomma\n0x2,b"),
        Err(LoadError::MissingSeparator { line: 3 })
    );
    assert_eq!(dictionary.load("x"), Err(LoadError::MissingSeparator { line: 1 }));
}

#[test]
fn bad_hash_is_refused() {
    let mut dictionary = LabelDictionary::new();
    assert_eq!(dictionary.load("zz,a"), Err(LoadError::BadHash { line: 1 }));
    assert_eq!(dictionary.load("0x1,a\r\n0x,b\r\n"), Err(LoadError::BadHash { line: 2 }));
    assert_eq!(dictionary.load("0x12345678901,a"), Err(LoadError::BadHash { line: 1 }));
    assert_eq!(dictionary.load("0x1g,a"), Err(LoadError::BadHash { line: 1 }));
    assert_eq!(dictionary.load("1,a"), Err(LoadError::BadHash { line: 1 }));
    assert_eq!(dictionary.load(",a"), Err(LoadError::BadHash { line: 1 }));
    assert_eq!(dictionary.load(" 0x1,a"), Err(LoadError::BadHash { line: 1 }));
}

#[test]
fn first_bad_line_decides() {
    let mut dictionary = LabelDictionary::new();
    assert_eq!(dictionary.load("0x1,a\nzz,b\nnocomma"), Err(LoadError::BadHash { line: 2 }));
    assert_eq!(
        dictionary.load("nocomma\nzz,b"),
        Err(LoadError::MissingSeparator { line: 1 })
    );
}

#[test]
fn source_outside_ascii_is_refused() {
    let mut dictionary = LabelDictionary::new();
    assert_eq!(dictionary.load("0x1,caf\u{e9}"), Err(LoadError::NotAscii));
    assert_eq!(dictionary.load("nocomma\n0x1,\u{4e2d}"), Err(LoadError::NotAscii));
}

#[test]
fn failed_load_leaves_the_dictionary_as_it_was() {
    let mut dictionary = LabelDictionary::new();
    assert_eq!(dictionary.load("0x9,nine\nbroken"), Err(LoadError::MissingSeparator { line: 2 }));
    assert_eq!(dictionary.lookup(id(9)), None);
    assert_eq!(dictionary.load("0x1,one"), Ok(()));
    assert_eq!(dictionary.load("0x2,two\n0xzz,three"), Err(LoadError::BadHash { line: 2 }));
    assert_eq!(dictionary.lookup(id(1)), Some("one".to_string()));
    assert_eq!(dictionary.lookup(id(2)), None);
    assert_eq!(dictionary.reverse_lookup("two"), None);
}

#[test]
fn raw_literal_has_ten_digits() {
    assert_eq!(render_raw_literal(0), "0x0000000000");
    assert_eq!(render_raw_literal(0x1a_2b3c_4d5e), "0x1a2b3c4d5e");
    assert_eq!(render_raw_literal(0xff_ffff_ffff), "0xffffffffff");
    assert_eq!(render_raw_literal(0xab), "0x00000000ab");
}

#[test]
fn raw_literal_reads_back() {
    for value in [0u64, 1, 0xab, 0x1a_2b3c_4d5e, 0xff_ffff_ffff, 0x80_0000_0000] {
        assert_eq!(parse_raw_literal(&render_raw_literal(value)), Some(value));
    }
    assert_eq!(parse_raw_literal("0x00000000AB"), Some(0xab));
    assert_eq!(parse_raw_literal("0x1A2b3C4d5E"), Some(0x1a_2b3c_4d5e));
}

#[test]
fn other_tokens_are_no_raw_literals() {
    for token in [
        "",
        "0x",
        "0x1",
        "0x000000001",
        "0x00000000001",
        "0X0000000001",
        "1x0000000001",
        "0x000000000g",
        "0x00000000 1",
        "flinch_start",
        "0x\u{e9}00000000",
        "\u{ff10}x0000000001",
    ] {
        assert_eq!(parse_raw_literal(token), None);
    }
}

#[test]
fn hexadecimal_words() {
    assert_eq!(parse_hex("0"), Some(0));
    assert_eq!(parse_hex("fF"), Some(255));
    assert_eq!(parse_hex("ffffffffff"), Some(0xff_ffff_ffff));
    assert_eq!(parse_hex(""), None);
    assert_eq!(parse_hex("12345678901"), None);
    assert_eq!(parse_hex("-1"), None);
    assert_eq!(parse_prefixed_hex("0x10"), Some(16));
    assert_eq!(parse_prefixed_hex("0x"), None);
    assert_eq!(parse_prefixed_hex("10"), None);
    assert_eq!(parse_prefixed_hex("0x0000000010"), Some(16));
    assert_eq!(parse_prefixed_hex("0x00000000010"), None);
}
