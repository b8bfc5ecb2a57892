use yamlist::binary::decode;
use yamlist::document::{parse_document, render_document, same_document, Node};
use yamlist::ident::HashedIdentifier;
use yamlist::labels::LabelDictionary;
use yamlist::model::{Animation, Extra, MotionEntry, MotionList};
use yamlist::text::{from_doc, from_text, to_doc, to_text, to_text_checked, ParseError};

fn id(value: u64) -> HashedIdentifier {
    HashedIdentifier::new(value)
}

fn text(value: &str) -> Node {
    Node::Text(value.to_string())
}

fn pair(key: &str, content: Node) -> (Node, Node) {
    (text(key), content)
}

fn dictionary() -> LabelDictionary {
    let mut dictionary = LabelDictionary::new();
    assert_eq!(dictionary.load("0x1a2b3c4d5e,flinch_start\n0x7,Label\n0x9,true\n0xa,12"), Ok(()));
    dictionary
}

fn full_entry() -> MotionEntry {
    MotionEntry {
        identifier: id(0x1a_2b3c_4d5e),
        game_script: id(1),
        flags: 0x8003,
        blend_frames: 4,
        animations: vec![
            Animation { name: id(0x05_aabb_ccdd), unk: 7 },
            Animation { name: id(7), unk: 255 },
        ],
        scripts: vec![id(0x10), id(0xff_ffff_ffff), id(9), id(10)],
        extra: Some(Extra { xlu_start: 1, xlu_end: 2, cancel_frame: 3, no_stop_intp: true }),
    }
}

fn bare_entry() -> MotionEntry {
    MotionEntry {
        identifier: id(2),
        game_script: id(3),
        flags: 0,
        blend_frames: 0,
        animations: vec![],
        scripts: vec![],
        extra: None,
    }
}

fn bare_entry_pairs() -> Vec<(Node, Node)> {
    vec![
        pair("identifier", text("0x0000000002")),
        pair("game_script", text("0x0000000003")),
        pair("flags", Node::Int(0)),
        pair("blend_frames", Node::Int(0)),
        pair("animations", Node::Sequence(vec![])),
        pair("scripts", Node::Sequence(vec![])),
    ]
}

fn without(mut pairs: Vec<(Node, Node)>, key: &str) -> Node {
    pairs.retain(|p| p.0 != text(key));
    Node::Sequence(vec![Node::Mapping(pairs)])
}

fn with(mut pairs: Vec<(Node, Node)>, key: &str, content: Node) -> Node {
    for p in pairs.iter_mut() {
        if p.0 == text(key) {
            p.1 = content;
            return Node::Sequence(vec![Node::Mapping(pairs)]);
        }
    }
    pairs.push(pair(key, content));
    Node::Sequence(vec![Node::Mapping(pairs)])
}

#[test]
fn document_of_a_list() {
    let list = MotionList { entries: vec![full_entry(), bare_entry()] };
    let expected = Node::Sequence(vec![
        Node::Mapping(vec![
            pair("identifier", text("flinch_start")),
            pair("game_script", text("0x0000000001")),
            pair("flags", Node::Int(0x8003)),
            pair("blend_frames", Node::Int(4)),
            pair(
                "animations",
                Node::Sequence(vec![
                    Node::Mapping(vec![pair("name", text("0x05aabbccdd")), pair("unk", Node::Int(7))]),
                    Node::Mapping(vec![pair("name", text("Label")), pair("unk", Node::Int(255))]),
                ]),
            ),
            pair(
                "scripts",
                Node::Sequence(vec![
                    text("0x0000000010"),
                    text("0xffffffffff"),
                    text("true"),
                    text("12"),
                ]),
            ),
            pair(
                "extra",
                Node::Mapping(vec![
                    pair("xlu_start", Node::Int(1)),
                    pair("xlu_end", Node::Int(2)),
                    pair("cancel_frame", Node::Int(3)),
                    pair("no_stop_intp", Node::Bool(true)),
                ]),
            ),
        ]),
        Node::Mapping(bare_entry_pairs()),
    ]);
    assert_eq!(to_doc(&list, &dictionary()), expected);
    assert_eq!(from_doc(&expected, &dictionary()), Ok(list));
}

#[test]
fn document_of_an_empty_list() {
    let list = MotionList::new();
    assert_eq!(to_doc(&list, &dictionary()), Node::Sequence(vec![]));
    assert_eq!(from_doc(&Node::Sequence(vec![]), &dictionary()), Ok(list));
    assert_eq!(from_text("[]", &dictionary()), Ok(MotionList::new()));
}

#[test]
fn text_of_a_list_reads_back() {
    let dictionary = dictionary();
    let list = MotionList { entries: vec![full_entry(), bare_entry(), full_entry()] };
    let written = to_text(&list, &dictionary).unwrap();
    assert_eq!(from_text(&written, &dictionary), Ok(list));
}

#[test]
fn text_reads_back_without_a_dictionary() {
    let empty = LabelDictionary::new();
    let list = MotionList { entries: vec![bare_entry(), full_entry()] };
    let written = to_text(&list, &empty).unwrap();
    assert!(written.contains("0x1a2b3c4d5e"));
    assert_eq!(from_text(&written, &empty), Ok(list));
}

#[test]
fn same_list_gives_the_same_text() {
    let dictionary = dictionary();
    let list = MotionList { entries: vec![full_entry(), bare_entry()] };
    assert_eq!(to_text(&list, &dictionary), to_text(&list, &dictionary));
    assert_eq!(to_text(&list, &dictionary), to_text(&list.clone(), &dictionary));
}

#[test]
fn known_identifier_appears_under_its_label() {
    let mut blob = vec![0x4d, 0x4c, 0x53, 0x54, 1, 0, 0, 0, 1, 0, 0, 0, 0, 0, 0, 0];
    blob.extend_from_slice(&[0x5e, 0x4d, 0x3c, 0x2b, 0x1a, 0, 0, 0]);
    blob.extend_from_slice(&[0; 16]);
    let list = decode(&blob).unwrap();
    assert_eq!(list.entries[0].identifier.value(), 0x1a_2b3c_4d5e);
    let mut dictionary = LabelDictionary::new();
    assert_eq!(dictionary.load("0x1a2b3c4d5e,flinch_start"), Ok(()));
    let written = to_text(&list, &dictionary).unwrap();
    assert!(written.contains("identifier: flinch_start\n"));
    assert!(!written.contains("0x1a2b3c4d5e"));
    let unlabelled = to_text(&list, &LabelDictionary::new()).unwrap();
    assert!(unlabelled.contains("0x1a2b3c4d5e"));
    assert!(!unlabelled.contains("flinch_start"));
}

#[test]
fn text_of_a_bare_entry() {
    let list = MotionList { entries: vec![bare_entry()] };
    let written = to_text(&list, &LabelDictionary::new()).unwrap();
    let lines: Vec<&str> = written.lines().collect();
    assert_eq!(lines.len(), 6);
    assert!(lines[0].starts_with("- identifier: "));
    assert!(lines[0].contains("0x0000000002"));
    assert!(lines[1].starts_with("  game_script: "));
    assert_eq!(lines[2], "  flags: 0");
    assert_eq!(lines[3], "  blend_frames: 0");
    assert_eq!(lines[4], "  animations: []");
    assert_eq!(lines[5], "  scripts: []");
}

#[test]
fn missing_field_is_reported() {
    let dictionary = dictionary();
    let document = "- game_script: a\n  flags: 0\n  blend_frames: 0\n  animations: []\n  scripts: []\n";
    assert_eq!(from_text(document, &dictionary), Err(ParseError::MissingField));
    for key in ["identifier", "game_script", "flags", "blend_frames", "animations", "scripts"] {
        assert_eq!(
            from_doc(&without(bare_entry_pairs(), key), &dictionary),
            Err(ParseError::MissingField)
        );
    }
    assert_eq!(from_doc(&without(bare_entry_pairs(), "extra"), &dictionary), Ok(MotionList {
        entries: vec![bare_entry()]
    }));
}

#[test]
fn missing_field_in_a_nested_mapping_is_reported() {
    let dictionary = dictionary();
    let animation = Node::Sequence(vec![Node::Mapping(vec![pair("name", text("a"))])]);
    assert_eq!(
        from_doc(&with(bare_entry_pairs(), "animations", animation), &dictionary),
        Err(ParseError::MissingField)
    );
    let extra = Node::Mapping(vec![
        pair("xlu_start", Node::Int(1)),
        pair("xlu_end", Node::Int(2)),
        pair("no_stop_intp", Node::Bool(false)),
    ]);
    assert_eq!(
        from_doc(&with(bare_entry_pairs(), "extra", extra), &dictionary),
        Err(ParseError::MissingField)
    );
}

#[test]
fn no_list_comes_back_when_a_later_entry_is_wrong() {
    let dictionary = dictionary();
    let document = Node::Sequence(vec![
        Node::Mapping(bare_entry_pairs()),
        Node::Mapping(vec![pair("identifier", text("a"))]),
    ]);
    assert_eq!(from_doc(&document, &dictionary), Err(ParseError::MissingField));
}

#[test]
fn wrong_types_are_reported() {
    let dictionary = dictionary();
    let cases = vec![
        with(bare_entry_pairs(), "flags", text("3")),
        with(bare_entry_pairs(), "flags", Node::Int(0x1_0000)),
        with(bare_entry_pairs(), "flags", Node::Number("-1".to_string())),
        with(bare_entry_pairs(), "blend_frames", Node::Int(256)),
        with(bare_entry_pairs(), "blend_frames", Node::Bool(true)),
        with(bare_entry_pairs(), "identifier", Node::Null),
        with(bare_entry_pairs(), "identifier", Node::Int(1 << 40)),
        with(bare_entry_pairs(), "game_script", Node::Sequence(vec![])),
        with(bare_entry_pairs(), "animations", Node::Mapping(vec![])),
        with(bare_entry_pairs(), "animations", Node::Sequence(vec![text("a")])),
        with(bare_entry_pairs(), "scripts", text("a")),
        with(bare_entry_pairs(), "scripts", Node::Sequence(vec![Node::Bool(false)])),
        with(bare_entry_pairs(), "extra", Node::Null),
        with(bare_entry_pairs(), "extra", Node::Sequence(vec![])),
        Node::Mapping(bare_entry_pairs()),
        Node::Sequence(vec![text("entry")]),
        Node::Sequence(vec![Node::Tagged("!entry".to_string(), Box::new(Node::Mapping(bare_entry_pairs())))]),
        Node::Null,
    ];
    for document in cases {
        assert_eq!(from_doc(&document, &dictionary), Err(ParseError::TypeMismatch));
    }
    assert_eq!(from_text("flags: 1", &dictionary), Err(ParseError::TypeMismatch));
    assert_eq!(from_text("", &dictionary), Err(ParseError::TypeMismatch));
}

#[test]
fn wrong_types_in_a_trailer_are_reported() {
    let dictionary = dictionary();
    let extra = |flag: Node, start: Node| {
        Node::Mapping(vec![
            pair("xlu_start", start),
            pair("xlu_end", Node::Int(2)),
            pair("cancel_frame", Node::Int(3)),
            pair("no_stop_intp", flag),
        ])
    };
    assert_eq!(
        from_doc(&with(bare_entry_pairs(), "extra", extra(Node::Int(1), Node::Int(1))), &dictionary),
        Err(ParseError::TypeMismatch)
    );
    assert_eq!(
        from_doc(&with(bare_entry_pairs(), "extra", extra(Node::Bool(true), Node::Int(256))), &dictionary),
        Err(ParseError::TypeMismatch)
    );
    let list = from_doc(&with(bare_entry_pairs(), "extra", extra(Node::Bool(false), Node::Int(255))), &dictionary)
        .unwrap();
    assert_eq!(
        list.entries[0].extra,
        Some(Extra { xlu_start: 255, xlu_end: 2, cancel_frame: 3, no_stop_intp: false })
    );
}

#[test]
fn first_wrong_key_of_the_table_decides() {
    let dictionary = dictionary();
    let mut pairs = bare_entry_pairs();
    pairs.retain(|p| p.0 != text("scripts"));
    assert_eq!(
        from_doc(&with(pairs, "flags", text("x")), &dictionary),
        Err(ParseError::TypeMismatch)
    );
    let mut pairs = bare_entry_pairs();
    pairs.retain(|p| p.0 != text("scripts") && p.0 != text("game_script"));
    assert_eq!(
        from_doc(&with(pairs, "flags", text("x")), &dictionary),
        Err(ParseError::MissingField)
    );
}

#[test]
fn too_many_animations_are_a_mismatch() {
    let dictionary = dictionary();
    let animation = || Node::Mapping(vec![pair("name", Node::Int(1)), pair("unk", Node::Int(0))]);
    let many = Node::Sequence((0..256).map(|_| animation()).collect());
    assert_eq!(
        from_doc(&with(bare_entry_pairs(), "animations", many), &dictionary),
        Err(ParseError::TypeMismatch)
    );
    let most = Node::Sequence((0..255).map(|_| animation()).collect());
    let list = from_doc(&with(bare_entry_pairs(), "animations", most), &dictionary).unwrap();
    assert_eq!(list.entries[0].animations.len(), 255);
    assert!(list.fits_layout());
}

#[test]
fn text_that_is_no_yaml_is_a_syntax_error() {
    let dictionary = dictionary();
    assert_eq!(from_text("[1, 2", &dictionary), Err(ParseError::Syntax));
    assert_eq!(from_text("- identifier: \"open", &dictionary), Err(ParseError::Syntax));
    assert_eq!(from_text("a: 1\na: 2", &dictionary), Err(ParseError::Syntax));
}

#[test]
fn identifier_may_be_an_integer() {
    let dictionary = dictionary();
    let document = "- identifier: 16\n  game_script: 0x0000000011\n  flags: 0\n  blend_frames: 0\n  animations: []\n  scripts: [1099511627775, '0x0000000012', Label]\n";
    let list = from_text(document, &dictionary).unwrap();
    assert_eq!(list.entries[0].identifier.value(), 16);
    assert_eq!(list.entries[0].game_script.value(), 17);
    assert_eq!(list.entries[0].scripts, vec![id(0xff_ffff_ffff), id(18), id(7)]);
}

#[test]
fn keys_may_come_in_any_order() {
    let dictionary = dictionary();
    let mut pairs = bare_entry_pairs();
    pairs.reverse();
    pairs.insert(0, pair("comment", text("passed over")));
    pairs.push(pair("flags", Node::Int(9)));
    let list = from_doc(&Node::Sequence(vec![Node::Mapping(pairs)]), &dictionary).unwrap();
    assert_eq!(list, MotionList { entries: vec![bare_entry()] });
}

#[test]
fn label_in_a_document_reads_as_the_hash_it_was_loaded_for() {
    let dictionary = dictionary();
    let list = from_doc(&with(bare_entry_pairs(), "identifier", text("Label")), &dictionary).unwrap();
    assert_eq!(list.entries[0].identifier.value(), 7);
    let document = "- identifier: Label\n  game_script: flinch_start\n  flags: 0\n  blend_frames: 0\n  animations:\n  - name: Label\n    unk: 1\n  scripts:\n  - Label\n";
    let list = from_text(document, &dictionary).unwrap();
    assert_eq!(list.entries[0].identifier.value(), 7);
    assert_eq!(list.entries[0].game_script.value(), 0x1a_2b3c_4d5e);
    assert_eq!(list.entries[0].animations, vec![Animation { name: id(7), unk: 1 }]);
    assert_eq!(list.entries[0].scripts, vec![id(7)]);
}

#[test]
fn yaml_of_a_small_document() {
    let document = Node::Sequence(vec![
        Node::Int(1),
        text("a"),
        Node::Bool(false),
        Node::Mapping(vec![pair("k", Node::Int(2)), pair("l", Node::Sequence(vec![]))]),
    ]);
    assert_eq!(render_document(&document), Some("- 1\n- a\n- false\n- k: 2\n  l: []\n".to_string()));
}

#[test]
fn document_of_a_small_yaml() {
    let parsed = parse_document("- 1\n- a\n- -2\n- 1.5\n- ~\n- true\n- k: [x]\n- !t 3\n- '4'\n");
    let expected = Node::Sequence(vec![
        Node::Int(1),
        text("a"),
        Node::Number("-2".to_string()),
        Node::Number("1.5".to_string()),
        Node::Null,
        Node::Bool(true),
        Node::Mapping(vec![pair("k", Node::Sequence(vec![text("x")]))]),
        Node::Tagged("!t".to_string(), Box::new(Node::Int(3))),
        text("4"),
    ]);
    assert_eq!(parsed, Some(expected));
    assert_eq!(parse_document("[1"), None);
}

#[test]
fn strings_that_look_like_other_scalars_read_back_as_strings() {
    for value in ["true", "12", "0x0000000001", "~", "", " a", "a: b", "- a", "'", "1.5", "#x"] {
        let document = Node::Sequence(vec![text(value)]);
        let written = render_document(&document).unwrap();
        assert_eq!(parse_document(&written), Some(document));
    }
}

#[test]
fn checked_text_is_the_text() {
    let dictionary = dictionary();
    let list = MotionList { entries: vec![full_entry(), bare_entry()] };
    let checked = to_text_checked(&list, &dictionary);
    assert!(checked.is_some());
    assert_eq!(checked, to_text(&list, &dictionary));
    assert_eq!(from_text(&checked.unwrap(), &dictionary), Ok(list));
    assert_eq!(to_text_checked(&MotionList::new(), &dictionary), Some("[]\n".to_string()));
}

#[test]
fn documents_are_compared_by_what_they_hold() {
    let build = || {
        Node::Sequence(vec![
            Node::Null,
            Node::Bool(true),
            Node::Int(3),
            Node::Number("-1".to_string()),
            text("a"),
            Node::Mapping(vec![pair("k", Node::Sequence(vec![Node::Int(1)]))]),
            Node::Tagged("!t".to_string(), Box::new(text("b"))),
        ])
    };
    assert!(same_document(&build(), &build()));
    let others = vec![
        Node::Null,
        Node::Sequence(vec![]),
        Node::Sequence(vec![Node::Null, Node::Bool(true), Node::Int(3)]),
        Node::Mapping(vec![]),
        text("a"),
        Node::Number("a".to_string()),
        Node::Int(0),
        Node::Bool(false),
    ];
    for other in others.iter() {
        assert!(!same_document(&build(), other));
        assert!(!same_document(other, &build()));
        assert!(same_document(other, other));
    }
    assert!(!same_document(&text("1"), &Node::Int(1)));
    assert!(!same_document(&Node::Int(1), &Node::Int(2)));
    assert!(!same_document(
        &Node::Mapping(vec![pair("k", Node::Int(1)), pair("l", Node::Int(2))]),
        &Node::Mapping(vec![pair("l", Node::Int(2)), pair("k", Node::Int(1))])
    ));
    assert!(!same_document(
        &Node::Tagged("!t".to_string(), Box::new(Node::Int(1))),
        &Node::Tagged("!u".to_string(), Box::new(Node::Int(1)))
    ));
    assert!(!same_document(
        &Node::Tagged("!t".to_string(), Box::new(Node::Int(1))),
        &Node::Tagged("!t".to_string(), Box::new(Node::Int(2)))
    ));
}
