//! Reading a document and a text as a list.

use vstd::prelude::*;
use crate::document::{
    item_trees, lemma_mapping_tree, lemma_sequence_tree, Node, pair_trees, parse_document, Tree,
    tree_of,
};
use crate::hash::HASH_LIMIT;
use crate::ident::HashedIdentifier;
use crate::labels::{LabelDictionary, labels_wf};
use crate::model::{
    Animation, animation_views, AnimationView, entry_views, Extra, id_values, MotionEntry,
    MotionEntryView, MotionList, MotionListView,
};
use crate::text::{
    animation_reader, entry_reader, field, id_reader, need_bool, need_id, need_int, need_items,
    ParseError, read_all, read_animation, read_entry, read_extra, read_id, read_int, read_list,
    read_text,
};
use crate::text::laws::lemma_read_list_wf;

verus! {

/// The field of a mapping under a name.
fn find_field<'a>(pairs: &'a Vec<(Node, Node)>, name: &str) -> (found: Option<&'a Node>)
    ensures
        match found {
            Some(node) => field(pair_trees(pairs@), name@) == Some(node@),
            None => field(pair_trees(pairs@), name@) is None,
        },
{
    let wanted: String = name.to_owned();
    let ghost all = pair_trees(pairs@);
    let mut i: usize = 0;
    assert(all.skip(0) =~= all);
    while i < pairs.len()
        invariant
            i <= pairs.len(),
            all == pair_trees(pairs@),
            wanted@ == name@,
            field(all, name@) == field(all.skip(i as int), name@),
        decreases pairs.len() - i,
    {
        proof {
            let rest = all.skip(i as int);
            assert(rest[0] == all[i as int]);
            assert(rest.drop_first() =~= all.skip(i + 1));
        }
        match &pairs[i].0 {
            Node::Text(key) => {
                if *key == wanted {
                    return Some(&pairs[i].1);
                }
            },
            _ => {},
        }
        i = i + 1;
    }
    None
}

/// Reads an identifier.
fn id_of_node(node: &Node, dictionary: &LabelDictionary) -> (result: Result<
    HashedIdentifier,
    ParseError,
>)
    ensures
        match result {
            Ok(id) => read_id(dictionary@, node@) == Ok::<u64, ParseError>(id@),
            Err(e) => read_id(dictionary@, node@) == Err::<u64, ParseError>(e),
        },
{
    match node {
        Node::Text(token) => Ok(HashedIdentifier::parse(token.as_str(), dictionary)),
        Node::Int(value) => if *value < HASH_LIMIT {
            Ok(HashedIdentifier::new(*value))
        } else {
            Err(ParseError::TypeMismatch)
        },
        _ => Err(ParseError::TypeMismatch),
    }
}

/// Reads an integer up to `limit`.
fn int_of_node(node: &Node, limit: u64) -> (result: Result<u64, ParseError>)
    ensures
        result == read_int(node@, limit),
{
    match node {
        Node::Int(value) => if *value <= limit {
            Ok(*value)
        } else {
            Err(ParseError::TypeMismatch)
        },
        _ => Err(ParseError::TypeMismatch),
    }
}

/// Reads the identifier under a key.
fn id_field(pairs: &Vec<(Node, Node)>, name: &str, dictionary: &LabelDictionary) -> (result: Result<
    HashedIdentifier,
    ParseError,
>)
    ensures
        match result {
            Ok(id) => need_id(dictionary@, pair_trees(pairs@), name@) == Ok::<u64, ParseError>(id@),
            Err(e) => need_id(dictionary@, pair_trees(pairs@), name@) == Err::<u64, ParseError>(e),
        },
{
    match find_field(pairs, name) {
        None => Err(ParseError::MissingField),
        Some(node) => id_of_node(node, dictionary),
    }
}

/// Reads the integer under a key.
fn int_field(pairs: &Vec<(Node, Node)>, name: &str, limit: u64) -> (result: Result<u64, ParseError>)
    ensures
        result == need_int(pair_trees(pairs@), name@, limit),
{
    match find_field(pairs, name) {
        None => Err(ParseError::MissingField),
        Some(node) => int_of_node(node, limit),
    }
}

/// Reads the truth value under a key.
fn bool_field(pairs: &Vec<(Node, Node)>, name: &str) -> (result: Result<bool, ParseError>)
    ensures
        result == need_bool(pair_trees(pairs@), name@),
{
    match find_field(pairs, name) {
        None => Err(ParseError::MissingField),
        Some(node) => match node {
            Node::Bool(value) => Ok(*value),
            _ => Err(ParseError::TypeMismatch),
        },
    }
}

/// The items of the sequence under a key.
fn items_field<'a>(pairs: &'a Vec<(Node, Node)>, name: &str) -> (result: Result<
    &'a Vec<Node>,
    ParseError,
>)
    ensures
        match result {
            Ok(items) => need_items(pair_trees(pairs@), name@) == Ok::<Seq<Tree>, ParseError>(
                item_trees(items@),
            ),
            Err(e) => need_items(pair_trees(pairs@), name@) == Err::<Seq<Tree>, ParseError>(e),
        },
{
    match find_field(pairs, name) {
        None => Err(ParseError::MissingField),
        Some(node) => match node {
            Node::Sequence(items) => {
                proof {
                    lemma_sequence_tree(*items);
                }
                Ok(items)
            },
            _ => Err(ParseError::TypeMismatch),
        },
    }
}

/// Reads an animation.
fn animation_of_node(node: &Node, dictionary: &LabelDictionary) -> (result: Result<
    Animation,
    ParseError,
>)
    ensures
        match result {
            Ok(animation) => read_animation(dictionary@, node@) == Ok::<AnimationView, ParseError>(
                animation@,
            ),
            Err(e) => read_animation(dictionary@, node@) == Err::<AnimationView, ParseError>(e),
        },
{
    match node {
        Node::Mapping(pairs) => {
            proof {
                lemma_mapping_tree(*pairs);
            }
            let name = match id_field(pairs, "name", dictionary) {
                Ok(name) => name,
                Err(e) => {
                    return Err(e);
                },
            };
            let unk = match int_field(pairs, "unk", 0xff) {
                Ok(unk) => unk,
                Err(e) => {
                    return Err(e);
                },
            };
            Ok(Animation { name, unk: unk as u8 })
        },
        _ => Err(ParseError::TypeMismatch),
    }
}

/// Reads a trailer.
fn extra_of_node(node: &Node) -> (result: Result<Extra, ParseError>)
    ensures
        result == read_extra(node@),
{
    match node {
        Node::Mapping(pairs) => {
            proof {
                lemma_mapping_tree(*pairs);
            }
            let xlu_start = match int_field(pairs, "xlu_start", 0xff) {
                Ok(value) => value,
                Err(e) => {
                    return Err(e);
                },
            };
            let xlu_end = match int_field(pairs, "xlu_end", 0xff) {
                Ok(value) => value,
                Err(e) => {
                    return Err(e);
                },
            };
            let cancel_frame = match int_field(pairs, "cancel_frame", 0xff) {
                Ok(value) => value,
                Err(e) => {
                    return Err(e);
                },
            };
            let no_stop_intp = match bool_field(pairs, "no_stop_intp") {
                Ok(value) => value,
                Err(e) => {
                    return Err(e);
                },
            };
            Ok(
                Extra {
                    xlu_start: xlu_start as u8,
                    xlu_end: xlu_end as u8,
                    cancel_frame: cancel_frame as u8,
                    no_stop_intp,
                },
            )
        },
        _ => Err(ParseError::TypeMismatch),
    }
}

/// Reads the animations of an entry.
fn animations_of(items: &Vec<Node>, dictionary: &LabelDictionary) -> (result: Result<
    Vec<Animation>,
    ParseError,
>)
    ensures
        match result {
            Ok(animations) => read_all(item_trees(items@), animation_reader(dictionary@)) == Ok::<
                Seq<AnimationView>,
                ParseError,
            >(animation_views(animations@)),
            Err(e) => read_all(item_trees(items@), animation_reader(dictionary@)) == Err::<
                Seq<AnimationView>,
                ParseError,
            >(e),
        },
{
    let ghost all = item_trees(items@);
    let ghost read = animation_reader(dictionary@);
    let mut animations: Vec<Animation> = Vec::new();
    let mut i: usize = 0;
    proof {
        assert(all.skip(0) =~= all);
        let whole = read_all(all, read);
        if whole is Ok {
            assert(animation_views(animations@) + whole->Ok_0 =~= whole->Ok_0);
        }
    }
    while i < items.len()
        invariant
            i <= items.len(),
            all == item_trees(items@),
            read == animation_reader(dictionary@),
            read_all(all, read) == (match read_all(all.skip(i as int), read) {
                Ok(others) => Ok::<Seq<AnimationView>, ParseError>(
                    animation_views(animations@) + others,
                ),
                Err(e) => Err(e),
            }),
        decreases items.len() - i,
    {
        let ghost before = animation_views(animations@);
        proof {
            let rest = all.skip(i as int);
            assert(rest[0] == tree_of(items@[i as int]));
            assert(rest.drop_first() =~= all.skip(i + 1));
        }
        match animation_of_node(&items[i], dictionary) {
            Err(e) => {
                return Err(e);
            },
            Ok(animation) => {
                proof {
                    let tail = read_all(all.skip(i + 1), read);
                    assert(animation_views(animations@.push(animation)) =~= before.push(
                        animation@,
                    ));
                    if tail is Ok {
                        assert(before + (seq![animation@] + tail->Ok_0) =~= before.push(animation@)
                            + tail->Ok_0);
                    }
                }
                animations.push(animation);
            },
        }
        i = i + 1;
    }
    proof {
        assert(all.skip(items.len() as int) =~= Seq::<Tree>::empty());
        assert(animation_views(animations@) + Seq::<AnimationView>::empty() =~= animation_views(
            animations@,
        ));
    }
    Ok(animations)
}

/// Reads the scripts of an entry.
fn scripts_of(items: &Vec<Node>, dictionary: &LabelDictionary) -> (result: Result<
    Vec<HashedIdentifier>,
    ParseError,
>)
    ensures
        match result {
            Ok(scripts) => read_all(item_trees(items@), id_reader(dictionary@)) == Ok::<
                Seq<u64>,
                ParseError,
            >(id_values(scripts@)),
            Err(e) => read_all(item_trees(items@), id_reader(dictionary@)) == Err::<
                Seq<u64>,
                ParseError,
            >(e),
        },
{
    let ghost all = item_trees(items@);
    let ghost read = id_reader(dictionary@);
    let mut scripts: Vec<HashedIdentifier> = Vec::new();
    let mut i: usize = 0;
    proof {
        assert(all.skip(0) =~= all);
        let whole = read_all(all, read);
        if whole is Ok {
            assert(id_values(scripts@) + whole->Ok_0 =~= whole->Ok_0);
        }
    }
    while i < items.len()
        invariant
            i <= items.len(),
            all == item_trees(items@),
            read == id_reader(dictionary@),
            read_all(all, read) == (match read_all(all.skip(i as int), read) {
                Ok(others) => Ok::<Seq<u64>, ParseError>(id_values(scripts@) + others),
                Err(e) => Err(e),
            }),
        decreases items.len() - i,
    {
        let ghost before = id_values(scripts@);
        proof {
            let rest = all.skip(i as int);
            assert(rest[0] == tree_of(items@[i as int]));
            assert(rest.drop_first() =~= all.skip(i + 1));
        }
        match id_of_node(&items[i], dictionary) {
            Err(e) => {
                return Err(e);
            },
            Ok(id) => {
                proof {
                    let tail = read_all(all.skip(i + 1), read);
                    assert(id_values(scripts@.push(id)) =~= before.push(id@));
                    if tail is Ok {
                        assert(before + (seq![id@] + tail->Ok_0) =~= before.push(id@) + tail->Ok_0);
                    }
                }
                scripts.push(id);
            },
        }
        i = i + 1;
    }
    proof {
        assert(all.skip(items.len() as int) =~= Seq::<Tree>::empty());
        assert(id_values(scripts@) + Seq::<u64>::empty() =~= id_values(scripts@));
    }
    Ok(scripts)
}

/// Reads an entry.
fn entry_of_node(node: &Node, dictionary: &LabelDictionary) -> (result: Result<
    MotionEntry,
    ParseError,
>)
    ensures
        match result {
            Ok(entry) => read_entry(dictionary@, node@) == Ok::<MotionEntryView, ParseError>(
                entry@,
            ),
            Err(e) => read_entry(dictionary@, node@) == Err::<MotionEntryView, ParseError>(e),
        },
{
    let pairs = match node {
        Node::Mapping(pairs) => pairs,
        _ => {
            return Err(ParseError::TypeMismatch);
        },
    };
    proof {
        lemma_mapping_tree(*pairs);
    }
    let identifier = match id_field(pairs, "identifier", dictionary) {
        Ok(id) => id,
        Err(e) => {
            return Err(e);
        },
    };
    let game_script = match id_field(pairs, "game_script", dictionary) {
        Ok(id) => id,
        Err(e) => {
            return Err(e);
        },
    };
    let flags = match int_field(pairs, "flags", 0xffff) {
        Ok(value) => value,
        Err(e) => {
            return Err(e);
        },
    };
    let blend_frames = match int_field(pairs, "blend_frames", 0xff) {
        Ok(value) => value,
        Err(e) => {
            return Err(e);
        },
    };
    let animations = match items_field(pairs, "animations") {
        Err(e) => {
            return Err(e);
        },
        Ok(items) => match animations_of(items, dictionary) {
            Ok(animations) => animations,
            Err(e) => {
                return Err(e);
            },
        },
    };
    let scripts = match items_field(pairs, "scripts") {
        Err(e) => {
            return Err(e);
        },
        Ok(items) => match scripts_of(items, dictionary) {
            Ok(scripts) => scripts,
            Err(e) => {
                return Err(e);
            },
        },
    };
    let extra = match find_field(pairs, "extra") {
        None => None,
        Some(inner) => match extra_of_node(inner) {
            Ok(extra) => Some(extra),
            Err(e) => {
                return Err(e);
            },
        },
    };
    let entry = MotionEntry {
        identifier,
        game_script,
        flags: flags as u16,
        blend_frames: blend_frames as u8,
        animations,
        scripts,
        extra,
    };
    if entry.fits_layout() {
        Ok(entry)
    } else {
        Err(ParseError::TypeMismatch)
    }
}

/// What the reading of a list returns, as a mathematical value.
pub open spec fn parsed_view(result: Result<MotionList, ParseError>) -> Result<
    MotionListView,
    ParseError,
> {
    match result {
        Ok(list) => Ok(list@),
        Err(e) => Err(e),
    }
}

/// Reads a document as a list.
///
/// The document has to be a sequence of mappings, one for each entry; the
/// list holds the entries in the order of the document. The first entry that
/// cannot be read decides the error, and in it the first key of the table
/// that is missing (`MissingField`) or holds a value of a wrong type or
/// outside its range (`TypeMismatch`). No list comes back beside an error.
pub fn from_doc(document: &Node, dictionary: &LabelDictionary) -> (result: Result<
    MotionList,
    ParseError,
>)
    ensures
        parsed_view(result) == read_list(dictionary@, document@),
        result matches Ok(list) ==> list@.wf(),
{
    let items = match document {
        Node::Sequence(items) => items,
        _ => {
            return Err(ParseError::TypeMismatch);
        },
    };
    dictionary.well_formed();
    let ghost labels = dictionary@;
    let ghost all = item_trees(items@);
    let ghost read = entry_reader(labels);
    let mut entries: Vec<MotionEntry> = Vec::new();
    let mut i: usize = 0;
    proof {
        lemma_sequence_tree(*items);
        assert(all.skip(0) =~= all);
        let whole = read_all(all, read);
        if whole is Ok {
            assert(entry_views(entries@) + whole->Ok_0 =~= whole->Ok_0);
        }
    }
    while i < items.len()
        invariant
            i <= items.len(),
            labels == dictionary@,
            labels_wf(labels),
            all == item_trees(items@),
            read == entry_reader(labels),
            document@ == Tree::Sequence(all),
            read_all(all, read) == (match read_all(all.skip(i as int), read) {
                Ok(others) => Ok::<Seq<MotionEntryView>, ParseError>(
                    entry_views(entries@) + others,
                ),
                Err(e) => Err(e),
            }),
        decreases items.len() - i,
    {
        let ghost before = entry_views(entries@);
        proof {
            let rest = all.skip(i as int);
            assert(rest[0] == tree_of(items@[i as int]));
            assert(rest.drop_first() =~= all.skip(i + 1));
        }
        match entry_of_node(&items[i], dictionary) {
            Err(e) => {
                return Err(e);
            },
            Ok(entry) => {
                proof {
                    let tail = read_all(all.skip(i + 1), read);
                    assert(entry_views(entries@.push(entry)) =~= before.push(entry@));
                    if tail is Ok {
                        assert(before + (seq![entry@] + tail->Ok_0) =~= before.push(entry@)
                            + tail->Ok_0);
                    }
                }
                entries.push(entry);
            },
        }
        i = i + 1;
    }
    let count: usize = entries.len();
    proof {
        assert(all.skip(items.len() as int) =~= Seq::<Tree>::empty());
        assert(entry_views(entries@) + Seq::<MotionEntryView>::empty() =~= entry_views(entries@));
        assert(entry_views(entries@).len() == count);
        assert(read_all(all, read) == Ok::<Seq<MotionEntryView>, ParseError>(
            entry_views(entries@),
        ));
        lemma_read_list_wf(labels, document@);
    }
    Ok(MotionList { entries })
}

/// Reads a YAML text as a list: `Syntax` where the text is no YAML document,
/// else what `from_doc` makes of the document.
pub fn from_text(text: &str, dictionary: &LabelDictionary) -> (result: Result<
    MotionList,
    ParseError,
>)
    ensures
        parsed_view(result) == read_text(dictionary@, text@),
        result matches Ok(list) ==> list@.wf(),
{
    match parse_document(text) {
        None => Err(ParseError::Syntax),
        Some(document) => from_doc(&document, dictionary),
    }
}

} // verus!
