//! The text codec: a motion list as a document, and a document as a motion
//! list.
//!
//! The document of a list is a sequence with one mapping for each entry, in
//! the order of the list. The mapping of an entry holds, under these keys:
//!
//! | key            | content                                              |
//! |----------------|------------------------------------------------------|
//! | `identifier`   | an identifier                                        |
//! | `game_script`  | an identifier                                        |
//! | `flags`        | an integer up to 65535                               |
//! | `blend_frames` | an integer up to 255                                 |
//! | `animations`   | a sequence of mappings with `name`, an identifier,   |
//! |                | and `unk`, an integer up to 255                      |
//! | `scripts`      | a sequence of identifiers                            |
//! | `extra`        | optional: a mapping with `xlu_start`, `xlu_end` and  |
//! |                | `cancel_frame`, integers up to 255, and              |
//! |                | `no_stop_intp`, a truth value                        |
//!
//! An identifier is written as a string: its label, or its raw literal where
//! the dictionary has no label for it. It is read from a string, as
//! `HashedIdentifier::parse` reads a token, or from an integer below two to
//! the fortieth. Keys may come in any order; where a key comes twice the first
//! counts; keys that the table does not name are passed over.

use vstd::prelude::*;
use crate::document::{Tree, yaml_parse, yaml_text};
use crate::hash::HASH_LIMIT;
use crate::ident::{rendering, token_value};
use crate::model::{AnimationView, Extra, MotionEntryView, MotionListView};

pub mod laws;
pub mod write;
pub mod read;

pub use crate::text::read::{from_doc, from_text, parsed_view};
pub use crate::text::write::{to_doc, to_text, to_text_checked};

verus! {

/// Why a document is no motion list.
#[derive(Clone, Copy, Debug, PartialEq, Eq)]
pub enum ParseError {
    /// The text is no YAML document.
    Syntax,
    /// A mapping lacks a key that it has to hold.
    MissingField,
    /// A value has another type than its place asks for, or lies outside the
    /// range of its place.
    TypeMismatch,
}

/// A pair of a mapping with a string for its key.
pub open spec fn keyed(name: Seq<char>, content: Tree) -> (Tree, Tree) {
    (Tree::Text(name), content)
}

/// An identifier as a document.
pub open spec fn id_tree(labels: Map<u64, Seq<char>>, value: u64) -> Tree {
    Tree::Text(rendering(labels, value))
}

/// The function that writes identifiers under a dictionary.
pub open spec fn id_writer(labels: Map<u64, Seq<char>>) -> spec_fn(u64) -> Tree {
    |value: u64| id_tree(labels, value)
}

/// An animation as a document.
pub open spec fn animation_tree(labels: Map<u64, Seq<char>>, animation: AnimationView) -> Tree {
    Tree::Mapping(
        seq![
            keyed("name"@, id_tree(labels, animation.name)),
            keyed("unk"@, Tree::Int(animation.unk as u64)),
        ],
    )
}

/// The function that writes animations under a dictionary.
pub open spec fn animation_writer(labels: Map<u64, Seq<char>>) -> spec_fn(AnimationView) -> Tree {
    |animation: AnimationView| animation_tree(labels, animation)
}

/// A trailer as a document.
pub open spec fn extra_tree(extra: Extra) -> Tree {
    Tree::Mapping(
        seq![
            keyed("xlu_start"@, Tree::Int(extra.xlu_start as u64)),
            keyed("xlu_end"@, Tree::Int(extra.xlu_end as u64)),
            keyed("cancel_frame"@, Tree::Int(extra.cancel_frame as u64)),
            keyed("no_stop_intp"@, Tree::Bool(extra.no_stop_intp)),
        ],
    )
}

/// The pairs that every entry holds.
pub open spec fn entry_pairs(labels: Map<u64, Seq<char>>, entry: MotionEntryView) -> Seq<
    (Tree, Tree),
> {
    seq![
        keyed("identifier"@, id_tree(labels, entry.identifier)),
        keyed("game_script"@, id_tree(labels, entry.game_script)),
        keyed("flags"@, Tree::Int(entry.flags as u64)),
        keyed("blend_frames"@, Tree::Int(entry.blend_frames as u64)),
        keyed(
            "animations"@,
            Tree::Sequence(entry.animations.map_values(animation_writer(labels))),
        ),
        keyed("scripts"@, Tree::Sequence(entry.scripts.map_values(id_writer(labels)))),
    ]
}

/// An entry as a document.
pub open spec fn entry_tree(labels: Map<u64, Seq<char>>, entry: MotionEntryView) -> Tree {
    Tree::Mapping(
        match entry.extra {
            Some(extra) => entry_pairs(labels, entry).push(keyed("extra"@, extra_tree(extra))),
            None => entry_pairs(labels, entry),
        },
    )
}

/// The function that writes entries under a dictionary.
pub open spec fn entry_writer(labels: Map<u64, Seq<char>>) -> spec_fn(MotionEntryView) -> Tree {
    |entry: MotionEntryView| entry_tree(labels, entry)
}

/// A motion list as a document.
pub open spec fn list_tree(labels: Map<u64, Seq<char>>, list: MotionListView) -> Tree {
    Tree::Sequence(list.entries.map_values(entry_writer(labels)))
}

/// The content under the first key of a mapping that is the string `name`.
pub open spec fn field(pairs: Seq<(Tree, Tree)>, name: Seq<char>) -> Option<Tree>
    decreases pairs.len(),
{
    if pairs.len() == 0 {
        None
    } else if pairs[0].0 == Tree::Text(name) {
        Some(pairs[0].1)
    } else {
        field(pairs.drop_first(), name)
    }
}

/// The identifier that a document stands for.
pub open spec fn read_id(labels: Map<u64, Seq<char>>, tree: Tree) -> Result<u64, ParseError> {
    match tree {
        Tree::Text(token) => Ok(token_value(labels, token)),
        Tree::Int(value) => if value < HASH_LIMIT {
            Ok(value)
        } else {
            Err(ParseError::TypeMismatch)
        },
        _ => Err(ParseError::TypeMismatch),
    }
}

/// The function that reads identifiers under a dictionary.
pub open spec fn id_reader(labels: Map<u64, Seq<char>>) -> spec_fn(Tree) -> Result<
    u64,
    ParseError,
> {
    |tree: Tree| read_id(labels, tree)
}

/// The integer up to `limit` that a document stands for.
pub open spec fn read_int(tree: Tree, limit: u64) -> Result<u64, ParseError> {
    match tree {
        Tree::Int(value) => if value <= limit {
            Ok(value)
        } else {
            Err(ParseError::TypeMismatch)
        },
        _ => Err(ParseError::TypeMismatch),
    }
}

/// The truth value that a document stands for.
pub open spec fn read_bool(tree: Tree) -> Result<bool, ParseError> {
    match tree {
        Tree::Bool(value) => Ok(value),
        _ => Err(ParseError::TypeMismatch),
    }
}

/// The identifier under a key that has to be there.
pub open spec fn need_id(labels: Map<u64, Seq<char>>, pairs: Seq<(Tree, Tree)>, name: Seq<char>) -> Result<
    u64,
    ParseError,
> {
    match field(pairs, name) {
        None => Err(ParseError::MissingField),
        Some(tree) => read_id(labels, tree),
    }
}

/// The integer under a key that has to be there.
pub open spec fn need_int(pairs: Seq<(Tree, Tree)>, name: Seq<char>, limit: u64) -> Result<
    u64,
    ParseError,
> {
    match field(pairs, name) {
        None => Err(ParseError::MissingField),
        Some(tree) => read_int(tree, limit),
    }
}

/// The truth value under a key that has to be there.
pub open spec fn need_bool(pairs: Seq<(Tree, Tree)>, name: Seq<char>) -> Result<bool, ParseError> {
    match field(pairs, name) {
        None => Err(ParseError::MissingField),
        Some(tree) => read_bool(tree),
    }
}

/// The items of the sequence under a key that has to be there.
pub open spec fn need_items(pairs: Seq<(Tree, Tree)>, name: Seq<char>) -> Result<
    Seq<Tree>,
    ParseError,
> {
    match field(pairs, name) {
        None => Err(ParseError::MissingField),
        Some(Tree::Sequence(items)) => Ok(items),
        Some(_) => Err(ParseError::TypeMismatch),
    }
}

/// What `read` makes of every item in turn, or the error of the first item
/// that it refuses.
pub open spec fn read_all<T>(items: Seq<Tree>, read: spec_fn(Tree) -> Result<T, ParseError>) -> Result<
    Seq<T>,
    ParseError,
>
    decreases items.len(),
{
    if items.len() == 0 {
        Ok(Seq::empty())
    } else {
        match read(items[0]) {
            Err(e) => Err(e),
            Ok(first) => match read_all(items.drop_first(), read) {
                Err(e) => Err(e),
                Ok(others) => Ok(seq![first] + others),
            },
        }
    }
}

/// The animation that a document stands for.
pub open spec fn read_animation(labels: Map<u64, Seq<char>>, tree: Tree) -> Result<
    AnimationView,
    ParseError,
> {
    match tree {
        Tree::Mapping(pairs) => match need_id(labels, pairs, "name"@) {
            Err(e) => Err(e),
            Ok(name) => match need_int(pairs, "unk"@, 0xff) {
                Err(e) => Err(e),
                Ok(unk) => Ok(AnimationView { name, unk: unk as u8 }),
            },
        },
        _ => Err(ParseError::TypeMismatch),
    }
}

/// The function that reads animations under a dictionary.
pub open spec fn animation_reader(labels: Map<u64, Seq<char>>) -> spec_fn(Tree) -> Result<
    AnimationView,
    ParseError,
> {
    |tree: Tree| read_animation(labels, tree)
}

/// The trailer that a document stands for.
pub open spec fn read_extra(tree: Tree) -> Result<Extra, ParseError> {
    match tree {
        Tree::Mapping(pairs) => match need_int(pairs, "xlu_start"@, 0xff) {
            Err(e) => Err(e),
            Ok(xlu_start) => match need_int(pairs, "xlu_end"@, 0xff) {
                Err(e) => Err(e),
                Ok(xlu_end) => match need_int(pairs, "cancel_frame"@, 0xff) {
                    Err(e) => Err(e),
                    Ok(cancel_frame) => match need_bool(pairs, "no_stop_intp"@) {
                        Err(e) => Err(e),
                        Ok(no_stop_intp) => Ok(
                            Extra {
                                xlu_start: xlu_start as u8,
                                xlu_end: xlu_end as u8,
                                cancel_frame: cancel_frame as u8,
                                no_stop_intp,
                            },
                        ),
                    },
                },
            },
        },
        _ => Err(ParseError::TypeMismatch),
    }
}

/// The animations under `animations`.
pub open spec fn need_animations(labels: Map<u64, Seq<char>>, pairs: Seq<(Tree, Tree)>) -> Result<
    Seq<AnimationView>,
    ParseError,
> {
    match need_items(pairs, "animations"@) {
        Err(e) => Err(e),
        Ok(items) => read_all(items, animation_reader(labels)),
    }
}

/// The scripts under `scripts`.
pub open spec fn need_scripts(labels: Map<u64, Seq<char>>, pairs: Seq<(Tree, Tree)>) -> Result<
    Seq<u64>,
    ParseError,
> {
    match need_items(pairs, "scripts"@) {
        Err(e) => Err(e),
        Ok(items) => read_all(items, id_reader(labels)),
    }
}

/// The trailer under `extra`, which may be absent.
pub open spec fn optional_extra(pairs: Seq<(Tree, Tree)>) -> Result<Option<Extra>, ParseError> {
    match field(pairs, "extra"@) {
        None => Ok(None),
        Some(tree) => match read_extra(tree) {
            Err(e) => Err(e),
            Ok(extra) => Ok(Some(extra)),
        },
    }
}

/// The entry that a document stands for. The keys are looked at in the order
/// of the table; the first that is missing or holds a wrong value decides
/// the error. An entry too large for a blob is a mismatch.
pub open spec fn read_entry(labels: Map<u64, Seq<char>>, tree: Tree) -> Result<
    MotionEntryView,
    ParseError,
> {
    match tree {
        Tree::Mapping(pairs) => match need_id(labels, pairs, "identifier"@) {
            Err(e) => Err(e),
            Ok(identifier) => match need_id(labels, pairs, "game_script"@) {
                Err(e) => Err(e),
                Ok(game_script) => match need_int(pairs, "flags"@, 0xffff) {
                    Err(e) => Err(e),
                    Ok(flags) => match need_int(pairs, "blend_frames"@, 0xff) {
                        Err(e) => Err(e),
                        Ok(blend_frames) => match need_animations(labels, pairs) {
                            Err(e) => Err(e),
                            Ok(animations) => match need_scripts(labels, pairs) {
                                Err(e) => Err(e),
                                Ok(scripts) => match optional_extra(pairs) {
                                    Err(e) => Err(e),
                                    Ok(extra) => {
                                        let entry = MotionEntryView {
                                            identifier,
                                            game_script,
                                            flags: flags as u16,
                                            blend_frames: blend_frames as u8,
                                            animations,
                                            scripts,
                                            extra,
                                        };
                                        if entry.fits() {
                                            Ok(entry)
                                        } else {
                                            Err(ParseError::TypeMismatch)
                                        }
                                    },
                                },
                            },
                        },
                    },
                },
            },
        },
        _ => Err(ParseError::TypeMismatch),
    }
}

/// The function that reads entries under a dictionary.
pub open spec fn entry_reader(labels: Map<u64, Seq<char>>) -> spec_fn(Tree) -> Result<
    MotionEntryView,
    ParseError,
> {
    |tree: Tree| read_entry(labels, tree)
}

/// The motion list that a document stands for: its items read as entries, in
/// their order.
pub open spec fn read_list(labels: Map<u64, Seq<char>>, tree: Tree) -> Result<
    MotionListView,
    ParseError,
> {
    match tree {
        Tree::Sequence(items) => match read_all(items, entry_reader(labels)) {
            Err(e) => Err(e),
            Ok(entries) => if entries.len() <= u64::MAX {
                Ok(MotionListView { entries })
            } else {
                Err(ParseError::TypeMismatch)
            },
        },
        _ => Err(ParseError::TypeMismatch),
    }
}

/// The text of a list under a dictionary: what the YAML encoder makes of the
/// document of the list, a text or nothing.
pub open spec fn text_of(labels: Map<u64, Seq<char>>, list: MotionListView) -> Option<Seq<char>> {
    yaml_text(list_tree(labels, list))
}

/// The text of a list that is handed out only after it was read back: the
/// text of the list where the list is one that a blob can hold and the YAML
/// decoder reads from the text the document of the list; nothing else.
pub open spec fn checked_text_of(labels: Map<u64, Seq<char>>, list: MotionListView) -> Option<
    Seq<char>,
> {
    match text_of(labels, list) {
        Some(text) => if list.wf() && yaml_parse(text) == Some(list_tree(labels, list)) {
            Some(text)
        } else {
            None
        },
        None => None,
    }
}

/// What a text stands for under a dictionary: the list of the document that
/// the YAML decoder reads from it.
pub open spec fn read_text(labels: Map<u64, Seq<char>>, text: Seq<char>) -> Result<
    MotionListView,
    ParseError,
> {
    match yaml_parse(text) {
        None => Err(ParseError::Syntax),
        Some(tree) => read_list(labels, tree),
    }
}

} // verus!
