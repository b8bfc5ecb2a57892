//! Writing a list as a document and as text.

use vstd::prelude::*;
use crate::document::{
    emittable, item_trees, lemma_mapping_tree, lemma_sequence_tree, Node, pair_trees,
    parse_document, render_document, same_document, Tree, tree_of,
};
use crate::ident::HashedIdentifier;
use crate::labels::LabelDictionary;
use crate::model::{
    Animation, animation_views, Extra, id_values, MotionEntry, MotionList, MotionListView,
};
use crate::text::{
    animation_tree, animation_writer, entry_pairs, entry_tree, entry_writer, extra_tree, id_tree,
    checked_text_of, id_writer, keyed, list_tree, ParseError, read_text, text_of,
};
use crate::text::laws::{lemma_checked_text, lemma_list_emittable};

verus! {

/// A string as a document.
fn text_node(text: &str) -> (node: Node)
    ensures
        node@ == Tree::Text(text@),
{
    Node::Text(text.to_owned())
}

/// An identifier as a document.
fn id_node(id: HashedIdentifier, dictionary: &LabelDictionary) -> (node: Node)
    ensures
        node@ == id_tree(dictionary@, id@),
{
    Node::Text(id.render(dictionary))
}

/// An animation as a document.
fn animation_node(animation: &Animation, dictionary: &LabelDictionary) -> (node: Node)
    ensures
        node@ == animation_tree(dictionary@, animation@),
{
    let mut pairs: Vec<(Node, Node)> = Vec::new();
    pairs.push((text_node("name"), id_node(animation.name, dictionary)));
    pairs.push((text_node("unk"), Node::Int(animation.unk as u64)));
    proof {
        lemma_mapping_tree(pairs);
        assert(pair_trees(pairs@) =~= seq![
            keyed("name"@, id_tree(dictionary@, animation@.name)),
            keyed("unk"@, Tree::Int(animation@.unk as u64)),
        ]);
    }
    Node::Mapping(pairs)
}

/// A trailer as a document.
fn extra_node(extra: &Extra) -> (node: Node)
    ensures
        node@ == extra_tree(*extra),
{
    let mut pairs: Vec<(Node, Node)> = Vec::new();
    pairs.push((text_node("xlu_start"), Node::Int(extra.xlu_start as u64)));
    pairs.push((text_node("xlu_end"), Node::Int(extra.xlu_end as u64)));
    pairs.push((text_node("cancel_frame"), Node::Int(extra.cancel_frame as u64)));
    pairs.push((text_node("no_stop_intp"), Node::Bool(extra.no_stop_intp)));
    proof {
        lemma_mapping_tree(pairs);
        assert(pair_trees(pairs@) =~= seq![
            keyed("xlu_start"@, Tree::Int(extra.xlu_start as u64)),
            keyed("xlu_end"@, Tree::Int(extra.xlu_end as u64)),
            keyed("cancel_frame"@, Tree::Int(extra.cancel_frame as u64)),
            keyed("no_stop_intp"@, Tree::Bool(extra.no_stop_intp)),
        ]);
    }
    Node::Mapping(pairs)
}

/// The animations of an entry as a document.
fn animations_node(animations: &Vec<Animation>, dictionary: &LabelDictionary) -> (node: Node)
    ensures
        node@ == Tree::Sequence(
            animation_views(animations@).map_values(animation_writer(dictionary@)),
        ),
{
    let mut items: Vec<Node> = Vec::new();
    let mut i: usize = 0;
    while i < animations.len()
        invariant
            i <= animations.len(),
            items@.len() == i,
            forall|j: int|
                0 <= j < i ==> tree_of(#[trigger] items@[j]) == animation_tree(
                    dictionary@,
                    animations@[j]@,
                ),
        decreases animations.len() - i,
    {
        items.push(animation_node(&animations[i], dictionary));
        i = i + 1;
    }
    proof {
        lemma_sequence_tree(items);
        assert(item_trees(items@) =~= animation_views(animations@).map_values(
            animation_writer(dictionary@),
        ));
    }
    Node::Sequence(items)
}

/// The scripts of an entry as a document.
fn scripts_node(scripts: &Vec<HashedIdentifier>, dictionary: &LabelDictionary) -> (node: Node)
    ensures
        node@ == Tree::Sequence(id_values(scripts@).map_values(id_writer(dictionary@))),
{
    let mut items: Vec<Node> = Vec::new();
    let mut i: usize = 0;
    while i < scripts.len()
        invariant
            i <= scripts.len(),
            items@.len() == i,
            forall|j: int|
                0 <= j < i ==> tree_of(#[trigger] items@[j]) == id_tree(dictionary@, scripts@[j]@),
        decreases scripts.len() - i,
    {
        items.push(id_node(scripts[i], dictionary));
        i = i + 1;
    }
    proof {
        lemma_sequence_tree(items);
        assert(item_trees(items@) =~= id_values(scripts@).map_values(id_writer(dictionary@)));
    }
    Node::Sequence(items)
}

/// An entry as a document.
fn entry_node(entry: &MotionEntry, dictionary: &LabelDictionary) -> (node: Node)
    ensures
        node@ == entry_tree(dictionary@, entry@),
{
    let mut pairs: Vec<(Node, Node)> = Vec::new();
    pairs.push((text_node("identifier"), id_node(entry.identifier, dictionary)));
    pairs.push((text_node("game_script"), id_node(entry.game_script, dictionary)));
    pairs.push((text_node("flags"), Node::Int(entry.flags as u64)));
    pairs.push((text_node("blend_frames"), Node::Int(entry.blend_frames as u64)));
    pairs.push((text_node("animations"), animations_node(&entry.animations, dictionary)));
    pairs.push((text_node("scripts"), scripts_node(&entry.scripts, dictionary)));
    assert(pair_trees(pairs@) =~= entry_pairs(dictionary@, entry@));
    match &entry.extra {
        Some(extra) => {
            pairs.push((text_node("extra"), extra_node(extra)));
            assert(pair_trees(pairs@) =~= entry_pairs(dictionary@, entry@).push(
                keyed("extra"@, extra_tree(*extra)),
            ));
        },
        None => {},
    }
    proof {
        lemma_mapping_tree(pairs);
    }
    Node::Mapping(pairs)
}

/// Writes a list as a document: one mapping for each entry, in the order of
/// the list, with every identifier under its label where the dictionary has
/// one and as its raw literal where it has none.
pub fn to_doc(list: &MotionList, dictionary: &LabelDictionary) -> (document: Node)
    ensures
        document@ == list_tree(dictionary@, list@),
        emittable(document@),
{
    let mut items: Vec<Node> = Vec::new();
    let mut i: usize = 0;
    while i < list.entries.len()
        invariant
            i <= list.entries.len(),
            items@.len() == i,
            forall|j: int|
                0 <= j < i ==> tree_of(#[trigger] items@[j]) == entry_tree(
                    dictionary@,
                    list.entries@[j]@,
                ),
        decreases list.entries.len() - i,
    {
        items.push(entry_node(&list.entries[i], dictionary));
        i = i + 1;
    }
    proof {
        lemma_sequence_tree(items);
        assert(item_trees(items@) =~= list@.entries.map_values(entry_writer(dictionary@)));
        lemma_list_emittable(dictionary@, list@);
    }
    Node::Sequence(items)
}

/// Writes a list as YAML text: the text that the YAML encoder makes of the
/// document of the list, or nothing where the encoder returns an error.
/// What comes back is a function of the list and of the dictionary alone:
/// the same list under the same dictionary gives the same text.
pub fn to_text(list: &MotionList, dictionary: &LabelDictionary) -> (text: Option<String>)
    ensures
        match text {
            Some(t) => text_of(dictionary@, list@) == Some(t@),
            None => text_of(dictionary@, list@) is None,
        },
{
    let document = to_doc(list, dictionary);
    render_document(&document)
}

/// Writes a list as YAML text and reads the text back before handing it out.
/// The text of the list comes back where the list is one that a blob can
/// hold, the YAML encoder makes a text of its document, and the YAML decoder
/// reads from that text the very document that was written; nothing comes
/// back in any other case. A text that comes back therefore stands for the
/// list.
pub fn to_text_checked(list: &MotionList, dictionary: &LabelDictionary) -> (text: Option<String>)
    ensures
        match text {
            Some(t) => checked_text_of(dictionary@, list@) == Some(t@),
            None => checked_text_of(dictionary@, list@) is None,
        },
        text matches Some(t) ==> text_of(dictionary@, list@) == Some(t@) && list@.wf() && read_text(
            dictionary@,
            t@,
        ) == Ok::<MotionListView, ParseError>(list@),
{
    dictionary.well_formed();
    if !list.fits_layout() {
        return None;
    }
    let document = to_doc(list, dictionary);
    let text = match render_document(&document) {
        Some(text) => text,
        None => {
            return None;
        },
    };
    match parse_document(text.as_str()) {
        None => None,
        Some(back) => {
            if same_document(&back, &document) {
                proof {
                    lemma_checked_text(dictionary@, list@);
                }
                Some(text)
            } else {
                None
            }
        },
    }
}

} // verus!
