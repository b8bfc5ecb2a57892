//! What holds of the documents of motion lists: what was written reads
//! back as itself, and what is written is a document the YAML encoder takes.

use vstd::prelude::*;
use crate::document::{emittable, keys_distinct, Tree, yaml_parse};
use crate::hash::HASH_LIMIT;
use crate::ident::{
    lemma_label_stands_for_its_hash, lemma_render_then_parse, lemma_token_value_bound,
    lemma_unknown_value_round_trip,
};
use crate::labels::labels_wf;
use crate::literal::raw_literal;
use crate::model::{AnimationView, Extra, MotionEntryView, MotionListView};
use crate::text::{
    animation_reader, animation_tree, animation_writer, entry_pairs, entry_reader, entry_tree,
    entry_writer, extra_tree, field, id_reader, id_tree, id_writer, keyed, list_tree,
    need_animations, need_items, need_scripts, optional_extra, ParseError, read_all,
    checked_text_of, read_animation, read_entry, read_extra, read_id, read_list, read_text,
    text_of,
};

verus! {

/// Reading what was written item by item gives the values that were written.
pub proof fn lemma_read_all_written<T>(
    values: Seq<T>,
    write: spec_fn(T) -> Tree,
    read: spec_fn(Tree) -> Result<T, ParseError>,
)
    requires
        forall|i: int| 0 <= i < values.len() ==> read(write(#[trigger] values[i])) == Ok::<T, ParseError>(values[i]),
    ensures
        read_all(values.map_values(write), read) == Ok::<Seq<T>, ParseError>(values),
    decreases values.len(),
{
    let items = values.map_values(write);
    if values.len() == 0 {
        assert(values =~= Seq::empty());
    } else {
        let rest = values.drop_first();
        assert forall|i: int| 0 <= i < rest.len() implies read(write(#[trigger] rest[i])) == Ok::<
            T,
            ParseError,
        >(rest[i]) by {
            assert(rest[i] == values[i + 1]);
        }
        lemma_read_all_written(rest, write, read);
        assert(items.drop_first() =~= rest.map_values(write));
        assert(items[0] == write(values[0]));
        assert(seq![values[0]] + rest =~= values);
    }
}

/// What reading item by item returns holds one value for each item, and each
/// is what `read` makes of its item.
pub proof fn lemma_read_all_items<T>(items: Seq<Tree>, read: spec_fn(Tree) -> Result<T, ParseError>)
    requires
        read_all(items, read) is Ok,
    ensures
        read_all(items, read)->Ok_0.len() == items.len(),
        forall|i: int|
            0 <= i < items.len() ==> read(items[i]) == Ok::<T, ParseError>(
                #[trigger] read_all(items, read)->Ok_0[i],
            ),
    decreases items.len(),
{
    if items.len() > 0 {
        let rest = items.drop_first();
        lemma_read_all_items(rest, read);
        let all = read_all(items, read)->Ok_0;
        let others = read_all(rest, read)->Ok_0;
        assert forall|i: int| 0 <= i < items.len() implies read(items[i]) == Ok::<T, ParseError>(
            #[trigger] all[i],
        ) by {
            if i > 0 {
                assert(items[i] == rest[i - 1]);
                assert(all[i] == others[i - 1]);
            }
        }
    }
}

/// The names of the keys are what they are, letter for letter.
pub proof fn lemma_key_names()
    ensures
        "identifier"@.len() == 10 && "identifier"@[0] == 'i',
        "game_script"@.len() == 11,
        "flags"@.len() == 5 && "flags"@[0] == 'f',
        "blend_frames"@.len() == 12,
        "animations"@.len() == 10 && "animations"@[0] == 'a',
        "scripts"@.len() == 7,
        "extra"@.len() == 5 && "extra"@[0] == 'e',
        "name"@.len() == 4,
        "unk"@.len() == 3,
        "xlu_start"@.len() == 9,
        "xlu_end"@.len() == 7,
        "cancel_frame"@.len() == 12 && "cancel_frame"@[0] == 'c',
        "no_stop_intp"@.len() == 12 && "no_stop_intp"@[0] == 'n',
{
    reveal_strlit("identifier");
    reveal_strlit("game_script");
    reveal_strlit("flags");
    reveal_strlit("blend_frames");
    reveal_strlit("animations");
    reveal_strlit("scripts");
    reveal_strlit("extra");
    reveal_strlit("name");
    reveal_strlit("unk");
    reveal_strlit("xlu_start");
    reveal_strlit("xlu_end");
    reveal_strlit("cancel_frame");
    reveal_strlit("no_stop_intp");
}

/// An identifier that was written reads back as itself.
pub proof fn lemma_id_round_trip(labels: Map<u64, Seq<char>>, value: u64)
    requires
        labels_wf(labels),
        value < HASH_LIMIT,
    ensures
        read_id(labels, id_tree(labels, value)) == Ok::<u64, ParseError>(value),
{
    lemma_render_then_parse(labels, value);
}

/// An identifier without a label stands in a document as its raw literal,
/// and the raw literal reads back as the identifier.
pub proof fn lemma_unknown_id_in_document(labels: Map<u64, Seq<char>>, value: u64)
    requires
        value < HASH_LIMIT,
        !labels.dom().contains(value),
    ensures
        id_tree(labels, value) == Tree::Text(raw_literal(value)),
        read_id(labels, Tree::Text(raw_literal(value))) == Ok::<u64, ParseError>(value),
{
    lemma_unknown_value_round_trip(labels, value);
}

/// A label of the dictionary reads from a document as the hash it was loaded
/// for, whatever the hash of its text is.
pub proof fn lemma_label_in_document(labels: Map<u64, Seq<char>>, hash: u64)
    requires
        labels_wf(labels),
        labels.dom().contains(hash),
    ensures
        id_tree(labels, hash) == Tree::Text(labels[hash]),
        read_id(labels, Tree::Text(labels[hash])) == Ok::<u64, ParseError>(hash),
{
    lemma_label_stands_for_its_hash(labels, hash);
}

/// An animation that was written reads back as itself.
pub proof fn lemma_animation_round_trip(labels: Map<u64, Seq<char>>, animation: AnimationView)
    requires
        labels_wf(labels),
        animation.name < HASH_LIMIT,
    ensures
        read_animation(labels, animation_tree(labels, animation)) == Ok::<AnimationView, ParseError>(
            animation,
        ),
{
    lemma_key_names();
    lemma_id_round_trip(labels, animation.name);
    let pairs = seq![
        keyed("name"@, id_tree(labels, animation.name)),
        keyed("unk"@, Tree::Int(animation.unk as u64)),
    ];
    reveal_with_fuel(field, 3);
    assert(pairs.drop_first()[0] == pairs[1]);
    assert(field(pairs, "name"@) == Some(id_tree(labels, animation.name)));
    assert(field(pairs, "unk"@) == Some(Tree::Int(animation.unk as u64)));
}

/// A trailer that was written reads back as itself.
pub proof fn lemma_extra_round_trip(extra: Extra)
    ensures
        read_extra(extra_tree(extra)) == Ok::<Extra, ParseError>(extra),
{
    lemma_key_names();
    let pairs = seq![
        keyed("xlu_start"@, Tree::Int(extra.xlu_start as u64)),
        keyed("xlu_end"@, Tree::Int(extra.xlu_end as u64)),
        keyed("cancel_frame"@, Tree::Int(extra.cancel_frame as u64)),
        keyed("no_stop_intp"@, Tree::Bool(extra.no_stop_intp)),
    ];
    lemma_field_at(pairs, 0, "xlu_start"@);
    lemma_field_at(pairs, 1, "xlu_end"@);
    lemma_field_at(pairs, 2, "cancel_frame"@);
    lemma_field_at(pairs, 3, "no_stop_intp"@);
}

/// Where the key at a place is the first of its name, the content at the
/// place is the field of that name.
pub proof fn lemma_field_at(pairs: Seq<(Tree, Tree)>, at: int, name: Seq<char>)
    requires
        0 <= at < pairs.len(),
        pairs[at].0 == Tree::Text(name),
        forall|i: int| 0 <= i < at ==> (#[trigger] pairs[i]).0 != Tree::Text(name),
    ensures
        field(pairs, name) == Some(pairs[at].1),
    decreases at,
{
    if at > 0 {
        let rest = pairs.drop_first();
        assert forall|i: int| 0 <= i < at - 1 implies (#[trigger] rest[i]).0 != Tree::Text(name) by {
            assert(rest[i] == pairs[i + 1]);
        }
        assert(rest[at - 1] == pairs[at]);
        lemma_field_at(rest, at - 1, name);
        assert(pairs[0].0 != Tree::Text(name));
    }
}

/// Where no key has a name, there is no field of that name.
pub proof fn lemma_field_absent(pairs: Seq<(Tree, Tree)>, name: Seq<char>)
    requires
        forall|i: int| 0 <= i < pairs.len() ==> (#[trigger] pairs[i]).0 != Tree::Text(name),
    ensures
        field(pairs, name) is None,
    decreases pairs.len(),
{
    if pairs.len() > 0 {
        let rest = pairs.drop_first();
        assert forall|i: int| 0 <= i < rest.len() implies (#[trigger] rest[i]).0 != Tree::Text(name) by {
            assert(rest[i] == pairs[i + 1]);
        }
        lemma_field_absent(rest, name);
        assert(pairs[0].0 != Tree::Text(name));
    }
}

/// An entry that was written reads back as itself.
pub proof fn lemma_entry_round_trip(labels: Map<u64, Seq<char>>, entry: MotionEntryView)
    requires
        labels_wf(labels),
        entry.wf(),
    ensures
        read_entry(labels, entry_tree(labels, entry)) == Ok::<MotionEntryView, ParseError>(entry),
{
    lemma_key_names();
    let base = entry_pairs(labels, entry);
    let pairs = match entry.extra {
        Some(extra) => base.push(keyed("extra"@, extra_tree(extra))),
        None => base,
    };
    lemma_id_round_trip(labels, entry.identifier);
    lemma_id_round_trip(labels, entry.game_script);
    lemma_field_at(pairs, 0, "identifier"@);
    lemma_field_at(pairs, 1, "game_script"@);
    lemma_field_at(pairs, 2, "flags"@);
    lemma_field_at(pairs, 3, "blend_frames"@);
    lemma_field_at(pairs, 4, "animations"@);
    lemma_field_at(pairs, 5, "scripts"@);
    assert forall|i: int| 0 <= i < entry.animations.len() implies animation_reader(labels)(
        animation_writer(labels)(#[trigger] entry.animations[i]),
    ) == Ok::<AnimationView, ParseError>(entry.animations[i]) by {
        assert(entry.names()[i] < HASH_LIMIT);
        lemma_animation_round_trip(labels, entry.animations[i]);
    }
    lemma_read_all_written(entry.animations, animation_writer(labels), animation_reader(labels));
    assert forall|i: int| 0 <= i < entry.scripts.len() implies id_reader(labels)(
        id_writer(labels)(#[trigger] entry.scripts[i]),
    ) == Ok::<u64, ParseError>(entry.scripts[i]) by {
        lemma_id_round_trip(labels, entry.scripts[i]);
    }
    lemma_read_all_written(entry.scripts, id_writer(labels), id_reader(labels));
    match entry.extra {
        Some(extra) => {
            lemma_extra_round_trip(extra);
            lemma_field_at(pairs, 6, "extra"@);
        },
        None => {
            lemma_field_absent(pairs, "extra"@);
        },
    }
    assert(need_animations(labels, pairs) == Ok::<Seq<AnimationView>, ParseError>(
        entry.animations,
    ));
    assert(need_scripts(labels, pairs) == Ok::<Seq<u64>, ParseError>(entry.scripts));
    assert(optional_extra(pairs) == Ok::<Option<Extra>, ParseError>(entry.extra));
}

/// A list that was written reads back as itself: the same entries in the
/// same order, with the same identifiers and the same values.
pub proof fn lemma_list_round_trip(labels: Map<u64, Seq<char>>, list: MotionListView)
    requires
        labels_wf(labels),
        list.wf(),
    ensures
        read_list(labels, list_tree(labels, list)) == Ok::<MotionListView, ParseError>(list),
{
    assert forall|i: int| 0 <= i < list.entries.len() implies entry_reader(labels)(
        entry_writer(labels)(#[trigger] list.entries[i]),
    ) == Ok::<MotionEntryView, ParseError>(list.entries[i]) by {
        lemma_entry_round_trip(labels, list.entries[i]);
    }
    lemma_read_all_written(list.entries, entry_writer(labels), entry_reader(labels));
}

/// The document of an animation is one that this crate writes.
pub proof fn lemma_animation_emittable(labels: Map<u64, Seq<char>>, animation: AnimationView)
    ensures
        emittable(animation_tree(labels, animation)),
{
    lemma_key_names();
    let pairs = seq![
        keyed("name"@, id_tree(labels, animation.name)),
        keyed("unk"@, Tree::Int(animation.unk as u64)),
    ];
    assert(keys_distinct(pairs));
    assert(emittable(pairs[0].1) && emittable(pairs[1].1));
}

/// The document of a trailer is one that this crate writes.
pub proof fn lemma_extra_emittable(extra: Extra)
    ensures
        emittable(extra_tree(extra)),
{
    lemma_key_names();
    let pairs = seq![
        keyed("xlu_start"@, Tree::Int(extra.xlu_start as u64)),
        keyed("xlu_end"@, Tree::Int(extra.xlu_end as u64)),
        keyed("cancel_frame"@, Tree::Int(extra.cancel_frame as u64)),
        keyed("no_stop_intp"@, Tree::Bool(extra.no_stop_intp)),
    ];
    assert(keys_distinct(pairs));
    assert(emittable(pairs[0].1) && emittable(pairs[1].1) && emittable(pairs[2].1) && emittable(
        pairs[3].1,
    ));
}

/// The document of an entry is one that this crate writes.
pub proof fn lemma_entry_emittable(labels: Map<u64, Seq<char>>, entry: MotionEntryView)
    ensures
        emittable(entry_tree(labels, entry)),
{
    lemma_key_names();
    let base = entry_pairs(labels, entry);
    let pairs = match entry.extra {
        Some(extra) => base.push(keyed("extra"@, extra_tree(extra))),
        None => base,
    };
    let animations = entry.animations.map_values(animation_writer(labels));
    let scripts = entry.scripts.map_values(id_writer(labels));
    assert(keys_distinct(pairs));
    assert forall|i: int| 0 <= i < pairs.len() implies emittable((#[trigger] pairs[i]).1) by {
        if i == 4 {
            assert forall|j: int| 0 <= j < animations.len() implies emittable(
                #[trigger] animations[j],
            ) by {
                lemma_animation_emittable(labels, entry.animations[j]);
            }
        } else if i == 5 {
            assert forall|j: int| 0 <= j < scripts.len() implies emittable(#[trigger] scripts[j]) by {
                assert(scripts[j] == id_tree(labels, entry.scripts[j]));
            }
        } else if i == 6 {
            lemma_extra_emittable(entry.extra->Some_0);
        }
    }
}

/// The document of a list is one that this crate writes.
pub proof fn lemma_list_emittable(labels: Map<u64, Seq<char>>, list: MotionListView)
    ensures
        emittable(list_tree(labels, list)),
{
    let items = list.entries.map_values(entry_writer(labels));
    assert forall|i: int| 0 <= i < items.len() implies emittable(#[trigger] items[i]) by {
        lemma_entry_emittable(labels, list.entries[i]);
    }
}

/// An entry that was read is one that a blob can hold.
pub proof fn lemma_read_entry_wf(labels: Map<u64, Seq<char>>, tree: Tree)
    requires
        labels_wf(labels),
        read_entry(labels, tree) is Ok,
    ensures
        read_entry(labels, tree)->Ok_0.wf(),
{
    let entry = read_entry(labels, tree)->Ok_0;
    let pairs = tree->Mapping_0;
    match field(pairs, "identifier"@) {
        Some(Tree::Text(token)) => lemma_token_value_bound(labels, token),
        _ => {},
    }
    match field(pairs, "game_script"@) {
        Some(Tree::Text(token)) => lemma_token_value_bound(labels, token),
        _ => {},
    }
    let animation_items = need_items(pairs, "animations"@)->Ok_0;
    lemma_read_all_items(animation_items, animation_reader(labels));
    assert forall|i: int| 0 <= i < entry.names().len() implies #[trigger] entry.names()[i]
        < HASH_LIMIT by {
        let inner = animation_items[i];
        assert(read_animation(labels, inner) == Ok::<AnimationView, ParseError>(
            entry.animations[i],
        ));
        match field(inner->Mapping_0, "name"@) {
            Some(Tree::Text(token)) => lemma_token_value_bound(labels, token),
            _ => {},
        }
    }
    let script_items = need_items(pairs, "scripts"@)->Ok_0;
    lemma_read_all_items(script_items, id_reader(labels));
    assert forall|i: int| 0 <= i < entry.scripts.len() implies #[trigger] entry.scripts[i]
        < HASH_LIMIT by {
        assert(read_id(labels, script_items[i]) == Ok::<u64, ParseError>(entry.scripts[i]));
        match script_items[i] {
            Tree::Text(token) => lemma_token_value_bound(labels, token),
            _ => {},
        }
    }
}

/// A list that was read is one that a blob can hold.
pub proof fn lemma_read_list_wf(labels: Map<u64, Seq<char>>, tree: Tree)
    requires
        labels_wf(labels),
        read_list(labels, tree) is Ok,
    ensures
        read_list(labels, tree)->Ok_0.wf(),
{
    let list = read_list(labels, tree)->Ok_0;
    let items = tree->Sequence_0;
    lemma_read_all_items(items, entry_reader(labels));
    assert forall|i: int| 0 <= i < list.entries.len() implies (#[trigger] list.entries[i]).wf() by {
        assert(read_entry(labels, items[i]) == Ok::<MotionEntryView, ParseError>(list.entries[i]));
        lemma_read_entry_wf(labels, items[i]);
    }
}

/// Where the YAML encoder makes a text of a list and the YAML decoder reads
/// from that text the document that it was written for, the text stands for
/// the list.
pub proof fn lemma_text_round_trip(labels: Map<u64, Seq<char>>, list: MotionListView)
    requires
        labels_wf(labels),
        list.wf(),
        text_of(labels, list) is Some,
        yaml_parse(text_of(labels, list)->Some_0) == Some(list_tree(labels, list)),
    ensures
        read_text(labels, text_of(labels, list)->Some_0) == Ok::<MotionListView, ParseError>(list),
{
    lemma_list_round_trip(labels, list);
}

/// A text that is handed out after it was read back is the text of the list
/// and stands for the list, which is one that a blob can hold.
pub proof fn lemma_checked_text(labels: Map<u64, Seq<char>>, list: MotionListView)
    requires
        labels_wf(labels),
        checked_text_of(labels, list) is Some,
    ensures
        list.wf(),
        text_of(labels, list) == checked_text_of(labels, list),
        read_text(labels, checked_text_of(labels, list)->Some_0) == Ok::<
            MotionListView,
            ParseError,
        >(list),
{
    lemma_text_round_trip(labels, list);
}

} // verus!
