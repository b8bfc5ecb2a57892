//! Encoding a list.

use vstd::prelude::*;
use crate::binary::{
    decode_spec, DecodeError, encode_entries, encode_entry, encode_extra, encode_spec,
    encode_words, MAGIC, VERSION, zeros,
};
use crate::binary::laws::{
    lemma_encode_entries_push, lemma_encode_then_decode, lemma_encode_words_push,
};
use crate::hash::HASH_LIMIT;
use crate::ident::HashedIdentifier;
use crate::model::{
    Animation, animation_views, Extra, id_values, MotionEntry, MotionList, MotionListView,
    names_of, unks_of, words_in_range,
};
use crate::wire::{le_bytes, write_le};

verus! {

/// Appends the words of a sequence of identifiers.
fn write_words(out: &mut Vec<u8>, ids: &Vec<HashedIdentifier>)
    ensures
        final(out)@ == old(out)@ + encode_words(id_values(ids@)),
        words_in_range(id_values(ids@)),
{
    let ghost words = id_values(ids@);
    let mut i: usize = 0;
    assert(out@ =~= old(out)@ + encode_words(words.take(0)));
    while i < ids.len()
        invariant
            i <= ids.len(),
            words == id_values(ids@),
            out@ == old(out)@ + encode_words(words.take(i as int)),
            forall|j: int| 0 <= j < i ==> #[trigger] words[j] < HASH_LIMIT,
        decreases ids.len() - i,
    {
        let ghost before = out@;
        write_le(out, ids[i].value(), 8);
        proof {
            lemma_encode_words_push(words.take(i as int), words[i as int]);
            assert(words.take(i + 1) =~= words.take(i as int).push(words[i as int]));
            assert(out@ =~= old(out)@ + encode_words(words.take(i + 1)));
        }
        i = i + 1;
    }
    assert(words.take(ids.len() as int) =~= words);
}

/// Appends the names of a sequence of animations.
fn write_names(out: &mut Vec<u8>, animations: &Vec<Animation>)
    ensures
        final(out)@ == old(out)@ + encode_words(names_of(animation_views(animations@))),
        words_in_range(names_of(animation_views(animations@))),
{
    let ghost names = names_of(animation_views(animations@));
    let mut i: usize = 0;
    assert(out@ =~= old(out)@ + encode_words(names.take(0)));
    while i < animations.len()
        invariant
            i <= animations.len(),
            names == names_of(animation_views(animations@)),
            out@ == old(out)@ + encode_words(names.take(i as int)),
            forall|j: int| 0 <= j < i ==> #[trigger] names[j] < HASH_LIMIT,
        decreases animations.len() - i,
    {
        write_le(out, animations[i].name.value(), 8);
        proof {
            lemma_encode_words_push(names.take(i as int), names[i as int]);
            assert(names.take(i + 1) =~= names.take(i as int).push(names[i as int]));
            assert(out@ =~= old(out)@ + encode_words(names.take(i + 1)));
        }
        i = i + 1;
    }
    assert(names.take(animations.len() as int) =~= names);
}

/// Appends the bytes stored beside the animations of a sequence.
fn write_unks(out: &mut Vec<u8>, animations: &Vec<Animation>)
    ensures
        final(out)@ == old(out)@ + unks_of(animation_views(animations@)),
{
    let ghost unks = unks_of(animation_views(animations@));
    let mut i: usize = 0;
    assert(out@ =~= old(out)@ + unks.take(0));
    while i < animations.len()
        invariant
            i <= animations.len(),
            unks == unks_of(animation_views(animations@)),
            out@ == old(out)@ + unks.take(i as int),
        decreases animations.len() - i,
    {
        out.push(animations[i].unk);
        assert(out@ =~= old(out)@ + unks.take(i + 1));
        i = i + 1;
    }
    assert(unks.take(animations.len() as int) =~= unks);
}

/// Appends `count` zero bytes.
fn write_zeros(out: &mut Vec<u8>, count: usize)
    ensures
        final(out)@ == old(out)@ + zeros(count as nat),
{
    let mut i: usize = 0;
    assert(out@ =~= old(out)@ + zeros(0));
    while i < count
        invariant
            i <= count,
            out@ == old(out)@ + zeros(i as nat),
        decreases count - i,
    {
        out.push(0);
        assert(out@ =~= old(out)@ + zeros((i + 1) as nat));
        i = i + 1;
    }
}

/// Appends the trailer of an entry, if it has one.
fn write_extra(out: &mut Vec<u8>, extra: &Option<Extra>)
    ensures
        final(out)@ == old(out)@ + encode_extra(*extra),
{
    match extra {
        Some(x) => {
            out.push(x.xlu_start);
            out.push(x.xlu_end);
            out.push(x.cancel_frame);
            out.push(
                if x.no_stop_intp {
                    1
                } else {
                    0
                },
            );
        },
        None => {},
    }
    assert(out@ =~= old(out)@ + encode_extra(*extra));
}

/// Appends the head of an entry.
fn write_head(out: &mut Vec<u8>, entry: &MotionEntry)
    requires
        entry@.fits(),
    ensures
        final(out)@ == old(out)@ + (le_bytes(entry@.identifier as nat, 8) + le_bytes(
            entry@.game_script as nat,
            8,
        ) + le_bytes(entry@.flags as nat, 2) + le_bytes(entry@.blend_frames as nat, 1) + le_bytes(
            entry@.animations.len(),
            1,
        ) + le_bytes(entry@.body_size(), 4)),
        entry@.identifier < HASH_LIMIT,
        entry@.game_script < HASH_LIMIT,
{
    let count: usize = entry.animations.len();
    let pad: usize = (4 - count % 4) % 4;
    let trailer: u64 = if entry.extra.is_some() {
        4
    } else {
        0
    };
    let size: u64 = 9 * (count as u64) + pad as u64 + 8 * (entry.scripts.len() as u64) + trailer;
    write_le(out, entry.identifier.value(), 8);
    write_le(out, entry.game_script.value(), 8);
    write_le(out, entry.flags as u64, 2);
    write_le(out, entry.blend_frames as u64, 1);
    write_le(out, count as u64, 1);
    write_le(out, size, 4);
    assert(out@ =~= old(out)@ + (le_bytes(entry@.identifier as nat, 8) + le_bytes(
        entry@.game_script as nat,
        8,
    ) + le_bytes(entry@.flags as nat, 2) + le_bytes(entry@.blend_frames as nat, 1) + le_bytes(
        entry@.animations.len(),
        1,
    ) + le_bytes(entry@.body_size(), 4)));
}

/// Appends the bytes of one entry.
fn write_entry(out: &mut Vec<u8>, entry: &MotionEntry)
    requires
        entry@.fits(),
    ensures
        final(out)@ == old(out)@ + encode_entry(entry@),
        entry@.ids_bounded(),
{
    write_head(out, entry);
    write_names(out, &entry.animations);
    write_unks(out, &entry.animations);
    write_zeros(out, (4 - entry.animations.len() % 4) % 4);
    write_words(out, &entry.scripts);
    write_extra(out, &entry.extra);
    proof {
        reveal(encode_entry);
        assert(out@ =~= old(out)@ + encode_entry(entry@));
    }
}

/// Encodes a list as a blob.
///
/// The blob holds the header and then every entry in the order of the list,
/// field by field as the layout says and with nothing added, and it decodes
/// to the list. Encoding asks that the list fits the counts and sizes a blob
/// can declare, which every list that was decoded or read from text does,
/// and `fits_layout` tells.
pub fn encode(list: &MotionList) -> (bytes: Vec<u8>)
    requires
        list@.fits(),
    ensures
        bytes@ == encode_spec(list@),
        decode_spec(bytes@) == Ok::<MotionListView, DecodeError>(list@),
{
    let mut out: Vec<u8> = Vec::new();
    write_le(&mut out, MAGIC as u64, 4);
    write_le(&mut out, VERSION as u64, 4);
    write_le(&mut out, list.entries.len() as u64, 8);
    let ghost head = out@;
    let ghost views = list@.entries;
    let mut i: usize = 0;
    assert(out@ =~= head + encode_entries(views.take(0)));
    while i < list.entries.len()
        invariant
            i <= list.entries.len(),
            views == list@.entries,
            list@.fits(),
            out@ == head + encode_entries(views.take(i as int)),
            forall|j: int| 0 <= j < i ==> (#[trigger] views[j]).ids_bounded(),
        decreases list.entries.len() - i,
    {
        assert(views[i as int] == list.entries[i as int]@);
        write_entry(&mut out, &list.entries[i]);
        proof {
            lemma_encode_entries_push(views.take(i as int), views[i as int]);
            assert(views.take(i + 1) =~= views.take(i as int).push(views[i as int]));
            assert(out@ =~= head + encode_entries(views.take(i + 1)));
        }
        i = i + 1;
    }
    assert(views.take(list.entries.len() as int) =~= views);
    assert(out@ =~= encode_spec(list@));
    proof {
        lemma_encode_then_decode(list@);
    }
    out
}

} // verus!
