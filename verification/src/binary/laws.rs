//! What holds of the binary layout: a blob that decodes encodes back to
//! itself, and a list that a blob can hold decodes back from its blob.

use vstd::prelude::*;
use crate::binary::{
    animations_at, decode_entries, decode_entry, decode_extra, decode_spec, DecodeError,
    encode_entries, encode_entry, encode_extra, encode_spec, encode_words, ENTRY_HEAD_SIZE,
    HEADER_SIZE, MAGIC, VERSION, word_at, words_at, zeros,
};
use crate::model::{Extra, MotionEntryView, MotionListView, padding};
use crate::wire::{
    le_bytes, lemma_le_bytes_len, lemma_le_bytes_of_value, lemma_le_value_bound,
    lemma_le_value_of_bytes, lemma_radix_pow_values, radix_pow,
};

verus! {

/// The integer at a place is below 256 to the power of its width.
pub proof fn lemma_word_at_bound(bytes: Seq<u8>, pos: int, width: int)
    requires
        0 <= pos,
        0 <= width,
        pos + width <= bytes.len(),
    ensures
        word_at(bytes, pos, width) < radix_pow(width as nat),
        le_bytes(word_at(bytes, pos, width), width as nat) == bytes.subrange(pos, pos + width),
{
    lemma_le_value_bound(bytes.subrange(pos, pos + width));
    lemma_le_bytes_of_value(bytes.subrange(pos, pos + width));
}

/// Encoding the words read from a blob gives back the bytes they were read
/// from.
pub proof fn lemma_words_round_trip(bytes: Seq<u8>, pos: int, count: nat)
    requires
        0 <= pos,
        pos + 8 * count <= bytes.len(),
    ensures
        encode_words(words_at(bytes, pos, count)) == bytes.subrange(pos, pos + 8 * count),
    decreases count,
{
    let words = words_at(bytes, pos, count);
    if count == 0 {
        assert(encode_words(words) =~= bytes.subrange(pos, pos + 8 * count));
    } else {
        lemma_words_round_trip(bytes, pos + 8, (count - 1) as nat);
        assert(words.drop_first() =~= words_at(bytes, pos + 8, (count - 1) as nat)) by {
            assert forall|i: int| 0 <= i < count - 1 implies words.drop_first()[i] == words_at(
                bytes,
                pos + 8,
                (count - 1) as nat,
            )[i] by {
                assert(pos + 8 * (i + 1) == pos + 8 + 8 * i);
            }
        }
        lemma_word_at_bound(bytes, pos, 8);
        lemma_radix_pow_values();
        assert(words[0] as nat == word_at(bytes, pos, 8));
        assert(encode_words(words) =~= bytes.subrange(pos, pos + 8 * count));
    }
}

/// An entry that was decoded is one that a blob can hold, it ends inside the
/// blob, and its encoding is the bytes it was decoded from.
pub proof fn lemma_entry_round_trip(bytes: Seq<u8>, pos: int)
    requires
        0 <= pos,
        decode_entry(bytes, pos) is Ok,
    ensures
        decode_entry(bytes, pos)->Ok_0.0.wf(),
        pos + ENTRY_HEAD_SIZE <= decode_entry(bytes, pos)->Ok_0.1 <= bytes.len(),
        encode_entry(decode_entry(bytes, pos)->Ok_0.0) == bytes.subrange(
            pos,
            decode_entry(bytes, pos)->Ok_0.1,
        ),
{
    reveal(decode_entry);
    reveal(encode_entry);
    let (entry, end) = decode_entry(bytes, pos)->Ok_0;
    let count = word_at(bytes, pos + 19, 1);
    let size = word_at(bytes, pos + 20, 4);
    let names_at = pos + ENTRY_HEAD_SIZE;
    let unks_at = names_at + 8 * count;
    let pad_at = unks_at + count;
    let scripts_at = pad_at + padding(count);
    let rest = size - (scripts_at - names_at);
    let extra_at = scripts_at + 8 * (rest / 8);
    lemma_radix_pow_values();
    lemma_word_at_bound(bytes, pos, 8);
    lemma_word_at_bound(bytes, pos + 8, 8);
    lemma_word_at_bound(bytes, pos + 16, 2);
    lemma_word_at_bound(bytes, pos + 18, 1);
    lemma_word_at_bound(bytes, pos + 19, 1);
    lemma_word_at_bound(bytes, pos + 20, 4);
    lemma_words_round_trip(bytes, names_at, count);
    lemma_words_round_trip(bytes, scripts_at, (rest / 8) as nat);
    assert(entry.names() =~= words_at(bytes, names_at, count));
    assert(entry.unks() =~= bytes.subrange(unks_at, pad_at));
    assert(entry.body_size() == size);
    assert(encode_extra(entry.extra) =~= bytes.subrange(extra_at, end));
    let head = bytes.subrange(pos, pos + 8) + bytes.subrange(pos + 8, pos + 16) + bytes.subrange(
        pos + 16,
        pos + 18,
    ) + bytes.subrange(pos + 18, pos + 19) + bytes.subrange(pos + 19, pos + 20) + bytes.subrange(
        pos + 20,
        pos + 24,
    );
    assert(head =~= bytes.subrange(pos, names_at));
    let body = bytes.subrange(names_at, unks_at) + bytes.subrange(unks_at, pad_at)
        + bytes.subrange(pad_at, scripts_at) + bytes.subrange(scripts_at, extra_at)
        + bytes.subrange(extra_at, end);
    assert(body =~= bytes.subrange(names_at, end));
    assert(encode_entry(entry) =~= head + body);
    assert(head + body =~= bytes.subrange(pos, end));
}

/// Entries that were decoded are ones that a blob can hold, and their
/// encoding is the bytes they were decoded from.
pub proof fn lemma_entries_round_trip(bytes: Seq<u8>, pos: int, count: nat)
    requires
        0 <= pos <= bytes.len(),
        decode_entries(bytes, pos, count) is Ok,
    ensures
        decode_entries(bytes, pos, count)->Ok_0.0.len() == count,
        forall|i: int|
            0 <= i < count ==> (#[trigger] decode_entries(bytes, pos, count)->Ok_0.0[i]).wf(),
        pos <= decode_entries(bytes, pos, count)->Ok_0.1 <= bytes.len(),
        encode_entries(decode_entries(bytes, pos, count)->Ok_0.0) == bytes.subrange(
            pos,
            decode_entries(bytes, pos, count)->Ok_0.1,
        ),
    decreases count,
{
    let (entries, end) = decode_entries(bytes, pos, count)->Ok_0;
    if count == 0 {
        assert(encode_entries(entries) =~= bytes.subrange(pos, end));
    } else {
        let (entry, next) = decode_entry(bytes, pos)->Ok_0;
        let (others, last) = decode_entries(bytes, next, (count - 1) as nat)->Ok_0;
        lemma_entry_round_trip(bytes, pos);
        lemma_entries_round_trip(bytes, next, (count - 1) as nat);
        assert(entries.drop_first() =~= others);
        assert(entries[0] == entry);
        assert forall|i: int| 0 <= i < count implies (#[trigger] entries[i]).wf() by {
            if i > 0 {
                assert(entries[i] == others[i - 1]);
            }
        }
        assert(bytes.subrange(pos, next) + bytes.subrange(next, end) =~= bytes.subrange(pos, end));
    }
}

/// Encoding what a blob decodes to gives the blob, byte for byte.
pub proof fn lemma_decode_then_encode(bytes: Seq<u8>)
    requires
        decode_spec(bytes) is Ok,
    ensures
        decode_spec(bytes)->Ok_0.wf(),
        encode_spec(decode_spec(bytes)->Ok_0) == bytes,
{
    let count = word_at(bytes, 8, 8);
    let list = decode_spec(bytes)->Ok_0;
    lemma_radix_pow_values();
    lemma_word_at_bound(bytes, 0, 4);
    lemma_word_at_bound(bytes, 4, 4);
    lemma_word_at_bound(bytes, 8, 8);
    lemma_entries_round_trip(bytes, HEADER_SIZE as int, count);
    assert(bytes.subrange(0, 4) + bytes.subrange(4, 8) + bytes.subrange(8, 16) + bytes.subrange(
        16,
        bytes.len() as int,
    ) =~= bytes);
}

/// The words of a longer sequence are those of the shorter one and then the
/// new word.
pub proof fn lemma_encode_words_push(words: Seq<u64>, word: u64)
    ensures
        encode_words(words.push(word)) == encode_words(words) + le_bytes(word as nat, 8),
    decreases words.len(),
{
    let longer = words.push(word);
    if words.len() == 0 {
        assert(longer.drop_first() =~= words);
        assert(encode_words(longer) =~= encode_words(words) + le_bytes(word as nat, 8));
    } else {
        lemma_encode_words_push(words.drop_first(), word);
        assert(longer.drop_first() =~= words.drop_first().push(word));
        assert(encode_words(longer) =~= encode_words(words) + le_bytes(word as nat, 8));
    }
}

/// The bytes of a longer sequence of entries are those of the shorter one and
/// then the new entry.
pub proof fn lemma_encode_entries_push(entries: Seq<MotionEntryView>, entry: MotionEntryView)
    ensures
        encode_entries(entries.push(entry)) == encode_entries(entries) + encode_entry(entry),
    decreases entries.len(),
{
    let longer = entries.push(entry);
    if entries.len() == 0 {
        assert(longer.drop_first() =~= entries);
        assert(encode_entries(longer) =~= encode_entries(entries) + encode_entry(entry));
    } else {
        lemma_encode_entries_push(entries.drop_first(), entry);
        assert(longer.drop_first() =~= entries.drop_first().push(entry));
        assert(encode_entries(longer) =~= encode_entries(entries) + encode_entry(entry));
    }
}

/// A sequence of words takes eight bytes for each word.
pub proof fn lemma_encode_words_len(words: Seq<u64>)
    ensures
        encode_words(words).len() == 8 * words.len(),
    decreases words.len(),
{
    if words.len() > 0 {
        lemma_le_bytes_len(words[0] as nat, 8);
        lemma_encode_words_len(words.drop_first());
    }
}

/// The words read from where a sequence of words was written are the
/// sequence.
pub proof fn lemma_words_decode(bytes: Seq<u8>, pos: int, words: Seq<u64>)
    requires
        0 <= pos,
        pos + 8 * words.len() <= bytes.len(),
        bytes.subrange(pos, pos + 8 * words.len()) == encode_words(words),
    ensures
        words_at(bytes, pos, words.len()) == words,
    decreases words.len(),
{
    let read = words_at(bytes, pos, words.len());
    if words.len() > 0 {
        let rest = words.drop_first();
        let first = le_bytes(words[0] as nat, 8);
        lemma_le_bytes_len(words[0] as nat, 8);
        lemma_encode_words_len(rest);
        lemma_radix_pow_values();
        lemma_le_value_of_bytes(words[0] as nat, 8);
        let whole = bytes.subrange(pos, pos + 8 * words.len());
        assert(bytes.subrange(pos, pos + 8) =~= whole.subrange(0, 8));
        assert(whole.subrange(0, 8) =~= first);
        assert(bytes.subrange(pos + 8, pos + 8 + 8 * rest.len()) =~= whole.subrange(
            8,
            whole.len() as int,
        ));
        assert(whole.subrange(8, whole.len() as int) =~= encode_words(rest));
        lemma_words_decode(bytes, pos + 8, rest);
        assert forall|i: int| 0 <= i < words.len() implies read[i] == words[i] by {
            if i > 0 {
                assert(pos + 8 * i == pos + 8 + 8 * (i - 1));
                assert(words_at(bytes, pos + 8, rest.len())[i - 1] == rest[i - 1]);
            }
        }
    }
    assert(read =~= words);
}

/// A part of what was written at a place stands at that place in the blob.
pub proof fn lemma_written_part(bytes: Seq<u8>, pos: int, written: Seq<u8>, from: int, to: int)
    requires
        0 <= pos,
        pos + written.len() <= bytes.len(),
        bytes.subrange(pos, pos + written.len()) == written,
        0 <= from <= to <= written.len(),
    ensures
        bytes.subrange(pos + from, pos + to) == written.subrange(from, to),
{
    assert forall|j: int| 0 <= j < to - from implies bytes.subrange(pos + from, pos + to)[j]
        == written.subrange(from, to)[j] by {
        assert(bytes.subrange(pos, pos + written.len())[from + j] == bytes[pos + from + j]);
    }
    assert(bytes.subrange(pos + from, pos + to) =~= written.subrange(from, to));
}

/// Where an entry was written, each of its parts stands at its place.
pub proof fn lemma_entry_parts(bytes: Seq<u8>, pos: int, entry: MotionEntryView)
    requires
        0 <= pos,
        pos + encode_entry(entry).len() <= bytes.len(),
        bytes.subrange(pos, pos + encode_entry(entry).len()) == encode_entry(entry),
    ensures
        encode_entry(entry).len() == ENTRY_HEAD_SIZE + entry.body_size(),
        bytes.subrange(pos, pos + 8) == le_bytes(entry.identifier as nat, 8),
        bytes.subrange(pos + 8, pos + 16) == le_bytes(entry.game_script as nat, 8),
        bytes.subrange(pos + 16, pos + 18) == le_bytes(entry.flags as nat, 2),
        bytes.subrange(pos + 18, pos + 19) == le_bytes(entry.blend_frames as nat, 1),
        bytes.subrange(pos + 19, pos + 20) == le_bytes(entry.animations.len(), 1),
        bytes.subrange(pos + 20, pos + 24) == le_bytes(entry.body_size(), 4),
        bytes.subrange(pos + 24, pos + 24 + 8 * entry.animations.len()) == encode_words(
            entry.names(),
        ),
        bytes.subrange(
            pos + 24 + 8 * entry.animations.len(),
            pos + 24 + 9 * entry.animations.len(),
        ) == entry.unks(),
        bytes.subrange(
            pos + 24 + 9 * entry.animations.len(),
            pos + 24 + 9 * entry.animations.len() + padding(entry.animations.len()),
        ) == zeros(padding(entry.animations.len())),
        bytes.subrange(
            pos + 24 + 9 * entry.animations.len() + padding(entry.animations.len()),
            pos + 24 + 9 * entry.animations.len() + padding(entry.animations.len()) + 8
                * entry.scripts.len(),
        ) == encode_words(entry.scripts),
        bytes.subrange(
            pos + 24 + 9 * entry.animations.len() + padding(entry.animations.len()) + 8
                * entry.scripts.len(),
            pos + encode_entry(entry).len(),
        ) == encode_extra(entry.extra),
{
    reveal(encode_entry);
    let enc = encode_entry(entry);
    let count = entry.animations.len();
    let pad = padding(count);
    let scripts = entry.scripts.len();
    let id_part = le_bytes(entry.identifier as nat, 8);
    let script_part = le_bytes(entry.game_script as nat, 8);
    let flags_part = le_bytes(entry.flags as nat, 2);
    let blend_part = le_bytes(entry.blend_frames as nat, 1);
    let count_part = le_bytes(count, 1);
    let size_part = le_bytes(entry.body_size(), 4);
    let names_part = encode_words(entry.names());
    let unks_part = entry.unks();
    let pad_part = zeros(pad);
    let scripts_part = encode_words(entry.scripts);
    let extra_part = encode_extra(entry.extra);
    lemma_le_bytes_len(entry.identifier as nat, 8);
    lemma_le_bytes_len(entry.game_script as nat, 8);
    lemma_le_bytes_len(entry.flags as nat, 2);
    lemma_le_bytes_len(entry.blend_frames as nat, 1);
    lemma_le_bytes_len(count, 1);
    lemma_le_bytes_len(entry.body_size(), 4);
    lemma_encode_words_len(entry.names());
    lemma_encode_words_len(entry.scripts);
    let names_from = ENTRY_HEAD_SIZE as int;
    let unks_from = names_from + 8 * count;
    let pad_from = unks_from + count;
    let scripts_from = pad_from + pad;
    let extra_from = scripts_from + 8 * scripts;
    let head = id_part + script_part + flags_part + blend_part + count_part + size_part;
    let named = head + names_part + unks_part;
    let scripted = named + pad_part + scripts_part;
    assert(enc == scripted + extra_part);
    assert(unks_part.len() == count);
    assert(head.len() == 24);
    assert(named.len() == pad_from);
    assert(scripted.len() == extra_from);
    assert(enc.subrange(0, 8) =~= id_part);
    assert(enc.subrange(8, 16) =~= script_part);
    assert(enc.subrange(16, 18) =~= flags_part);
    assert(enc.subrange(18, 19) =~= blend_part);
    assert(enc.subrange(19, 20) =~= count_part);
    assert(enc.subrange(20, 24) =~= size_part);
    assert(enc.subrange(names_from, unks_from) =~= names_part);
    assert(enc.subrange(unks_from, pad_from) =~= unks_part);
    assert(enc.subrange(pad_from, scripts_from) =~= pad_part);
    assert(enc.subrange(scripts_from, extra_from) =~= scripts_part);
    assert(enc.subrange(extra_from, enc.len() as int) =~= extra_part);
    lemma_written_part(bytes, pos, enc, 0, 8);
    lemma_written_part(bytes, pos, enc, 8, 16);
    lemma_written_part(bytes, pos, enc, 16, 18);
    lemma_written_part(bytes, pos, enc, 18, 19);
    lemma_written_part(bytes, pos, enc, 19, 20);
    lemma_written_part(bytes, pos, enc, 20, 24);
    lemma_written_part(bytes, pos, enc, names_from, unks_from);
    lemma_written_part(bytes, pos, enc, unks_from, pad_from);
    lemma_written_part(bytes, pos, enc, pad_from, scripts_from);
    lemma_written_part(bytes, pos, enc, scripts_from, extra_from);
    lemma_written_part(bytes, pos, enc, extra_from, enc.len() as int);
}

/// The entry read from where an entry was written is the entry.
pub proof fn lemma_entry_decodes(bytes: Seq<u8>, pos: int, entry: MotionEntryView)
    requires
        entry.wf(),
        0 <= pos,
        pos + encode_entry(entry).len() <= bytes.len(),
        bytes.subrange(pos, pos + encode_entry(entry).len()) == encode_entry(entry),
    ensures
        encode_entry(entry).len() == ENTRY_HEAD_SIZE + entry.body_size(),
        decode_entry(bytes, pos) == Ok::<(MotionEntryView, int), DecodeError>(
            (entry, pos + encode_entry(entry).len()),
        ),
{
    reveal(decode_entry);
    lemma_entry_parts(bytes, pos, entry);
    let count = entry.animations.len();
    let pad = padding(count);
    let scripts = entry.scripts.len();
    let names_at = pos + ENTRY_HEAD_SIZE;
    let unks_at = names_at + 8 * count;
    let pad_at = unks_at + count;
    let scripts_at = pad_at + pad;
    let extra_at = scripts_at + 8 * scripts;
    let end = pos + encode_entry(entry).len();
    let extra_part = encode_extra(entry.extra);
    lemma_radix_pow_values();
    lemma_le_value_of_bytes(entry.identifier as nat, 8);
    lemma_le_value_of_bytes(entry.game_script as nat, 8);
    lemma_le_value_of_bytes(entry.flags as nat, 2);
    lemma_le_value_of_bytes(entry.blend_frames as nat, 1);
    lemma_le_value_of_bytes(count, 1);
    lemma_le_value_of_bytes(entry.body_size(), 4);
    lemma_encode_words_len(entry.names());
    lemma_encode_words_len(entry.scripts);
    lemma_words_decode(bytes, names_at, entry.names());
    lemma_words_decode(bytes, scripts_at, entry.scripts);
    assert(word_at(bytes, pos, 8) == entry.identifier);
    assert(word_at(bytes, pos + 8, 8) == entry.game_script);
    assert(word_at(bytes, pos + 16, 2) == entry.flags);
    assert(word_at(bytes, pos + 18, 1) == entry.blend_frames);
    assert(word_at(bytes, pos + 19, 1) == count);
    assert(word_at(bytes, pos + 20, 4) == entry.body_size());
    let rest = entry.body_size() - (scripts_at - names_at);
    assert(rest == 8 * scripts + extra_part.len());
    assert(rest / 8 == scripts);
    assert(animations_at(bytes, names_at, unks_at, count) =~= entry.animations) by {
        assert forall|i: int| 0 <= i < count implies animations_at(
            bytes,
            names_at,
            unks_at,
            count,
        )[i] == entry.animations[i] by {
            assert(words_at(bytes, names_at, count)[i] == entry.names()[i]);
            assert(bytes.subrange(unks_at, pad_at)[i] == entry.unks()[i]);
        }
    }
    match entry.extra {
        Some(x) => {
            assert(rest % 8 == 4);
            assert(bytes.subrange(extra_at, end)[0] == x.xlu_start);
            assert(bytes.subrange(extra_at, end)[1] == x.xlu_end);
            assert(bytes.subrange(extra_at, end)[2] == x.cancel_frame);
            assert(bytes.subrange(extra_at, end)[3] == (if x.no_stop_intp {
                1u8
            } else {
                0u8
            }));
            assert(decode_extra(bytes, extra_at) == Ok::<Extra, DecodeError>(x));
        },
        None => {
            assert(rest % 8 == 0);
        },
    }
}

/// The entries read from where entries were written are the entries.
pub proof fn lemma_entries_decode(bytes: Seq<u8>, pos: int, entries: Seq<MotionEntryView>)
    requires
        forall|i: int| 0 <= i < entries.len() ==> (#[trigger] entries[i]).wf(),
        0 <= pos,
        pos + encode_entries(entries).len() <= bytes.len(),
        bytes.subrange(pos, pos + encode_entries(entries).len()) == encode_entries(entries),
    ensures
        decode_entries(bytes, pos, entries.len()) == Ok::<(Seq<MotionEntryView>, int), DecodeError>(
            (entries, pos + encode_entries(entries).len()),
        ),
    decreases entries.len(),
{
    if entries.len() > 0 {
        let first = encode_entry(entries[0]);
        let rest = entries.drop_first();
        let whole = encode_entries(entries);
        let next = pos + first.len();
        lemma_written_part(bytes, pos, whole, 0, first.len() as int);
        assert(whole.subrange(0, first.len() as int) =~= first);
        lemma_entry_decodes(bytes, pos, entries[0]);
        lemma_written_part(bytes, pos, whole, first.len() as int, whole.len() as int);
        assert(whole.subrange(first.len() as int, whole.len() as int) =~= encode_entries(rest));
        assert forall|i: int| 0 <= i < rest.len() implies (#[trigger] rest[i]).wf() by {
            assert(rest[i] == entries[i + 1]);
        }
        lemma_entries_decode(bytes, next, rest);
        assert(seq![entries[0]] + rest =~= entries);
    } else {
        assert(entries =~= Seq::empty());
    }
}

/// Decoding the blob of a list that a blob can hold gives the list.
pub proof fn lemma_encode_then_decode(list: MotionListView)
    requires
        list.wf(),
    ensures
        decode_spec(encode_spec(list)) == Ok::<MotionListView, DecodeError>(list),
{
    let bytes = encode_spec(list);
    let body = encode_entries(list.entries);
    lemma_radix_pow_values();
    lemma_le_bytes_len(MAGIC as nat, 4);
    lemma_le_bytes_len(VERSION as nat, 4);
    lemma_le_bytes_len(list.entries.len(), 8);
    lemma_le_value_of_bytes(MAGIC as nat, 4);
    lemma_le_value_of_bytes(VERSION as nat, 4);
    lemma_le_value_of_bytes(list.entries.len(), 8);
    assert(bytes.subrange(0, 4) =~= le_bytes(MAGIC as nat, 4));
    assert(bytes.subrange(4, 8) =~= le_bytes(VERSION as nat, 4));
    assert(bytes.subrange(8, 16) =~= le_bytes(list.entries.len(), 8));
    assert(bytes.subrange(16, bytes.len() as int) =~= body);
    lemma_entries_decode(bytes, 16, list.entries);
}

} // verus!
