//! Decoding a blob.

use vstd::prelude::*;
use crate::binary::{
    animations_at, decode_entries, decode_entry, decode_spec, DecodeError, encode_spec,
    ENTRY_HEAD_SIZE, HEADER_SIZE, MAGIC, VERSION, word_at, words_at, zeros,
};
use crate::binary::laws::{lemma_decode_then_encode, lemma_entry_round_trip, lemma_word_at_bound};
use crate::hash::HASH_LIMIT;
use crate::ident::HashedIdentifier;
use crate::model::{
    Animation, animation_views, entry_views, Extra, id_values, MotionEntry, MotionEntryView,
    MotionList, MotionListView, words_in_range,
};
use crate::wire::{lemma_radix_pow_values, read_le};

verus! {

/// What a decoding returns, as a mathematical value.
pub open spec fn decoded_view(result: Result<MotionList, DecodeError>) -> Result<
    MotionListView,
    DecodeError,
> {
    match result {
        Ok(list) => Ok(list@),
        Err(e) => Err(e),
    }
}

/// What the decoding of one entry returns, as a mathematical value.
pub open spec fn decoded_entry_view(result: Result<(MotionEntry, usize), DecodeError>) -> Result<
    (MotionEntryView, int),
    DecodeError,
> {
    match result {
        Ok((entry, next)) => Ok((entry@, next as int)),
        Err(e) => Err(e),
    }
}

/// Reads `count` identifiers that start at `pos`, or nothing where one of
/// them exceeds 40 bits.
fn read_words(data: &[u8], pos: usize, count: usize) -> (result: Option<Vec<HashedIdentifier>>)
    requires
        pos + 8 * count <= data@.len(),
    ensures
        result is Some == words_in_range(words_at(data@, pos as int, count as nat)),
        result is Some ==> id_values(result->Some_0@) == words_at(data@, pos as int, count as nat),
{
    let ghost words = words_at(data@, pos as int, count as nat);
    let total: usize = data.len();
    let mut ids: Vec<HashedIdentifier> = Vec::new();
    let mut i: usize = 0;
    while i < count
        invariant
            i <= count,
            total == data@.len(),
            pos + 8 * count <= total,
            words == words_at(data@, pos as int, count as nat),
            ids@.len() == i,
            forall|j: int| 0 <= j < i ==> (#[trigger] ids@[j])@ == words[j],
            forall|j: int| 0 <= j < i ==> #[trigger] words[j] < HASH_LIMIT,
        decreases count - i,
    {
        let word: u64 = read_le(data, pos + 8 * i, 8);
        proof {
            lemma_word_at_bound(data@, pos + 8 * i, 8);
            lemma_radix_pow_values();
            assert(words[i as int] == word);
        }
        if word >= HASH_LIMIT {
            return None;
        }
        ids.push(HashedIdentifier::new(word));
        i = i + 1;
    }
    assert(id_values(ids@) =~= words);
    Some(ids)
}

/// Reads `count` animations, or nothing where a name exceeds 40 bits.
fn read_animations(data: &[u8], names_at: usize, unks_at: usize, count: usize) -> (result: Option<
    Vec<Animation>,
>)
    requires
        names_at + 8 * count <= data@.len(),
        unks_at + count <= data@.len(),
    ensures
        result is Some == words_in_range(words_at(data@, names_at as int, count as nat)),
        result is Some ==> animation_views(result->Some_0@) == animations_at(
            data@,
            names_at as int,
            unks_at as int,
            count as nat,
        ),
{
    let ghost words = words_at(data@, names_at as int, count as nat);
    let ghost wanted = animations_at(data@, names_at as int, unks_at as int, count as nat);
    let total: usize = data.len();
    let mut animations: Vec<Animation> = Vec::new();
    let mut i: usize = 0;
    while i < count
        invariant
            i <= count,
            total == data@.len(),
            names_at + 8 * count <= total,
            unks_at + count <= total,
            words == words_at(data@, names_at as int, count as nat),
            wanted == animations_at(data@, names_at as int, unks_at as int, count as nat),
            animations@.len() == i,
            forall|j: int| 0 <= j < i ==> (#[trigger] animations@[j])@ == wanted[j],
            forall|j: int| 0 <= j < i ==> #[trigger] words[j] < HASH_LIMIT,
        decreases count - i,
    {
        let word: u64 = read_le(data, names_at + 8 * i, 8);
        proof {
            lemma_word_at_bound(data@, names_at + 8 * i, 8);
            lemma_radix_pow_values();
            assert(words[i as int] == word);
        }
        if word >= HASH_LIMIT {
            return None;
        }
        let unk: u8 = data[unks_at + i];
        animations.push(Animation { name: HashedIdentifier::new(word), unk });
        i = i + 1;
    }
    assert(animation_views(animations@) =~= wanted);
    Some(animations)
}

/// Tells whether the `count` bytes at `pos` are all zero.
fn is_zero_run(data: &[u8], pos: usize, count: usize) -> (ok: bool)
    requires
        pos + count <= data@.len(),
    ensures
        ok == (data@.subrange(pos as int, pos + count) == zeros(count as nat)),
{
    let ghost run = data@.subrange(pos as int, pos + count);
    let total: usize = data.len();
    let mut i: usize = 0;
    while i < count
        invariant
            i <= count,
            total == data@.len(),
            pos + count <= total,
            run == data@.subrange(pos as int, pos + count),
            forall|j: int| 0 <= j < i ==> #[trigger] run[j] == 0,
        decreases count - i,
    {
        if data[pos + i] != 0 {
            assert(run[i as int] != zeros(count as nat)[i as int]);
            return false;
        }
        i = i + 1;
    }
    assert(run =~= zeros(count as nat));
    true
}

/// Reads the entry at `pos` and tells where the next one starts.
fn read_entry(data: &[u8], pos: usize) -> (result: Result<(MotionEntry, usize), DecodeError>)
    requires
        pos <= data@.len(),
    ensures
        decoded_entry_view(result) == decode_entry(data@, pos as int),
{
    reveal(decode_entry);
    let total: usize = data.len();
    if total - pos < ENTRY_HEAD_SIZE {
        return Err(DecodeError::Truncated);
    }
    let identifier: u64 = read_le(data, pos, 8);
    let game_script: u64 = read_le(data, pos + 8, 8);
    let flags: u64 = read_le(data, pos + 16, 2);
    let blend_frames: u64 = read_le(data, pos + 18, 1);
    let count: u64 = read_le(data, pos + 19, 1);
    let size: u64 = read_le(data, pos + 20, 4);
    proof {
        lemma_radix_pow_values();
        lemma_word_at_bound(data@, pos as int, 8);
        lemma_word_at_bound(data@, pos + 8, 8);
        lemma_word_at_bound(data@, pos + 16, 2);
        lemma_word_at_bound(data@, pos + 18, 1);
        lemma_word_at_bound(data@, pos + 19, 1);
        lemma_word_at_bound(data@, pos + 20, 4);
    }
    let names_at: usize = pos + ENTRY_HEAD_SIZE;
    if ((total - names_at) as u64) < size {
        return Err(DecodeError::Truncated);
    }
    let pad: u64 = (4 - count % 4) % 4;
    let fixed: u64 = 9 * count + pad;
    if identifier >= HASH_LIMIT || game_script >= HASH_LIMIT || size < fixed {
        return Err(DecodeError::Malformed);
    }
    let rest: u64 = size - fixed;
    if rest % 8 != 0 && rest % 8 != 4 {
        return Err(DecodeError::Malformed);
    }
    let unks_at: usize = names_at + 8 * (count as usize);
    let pad_at: usize = unks_at + count as usize;
    let scripts_at: usize = pad_at + pad as usize;
    let script_count: usize = (rest / 8) as usize;
    let extra_at: usize = scripts_at + 8 * script_count;
    let animations = match read_animations(data, names_at, unks_at, count as usize) {
        Some(animations) => animations,
        None => {
            return Err(DecodeError::Malformed);
        },
    };
    if !is_zero_run(data, pad_at, pad as usize) {
        return Err(DecodeError::Malformed);
    }
    let scripts = match read_words(data, scripts_at, script_count) {
        Some(scripts) => scripts,
        None => {
            return Err(DecodeError::Malformed);
        },
    };
    let extra = if rest % 8 == 4 {
        if data[extra_at + 3] > 1 {
            return Err(DecodeError::Malformed);
        }
        Some(
            Extra {
                xlu_start: data[extra_at],
                xlu_end: data[extra_at + 1],
                cancel_frame: data[extra_at + 2],
                no_stop_intp: data[extra_at + 3] == 1,
            },
        )
    } else {
        None
    };
    let entry = MotionEntry {
        identifier: HashedIdentifier::new(identifier),
        game_script: HashedIdentifier::new(game_script),
        flags: flags as u16,
        blend_frames: blend_frames as u8,
        animations,
        scripts,
        extra,
    };
    Ok((entry, names_at + size as usize))
}

/// Decodes a blob.
///
/// Returns the list that the blob holds, with its entries in the order of the
/// blob, or the first reason why the bytes are no blob: `Truncated` where
/// they end before a declared structure, `BadMagic` and `UnsupportedVersion`
/// for a foreign header, `Malformed` for a field outside its range, non-zero
/// padding or bytes behind the last entry. No byte outside the slice is read.
/// A list that comes back encodes to the very bytes it came from.
pub fn decode(data: &[u8]) -> (result: Result<MotionList, DecodeError>)
    ensures
        decoded_view(result) == decode_spec(data@),
        result is Ok ==> result->Ok_0@.wf(),
        result is Ok ==> encode_spec(result->Ok_0@) == data@,
{
    let total: usize = data.len();
    if total < HEADER_SIZE {
        return Err(DecodeError::Truncated);
    }
    let magic: u64 = read_le(data, 0, 4);
    if magic != MAGIC as u64 {
        return Err(DecodeError::BadMagic);
    }
    let version: u64 = read_le(data, 4, 4);
    if version != VERSION as u64 {
        return Err(DecodeError::UnsupportedVersion);
    }
    let count: u64 = read_le(data, 8, 8);
    let mut entries: Vec<MotionEntry> = Vec::new();
    let mut pos: usize = HEADER_SIZE;
    let mut i: u64 = 0;
    assert(entry_views(entries@) + Seq::<MotionEntryView>::empty() =~= Seq::<
        MotionEntryView,
    >::empty());
    while i < count
        invariant
            i <= count,
            total == data@.len(),
            HEADER_SIZE <= pos <= total,
            word_at(data@, 0, 4) == MAGIC,
            word_at(data@, 4, 4) == VERSION,
            word_at(data@, 8, 8) == count,
            decode_entries(data@, HEADER_SIZE as int, count as nat) == (match decode_entries(
                data@,
                pos as int,
                (count - i) as nat,
            ) {
                Ok((others, end)) => Ok::<(Seq<MotionEntryView>, int), DecodeError>(
                    (entry_views(entries@) + others, end),
                ),
                Err(e) => Err(e),
            }),
        decreases count - i,
    {
        let ghost before = entry_views(entries@);
        match read_entry(data, pos) {
            Err(e) => {
                return Err(e);
            },
            Ok((entry, next)) => {
                proof {
                    lemma_entry_round_trip(data@, pos as int);
                    let tail = decode_entries(data@, next as int, (count - i - 1) as nat);
                    assert(entry_views(entries@.push(entry)) =~= before.push(entry@));
                    if tail is Ok {
                        assert(before + (seq![entry@] + tail->Ok_0.0) =~= before.push(entry@)
                            + tail->Ok_0.0);
                    }
                }
                entries.push(entry);
                pos = next;
            },
        }
        i = i + 1;
    }
    assert(entry_views(entries@) + Seq::<MotionEntryView>::empty() =~= entry_views(entries@));
    if pos != total {
        return Err(DecodeError::Malformed);
    }
    proof {
        lemma_decode_then_encode(data@);
    }
    Ok(MotionList { entries })
}

} // verus!
