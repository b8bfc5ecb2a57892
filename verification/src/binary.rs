//! The binary codec: the layout of a motion-list blob, decoding and encoding.
//!
//! All integers are little-endian. A blob is a header of 16 bytes followed by
//! the entries, one after another, with nothing behind the last one:
//!
//! | offset | bytes | field                         |
//! |--------|-------|-------------------------------|
//! | 0      | 4     | magic, `MAGIC`                |
//! | 4      | 4     | version, `VERSION`            |
//! | 8      | 8     | number of entries             |
//!
//! An entry is a head of 24 bytes followed by a body whose length the head
//! declares:
//!
//! | offset | bytes | field                         |
//! |--------|-------|-------------------------------|
//! | 0      | 8     | identifier                    |
//! | 8      | 8     | game script                   |
//! | 16     | 2     | flags                         |
//! | 18     | 1     | blend frames                  |
//! | 19     | 1     | number of animations, `n`     |
//! | 20     | 4     | length of the body            |
//!
//! The body holds `n` animation names of 8 bytes each, the `n` bytes stored
//! beside them, zero bytes up to the next multiple of four, the scripts of 8
//! bytes each, and at the end either nothing or a trailer of 4 bytes. Every
//! identifier occupies 8 bytes of which the upper 24 bits are zero.

use vstd::prelude::*;
use crate::hash::HASH_LIMIT;
use crate::model::{AnimationView, Extra, MotionEntryView, MotionListView, padding, words_in_range};
use crate::wire::{le_bytes, le_value};

pub mod laws;
pub mod read;
pub mod write;

pub use crate::binary::read::{decode, decoded_view};
pub use crate::binary::write::encode;

verus! {

/// The four bytes `MLST`, read as a little-endian integer.
pub const MAGIC: u32 = 0x5453_4c4d;

/// The one version of the layout that this codec reads and writes.
pub const VERSION: u32 = 1;

/// Length of the header of a blob.
pub const HEADER_SIZE: usize = 16;

/// Length of the head of an entry.
pub const ENTRY_HEAD_SIZE: usize = 24;

/// Why a blob could not be decoded.
#[derive(Clone, Copy, Debug, PartialEq, Eq)]
pub enum DecodeError {
    /// The blob ends before a structure that it declares.
    Truncated,
    /// The blob does not start with `MAGIC`.
    BadMagic,
    /// The blob declares a version other than `VERSION`.
    UnsupportedVersion,
    /// A field holds a value that the layout does not allow, or bytes follow
    /// the last entry.
    Malformed,
}

/// The integer that `width` bytes at `pos` spell.
pub open spec fn word_at(bytes: Seq<u8>, pos: int, width: int) -> nat {
    le_value(bytes.subrange(pos, pos + width))
}

/// The `count` 8-byte words that start at `pos`.
pub open spec fn words_at(bytes: Seq<u8>, pos: int, count: nat) -> Seq<u64> {
    Seq::new(count, |i: int| word_at(bytes, pos + 8 * i, 8) as u64)
}

/// The bytes of a sequence of 8-byte words.
pub open spec fn encode_words(words: Seq<u64>) -> Seq<u8>
    decreases words.len(),
{
    if words.len() == 0 {
        Seq::empty()
    } else {
        le_bytes(words[0] as nat, 8) + encode_words(words.drop_first())
    }
}

/// `count` zero bytes.
pub open spec fn zeros(count: nat) -> Seq<u8> {
    Seq::new(count, |i: int| 0u8)
}

/// The animations whose names start at `names_at` and whose bytes start at
/// `unks_at`.
pub open spec fn animations_at(bytes: Seq<u8>, names_at: int, unks_at: int, count: nat) -> Seq<
    AnimationView,
> {
    Seq::new(
        count,
        |i: int| AnimationView { name: word_at(bytes, names_at + 8 * i, 8) as u64, unk: bytes[unks_at + i] },
    )
}

/// The trailer at `pos`, if its last byte is a truth value.
pub open spec fn decode_extra(bytes: Seq<u8>, pos: int) -> Result<Extra, DecodeError> {
    if bytes[pos + 3] > 1 {
        Err(DecodeError::Malformed)
    } else {
        Ok(
            Extra {
                xlu_start: bytes[pos],
                xlu_end: bytes[pos + 1],
                cancel_frame: bytes[pos + 2],
                no_stop_intp: bytes[pos + 3] == 1,
            },
        )
    }
}

/// The bytes of a trailer, or none where there is no trailer.
pub open spec fn encode_extra(extra: Option<Extra>) -> Seq<u8> {
    match extra {
        None => Seq::empty(),
        Some(x) => seq![x.xlu_start, x.xlu_end, x.cancel_frame, if x.no_stop_intp {
            1u8
        } else {
            0u8
        }],
    }
}

/// The entry at `pos` and the position behind it.
///
/// The entry is `Truncated` where fewer bytes remain than its head takes,
/// or fewer than its head declares for its body. Else it is `Malformed`
/// where an identifier exceeds 40 bits, where the declared length is not
/// that of the animations, the padding, a whole number of scripts and at
/// most one trailer, where a padding byte is not zero, or where the last
/// byte of the trailer is neither 0 nor 1.
#[verifier::opaque]
pub open spec fn decode_entry(bytes: Seq<u8>, pos: int) -> Result<(MotionEntryView, int), DecodeError> {
    if bytes.len() - pos < ENTRY_HEAD_SIZE {
        Err(DecodeError::Truncated)
    } else {
        let identifier = word_at(bytes, pos, 8);
        let game_script = word_at(bytes, pos + 8, 8);
        let flags = word_at(bytes, pos + 16, 2);
        let blend_frames = word_at(bytes, pos + 18, 1);
        let count = word_at(bytes, pos + 19, 1);
        let size = word_at(bytes, pos + 20, 4);
        let names_at = pos + ENTRY_HEAD_SIZE;
        let unks_at = names_at + 8 * count;
        let pad_at = unks_at + count;
        let scripts_at = pad_at + padding(count);
        let rest = size - (scripts_at - names_at);
        let extra_at = scripts_at + 8 * (rest / 8);
        if bytes.len() - names_at < size {
            Err(DecodeError::Truncated)
        } else if identifier >= HASH_LIMIT || game_script >= HASH_LIMIT || rest < 0 || (rest % 8
            != 0 && rest % 8 != 4) || !words_in_range(words_at(bytes, names_at, count))
            || bytes.subrange(pad_at, scripts_at) != zeros(padding(count)) || !words_in_range(
            words_at(bytes, scripts_at, (rest / 8) as nat),
        ) || (rest % 8 == 4 && decode_extra(bytes, extra_at) is Err) {
            Err(DecodeError::Malformed)
        } else {
            Ok(
                (
                    MotionEntryView {
                        identifier: identifier as u64,
                        game_script: game_script as u64,
                        flags: flags as u16,
                        blend_frames: blend_frames as u8,
                        animations: animations_at(bytes, names_at, unks_at, count),
                        scripts: words_at(bytes, scripts_at, (rest / 8) as nat),
                        extra: if rest % 8 == 4 {
                            Some(decode_extra(bytes, extra_at)->Ok_0)
                        } else {
                            None
                        },
                    },
                    names_at + size,
                ),
            )
        }
    }
}

/// The `count` entries that start at `pos` and the position behind them.
pub open spec fn decode_entries(bytes: Seq<u8>, pos: int, count: nat) -> Result<
    (Seq<MotionEntryView>, int),
    DecodeError,
>
    decreases count,
{
    if count == 0 {
        Ok((Seq::empty(), pos))
    } else {
        match decode_entry(bytes, pos) {
            Err(e) => Err(e),
            Ok((entry, next)) => match decode_entries(bytes, next, (count - 1) as nat) {
                Err(e) => Err(e),
                Ok((others, end)) => Ok((seq![entry] + others, end)),
            },
        }
    }
}

/// What decoding makes of a blob: the list it holds, or the reason why it
/// holds none. The header is looked at first, its length before the magic
/// and the magic before the version; then the entries in their order, of
/// which the first that cannot be read decides; at last the end of the blob,
/// behind which nothing may follow.
pub open spec fn decode_spec(bytes: Seq<u8>) -> Result<MotionListView, DecodeError> {
    if bytes.len() < HEADER_SIZE {
        Err(DecodeError::Truncated)
    } else if word_at(bytes, 0, 4) != MAGIC {
        Err(DecodeError::BadMagic)
    } else if word_at(bytes, 4, 4) != VERSION {
        Err(DecodeError::UnsupportedVersion)
    } else {
        match decode_entries(bytes, HEADER_SIZE as int, word_at(bytes, 8, 8)) {
            Err(e) => Err(e),
            Ok((entries, end)) => if end != bytes.len() {
                Err(DecodeError::Malformed)
            } else {
                Ok(MotionListView { entries })
            },
        }
    }
}

/// The bytes of one entry.
#[verifier::opaque]
pub open spec fn encode_entry(entry: MotionEntryView) -> Seq<u8> {
    le_bytes(entry.identifier as nat, 8) + le_bytes(entry.game_script as nat, 8) + le_bytes(
        entry.flags as nat,
        2,
    ) + le_bytes(entry.blend_frames as nat, 1) + le_bytes(entry.animations.len(), 1) + le_bytes(
        entry.body_size(),
        4,
    ) + encode_words(entry.names()) + entry.unks() + zeros(padding(entry.animations.len()))
        + encode_words(entry.scripts) + encode_extra(entry.extra)
}

/// The bytes of a sequence of entries.
pub open spec fn encode_entries(entries: Seq<MotionEntryView>) -> Seq<u8>
    decreases entries.len(),
{
    if entries.len() == 0 {
        Seq::empty()
    } else {
        encode_entry(entries[0]) + encode_entries(entries.drop_first())
    }
}

/// The blob of a list.
pub open spec fn encode_spec(list: MotionListView) -> Seq<u8> {
    le_bytes(MAGIC as nat, 4) + le_bytes(VERSION as nat, 4) + le_bytes(list.entries.len(), 8)
        + encode_entries(list.entries)
}

} // verus!
