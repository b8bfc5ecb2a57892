//! The record model: a motion list as an ordered sequence of entries.

use vstd::prelude::*;
use crate::hash::HASH_LIMIT;
use crate::ident::HashedIdentifier;

verus! {

/// Largest number of animations that one entry can carry.
pub const MAX_ANIMATIONS: usize = 255;

/// Largest number of bytes that may follow the fixed part of an entry.
pub const MAX_BODY_SIZE: u64 = 0xffff_ffff;

/// One animation of a motion: its name and the byte stored beside it.
#[derive(Clone, Copy, Debug, PartialEq, Eq)]
pub struct Animation {
    pub name: HashedIdentifier,
    pub unk: u8,
}

/// The optional trailer of an entry.
#[derive(Clone, Copy, Debug, PartialEq, Eq)]
pub struct Extra {
    pub xlu_start: u8,
    pub xlu_end: u8,
    pub cancel_frame: u8,
    pub no_stop_intp: bool,
}

/// One motion: the identifier it is known by and its payload.
#[derive(Clone, Debug, PartialEq, Eq)]
pub struct MotionEntry {
    pub identifier: HashedIdentifier,
    pub game_script: HashedIdentifier,
    pub flags: u16,
    pub blend_frames: u8,
    pub animations: Vec<Animation>,
    pub scripts: Vec<HashedIdentifier>,
    pub extra: Option<Extra>,
}

/// A motion list. The order of its entries is part of its value.
#[derive(Clone, Debug, PartialEq, Eq)]
pub struct MotionList {
    pub entries: Vec<MotionEntry>,
}

/// An animation as a mathematical value.
pub struct AnimationView {
    pub name: u64,
    pub unk: u8,
}

/// An entry as a mathematical value.
pub struct MotionEntryView {
    pub identifier: u64,
    pub game_script: u64,
    pub flags: u16,
    pub blend_frames: u8,
    pub animations: Seq<AnimationView>,
    pub scripts: Seq<u64>,
    pub extra: Option<Extra>,
}

/// A motion list as a mathematical value.
pub struct MotionListView {
    pub entries: Seq<MotionEntryView>,
}

/// Number of zero bytes that bring `count` single bytes to a multiple of four.
pub open spec fn padding(count: nat) -> nat {
    ((4 - count % 4) % 4) as nat
}

/// Whether every word of a sequence is a 40-bit value.
pub open spec fn words_in_range(words: Seq<u64>) -> bool {
    forall|i: int| 0 <= i < words.len() ==> #[trigger] words[i] < HASH_LIMIT
}

/// The names of a sequence of animations.
pub open spec fn names_of(animations: Seq<AnimationView>) -> Seq<u64> {
    animations.map_values(|a: AnimationView| a.name)
}

/// The bytes stored beside the animations of a sequence.
pub open spec fn unks_of(animations: Seq<AnimationView>) -> Seq<u8> {
    animations.map_values(|a: AnimationView| a.unk)
}

/// The values of a sequence of identifiers.
pub open spec fn id_values(ids: Seq<HashedIdentifier>) -> Seq<u64> {
    ids.map_values(|s: HashedIdentifier| s@)
}

/// The animations of a sequence as mathematical values.
pub open spec fn animation_views(animations: Seq<Animation>) -> Seq<AnimationView> {
    animations.map_values(|a: Animation| a@)
}

/// The entries of a sequence as mathematical values.
pub open spec fn entry_views(entries: Seq<MotionEntry>) -> Seq<MotionEntryView> {
    entries.map_values(|e: MotionEntry| e@)
}

impl View for Animation {
    type V = AnimationView;

    open spec fn view(&self) -> AnimationView {
        AnimationView { name: self.name@, unk: self.unk }
    }
}

impl View for MotionEntry {
    type V = MotionEntryView;

    open spec fn view(&self) -> MotionEntryView {
        MotionEntryView {
            identifier: self.identifier@,
            game_script: self.game_script@,
            flags: self.flags,
            blend_frames: self.blend_frames,
            animations: animation_views(self.animations@),
            scripts: id_values(self.scripts@),
            extra: self.extra,
        }
    }
}

impl View for MotionList {
    type V = MotionListView;

    open spec fn view(&self) -> MotionListView {
        MotionListView { entries: entry_views(self.entries@) }
    }
}

impl MotionEntryView {
    /// The names of the animations, in order.
    pub open spec fn names(self) -> Seq<u64> {
        names_of(self.animations)
    }

    /// The bytes stored beside the animations, in order.
    pub open spec fn unks(self) -> Seq<u8> {
        unks_of(self.animations)
    }

    /// Number of bytes that the variable part of the entry takes in a blob.
    pub open spec fn body_size(self) -> nat {
        9 * self.animations.len() + padding(self.animations.len()) + 8 * self.scripts.len() + (
        if self.extra is Some {
            4nat
        } else {
            0nat
        })
    }

    /// Every identifier of the entry is a 40-bit value.
    pub open spec fn ids_bounded(self) -> bool {
        &&& self.identifier < HASH_LIMIT
        &&& self.game_script < HASH_LIMIT
        &&& words_in_range(self.names())
        &&& words_in_range(self.scripts)
    }

    /// The entry fits the counts and sizes that a blob can declare.
    pub open spec fn fits(self) -> bool {
        &&& self.animations.len() <= MAX_ANIMATIONS
        &&& self.body_size() <= MAX_BODY_SIZE
    }

    /// The entry is one that a blob can hold.
    pub open spec fn wf(self) -> bool {
        self.ids_bounded() && self.fits()
    }
}

impl MotionListView {
    /// Every identifier of the list is a 40-bit value.
    pub open spec fn ids_bounded(self) -> bool {
        forall|i: int| 0 <= i < self.entries.len() ==> (#[trigger] self.entries[i]).ids_bounded()
    }

    /// Every entry fits, and so does their number.
    pub open spec fn fits(self) -> bool {
        &&& self.entries.len() <= u64::MAX
        &&& forall|i: int| 0 <= i < self.entries.len() ==> (#[trigger] self.entries[i]).fits()
    }

    /// The list is one that a blob can hold.
    pub open spec fn wf(self) -> bool {
        self.ids_bounded() && self.fits()
    }
}

impl MotionEntry {
    /// Tells whether the entry fits the counts and sizes of the binary layout.
    /// Its identifiers are 40-bit values in any case.
    pub fn fits_layout(&self) -> (ok: bool)
        ensures
            ok == self@.fits(),
            self@.ids_bounded(),
    {
        // Every identifier is a 40-bit value; asking each for its value
        // shows it of the identifiers of this entry.
        let _ = self.identifier.value();
        let _ = self.game_script.value();
        let mut i: usize = 0;
        while i < self.animations.len()
            invariant
                i <= self.animations.len(),
                forall|j: int| 0 <= j < i ==> #[trigger] self@.names()[j] < HASH_LIMIT,
            decreases self.animations.len() - i,
        {
            let _ = self.animations[i].name.value();
            i = i + 1;
        }
        i = 0;
        while i < self.scripts.len()
            invariant
                i <= self.scripts.len(),
                forall|j: int| 0 <= j < i ==> #[trigger] self@.scripts[j] < HASH_LIMIT,
            decreases self.scripts.len() - i,
        {
            let _ = self.scripts[i].value();
            i = i + 1;
        }
        let animations: usize = self.animations.len();
        let scripts: usize = self.scripts.len();
        // More than 2^29 scripts take more than `MAX_BODY_SIZE` bytes.
        if animations > MAX_ANIMATIONS || scripts > 0x2000_0000 {
            return false;
        }
        let pad: u64 = ((4 - animations % 4) % 4) as u64;
        let trailer: u64 = if self.extra.is_some() {
            4
        } else {
            0
        };
        let size: u64 = 9 * (animations as u64) + pad + 8 * (scripts as u64) + trailer;
        size <= MAX_BODY_SIZE
    }
}

impl MotionList {
    /// An empty list.
    pub fn new() -> (list: Self)
        ensures
            list@.entries.len() == 0,
            list@.wf(),
    {
        MotionList { entries: Vec::new() }
    }

    /// Number of entries.
    pub fn len(&self) -> (n: usize)
        ensures
            n == self@.entries.len(),
    {
        self.entries.len()
    }

    /// Tells whether every entry fits the counts and sizes of the binary
    /// layout, which is what encoding asks of a list. The identifiers of the
    /// list are 40-bit values in any case.
    pub fn fits_layout(&self) -> (ok: bool)
        ensures
            ok == self@.fits(),
            self@.ids_bounded(),
    {
        let mut fits = true;
        let mut i: usize = 0;
        while i < self.entries.len()
            invariant
                i <= self.entries.len(),
                fits == (forall|j: int| 0 <= j < i ==> (#[trigger] self@.entries[j]).fits()),
                forall|j: int| 0 <= j < i ==> (#[trigger] self@.entries[j]).ids_bounded(),
            decreases self.entries.len() - i,
        {
            if !self.entries[i].fits_layout() {
                assert(!self@.entries[i as int].fits());
                fits = false;
            }
            i = i + 1;
        }
        fits
    }
}

} // verus!
