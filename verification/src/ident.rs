//! Hashed identifiers: 40-bit values that stand for strings.

use vstd::prelude::*;
use crate::hash::{hash, hash40, HASH_LIMIT, HASH_MASK, lemma_hash40_bound};
use crate::labels::{LabelDictionary, labels_wf, lemma_owner_of, owner_of};
use crate::literal::{
    is_raw_literal, lemma_literal_value_bound, lemma_raw_literal_round_trip, literal_value,
    parse_raw_literal, raw_literal, render_raw_literal,
};

verus! {

/// A 40-bit identifier. Only the value is kept: an identifier made from a
/// string remembers the hash of the string, never the string.
#[derive(Clone, Copy, Debug, PartialEq, Eq, Hash, Structural)]
pub struct HashedIdentifier {
    value: u64,
}

impl View for HashedIdentifier {
    type V = u64;

    closed spec fn view(&self) -> u64 {
        self.value
    }
}

/// How a value is written under a dictionary: as its label where it has one,
/// as its raw literal where it has none.
pub open spec fn rendering(labels: Map<u64, Seq<char>>, value: u64) -> Seq<char> {
    if labels.dom().contains(value) {
        labels[value]
    } else {
        raw_literal(value)
    }
}

/// What a token stands for under a dictionary: the value it spells where it
/// is a raw literal; else the hash it was loaded for where it is a label of
/// the dictionary; else the hash of its text.
pub open spec fn token_value(labels: Map<u64, Seq<char>>, token: Seq<char>) -> u64 {
    if is_raw_literal(token) {
        literal_value(token)
    } else {
        match owner_of(labels, token) {
            Some(hash) => hash,
            None => hash40(token),
        }
    }
}

/// A token stands for a 40-bit value.
pub proof fn lemma_token_value_bound(labels: Map<u64, Seq<char>>, token: Seq<char>)
    requires
        labels_wf(labels),
    ensures
        token_value(labels, token) < HASH_LIMIT,
{
    if is_raw_literal(token) {
        lemma_literal_value_bound(token);
    } else {
        lemma_hash40_bound(token);
    }
}

/// A value without a label is written as its raw literal, and the raw
/// literal read back is the value.
pub proof fn lemma_unknown_value_round_trip(labels: Map<u64, Seq<char>>, value: u64)
    requires
        value < HASH_LIMIT,
        !labels.dom().contains(value),
    ensures
        rendering(labels, value) == raw_literal(value),
        token_value(labels, raw_literal(value)) == value,
{
    lemma_raw_literal_round_trip(value);
}

/// A label of the dictionary stands for the hash it was loaded for, whatever
/// the hash of its text is.
pub proof fn lemma_label_stands_for_its_hash(labels: Map<u64, Seq<char>>, hash: u64)
    requires
        labels_wf(labels),
        labels.dom().contains(hash),
    ensures
        token_value(labels, labels[hash]) == hash,
{
    lemma_owner_of(labels, hash);
}

/// What a value is written as stands for the value.
pub proof fn lemma_render_then_parse(labels: Map<u64, Seq<char>>, value: u64)
    requires
        labels_wf(labels),
        value < HASH_LIMIT,
    ensures
        token_value(labels, rendering(labels, value)) == value,
{
    if labels.dom().contains(value) {
        lemma_label_stands_for_its_hash(labels, value);
    } else {
        lemma_unknown_value_round_trip(labels, value);
    }
}

impl HashedIdentifier {
    #[verifier::type_invariant]
    spec fn in_range(self) -> bool {
        self.value < HASH_LIMIT
    }

    /// Makes an identifier from a raw word, keeping its low 40 bits.
    pub fn new(raw: u64) -> (id: Self)
        ensures
            id@ == raw & HASH_MASK,
            id@ < HASH_LIMIT,
            raw < HASH_LIMIT ==> id@ == raw,
    {
        assert(raw & 0xff_ffff_ffff < 0x100_0000_0000) by (bit_vector);
        assert(raw < 0x100_0000_0000 ==> raw & 0xff_ffff_ffff == raw) by (bit_vector);
        HashedIdentifier { value: raw & HASH_MASK }
    }

    /// Makes the identifier of a label: the hash of its text.
    pub fn from_label(label: &str) -> (id: Self)
        ensures
            id@ == hash40(label@),
    {
        HashedIdentifier { value: hash(label) }
    }

    /// Writes the identifier: its label where the dictionary has one, its raw
    /// literal where the dictionary has none.
    pub fn render(&self, dictionary: &LabelDictionary) -> (text: String)
        ensures
            text@ == rendering(dictionary@, self@),
    {
        match dictionary.lookup(*self) {
            Some(label) => label,
            None => render_raw_literal(self.value),
        }
    }

    /// Reads a token: a raw literal gives the value it spells, a label of
    /// the dictionary the hash it was loaded for, any other text its hash.
    pub fn parse(token: &str, dictionary: &LabelDictionary) -> (id: Self)
        ensures
            id@ == token_value(dictionary@, token@),
    {
        match parse_raw_literal(token) {
            Some(value) => HashedIdentifier { value },
            None => match dictionary.reverse_lookup(token) {
                Some(id) => id,
                None => HashedIdentifier::from_label(token),
            },
        }
    }

    /// Tells whether two identifiers are the same: they are when their
    /// values are equal, whether or not a label is known for either.
    pub fn same(&self, other: &HashedIdentifier) -> (same: bool)
        ensures
            same == (self@ == other@),
    {
        *self == *other
    }

    /// The identifier's value, always below two to the fortieth.
    pub fn value(&self) -> (v: u64)
        ensures
            v == self@,
            v < HASH_LIMIT,
    {
        proof {
            use_type_invariant(self);
        }
        self.value
    }
}

} // verus!
