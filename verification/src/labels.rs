//! The label dictionary: which label stands for which identifier.
//!
//! A dictionary is filled from pairs of a hash and a label. It keeps at most
//! one label for a hash and at most one hash for a label, and the pair that
//! came first wins: a later pair whose hash or label is already taken is
//! passed over, and so is a pair whose label has the form of a raw literal.
//! Nothing is ever removed.
//!
//! A label source is ASCII text with one pair on a line: `0x`, one to ten
//! hexadecimal digits, a comma, and the label, which runs to the end of the
//! line. Lines end in a line feed, before which a carriage return is dropped.
//! Empty lines are passed over.

use std::collections::HashMap;
use vstd::prelude::*;
use vstd::string::*;
use vstd::utf8::is_ascii_chars;
use crate::hash::{hash, hash40, HASH_LIMIT};
use crate::ident::HashedIdentifier;
use crate::literal::{is_raw_literal, parse_prefixed_hex, parse_raw_literal, prefixed_hex};

verus! {

broadcast use vstd::std_specs::hash::group_hash_axioms;

/// Why a label source could not be loaded. Lines count from one.
#[derive(Clone, Copy, Debug, PartialEq, Eq)]
pub enum LoadError {
    /// The source holds a character outside ASCII.
    NotAscii,
    /// A line that is not empty holds no comma.
    MissingSeparator { line: usize },
    /// What stands before the comma is not `0x` and one to ten hexadecimal
    /// digits.
    BadHash { line: usize },
}

/// Whether some hash of a dictionary carries `label`.
pub open spec fn has_label(labels: Map<u64, Seq<char>>, label: Seq<char>) -> bool {
    exists|h: u64| labels.dom().contains(h) && #[trigger] labels[h] == label
}

/// The hash that carries `label`, if there is one.
pub open spec fn owner_of(labels: Map<u64, Seq<char>>, label: Seq<char>) -> Option<u64> {
    if has_label(labels, label) {
        Some(choose|h: u64| labels.dom().contains(h) && #[trigger] labels[h] == label)
    } else {
        None
    }
}

/// What holds of every dictionary: hashes are 40-bit values, no label has
/// the form of a raw literal, and no label stands for two hashes.
pub open spec fn labels_wf(labels: Map<u64, Seq<char>>) -> bool {
    &&& forall|h: u64| #[trigger]
        labels.dom().contains(h) ==> h < HASH_LIMIT && !is_raw_literal(labels[h])
    &&& forall|h1: u64, h2: u64|
        labels.dom().contains(h1) && labels.dom().contains(h2) && #[trigger] labels[h1]
            == #[trigger] labels[h2] ==> h1 == h2
}

/// Whether a dictionary takes a pair: neither side is taken, and the label
/// cannot be mistaken for a raw literal.
pub open spec fn accepts(labels: Map<u64, Seq<char>>, hash: u64, label: Seq<char>) -> bool {
    &&& hash < HASH_LIMIT
    &&& !labels.dom().contains(hash)
    &&& !has_label(labels, label)
    &&& !is_raw_literal(label)
}

/// A dictionary after a pair was offered to it.
pub open spec fn with_pair(labels: Map<u64, Seq<char>>, hash: u64, label: Seq<char>) -> Map<
    u64,
    Seq<char>,
> {
    if accepts(labels, hash, label) {
        labels.insert(hash, label)
    } else {
        labels
    }
}

/// A dictionary after pairs were offered to it in order.
pub open spec fn with_pairs(labels: Map<u64, Seq<char>>, pairs: Seq<(u64, Seq<char>)>) -> Map<
    u64,
    Seq<char>,
>
    decreases pairs.len(),
{
    if pairs.len() == 0 {
        labels
    } else {
        with_pairs(with_pair(labels, pairs[0].0, pairs[0].1), pairs.drop_first())
    }
}

/// Number of characters from `from` up to the next `stop` or the end.
pub open spec fn run_len(text: Seq<char>, from: int, stop: char) -> nat
    decreases text.len() - from,
{
    if from < 0 || from >= text.len() || text[from] == stop {
        0
    } else {
        1 + run_len(text, from + 1, stop)
    }
}

/// A line without the carriage return at its end, if it has one.
pub open spec fn chomp(line: Seq<char>) -> Seq<char> {
    if line.len() > 0 && line.last() == '\r' {
        line.drop_last()
    } else {
        line
    }
}

/// The pair on a line, nothing for an empty line, or what is wrong with it.
pub open spec fn parse_line(line: Seq<char>, number: nat) -> Result<
    Option<(u64, Seq<char>)>,
    LoadError,
> {
    let cut = run_len(line, 0, ',');
    if line.len() == 0 {
        Ok(None)
    } else if cut == line.len() {
        Err(LoadError::MissingSeparator { line: number as usize })
    } else {
        match prefixed_hex(line.subrange(0, cut as int)) {
            None => Err(LoadError::BadHash { line: number as usize }),
            Some(hash) => Ok(Some((hash, line.subrange(cut as int + 1, line.len() as int)))),
        }
    }
}

/// The pairs on the lines that start at `from`, before which `index` lines
/// stand; or what is wrong with the first line that is wrong.
pub open spec fn parse_lines(source: Seq<char>, from: int, index: nat) -> Result<
    Seq<(u64, Seq<char>)>,
    LoadError,
>
    decreases source.len() - from,
{
    if from < 0 || from >= source.len() {
        Ok(Seq::empty())
    } else {
        let end = from + run_len(source, from, '\n');
        match parse_line(chomp(source.subrange(from, end)), index + 1) {
            Err(e) => Err(e),
            Ok(item) => match parse_lines(
                source,
                if end < source.len() {
                    end + 1
                } else {
                    source.len() as int
                },
                index + 1,
            ) {
                Err(e) => Err(e),
                Ok(others) => Ok(
                    match item {
                        Some(pair) => seq![pair] + others,
                        None => others,
                    },
                ),
            },
        }
    }
}

/// The pairs of a label source, in the order of its lines.
pub open spec fn parse_source(source: Seq<char>) -> Result<Seq<(u64, Seq<char>)>, LoadError> {
    if !is_ascii_chars(source) {
        Err(LoadError::NotAscii)
    } else {
        parse_lines(source, 0, 0)
    }
}

/// In a well-formed dictionary a label belongs to the hash that carries it.
pub proof fn lemma_owner_of(labels: Map<u64, Seq<char>>, hash: u64)
    requires
        labels_wf(labels),
        labels.dom().contains(hash),
    ensures
        owner_of(labels, labels[hash]) == Some(hash),
{
    let label = labels[hash];
    assert(has_label(labels, label));
    let found = choose|h: u64| labels.dom().contains(h) && #[trigger] labels[h] == label;
    assert(found == hash);
}

/// A pair of a hash and a label.
struct Labelled {
    hash: u64,
    label: String,
}

spec fn pair_values(pairs: Seq<Labelled>) -> Seq<(u64, Seq<char>)> {
    pairs.map_values(|p: Labelled| (p.hash, p.label@))
}

spec fn line_view(result: Result<Option<Labelled>, LoadError>) -> Result<
    Option<(u64, Seq<char>)>,
    LoadError,
> {
    match result {
        Ok(Some(pair)) => Ok(Some((pair.hash, pair.label@))),
        Ok(None) => Ok(None),
        Err(e) => Err(e),
    }
}

spec fn source_view(result: Result<Vec<Labelled>, LoadError>) -> Result<
    Seq<(u64, Seq<char>)>,
    LoadError,
> {
    match result {
        Ok(pairs) => Ok(pair_values(pairs@)),
        Err(e) => Err(e),
    }
}

/// The code of the line feed.
const LINE_FEED: u8 = 10;

/// The code of the carriage return.
const CARRIAGE_RETURN: u8 = 13;

/// The code of the comma.
const COMMA: u8 = 44;

/// Number of characters of an ASCII text.
fn ascii_len(text: &str) -> (count: usize)
    requires
        is_ascii(text),
    ensures
        count == text@.len(),
{
    proof {
        is_ascii_spec_bytes(text);
    }
    text.as_bytes().len()
}

/// Where the run that starts at `from` ends: at the next `stop`, or at the
/// end of the text.
fn run_end(text: &str, from: usize, stop: u8) -> (end: usize)
    requires
        is_ascii(text),
        from <= text@.len(),
        stop < 128,
    ensures
        end == from + run_len(text@, from as int, stop as char),
        from <= end <= text@.len(),
        end < text@.len() ==> text@[end as int] == stop as char,
{
    let total: usize = ascii_len(text);
    let mut i: usize = from;
    while i < total
        invariant
            from <= i <= total,
            total == text@.len(),
            is_ascii(text),
            stop < 128,
            from + run_len(text@, from as int, stop as char) == i + run_len(
                text@,
                i as int,
                stop as char,
            ),
        decreases total - i,
    {
        let code: u8 = text.get_ascii(i);
        assert(text@[i as int] as u8 == code);
        assert('\0' <= text@[i as int] <= '\u{7f}');
        if code == stop {
            assert(text@[i as int] == stop as char);
            return i;
        }
        assert(text@[i as int] != stop as char);
        i = i + 1;
    }
    i
}

/// Reads the pair on a line.
fn read_line(line: &str, number: usize) -> (result: Result<Option<Labelled>, LoadError>)
    requires
        is_ascii(line),
    ensures
        line_view(result) == parse_line(line@, number as nat),
        result matches Ok(Some(pair)) ==> pair.hash < HASH_LIMIT,
{
    let total: usize = ascii_len(line);
    if total == 0 {
        return Ok(None);
    }
    let cut: usize = run_end(line, 0, COMMA);
    if cut == total {
        return Err(LoadError::MissingSeparator { line: number });
    }
    match parse_prefixed_hex(line.substring_ascii(0, cut)) {
        None => Err(LoadError::BadHash { line: number }),
        Some(hash) => {
            let label: String = line.substring_ascii(cut + 1, total).to_owned();
            Ok(Some(Labelled { hash, label }))
        },
    }
}

/// Reads the pairs of a label source.
fn read_source(source: &str) -> (result: Result<Vec<Labelled>, LoadError>)
    ensures
        source_view(result) == parse_source(source@),
        result matches Ok(pairs) ==> forall|j: int|
            0 <= j < pairs@.len() ==> (#[trigger] pairs@[j]).hash < HASH_LIMIT,
{
    if !source.is_ascii() {
        return Err(LoadError::NotAscii);
    }
    let total: usize = ascii_len(source);
    let mut pairs: Vec<Labelled> = Vec::new();
    let mut from: usize = 0;
    let mut index: usize = 0;
    assert(pair_values(pairs@) =~= Seq::empty());
    proof {
        let all = parse_lines(source@, 0, 0);
        if all is Ok {
            assert(pair_values(pairs@) + all->Ok_0 =~= all->Ok_0);
        }
    }
    while from < total
        invariant
            index <= from <= total,
            total == source@.len(),
            is_ascii(source),
            forall|j: int| 0 <= j < pairs@.len() ==> (#[trigger] pairs@[j]).hash < HASH_LIMIT,
            parse_lines(source@, 0, 0) == (match parse_lines(source@, from as int, index as nat) {
                Ok(others) => Ok::<Seq<(u64, Seq<char>)>, LoadError>(pair_values(pairs@) + others),
                Err(e) => Err(e),
            }),
        decreases total - from,
    {
        let end: usize = run_end(source, from, LINE_FEED);
        let mut stop: usize = end;
        if end > from {
            let code: u8 = source.get_ascii(end - 1);
            assert('\0' <= source@[end - 1] <= '\u{7f}');
            if code == CARRIAGE_RETURN {
                stop = end - 1;
            }
        }
        let line = source.substring_ascii(from, stop);
        let next: usize = if end < total {
            end + 1
        } else {
            total
        };
        let ghost before = pair_values(pairs@);
        proof {
            let raw = source@.subrange(from as int, end as int);
            if end > from {
                assert(raw.last() == source@[end - 1]);
            }
            assert(line@ =~= chomp(raw));
        }
        match read_line(line, index + 1) {
            Err(e) => {
                return Err(e);
            },
            Ok(item) => {
                match item {
                    Some(pair) => {
                        proof {
                            let tail = parse_lines(source@, next as int, (index + 1) as nat);
                            let value = (pair.hash, pair.label@);
                            assert(pair_values(pairs@.push(pair)) =~= before.push(value));
                            if tail is Ok {
                                assert(before + (seq![value] + tail->Ok_0) =~= before.push(value)
                                    + tail->Ok_0);
                            }
                        }
                        pairs.push(pair);
                    },
                    None => {},
                }
            },
        }
        from = next;
        index = index + 1;
    }
    proof {
        assert(pair_values(pairs@) + Seq::<(u64, Seq<char>)>::empty() =~= pair_values(pairs@));
    }
    Ok(pairs)
}

spec fn distinct(pairs: Seq<Labelled>) -> bool {
    &&& forall|i: int|
        0 <= i < pairs.len() ==> (#[trigger] pairs[i]).hash < HASH_LIMIT && !is_raw_literal(
            pairs[i].label@,
        )
    &&& forall|i: int, j: int|
        0 <= i < j < pairs.len() ==> (#[trigger] pairs[i]).hash != (#[trigger] pairs[j]).hash
            && pairs[i].label@ != pairs[j].label@
}

spec fn holds(pairs: Seq<Labelled>, hash: u64) -> bool {
    exists|i: int| 0 <= i < pairs.len() && (#[trigger] pairs[i]).hash == hash
}

spec fn index_of(pairs: Seq<Labelled>, hash: u64) -> int {
    choose|i: int| 0 <= i < pairs.len() && (#[trigger] pairs[i]).hash == hash
}

spec fn map_of(pairs: Seq<Labelled>) -> Map<u64, Seq<char>> {
    Map::new(|h: u64| holds(pairs, h), |h: u64| pairs[index_of(pairs, h)].label@)
}

proof fn lemma_map_of(pairs: Seq<Labelled>)
    requires
        distinct(pairs),
    ensures
        labels_wf(map_of(pairs)),
        forall|i: int|
            0 <= i < pairs.len() ==> map_of(pairs).dom().contains((#[trigger] pairs[i]).hash)
                && map_of(pairs)[pairs[i].hash] == pairs[i].label@,
        forall|h: u64| #[trigger]
            map_of(pairs).dom().contains(h) ==> 0 <= index_of(pairs, h) < pairs.len()
                && pairs[index_of(pairs, h)].hash == h,
{
    let labels = map_of(pairs);
    assert forall|i: int| 0 <= i < pairs.len() implies labels.dom().contains(
        (#[trigger] pairs[i]).hash,
    ) && labels[pairs[i].hash] == pairs[i].label@ by {
        let h = pairs[i].hash;
        assert(holds(pairs, h));
        let k = index_of(pairs, h);
        assert(pairs[k].hash == pairs[i].hash);
        assert(k == i);
    }
    assert forall|h1: u64, h2: u64|
        labels.dom().contains(h1) && labels.dom().contains(h2) && #[trigger] labels[h1]
            == #[trigger] labels[h2] implies h1 == h2 by {
        let i = index_of(pairs, h1);
        let j = index_of(pairs, h2);
        assert(pairs[i].label@ == pairs[j].label@);
        assert(i == j);
    }
}

/// Whether the pair at a place is filed under the hash of its label.
spec fn filed(pairs: Seq<Labelled>, by_label: Map<u64, Vec<usize>>, at: int) -> bool {
    let key = hash40(pairs[at].label@);
    by_label.contains_key(key) && exists|j: int|
        0 <= j < by_label[key]@.len() && #[trigger] by_label[key]@[j] == at
}

/// Whether two indices describe the pairs: one leads from each hash to the
/// place of its pair, the other from the hash of each label to the places of
/// the pairs whose labels have that hash.
spec fn indexed(pairs: Seq<Labelled>, by_hash: Map<u64, usize>, by_label: Map<u64, Vec<usize>>) -> bool {
    &&& distinct(pairs)
    &&& forall|h: u64| #[trigger]
        by_hash.contains_key(h) ==> by_hash[h] < pairs.len() && pairs[by_hash[h] as int].hash == h
    &&& forall|i: int| 0 <= i < pairs.len() ==> by_hash.contains_key((#[trigger] pairs[i]).hash)
    &&& forall|k: u64, j: int|
        by_label.contains_key(k) && 0 <= j < by_label[k]@.len() ==> (#[trigger] by_label[k]@[j])
            < pairs.len() && hash40(pairs[by_label[k]@[j] as int].label@) == k
    &&& forall|i: int| 0 <= i < pairs.len() ==> #[trigger] filed(pairs, by_label, i)
}

/// The dictionary of labels. Its value is the map from each hash to the
/// label it carries.
pub struct LabelDictionary {
    pairs: Vec<Labelled>,
    by_hash: HashMap<u64, usize>,
    by_label: HashMap<u64, Vec<usize>>,
}

impl View for LabelDictionary {
    type V = Map<u64, Seq<char>>;

    closed spec fn view(&self) -> Map<u64, Seq<char>> {
        map_of(self.pairs@)
    }
}

impl LabelDictionary {
    #[verifier::type_invariant]
    spec fn pairs_indexed(self) -> bool {
        indexed(self.pairs@, self.by_hash@, self.by_label@)
    }

    /// A dictionary without labels.
    pub fn new() -> (dictionary: Self)
        ensures
            dictionary@ == Map::<u64, Seq<char>>::empty(),
            labels_wf(dictionary@),
    {
        let dictionary = LabelDictionary {
            pairs: Vec::new(),
            by_hash: HashMap::new(),
            by_label: HashMap::new(),
        };
        assert(dictionary@ =~= Map::<u64, Seq<char>>::empty());
        dictionary
    }

    /// Shows that the dictionary is well formed, as every dictionary is.
    /// Nothing happens when it runs.
    pub fn well_formed(&self)
        ensures
            labels_wf(self@),
    {
        proof {
            use_type_invariant(self);
            lemma_map_of(self.pairs@);
        }
    }

    /// Where the pair of `hash` stands.
    fn position_of_hash(&self, hash: u64) -> (at: Option<usize>)
        ensures
            labels_wf(self@),
            at is Some == self@.dom().contains(hash),
            at is Some ==> at->Some_0 < self.pairs@.len() && self.pairs@[at->Some_0 as int].hash
                == hash && self.pairs@[at->Some_0 as int].label@ == self@[hash],
    {
        proof {
            use_type_invariant(self);
            lemma_map_of(self.pairs@);
        }
        match self.by_hash.get(&hash) {
            Some(at) => Some(*at),
            None => {
                assert forall|i: int| 0 <= i < self.pairs@.len() implies (
                #[trigger] self.pairs@[i]).hash != hash by {
                    assert(self.by_hash@.contains_key(self.pairs@[i].hash));
                }
                None
            },
        }
    }

    /// Where the pair of `label` stands.
    fn position_of_label(&self, label: &String) -> (at: Option<usize>)
        ensures
            labels_wf(self@),
            at is Some == has_label(self@, label@),
            at is Some ==> at->Some_0 < self.pairs@.len() && self.pairs@[at->Some_0 as int].label@
                == label@ && owner_of(self@, label@) == Some(
                self.pairs@[at->Some_0 as int].hash,
            ),
    {
        proof {
            use_type_invariant(self);
            lemma_map_of(self.pairs@);
        }
        let key: u64 = hash(label.as_str());
        match self.by_label.get(&key) {
            None => {
                proof {
                    if has_label(self@, label@) {
                        let h = choose|h: u64|
                            self@.dom().contains(h) && #[trigger] self@[h] == label@;
                        let k = index_of(self.pairs@, h);
                        assert(filed(self.pairs@, self.by_label@, k));
                    }
                }
                None
            },
            Some(bucket) => {
                let mut j: usize = 0;
                while j < bucket.len()
                    invariant
                        j <= bucket.len(),
                        labels_wf(self@),
                        self.by_label@.contains_key(key),
                        self.by_label@[key] == *bucket,
                        indexed(self.pairs@, self.by_hash@, self.by_label@),
                        forall|i: int|
                            0 <= i < self.pairs@.len() ==> self@.dom().contains(
                                (#[trigger] self.pairs@[i]).hash,
                            ) && self@[self.pairs@[i].hash] == self.pairs@[i].label@,
                        forall|i: int|
                            0 <= i < j ==> self.pairs@[(#[trigger] bucket@[i]) as int].label@
                                != label@,
                    decreases bucket.len() - j,
                {
                    let at: usize = bucket[j];
                    assert(self.by_label@[key]@[j as int] == at);
                    if self.pairs[at].label == *label {
                        proof {
                            lemma_owner_of(self@, self.pairs@[at as int].hash);
                        }
                        return Some(at);
                    }
                    j = j + 1;
                }
                proof {
                    if has_label(self@, label@) {
                        let h = choose|h: u64|
                            self@.dom().contains(h) && #[trigger] self@[h] == label@;
                        let k = index_of(self.pairs@, h);
                        assert(filed(self.pairs@, self.by_label@, k));
                        let i = choose|i: int|
                            0 <= i < self.by_label@[key]@.len() && #[trigger] self.by_label@[key]@[i]
                                == k;
                        assert(self.pairs@[bucket@[i] as int].label@ != label@);
                    }
                }
                None
            },
        }
    }

    /// The label of an identifier, if the dictionary has one for it.
    pub fn lookup(&self, id: HashedIdentifier) -> (label: Option<String>)
        ensures
            labels_wf(self@),
            label is Some == self@.dom().contains(id@),
            label is Some ==> label->Some_0@ == self@[id@],
    {
        match self.position_of_hash(id.value()) {
            Some(at) => Some(self.pairs[at].label.clone()),
            None => None,
        }
    }

    /// The identifier that a label was loaded for, if it was loaded: the hash
    /// of its pair, whatever the hash of its text.
    pub fn reverse_lookup(&self, label: &str) -> (id: Option<HashedIdentifier>)
        ensures
            labels_wf(self@),
            id is Some == has_label(self@, label@),
            id is Some ==> owner_of(self@, label@) == Some(id->Some_0@),
            id is Some ==> self@.dom().contains(id->Some_0@) && self@[id->Some_0@] == label@,
    {
        let wanted: String = label.to_owned();
        match self.position_of_label(&wanted) {
            Some(at) => {
                proof {
                    use_type_invariant(self);
                    lemma_map_of(self.pairs@);
                }
                Some(HashedIdentifier::new(self.pairs[at].hash))
            },
            None => None,
        }
    }

    /// Offers a pair whose hash is known to be a 40-bit value.
    fn offer(&mut self, hash: u64, label: String) -> (added: bool)
        requires
            hash < HASH_LIMIT,
        ensures
            final(self)@ == with_pair(old(self)@, hash, label@),
            added == accepts(old(self)@, hash, label@),
            labels_wf(final(self)@),
    {
        proof {
            use_type_invariant(&*self);
            lemma_map_of(self.pairs@);
        }
        if parse_raw_literal(label.as_str()).is_some() {
            return false;
        }
        if self.position_of_hash(hash).is_some() {
            return false;
        }
        if self.position_of_label(&label).is_some() {
            return false;
        }
        let ghost before = self.pairs@;
        let ghost text = label@;
        proof {
            let after = before.push(Labelled { hash, label });
            assert forall|i: int, j: int| 0 <= i < j < after.len() implies (#[trigger] after[i]).hash
                != (#[trigger] after[j]).hash && after[i].label@ != after[j].label@ by {
                if j == before.len() {
                    assert(after[i] == before[i]);
                    assert(map_of(before).dom().contains(before[i].hash));
                    if before[i].label@ == text {
                        assert(has_label(map_of(before), text));
                    }
                } else {
                    assert(after[i] == before[i]);
                    assert(after[j] == before[j]);
                }
            }
            assert(distinct(after));
            lemma_map_of(after);
            assert(map_of(after) =~= map_of(before).insert(hash, text)) by {
                assert forall|h: u64| map_of(after).dom().contains(h) == map_of(
                    before,
                ).insert(hash, text).dom().contains(h) by {
                    if map_of(after).dom().contains(h) {
                        let k = index_of(after, h);
                        if k < before.len() {
                            assert(after[k] == before[k]);
                        }
                    }
                    if map_of(before).dom().contains(h) {
                        let k = index_of(before, h);
                        assert(after[k] == before[k]);
                    }
                    if h == hash {
                        assert(after[before.len() as int].hash == hash);
                    }
                }
                assert forall|h: u64| map_of(after).dom().contains(h) implies map_of(after)[h]
                    == map_of(before).insert(hash, text)[h] by {
                    let k = index_of(after, h);
                    if k < before.len() {
                        assert(after[k] == before[k]);
                    }
                }
            }
        }
        let key: u64 = crate::hash::hash(label.as_str());
        let mut taken = LabelDictionary::new();
        std::mem::swap(self, &mut taken);
        let mut pairs = taken.pairs;
        let mut by_hash = taken.by_hash;
        let mut by_label = taken.by_label;
        let ghost old_by_hash = by_hash@;
        let ghost old_by_label = by_label@;
        let at: usize = pairs.len();
        pairs.push(Labelled { hash, label });
        by_hash.insert(hash, at);
        let mut bucket: Vec<usize> = match by_label.remove(&key) {
            Some(bucket) => bucket,
            None => Vec::new(),
        };
        let ghost old_bucket = bucket@;
        bucket.push(at);
        by_label.insert(key, bucket);
        proof {
            let after = pairs@;
            assert(after == before.push(after[at as int]));
            assert(indexed(before, old_by_hash, old_by_label));
            assert forall|i: int| 0 <= i < before.len() implies after[i] == before[i] by {}
            assert forall|h: u64| #[trigger] by_hash@.contains_key(h) implies by_hash@[h]
                < after.len() && after[by_hash@[h] as int].hash == h by {
                if h != hash {
                    assert(old_by_hash.contains_key(h));
                }
            }
            assert forall|i: int| 0 <= i < after.len() implies by_hash@.contains_key(
                (#[trigger] after[i]).hash,
            ) by {
                if i < before.len() {
                    assert(old_by_hash.contains_key(before[i].hash));
                }
            }
            assert forall|k: u64, j: int|
                by_label@.contains_key(k) && 0 <= j < by_label@[k]@.len() implies (
            #[trigger] by_label@[k]@[j]) < after.len() && hash40(
                after[by_label@[k]@[j] as int].label@,
            ) == k by {
                if k == key {
                    if j < old_bucket.len() {
                        assert(old_by_label.contains_key(key));
                        assert(old_by_label[key]@[j] == old_bucket[j]);
                    }
                } else {
                    assert(old_by_label.contains_key(k));
                    assert(old_by_label[k]@[j] == by_label@[k]@[j]);
                }
            }
            assert forall|i: int| 0 <= i < after.len() implies #[trigger] filed(
                after,
                by_label@,
                i,
            ) by {
                if i < before.len() {
                    assert(filed(before, old_by_label, i));
                    let k = hash40(before[i].label@);
                    let j = choose|j: int|
                        0 <= j < old_by_label[k]@.len() && #[trigger] old_by_label[k]@[j] == i;
                    if k == key {
                        assert(by_label@[key]@[j] == i);
                    } else {
                        assert(by_label@[k]@[j] == i);
                    }
                } else {
                    assert(by_label@[key]@[old_bucket.len() as int] == at);
                }
            }
        }
        *self = LabelDictionary { pairs, by_hash, by_label };
        true
    }

    /// Loads a label source: offers its pairs in the order of its lines. A
    /// source that cannot be read as pairs is refused as a whole and leaves
    /// the dictionary as it was.
    pub fn load(&mut self, source: &str) -> (result: Result<(), LoadError>)
        ensures
            labels_wf(final(self)@),
            match result {
                Ok(_) => parse_source(source@) is Ok && final(self)@ == with_pairs(
                    old(self)@,
                    parse_source(source@)->Ok_0,
                ),
                Err(e) => parse_source(source@) == Err::<Seq<(u64, Seq<char>)>, LoadError>(e)
                    && final(self)@ == old(self)@,
            },
    {
        proof {
            use_type_invariant(&*self);
            lemma_map_of(self.pairs@);
        }
        let pairs = match read_source(source) {
            Err(e) => {
                return Err(e);
            },
            Ok(pairs) => pairs,
        };
        let ghost all = pair_values(pairs@);
        let mut i: usize = 0;
        assert(all.skip(0) =~= all);
        while i < pairs.len()
            invariant
                i <= pairs.len(),
                all == pair_values(pairs@),
                labels_wf(self@),
                forall|j: int| 0 <= j < pairs@.len() ==> (#[trigger] pairs@[j]).hash < HASH_LIMIT,
                with_pairs(old(self)@, all) == with_pairs(self@, all.skip(i as int)),
            decreases pairs.len() - i,
        {
            let ghost before = self@;
            let hash: u64 = pairs[i].hash;
            let label: String = pairs[i].label.clone();
            proof {
                let rest = all.skip(i as int);
                assert(rest[0] == (hash, label@));
                assert(rest.drop_first() =~= all.skip(i + 1));
            }
            self.offer(hash, label);
            i = i + 1;
        }
        assert(all.skip(pairs.len() as int) =~= Seq::<(u64, Seq<char>)>::empty());
        Ok(())
    }

    /// Offers a pair to the dictionary and tells whether it was taken. It is
    /// taken unless the identifier already has a label, the label already
    /// stands for an identifier, or the label has the form of a raw literal.
    pub fn insert(&mut self, id: HashedIdentifier, label: String) -> (added: bool)
        ensures
            final(self)@ == with_pair(old(self)@, id@, label@),
            added == accepts(old(self)@, id@, label@),
            labels_wf(final(self)@),
    {
        self.offer(id.value(), label)
    }
}

} // verus!
