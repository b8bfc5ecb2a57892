//! Documents: the trees of scalars, sequences and mappings that the text
//! form is made of, and their YAML markup, which `serde_yaml` reads and
//! writes.

use vstd::prelude::*;
use serde_yaml::Value;

verus! {

/// A document.
#[derive(Debug, PartialEq)]
pub enum Node {
    /// The null scalar.
    Null,
    /// A truth value.
    Bool(bool),
    /// An integer that is not negative.
    Int(u64),
    /// Any other number, as its text.
    Number(String),
    /// A string.
    Text(String),
    /// A sequence.
    Sequence(Vec<Node>),
    /// A mapping, as its pairs of key and content in order.
    Mapping(Vec<(Node, Node)>),
    /// A document under a tag.
    Tagged(String, Box<Node>),
}

/// A document as a mathematical value.
pub enum Tree {
    Null,
    Bool(bool),
    Int(u64),
    Number(Seq<char>),
    Text(Seq<char>),
    Sequence(Seq<Tree>),
    Mapping(Seq<(Tree, Tree)>),
    Tagged(Seq<char>, Box<Tree>),
}

/// The mathematical value of a document.
pub open spec fn tree_of(node: Node) -> Tree
    decreases node,
{
    match node {
        Node::Null => Tree::Null,
        Node::Bool(b) => Tree::Bool(b),
        Node::Int(n) => Tree::Int(n),
        Node::Number(text) => Tree::Number(text@),
        Node::Text(text) => Tree::Text(text@),
        Node::Sequence(items) => Tree::Sequence(
            Seq::new(
                items@.len(),
                |i: int|
                    if 0 <= i < items@.len() {
                        tree_of(items@[i])
                    } else {
                        Tree::Null
                    },
            ),
        ),
        Node::Mapping(pairs) => Tree::Mapping(
            Seq::new(
                pairs@.len(),
                |i: int|
                    if 0 <= i < pairs@.len() {
                        (tree_of(pairs@[i].0), tree_of(pairs@[i].1))
                    } else {
                        (Tree::Null, Tree::Null)
                    },
            ),
        ),
        Node::Tagged(tag, inner) => Tree::Tagged(tag@, Box::new(tree_of(*inner))),
    }
}

impl View for Node {
    type V = Tree;

    open spec fn view(&self) -> Tree {
        tree_of(*self)
    }
}

/// The mathematical values of a sequence of documents.
pub open spec fn item_trees(items: Seq<Node>) -> Seq<Tree> {
    Seq::new(items.len(), |i: int| tree_of(items[i]))
}

/// The mathematical values of the pairs of a mapping.
pub open spec fn pair_trees(pairs: Seq<(Node, Node)>) -> Seq<(Tree, Tree)> {
    Seq::new(pairs.len(), |i: int| (tree_of(pairs[i].0), tree_of(pairs[i].1)))
}

/// The value of a sequence is the sequence of the values of its items.
pub proof fn lemma_sequence_tree(items: Vec<Node>)
    ensures
        tree_of(Node::Sequence(items)) == Tree::Sequence(item_trees(items@)),
{
    assert(tree_of(Node::Sequence(items))->Sequence_0 =~= item_trees(items@));
}

/// The value of a mapping is the sequence of the values of its pairs.
pub proof fn lemma_mapping_tree(pairs: Vec<(Node, Node)>)
    ensures
        tree_of(Node::Mapping(pairs)) == Tree::Mapping(pair_trees(pairs@)),
{
    assert(tree_of(Node::Mapping(pairs))->Mapping_0 =~= pair_trees(pairs@));
}

/// Whether the keys of a mapping are strings of which no two are equal.
pub open spec fn keys_distinct(pairs: Seq<(Tree, Tree)>) -> bool {
    &&& forall|i: int| 0 <= i < pairs.len() ==> (#[trigger] pairs[i]).0 is Text
    &&& forall|i: int, j: int|
        0 <= i < j < pairs.len() ==> (#[trigger] pairs[i]).0 != (#[trigger] pairs[j]).0
}

/// Whether a document is one that this crate writes: made of truth values,
/// integers that are not negative, strings, sequences, and mappings whose
/// keys are distinct strings.
pub open spec fn emittable(tree: Tree) -> bool
    decreases tree,
{
    match tree {
        Tree::Bool(_) => true,
        Tree::Int(_) => true,
        Tree::Text(_) => true,
        Tree::Sequence(items) => forall|i: int| 0 <= i < items.len() ==> emittable(#[trigger] items[i]),
        Tree::Mapping(pairs) => keys_distinct(pairs) && forall|i: int|
            0 <= i < pairs.len() ==> emittable((#[trigger] pairs[i]).1),
        _ => false,
    }
}

/// `serde_yaml::Value`, of which nothing is known here but the document it
/// holds.
#[verifier::external_type_specification]
#[verifier::external_body]
pub struct ExValue(Value);

/// `serde_yaml::Error`, which is only passed on.
#[verifier::external_type_specification]
#[verifier::external_body]
pub struct ExError(serde_yaml::Error);

/// The document that a `serde_yaml::Value` holds: variant for variant, with
/// a mapping as its pairs in order of insertion, a number that `as_u64` does
/// not give as the text that `Number` displays, and a tag as the text that
/// `Tag` displays.
pub uninterp spec fn yaml_tree(value: Value) -> Tree;

/// What `serde_yaml::to_string` makes of the value of a document that this
/// crate writes: the text it returns, or nothing where it returns an error.
/// The call writes into memory and looks at the value alone, so equal
/// documents always fare alike.
pub uninterp spec fn yaml_text(tree: Tree) -> Option<Seq<char>>;

/// The document that `serde_yaml::from_str` reads from a text as a `Value`,
/// or nothing where it refuses the text.
pub uninterp spec fn yaml_parse(text: Seq<char>) -> Option<Tree>;

/// Builds the `serde_yaml::Value` of a document that this crate writes,
/// variant for variant; the variants of the last arm do not occur in such a
/// document. Trusted: the value holds the document. `Mapping` keeps one pair
/// for a key, so the keys of every mapping have to be distinct.
#[verifier::external_body]
pub(crate) fn value_of_node(node: &Node) -> (value: Value)
    requires
        emittable(node@),
    ensures
        yaml_tree(value) == node@,
{
    match node {
        Node::Bool(b) => Value::Bool(*b),
        Node::Int(n) => Value::Number((*n).into()),
        Node::Text(text) => Value::String(text.clone()),
        Node::Sequence(items) => Value::Sequence(items.iter().map(value_of_node).collect()),
        Node::Mapping(pairs) => Value::Mapping(
            pairs.iter().map(|p| (value_of_node(&p.0), value_of_node(&p.1))).collect(),
        ),
        _ => Value::Null,
    }
}

/// Takes the document out of a `serde_yaml::Value`, variant for variant.
/// Trusted: the result is the document that the value holds.
#[verifier::external_body]
pub(crate) fn node_of_value(value: &Value) -> (node: Node)
    ensures
        node@ == yaml_tree(*value),
{
    match value {
        Value::Null => Node::Null,
        Value::Bool(b) => Node::Bool(*b),
        Value::Number(n) => n.as_u64().map_or_else(|| Node::Number(n.to_string()), Node::Int),
        Value::String(text) => Node::Text(text.clone()),
        Value::Sequence(items) => Node::Sequence(items.iter().map(node_of_value).collect()),
        Value::Mapping(pairs) => Node::Mapping(
            pairs.iter().map(|p| (node_of_value(p.0), node_of_value(p.1))).collect(),
        ),
        Value::Tagged(t) => Node::Tagged(t.tag.to_string(), Box::new(node_of_value(&t.value))),
    }
}

/// Calls `serde_yaml::to_string` on a value. Trusted: what comes back
/// depends on the document in the value alone, a text for the documents
/// that the crate writes out and an error for the others. Nothing is claimed
/// about which documents those are.
#[verifier::external_body]
pub(crate) fn emit_value(value: &Value) -> (result: Result<String, serde_yaml::Error>)
    requires
        emittable(yaml_tree(*value)),
    ensures
        match result {
            Ok(text) => yaml_text(yaml_tree(*value)) == Some(text@),
            Err(_) => yaml_text(yaml_tree(*value)) is None,
        },
{
    serde_yaml::to_string(value)
}

/// Calls `serde_yaml::from_str` for a `Value`. Trusted: what comes back
/// depends on the text alone, a value for the texts that the crate accepts
/// and an error for the others.
#[verifier::external_body]
pub(crate) fn parse_value(text: &str) -> (result: Result<Value, serde_yaml::Error>)
    ensures
        match result {
            Ok(value) => yaml_parse(text@) == Some(yaml_tree(value)),
            Err(_) => yaml_parse(text@) is None,
        },
{
    serde_yaml::from_str::<Value>(text)
}

/// Reads a YAML text as a document, or returns nothing where the text is no
/// YAML document.
pub fn parse_document(text: &str) -> (document: Option<Node>)
    ensures
        match document {
            Some(node) => yaml_parse(text@) == Some(node@),
            None => yaml_parse(text@) is None,
        },
{
    match parse_value(text) {
        Ok(value) => Some(node_of_value(&value)),
        Err(_) => None,
    }
}

/// Writes a document as YAML text: the text that the YAML encoder makes of
/// the document, or nothing where the encoder returns an error. Which of
/// the two it is depends on the document alone.
pub fn render_document(document: &Node) -> (text: Option<String>)
    requires
        emittable(document@),
    ensures
        match text {
            Some(t) => yaml_text(document@) == Some(t@),
            None => yaml_text(document@) is None,
        },
{
    let value = value_of_node(document);
    match emit_value(&value) {
        Ok(t) => Some(t),
        Err(_) => None,
    }
}

/// Tells whether two documents are the same document.
pub fn same_document(a: &Node, b: &Node) -> (same: bool)
    ensures
        same == (a@ == b@),
    decreases a,
{
    match a {
        Node::Null => match b {
            Node::Null => true,
            _ => false,
        },
        Node::Bool(x) => match b {
            Node::Bool(y) => *x == *y,
            _ => false,
        },
        Node::Int(x) => match b {
            Node::Int(y) => *x == *y,
            _ => false,
        },
        Node::Number(x) => match b {
            Node::Number(y) => *x == *y,
            _ => false,
        },
        Node::Text(x) => match b {
            Node::Text(y) => *x == *y,
            _ => false,
        },
        Node::Tagged(s, x) => match b {
            Node::Tagged(t, y) => *s == *t && same_document(x, y),
            _ => false,
        },
        Node::Sequence(xs) => match b {
            Node::Sequence(ys) => {
                proof {
                    lemma_sequence_tree(*xs);
                    lemma_sequence_tree(*ys);
                }
                if xs.len() != ys.len() {
                    assert(item_trees(xs@).len() != item_trees(ys@).len());
                    return false;
                }
                let mut i: usize = 0;
                while i < xs.len()
                    invariant
                        i <= xs.len(),
                        xs.len() == ys.len(),
                        *a == Node::Sequence(*xs),
                        a@ == Tree::Sequence(item_trees(xs@)),
                        b@ == Tree::Sequence(item_trees(ys@)),
                        forall|j: int| 0 <= j < i ==> tree_of(xs@[j]) == tree_of(ys@[j]),
                    decreases xs.len() - i,
                {
                    if !same_document(&xs[i], &ys[i]) {
                        assert(item_trees(xs@)[i as int] != item_trees(ys@)[i as int]);
                        return false;
                    }
                    i = i + 1;
                }
                assert(item_trees(xs@) =~= item_trees(ys@));
                true
            },
            _ => false,
        },
        Node::Mapping(xs) => match b {
            Node::Mapping(ys) => {
                proof {
                    lemma_mapping_tree(*xs);
                    lemma_mapping_tree(*ys);
                }
                if xs.len() != ys.len() {
                    assert(pair_trees(xs@).len() != pair_trees(ys@).len());
                    return false;
                }
                let mut i: usize = 0;
                while i < xs.len()
                    invariant
                        i <= xs.len(),
                        xs.len() == ys.len(),
                        *a == Node::Mapping(*xs),
                        a@ == Tree::Mapping(pair_trees(xs@)),
                        b@ == Tree::Mapping(pair_trees(ys@)),
                        forall|j: int|
                            0 <= j < i ==> tree_of(xs@[j].0) == tree_of(ys@[j].0) && tree_of(
                                xs@[j].1,
                            ) == tree_of(ys@[j].1),
                    decreases xs.len() - i,
                {
                    if !same_document(&xs[i].0, &ys[i].0) || !same_document(&xs[i].1, &ys[i].1) {
                        assert(pair_trees(xs@)[i as int] != pair_trees(ys@)[i as int]);
                        return false;
                    }
                    i = i + 1;
                }
                assert(pair_trees(xs@) =~= pair_trees(ys@));
                true
            },
            _ => false,
        },
    }
}

} // verus!
