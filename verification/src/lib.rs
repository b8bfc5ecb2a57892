//! Conversion of binary motion lists to an editable text form and back.
//!
//! A motion list is a table of animation entries that a game engine reads
//! from a blob. This crate decodes such a blob into a record model, writes
//! the model as a YAML document in which 40-bit identifiers appear under
//! their labels where a dictionary knows them, and makes the journey back
//! from text to bytes.
//!
//! - [`hash`]: the 40-bit hash of a string.
//! - [`literal`]: the raw literal under which an identifier without a label
//!   is written.
//! - [`labels`]: the dictionary of labels and the text it is loaded from.
//! - [`ident`]: identifiers, and how they are written and read under a
//!   dictionary.
//! - [`wire`]: little-endian integers.
//! - [`model`]: the record model.
//! - [`binary`]: the layout of a blob, decoding and encoding.
//! - [`document`]: YAML documents as trees.
//! - [`text`]: a motion list as a document and as text.
//! - [`convert`]: from blob to text and from text to blob.
//!
//! What the library promises is stated in the contracts of its functions
//! and proved: a blob that decodes encodes back to the same bytes, a list
//! read from the document it was written to is the same list, and an
//! identifier read from what it was written as is the same identifier.

pub mod hash;
pub mod literal;
pub mod labels;
pub mod ident;
pub mod wire;
pub mod model;
pub mod binary;
pub mod document;
pub mod text;
pub mod convert;
