//! The two conversions: from a blob to its text, and from a text to its blob.

use vstd::prelude::*;
use crate::binary::{decode, decode_spec, encode, encode_spec, DecodeError};
use crate::labels::LabelDictionary;
use crate::model::MotionListView;
use crate::text::{checked_text_of, from_text, read_text, to_text_checked, ParseError};

verus! {

/// Why a conversion failed.
#[derive(Clone, Copy, Debug, PartialEq, Eq)]
pub enum ConvertError {
    /// The bytes are no blob.
    Decode(DecodeError),
    /// The text is no motion list.
    Parse(ParseError),
    /// The YAML encoder made no text of the document, or the text did not
    /// read back as the document.
    Emit,
}

/// Turns a blob into its text: decodes it and writes the list under the
/// dictionary. Bytes that are no blob are refused with the error of the
/// decoder. The text is read back before it is handed out, so a text that
/// comes back stands for the list of the blob, and `assemble` makes the blob
/// of it again under the same dictionary.
pub fn disassemble(bytes: &[u8], dictionary: &LabelDictionary) -> (result: Result<
    String,
    ConvertError,
>)
    ensures
        match result {
            Ok(text) => decode_spec(bytes@) is Ok && checked_text_of(
                dictionary@,
                decode_spec(bytes@)->Ok_0,
            ) == Some(text@) && read_text(dictionary@, text@) == Ok::<MotionListView, ParseError>(
                decode_spec(bytes@)->Ok_0,
            ) && encode_spec(read_text(dictionary@, text@)->Ok_0) == bytes@,
            Err(ConvertError::Decode(e)) => decode_spec(bytes@) == Err::<MotionListView, DecodeError>(
                e,
            ),
            Err(ConvertError::Emit) => decode_spec(bytes@) is Ok && checked_text_of(
                dictionary@,
                decode_spec(bytes@)->Ok_0,
            ) is None,
            Err(ConvertError::Parse(_)) => false,
        },
{
    match decode(bytes) {
        Err(e) => Err(ConvertError::Decode(e)),
        Ok(list) => match to_text_checked(&list, dictionary) {
            Some(text) => Ok(text),
            None => Err(ConvertError::Emit),
        },
    }
}

/// Turns a text into its blob: reads the list under the dictionary and
/// encodes it. A text that is no motion list is refused with the error of
/// the reader; every text that is one gives a blob, and the blob decodes to
/// the list that the text stands for.
pub fn assemble(text: &str, dictionary: &LabelDictionary) -> (result: Result<Vec<u8>, ConvertError>)
    ensures
        match result {
            Ok(bytes) => read_text(dictionary@, text@) is Ok && bytes@ == encode_spec(
                read_text(dictionary@, text@)->Ok_0,
            ) && decode_spec(bytes@) == Ok::<MotionListView, DecodeError>(
                read_text(dictionary@, text@)->Ok_0,
            ),
            Err(ConvertError::Parse(e)) => read_text(dictionary@, text@) == Err::<
                MotionListView,
                ParseError,
            >(e),
            Err(_) => false,
        },
{
    match from_text(text, dictionary) {
        Err(e) => Err(ConvertError::Parse(e)),
        Ok(list) => Ok(encode(&list)),
    }
}

} // verus!
