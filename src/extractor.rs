//! Turning an uploaded file's bytes into document text.
use crate::documents::{base_name, split_name, normalize_extension_spec, DocumentManager};
use crate::text::{chars_of, trim_seq, trim_str};
use vstd::prelude::*;
use vstd::utf8::{decode_utf8, valid_utf8};

verus! {

/// Relies on `String::from_utf8`: the text of the bytes when they are valid
/// UTF-8, else an error.
#[verifier::external_body]
fn utf8_text(bytes: Vec<u8>) -> (r: Option<String>)
    ensures
        r is Some == valid_utf8(bytes@),
        r is Some ==> r->0@ == decode_utf8(bytes@),
{
    String::from_utf8(bytes).ok()
}

/// Why a file's text was refused.
#[derive(Clone, Copy, Debug, PartialEq, Eq, Structural)]
pub enum ExtractError {
    /// The file has no bytes.
    Empty,
    /// The file's extension is not supported.
    Unsupported,
    /// The bytes are not UTF-8.
    NotUtf8,
    /// The text is only whitespace.
    Whitespace,
}

/// Reads document text from UTF-8 files.
pub struct Utf8DocumentExtractor;

/// The outcome of extracting a file's text.
pub open spec fn extract_spec(bytes: Seq<u8>, supported: bool) -> Result<Seq<char>, ExtractError> {
    if bytes.len() == 0 {
        Err(ExtractError::Empty)
    } else if !supported {
        Err(ExtractError::Unsupported)
    } else if !valid_utf8(bytes) {
        Err(ExtractError::NotUtf8)
    } else if trim_seq(decode_utf8(bytes)).len() == 0 {
        Err(ExtractError::Whitespace)
    } else {
        Ok(decode_utf8(bytes))
    }
}

impl Utf8DocumentExtractor {
    pub fn new() -> (r: Utf8DocumentExtractor) {
        Utf8DocumentExtractor
    }

    /// The text of file `file_name` with content `bytes`: refused when empty,
    /// of an unsupported type, not UTF-8, or only whitespace.
    pub fn extract(&self, bytes: Vec<u8>, file_name: &str, manager: &DocumentManager) -> (r: Result<String, ExtractError>)
        ensures
            match r {
                Ok(s) => extract_spec(bytes@, manager.is_supported_spec(file_name@)) == Ok::<Seq<char>, ExtractError>(s@),
                Err(e) => extract_spec(bytes@, manager.is_supported_spec(file_name@)) == Err::<Seq<char>, ExtractError>(e),
            },
    {
        if bytes.len() == 0 {
            return Err(ExtractError::Empty);
        }
        if !manager.is_supported_file(file_name) {
            return Err(ExtractError::Unsupported);
        }
        let ghost b = bytes@;
        match utf8_text(bytes) {
            None => Err(ExtractError::NotUtf8),
            Some(text) => {
                let t = trim_str(text.as_str());
                let v = chars_of(t.as_str());
                if v.len() == 0 {
                    Err(ExtractError::Whitespace)
                } else {
                    Ok(text)
                }
            },
        }
    }
}

} // verus!
