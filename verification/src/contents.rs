//! From the bytes of a file to the text that is handed on: decoding by a
//! named encoding, then the detection gate, then the pipeline.

use vstd::prelude::*;
use vstd::string::StringSliceAdditionalSpecFns;
use encoding_rs::Encoding;
use crate::compiler::{compiled, has_tag, Compiler};
use crate::gate::Gate;

verus! {

/// `encoding_rs::Encoding`, one of the encodings of the Encoding Standard.
/// Nothing of its inside is known here.
#[verifier::external_type_specification]
#[verifier::external_body]
pub struct ExEncoding(Encoding);

/// The encoding that `label` names, if it names one: the result of
/// `Encoding::for_label`.
pub uninterp spec fn encoding_for(label: Seq<u8>) -> Option<&'static Encoding>;

/// The text that `bytes` decode to in `encoding`, with a byte order mark
/// sniffed and removed, and whether any malformed sequence had to be
/// replaced: the first and the third part of the result of
/// `Encoding::decode`.
pub uninterp spec fn decoded(encoding: &'static Encoding, bytes: Seq<u8>) -> (Seq<char>, bool);

/// The longest input that is handed to the decoder. The decoder sizes its
/// buffer at up to three bytes for each byte of input, rounded up to a power
/// of two, and does not return where that size does not fit a `usize`.
pub const MAX_INPUT: usize = usize::MAX / 8;

/// `Encoding::for_label` looks a label up among those of the Encoding
/// Standard. The answer depends on the label alone.
pub assume_specification[ Encoding::for_label ](label: &[u8]) -> (r: Option<&'static Encoding>)
    ensures
        r == encoding_for(label@),
;

/// `Encoding::decode` decodes a whole input, after a byte order mark has
/// been looked for and removed, and puts the replacement character in the
/// place of each malformed sequence. The text and the flag that tells of
/// such a replacement depend on the encoding and the bytes alone. The input
/// is kept short enough for the size of the decoder's buffer to fit.
#[verifier::external_body]
fn decode(encoding: &'static Encoding, bytes: &[u8]) -> (r: (String, bool))
    requires
        bytes@.len() <= MAX_INPUT,
    ensures
        (r.0@, r.1) == decoded(encoding, bytes@),
{
    let (text, _, had_errors) = encoding.decode(bytes);
    (text.into_owned(), had_errors)
}

/// Why the text of a file cannot be had.
#[derive(Debug, Clone, Copy, PartialEq, Eq)]
pub enum LoadError {
    /// There is no file at the path.
    FileNotFound,
    /// The label names no encoding.
    InvalidEncoding,
    /// The bytes are malformed in the encoding.
    DecodeError,
    /// Reading the file failed in another way.
    GenericIo,
}

impl LoadError {
    /// The text of the failure, as a sequence of characters.
    pub open spec fn message_of(self) -> Seq<char> {
        match self {
            LoadError::FileNotFound => "File not found"@,
            LoadError::InvalidEncoding => "Invalid encoding"@,
            LoadError::DecodeError => "Decoding error"@,
            LoadError::GenericIo => "I/O error"@,
        }
    }

    /// The text of the failure.
    pub fn message(&self) -> (s: &'static str)
        ensures
            s@ == self.message_of(),
    {
        match self {
            LoadError::FileNotFound => "File not found",
            LoadError::InvalidEncoding => "Invalid encoding",
            LoadError::DecodeError => "Decoding error",
            LoadError::GenericIo => "I/O error",
        }
    }
}

/// What a finished decoding comes to: its text, unless a malformed sequence
/// was met.
pub open spec fn accepted(text: Seq<char>, had_errors: bool) -> Result<Seq<char>, LoadError> {
    if had_errors {
        Err(LoadError::DecodeError)
    } else {
        Ok(text)
    }
}

/// The text of a file with these `bytes`, read in the encoding that `label`
/// names.
pub open spec fn loaded(bytes: Seq<u8>, label: Seq<u8>) -> Result<Seq<char>, LoadError> {
    match encoding_for(label) {
        Some(encoding) => accepted(decoded(encoding, bytes).0, decoded(encoding, bytes).1),
        None => Err(LoadError::InvalidEncoding),
    }
}

/// What is handed on for a decoded document: what the pipeline makes of it
/// where the detection gate lets it through, the document itself where it
/// does not.
pub open spec fn resolved(gate: &Gate, text: Seq<char>) -> Seq<char> {
    if gate.admits(text) {
        compiled(text)
    } else {
        text
    }
}

/// The characters of a text that was loaded, or the failure.
pub open spec fn text_of(r: Result<String, LoadError>) -> Result<Seq<char>, LoadError> {
    match r {
        Ok(text) => Ok(text@),
        Err(e) => Err(e),
    }
}

/// Accepts the text of a finished decoding, or refuses it where the decoder
/// met a malformed sequence.
pub fn accept_decoded(text: String, had_errors: bool) -> (r: Result<String, LoadError>)
    ensures
        text_of(r) == accepted(text@, had_errors),
{
    if had_errors {
        Err(LoadError::DecodeError)
    } else {
        Ok(text)
    }
}

/// Decodes the bytes of a file in the encoding that the label names.
pub fn load_file(bytes: &[u8], encoding: &str) -> (r: Result<String, LoadError>)
    requires
        bytes@.len() <= MAX_INPUT,
    ensures
        text_of(r) == loaded(bytes@, encoding.spec_bytes()),
{
    match Encoding::for_label(encoding.as_bytes()) {
        Some(encoding) => {
            let (text, had_errors) = decode(encoding, bytes);
            accept_decoded(text, had_errors)
        },
        None => Err(LoadError::InvalidEncoding),
    }
}

/// Hands a decoded document on: through the pipeline where the detection
/// gate lets it through, as it is where it does not.
pub fn resolve(gate: &Gate, text: String) -> (out: String)
    ensures
        out@ == resolved(gate, text@),
{
    if !gate.needs_compile(text.as_str()) {
        return text;
    }
    Compiler.compile(text.as_str())
}

/// The text of a file, from its bytes and the label of its encoding:
/// decoded, and compiled where the detection gate asks for it.
pub fn get_file_contents(gate: &Gate, bytes: &[u8], encoding: &str) -> (r: Result<
    String,
    LoadError,
>)
    requires
        bytes@.len() <= MAX_INPUT,
    ensures
        text_of(r) == match loaded(bytes@, encoding.spec_bytes()) {
            Ok(text) => Ok(resolved(gate, text)),
            Err(e) => Err(e),
        },
{
    match load_file(bytes, encoding) {
        Ok(text) => Ok(resolve(gate, text)),
        Err(e) => Err(e),
    }
}

/// A document in which neither the detection gate nor the scanner finds
/// anything is handed on exactly as it was decoded.
pub proof fn lemma_unrecognized_document_is_unchanged(gate: &Gate, text: Seq<char>)
    requires
        !gate.admits(text) || !has_tag(text),
    ensures
        resolved(gate, text) == text,
{
}

} // verus!
