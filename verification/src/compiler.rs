//! The compile pipeline: three stages in a row. Each stage hands its input
//! on unchanged; they mark the places where parsing and transformation will
//! stand.

use vstd::prelude::*;
use crate::lexer::{SCRIPT_CLOSE, SCRIPT_OPEN, STYLE_CLOSE, STYLE_OPEN};
use crate::text::has_match;

verus! {

/// What the first stage makes of a document.
pub open spec fn tokenized(input: Seq<char>) -> Seq<char> {
    input
}

/// What the second stage makes of the first stage's result.
pub open spec fn parsed(tokens: Seq<char>) -> Seq<char> {
    tokens
}

/// What the third stage makes of the second stage's result.
pub open spec fn transformed(ast: Seq<char>) -> Seq<char> {
    ast
}

/// What the pipeline makes of a document: the three stages, one after the
/// other.
pub open spec fn compiled(input: Seq<char>) -> Seq<char> {
    transformed(parsed(tokenized(input)))
}

/// A style or script tag, open or close, stands somewhere in `doc`.
pub open spec fn has_tag(doc: Seq<char>) -> bool {
    ||| has_match(doc, STYLE_OPEN@)
    ||| has_match(doc, STYLE_CLOSE@)
    ||| has_match(doc, SCRIPT_OPEN@)
    ||| has_match(doc, SCRIPT_CLOSE@)
}

/// The pipeline.
pub struct Compiler;

impl Compiler {
    /// Runs a document through the three stages. A document without any
    /// style or script tag comes out exactly as it went in.
    pub fn compile(&self, input_string: &str) -> (out: String)
        ensures
            out@ == compiled(input_string@),
            !has_tag(input_string@) ==> out@ == input_string@,
    {
        let tokens = self.tokenize(input_string);
        let ast = self.parse(tokens);
        let transformed = self.transform(ast);
        transformed.to_owned()
    }

    fn tokenize<'a>(&self, input_string: &'a str) -> (tokens: &'a str)
        ensures
            tokens@ == tokenized(input_string@),
    {
        input_string
    }

    fn parse<'a>(&self, tokens: &'a str) -> (ast: &'a str)
        ensures
            ast@ == parsed(tokens@),
    {
        tokens
    }

    fn transform<'a>(&self, ast: &'a str) -> (out: &'a str)
        ensures
            out@ == transformed(ast@),
    {
        ast
    }
}

/// A document without any style or script tag comes out of the pipeline
/// exactly as it went in.
pub proof fn lemma_plain_document_passes_through(doc: Seq<char>)
    requires
        !has_tag(doc),
    ensures
        compiled(doc) == doc,
{
}

} // verus!
