//! The detection gate: a quick test that tells whether a document has to go
//! through the pipeline at all.
//!
//! It looks for a wrapper tag with a regular expression. The scanner looks
//! for style and script tags, which that expression does not match: the two
//! sets of patterns are kept apart on purpose. So that no document is turned
//! away in which the scanner would find a block, the detection gate also
//! looks for the scanner's two open tags.

use vstd::prelude::*;
use regex::Regex;
use crate::lexer::{tokens_of, SCRIPT_OPEN, STYLE_OPEN};
use crate::scan_laws::lemma_scan_without_open_tags;
use crate::text::{chars_of, contains, has_match, trimmed};
use crate::token::{LexError, Token};

verus! {

/// `regex::Regex`, a compiled regular expression. Nothing of its inside is
/// known here.
#[verifier::external_type_specification]
#[verifier::external_body]
pub struct ExRegex(Regex);

/// `regex::Error`, the refusal of a pattern. Nothing of its inside is known
/// here.
#[verifier::external_type_specification]
#[verifier::external_body]
pub struct ExRegexError(regex::Error);

/// Whether the compiled expression `re` matches somewhere in `haystack`:
/// the result of `Regex::is_match`.
pub uninterp spec fn regex_finds(re: &Regex, haystack: Seq<char>) -> bool;

/// The pattern that the compiled expression `re` was made from: the result
/// of `Regex::as_str`.
pub uninterp spec fn regex_source(re: &Regex) -> Seq<char>;

/// `Regex::new` compiles a pattern, or refuses it. Nothing is claimed of
/// which patterns it accepts; the expression that it returns keeps the
/// pattern it was given.
pub assume_specification[ Regex::new ](re: &str) -> (r: Result<Regex, regex::Error>)
    ensures
        r matches Ok(compiled) ==> regex_source(&compiled) == re@,
;

/// `Regex::as_str` returns the pattern that the expression was compiled
/// from.
pub assume_specification<'a>[ Regex::as_str ](re: &'a Regex) -> (s: &'a str)
    ensures
        s@ == regex_source(re),
;

/// `Regex::is_match` tells whether the expression has a match anywhere in
/// the haystack. The answer depends on the expression and the haystack
/// alone.
pub assume_specification[ Regex::is_match ](re: &Regex, haystack: &str) -> (b: bool)
    ensures
        b == regex_finds(re, haystack@),
;

/// The wrapper tag: `<bird:NAME attrs/>`, or `<bird:NAME attrs>` with its
/// content up to the next `</bird:NAME>`.
pub const BIRD_TAG_PATTERN: &'static str = r"(?s)(?m)<bird:(\w+)([^>]*)(?:/>|>(.*?)</bird:\w+>)";

/// The detection gate, with its expression compiled once.
pub struct Gate {
    wrapper: Regex,
}

impl Gate {
    /// A wrapper tag stands somewhere in `doc`.
    pub closed spec fn finds_wrapper(&self, doc: Seq<char>) -> bool {
        regex_finds(&self.wrapper, doc)
    }

    /// `doc` is let through to the pipeline: it holds a wrapper tag, or the
    /// open tag of a style or script block.
    pub open spec fn admits(&self, doc: Seq<char>) -> bool {
        ||| self.finds_wrapper(doc)
        ||| has_match(doc, STYLE_OPEN@)
        ||| has_match(doc, SCRIPT_OPEN@)
    }

    /// The pattern of the expression that is looked for.
    pub closed spec fn pattern_of(&self) -> Seq<char> {
        regex_source(&self.wrapper)
    }

    /// A detection gate that looks for `wrapper`.
    pub fn from_regex(wrapper: Regex) -> (gate: Gate)
        ensures
            gate.pattern_of() == regex_source(&wrapper),
            forall|doc: Seq<char>| #[trigger] gate.finds_wrapper(doc) == regex_finds(&wrapper, doc),
    {
        Gate { wrapper }
    }

    /// What `new` makes of the compiled pattern, or of its refusal.
    pub fn from_compiled(compiled: Result<Regex, regex::Error>) -> (gate: Option<Gate>)
        ensures
            gate is Some <==> compiled is Ok,
            compiled matches Ok(wrapper) ==> {
                &&& gate->0.pattern_of() == regex_source(&wrapper)
                &&& forall|doc: Seq<char>| #[trigger]
                    gate->0.finds_wrapper(doc) == regex_finds(&wrapper, doc)
            },
    {
        match compiled {
            Ok(wrapper) => Some(Gate::from_regex(wrapper)),
            Err(_) => None,
        }
    }

    /// The detection gate for wrapper tags. `None` where the regular
    /// expression engine refuses the pattern.
    pub fn new() -> (gate: Option<Gate>)
        ensures
            gate matches Some(g) ==> g.pattern_of() == BIRD_TAG_PATTERN@,
    {
        Gate::from_compiled(Regex::new(BIRD_TAG_PATTERN))
    }

    /// The pattern of the expression that is looked for.
    pub fn pattern(&self) -> (s: &str)
        ensures
            s@ == self.pattern_of(),
    {
        self.wrapper.as_str()
    }

    /// Whether a wrapper tag stands somewhere in `document`.
    pub fn has_wrapper(&self, document: &str) -> (b: bool)
        ensures
            b == self.finds_wrapper(document@),
    {
        self.wrapper.is_match(document)
    }

    /// Whether `document` has to go through the pipeline.
    pub fn needs_compile(&self, document: &str) -> (b: bool)
        ensures
            b == self.admits(document@),
    {
        if self.has_wrapper(document) {
            return true;
        }
        let chars = chars_of(document);
        contains(chars.as_slice(), &STYLE_OPEN) || contains(chars.as_slice(), &SCRIPT_OPEN)
    }
}

/// The detection gate turns away no document in which the scanner finds a
/// block: a document that it does not let through scans without failure to
/// at most one segment, a template.
pub proof fn lemma_gate_misses_no_block(gate: &Gate, doc: Seq<char>)
    requires
        !gate.admits(doc),
    ensures
        tokens_of(doc) == Ok::<Seq<(Token, Seq<char>)>, LexError>(
            if trimmed(doc).len() == 0 {
                Seq::empty()
            } else {
                seq![(Token::Template, trimmed(doc))]
            },
        ),
{
    lemma_scan_without_open_tags(doc);
}

} // verus!
