//! The kinds of segment, and the failure of a scan.

use vstd::prelude::*;
use vstd::std_specs::convert::FromSpecImpl;

verus! {

/// The kind of a segment of a document.
#[derive(Debug, Clone, Copy, PartialEq, Eq)]
pub enum Token {
    Script,
    Style,
    Template,
}

impl Token {
    /// The small integer that stands for the kind where a segment leaves the
    /// library: 1 for a script, 2 for a style, 3 for a template.
    pub open spec fn ordinal(self) -> u8 {
        match self {
            Token::Script => 1,
            Token::Style => 2,
            Token::Template => 3,
        }
    }

    /// The kind's name, as a sequence of characters.
    pub open spec fn name_of(self) -> Seq<char> {
        match self {
            Token::Script => "Script"@,
            Token::Style => "Style"@,
            Token::Template => "Template"@,
        }
    }

    /// The kind's name.
    pub fn name(&self) -> (s: &'static str)
        ensures
            s@ == self.name_of(),
    {
        match self {
            Token::Script => "Script",
            Token::Style => "Style",
            Token::Template => "Template",
        }
    }
}

impl From<Token> for u8 {
    fn from(token: Token) -> (n: u8) {
        match token {
            Token::Script => 1,
            Token::Style => 2,
            Token::Template => 3,
        }
    }
}

impl FromSpecImpl<Token> for u8 {
    open spec fn obeys_from_spec() -> bool {
        true
    }

    open spec fn from_spec(v: Token) -> u8 {
        v.ordinal()
    }
}

/// Why a document cannot be split into segments.
#[derive(Debug, Clone, Copy, PartialEq, Eq)]
pub enum LexError {
    /// The document opens a block of this kind and closes it nowhere.
    UnclosedTag(Token),
}

impl LexError {
    /// The text of the failure, as a sequence of characters.
    pub open spec fn message_of(self) -> Seq<char> {
        match self {
            LexError::UnclosedTag(Token::Script) => "Unclosed <script> tag"@,
            LexError::UnclosedTag(Token::Style) => "Unclosed <style> tag"@,
            LexError::UnclosedTag(Token::Template) => "Unclosed <template> tag"@,
        }
    }

    /// The text of the failure.
    pub fn message(&self) -> (s: &'static str)
        ensures
            s@ == self.message_of(),
    {
        match self {
            LexError::UnclosedTag(Token::Script) => "Unclosed <script> tag",
            LexError::UnclosedTag(Token::Style) => "Unclosed <style> tag",
            LexError::UnclosedTag(Token::Template) => "Unclosed <template> tag",
        }
    }
}

} // verus!
