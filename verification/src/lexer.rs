//! The segment scanner: splits a document into script, style and template
//! segments, in the order in which they stand in the document.

use vstd::prelude::*;
use vstd::string::StrSliceExecFns;
use crate::text::{
    chars_of, contains, find, first_match, found_at, has_match, lemma_first_match,
    lemma_found_in_subrange, starts_with, string_of, trim, trimmed,
};
use crate::scan_laws::lemma_scan_segments;
use crate::token::{LexError, Token};

verus! {

/// The tag that opens a style block.
pub const STYLE_OPEN: [char; 7] = ['<', 's', 't', 'y', 'l', 'e', '>'];

/// The tag that closes a style block.
pub const STYLE_CLOSE: [char; 8] = ['<', '/', 's', 't', 'y', 'l', 'e', '>'];

/// The tag that opens a script block.
pub const SCRIPT_OPEN: [char; 8] = ['<', 's', 'c', 'r', 'i', 'p', 't', '>'];

/// The tag that closes a script block.
pub const SCRIPT_CLOSE: [char; 9] = ['<', '/', 's', 'c', 'r', 'i', 'p', 't', '>'];

/// The text between the first `open` in `input` and the first `close` after
/// it, trimmed; `None` where either is missing.
pub open spec fn between(input: Seq<char>, open: Seq<char>, close: Seq<char>) -> Option<
    Seq<char>,
> {
    match first_match(input, open) {
        Some(i) => {
            let rest = input.skip(i + open.len());
            match first_match(rest, close) {
                Some(j) => Some(trimmed(rest.take(j))),
                None => None,
            }
        },
        None => None,
    }
}

/// Where the block that `between` finds in `input` ends: the index just past
/// its close tag.
pub open spec fn block_end(input: Seq<char>, open: Seq<char>, close: Seq<char>) -> int {
    let i = first_match(input, open)->0;
    let rest = input.skip(i + open.len());
    i + open.len() + first_match(rest, close)->0 + close.len()
}

/// How many characters stand in `input` before its first style or script
/// open tag; the length of `input` where it has neither.
pub open spec fn template_end(input: Seq<char>) -> int {
    match (first_match(input, STYLE_OPEN@), first_match(input, SCRIPT_OPEN@)) {
        (Some(s), Some(c)) => if s <= c {
            s
        } else {
            c
        },
        (Some(s), None) => s,
        (None, Some(c)) => c,
        (None, None) => input.len() as int,
    }
}

/// The segment at the front of `input`, by kind and content. A block whose
/// open tag stands at the front is a segment only where its close tag
/// follows; text before the next open tag is a segment only where it is not
/// empty.
pub open spec fn element_at(input: Seq<char>) -> Option<(Token, Seq<char>)> {
    if found_at(input, STYLE_OPEN@, 0) {
        match between(input, STYLE_OPEN@, STYLE_CLOSE@) {
            Some(content) => Some((Token::Style, content)),
            None => None,
        }
    } else if found_at(input, SCRIPT_OPEN@, 0) {
        match between(input, SCRIPT_OPEN@, SCRIPT_CLOSE@) {
            Some(content) => Some((Token::Script, content)),
            None => None,
        }
    } else if template_end(input) > 0 {
        Some((Token::Template, input.take(template_end(input))))
    } else {
        None
    }
}

/// How many characters of `input` the segment at its front takes up: a block
/// with both its tags, or the text before the next open tag.
pub open spec fn element_span(input: Seq<char>) -> int {
    if found_at(input, STYLE_OPEN@, 0) {
        block_end(input, STYLE_OPEN@, STYLE_CLOSE@)
    } else if found_at(input, SCRIPT_OPEN@, 0) {
        block_end(input, SCRIPT_OPEN@, SCRIPT_CLOSE@)
    } else {
        template_end(input)
    }
}

/// The segments of `rest`, front to back. The scan ends at the end of the
/// text, or where no segment stands at the front.
pub open spec fn scan(rest: Seq<char>) -> Seq<(Token, Seq<char>)>
    decreases rest.len(),
    via scan_decreases
{
    if rest.len() == 0 {
        Seq::empty()
    } else {
        match element_at(rest) {
            Some(segment) => seq![segment] + scan(rest.skip(element_span(rest))),
            None => Seq::empty(),
        }
    }
}

#[via_fn]
proof fn scan_decreases(rest: Seq<char>) {
    if rest.len() != 0 && element_at(rest) is Some {
        lemma_span_bounds(rest);
    }
}

/// The kind of block that `doc` opens somewhere and closes nowhere; a style
/// block is reported before a script block.
pub open spec fn unclosed(doc: Seq<char>) -> Option<Token> {
    if has_match(doc, STYLE_OPEN@) && !has_match(doc, STYLE_CLOSE@) {
        Some(Token::Style)
    } else if has_match(doc, SCRIPT_OPEN@) && !has_match(doc, SCRIPT_CLOSE@) {
        Some(Token::Script)
    } else {
        None
    }
}

/// What scanning `doc` gives: the segments of the trimmed document, or the
/// failure where a block is opened and never closed.
pub open spec fn tokens_of(doc: Seq<char>) -> Result<Seq<(Token, Seq<char>)>, LexError> {
    match unclosed(doc) {
        Some(kind) => Err(LexError::UnclosedTag(kind)),
        None => Ok(scan(trimmed(doc))),
    }
}

/// Each segment's kind with the characters of its content.
pub open spec fn segments(tokens: Seq<(Token, String)>) -> Seq<(Token, Seq<char>)> {
    tokens.map_values(|t: (Token, String)| (t.0, t.1@))
}

/// What a scan came to, with each content as its characters.
pub open spec fn outcome(r: Result<Vec<(Token, String)>, LexError>) -> Result<
    Seq<(Token, Seq<char>)>,
    LexError,
> {
    match r {
        Ok(tokens) => Ok(segments(tokens@)),
        Err(e) => Err(e),
    }
}

/// The block that `between` finds lies inside `input`, with its tags where
/// `block_end` counts them.
pub proof fn lemma_block(input: Seq<char>, open: Seq<char>, close: Seq<char>)
    requires
        between(input, open, close) is Some,
    ensures
        first_match(input, open) is Some,
        first_match(input.skip(first_match(input, open)->0 + open.len()), close) is Some,
        found_at(input, open, first_match(input, open)->0),
        found_at(input, close, block_end(input, open, close) - close.len()),
        open.len() + close.len() <= block_end(input, open, close) <= input.len(),
{
    lemma_first_match(input, open);
    let i = first_match(input, open)->0;
    let rest = input.skip(i + open.len());
    lemma_first_match(rest, close);
    let j = first_match(rest, close)->0;
    lemma_found_in_subrange(input, close, i + open.len(), input.len() as int, j);
}

/// Where `input` opens with a style tag, no style close tag starts inside
/// that tag; the same holds of the script tags.
proof fn lemma_close_not_in_open(input: Seq<char>, p: int)
    ensures
        found_at(input, STYLE_OPEN@, 0) && 0 <= p < STYLE_OPEN@.len() ==> !found_at(
            input,
            STYLE_CLOSE@,
            p,
        ),
        found_at(input, SCRIPT_OPEN@, 0) && 0 <= p < SCRIPT_OPEN@.len() ==> !found_at(
            input,
            SCRIPT_CLOSE@,
            p,
        ),
{
    if found_at(input, STYLE_OPEN@, 0) && 0 <= p < STYLE_OPEN@.len() && found_at(
        input,
        STYLE_CLOSE@,
        p,
    ) {
        let head = input.subrange(0, 7);
        let at = input.subrange(p, p + 8);
        assert(at[0] == input[p] && at[1] == input[p + 1]);
        assert(head[p] == input[p]);
        assert(head[1] == input[1]);
        assert(false);
    }
    if found_at(input, SCRIPT_OPEN@, 0) && 0 <= p < SCRIPT_OPEN@.len() && found_at(
        input,
        SCRIPT_CLOSE@,
        p,
    ) {
        let head = input.subrange(0, 8);
        let at = input.subrange(p, p + 9);
        assert(at[0] == input[p] && at[1] == input[p + 1]);
        assert(head[p] == input[p]);
        assert(head[1] == input[1]);
        assert(false);
    }
}

/// A block at the front of `input` ends with the first close tag of
/// `input`: no close tag stands before the one that closes it.
pub proof fn lemma_front_block_close(input: Seq<char>)
    ensures
        found_at(input, STYLE_OPEN@, 0) && between(input, STYLE_OPEN@, STYLE_CLOSE@) is Some
            ==> first_match(input, STYLE_CLOSE@) == Some(
            block_end(input, STYLE_OPEN@, STYLE_CLOSE@) - STYLE_CLOSE@.len(),
        ),
        found_at(input, SCRIPT_OPEN@, 0) && between(input, SCRIPT_OPEN@, SCRIPT_CLOSE@) is Some
            ==> first_match(input, SCRIPT_CLOSE@) == Some(
            block_end(input, SCRIPT_OPEN@, SCRIPT_CLOSE@) - SCRIPT_CLOSE@.len(),
        ),
{
    if found_at(input, STYLE_OPEN@, 0) && between(input, STYLE_OPEN@, STYLE_CLOSE@) is Some {
        lemma_front_close(input, STYLE_OPEN@, STYLE_CLOSE@);
    }
    if found_at(input, SCRIPT_OPEN@, 0) && between(input, SCRIPT_OPEN@, SCRIPT_CLOSE@) is Some {
        lemma_front_close(input, SCRIPT_OPEN@, SCRIPT_CLOSE@);
    }
}

proof fn lemma_front_close(input: Seq<char>, open: Seq<char>, close: Seq<char>)
    requires
        (open == STYLE_OPEN@ && close == STYLE_CLOSE@) || (open == SCRIPT_OPEN@ && close
            == SCRIPT_CLOSE@),
        found_at(input, open, 0),
        between(input, open, close) is Some,
    ensures
        first_match(input, close) == Some(block_end(input, open, close) - close.len()),
{
    lemma_first_match(input, open);
    lemma_block(input, open, close);
    let rest = input.skip(open.len() as int);
    lemma_first_match(rest, close);
    let j = first_match(rest, close)->0;
    let k = open.len() + j;
    assert forall|q: int| 0 <= q < k implies !found_at(input, close, q) by {
        if q < open.len() {
            lemma_close_not_in_open(input, q);
        } else {
            lemma_found_in_subrange(
                input,
                close,
                open.len() as int,
                input.len() as int,
                q - open.len(),
            );
        }
    }
    lemma_first_match(input, close);
}

/// The segment at the front of a text takes up at least one character of it
/// and no more than all of it.
pub proof fn lemma_span_bounds(input: Seq<char>)
    requires
        element_at(input) is Some,
    ensures
        0 < element_span(input) <= input.len(),
{
    if found_at(input, STYLE_OPEN@, 0) {
        lemma_block(input, STYLE_OPEN@, STYLE_CLOSE@);
    } else if found_at(input, SCRIPT_OPEN@, 0) {
        lemma_block(input, SCRIPT_OPEN@, SCRIPT_CLOSE@);
    } else {
        lemma_first_match(input, STYLE_OPEN@);
        lemma_first_match(input, SCRIPT_OPEN@);
    }
}

/// One step of the scan: what the scanner finds at the front of the text
/// that is left.
#[derive(Debug, PartialEq, Eq)]
pub enum Element {
    Style(String),
    Script(String),
    Template(String),
    Nothing,
}

impl View for Element {
    type V = Option<(Token, Seq<char>)>;

    open spec fn view(&self) -> Option<(Token, Seq<char>)> {
        match self {
            Element::Style(content) => Some((Token::Style, content@)),
            Element::Script(content) => Some((Token::Script, content@)),
            Element::Template(content) => Some((Token::Template, content@)),
            Element::Nothing => None,
        }
    }
}

/// The trimmed text between the first `start` in `input` and the first `end`
/// after it.
pub fn extract_between(input: &[char], start: &[char], end: &[char]) -> (r: Option<String>)
    ensures
        match r {
            Some(content) => between(input@, start@, end@) == Some(content@),
            None => between(input@, start@, end@) is None,
        },
{
    match find(input, start) {
        Some(i) => {
            proof {
                lemma_first_match(input@, start@);
            }
            let end_of_input = input.len();
            let rest = &input[i + start.len()..end_of_input];
            match find(rest, end) {
                Some(j) => {
                    proof {
                        lemma_first_match(rest@, end@);
                    }
                    Some(string_of(trim(&rest[0..j])))
                },
                None => None,
            }
        },
        None => None,
    }
}

/// The trimmed content of the first script block of `input`.
pub fn extract_script(input: &[char]) -> (r: Option<String>)
    ensures
        match r {
            Some(content) => between(input@, SCRIPT_OPEN@, SCRIPT_CLOSE@) == Some(content@),
            None => between(input@, SCRIPT_OPEN@, SCRIPT_CLOSE@) is None,
        },
{
    extract_between(input, &SCRIPT_OPEN, &SCRIPT_CLOSE)
}

/// The trimmed content of the first style block of `input`.
pub fn extract_style(input: &[char]) -> (r: Option<String>)
    ensures
        match r {
            Some(content) => between(input@, STYLE_OPEN@, STYLE_CLOSE@) == Some(content@),
            None => between(input@, STYLE_OPEN@, STYLE_CLOSE@) is None,
        },
{
    extract_between(input, &STYLE_OPEN, &STYLE_CLOSE)
}

/// Splits `input` before its first style or script open tag, whichever
/// comes first; where it has neither, the second part is empty.
pub fn extract_template(input: &[char]) -> (r: (&[char], &[char]))
    ensures
        r.0@ == input@.take(template_end(input@)),
        r.1@ == input@.skip(template_end(input@)),
{
    let style_index = find(input, &STYLE_OPEN);
    let script_index = find(input, &SCRIPT_OPEN);
    proof {
        lemma_first_match(input@, STYLE_OPEN@);
        lemma_first_match(input@, SCRIPT_OPEN@);
    }
    let at = match (style_index, script_index) {
        (Some(s), Some(c)) => if s <= c {
            s
        } else {
            c
        },
        (Some(s), None) => s,
        (None, Some(c)) => c,
        (None, None) => input.len(),
    };
    input.split_at(at)
}

/// The segment at the front of `input`.
pub fn extract_next_element(input: &[char]) -> (e: Element)
    ensures
        e@ == element_at(input@),
{
    if starts_with(input, &STYLE_OPEN) {
        match extract_style(input) {
            Some(content) => Element::Style(content),
            None => Element::Nothing,
        }
    } else if starts_with(input, &SCRIPT_OPEN) {
        match extract_script(input) {
            Some(content) => Element::Script(content),
            None => Element::Nothing,
        }
    } else {
        let (template, _) = extract_template(input);
        proof {
            lemma_first_match(input@, STYLE_OPEN@);
            lemma_first_match(input@, SCRIPT_OPEN@);
        }
        if template.is_empty() {
            Element::Nothing
        } else {
            Element::Template(string_of(template))
        }
    }
}

/// Splits a document into its segments.
///
/// The document is trimmed, then read front to back: a style or script block
/// gives a segment with its trimmed content, the text before the next open
/// tag a template segment as it stands. The scan stops where an open tag at
/// the front has no close tag after it. A document that holds an open tag of
/// a kind and no close tag of that kind anywhere is refused, whatever the
/// scan found.
pub fn tokenize(input: &str) -> (r: Result<Vec<(Token, String)>, LexError>)
    ensures
        outcome(r) == tokens_of(input@),
        r is Err <==> unclosed(input@) is Some,
        r matches Ok(tokens) ==> forall|i: int|
            0 <= i < tokens@.len() && #[trigger] tokens@[i].0 is Template ==> tokens@[i].1@.len()
                > 0,
{
    let document = chars_of(input);
    let doc: &[char] = document.as_slice();
    let mut tokens: Vec<(Token, String)> = Vec::new();
    let mut remaining: &[char] = trim(doc);
    proof {
        assert(segments(tokens@) + scan(remaining@) =~= scan(trimmed(input@)));
    }
    while !remaining.is_empty()
        invariant
            segments(tokens@) + scan(remaining@) == scan(trimmed(input@)),
        ensures
            segments(tokens@) == scan(trimmed(input@)),
        decreases remaining.len(),
    {
        let ghost before = segments(tokens@);
        let ghost here = remaining@;
        proof {
            if element_at(here) is Some {
                lemma_span_bounds(here);
                lemma_front_block_close(here);
            }
        }
        let element = extract_next_element(remaining);
        match element {
            Element::Style(content) => {
                let close = find(remaining, &STYLE_CLOSE);
                proof {
                    lemma_first_match(here, STYLE_CLOSE@);
                }
                let next: usize = close.unwrap() + STYLE_CLOSE.len();
                tokens.push((Token::Style, content));
                remaining = &remaining[next..remaining.len()];
            },
            Element::Script(content) => {
                let close = find(remaining, &SCRIPT_CLOSE);
                proof {
                    lemma_first_match(here, SCRIPT_CLOSE@);
                }
                let next: usize = close.unwrap() + SCRIPT_CLOSE.len();
                tokens.push((Token::Script, content));
                remaining = &remaining[next..remaining.len()];
            },
            Element::Template(content) => {
                let content_len: usize = content.as_str().unicode_len();
                tokens.push((Token::Template, content));
                remaining = &remaining[content_len..remaining.len()];
            },
            Element::Nothing => {
                proof {
                    assert(scan(here) =~= Seq::empty());
                    assert(segments(tokens@) =~= scan(trimmed(input@)));
                }
                break ;
            },
        }
        proof {
            let segment = element_at(here)->0;
            assert(remaining@ == here.skip(element_span(here)));
            assert(segments(tokens@) =~= before.push(segment));
            assert(scan(here) == seq![segment] + scan(remaining@));
            assert(before.push(segment) + scan(remaining@) =~= before + scan(here));
        }
    }
    if contains(doc, &STYLE_OPEN) && !contains(doc, &STYLE_CLOSE) {
        return Err(LexError::UnclosedTag(Token::Style));
    }
    if contains(doc, &SCRIPT_OPEN) && !contains(doc, &SCRIPT_CLOSE) {
        return Err(LexError::UnclosedTag(Token::Script));
    }
    proof {
        assert forall|i: int|
            0 <= i < tokens@.len() && #[trigger] tokens@[i].0 is Template implies tokens@[i].1@
                .len() > 0 by {
            lemma_scan_segments(trimmed(input@), i);
            assert(segments(tokens@)[i] == (tokens@[i].0, tokens@[i].1@));
        }
    }
    Ok(tokens)
}

} // verus!
