//! What holds of every scan.

use vstd::prelude::*;
use crate::lexer::{
    between, element_at, element_span, lemma_span_bounds, outcome, scan, segments, tokens_of,
    unclosed, SCRIPT_CLOSE, SCRIPT_OPEN, STYLE_CLOSE, STYLE_OPEN,
};
use crate::text::{
    first_match, found_at, has_match, lead, lemma_first_match, lemma_found_in_subrange,
    lemma_trim_keeps_matches, lemma_trimmed, lemma_trimmed_twice, trail, trim_start, trimmed,
};
use crate::token::{LexError, Token};

verus! {

/// Scanning is a function of the document: two scans of one document give
/// the same kinds and the same contents in the same order, or fail alike.
pub proof fn lemma_scan_is_deterministic(
    doc: Seq<char>,
    first: Result<Vec<(Token, String)>, LexError>,
    second: Result<Vec<(Token, String)>, LexError>,
)
    requires
        outcome(first) == tokens_of(doc),
        outcome(second) == tokens_of(doc),
    ensures
        outcome(first) == outcome(second),
        first is Ok <==> second is Ok,
        match (first, second) {
            (Ok(a), Ok(b)) => {
                &&& a@.len() == b@.len()
                &&& forall|i: int|
                    #![trigger a@[i]]
                    #![trigger b@[i]]
                    0 <= i < a@.len() ==> a@[i].0 == b@[i].0 && a@[i].1@ == b@[i].1@
            },
            _ => true,
        },
{
    match (first, second) {
        (Ok(a), Ok(b)) => {
            let x = segments(a@);
            let y = segments(b@);
            assert(x == y);
            assert forall|i: int|
                #![trigger a@[i]]
                #![trigger b@[i]]
                0 <= i < a@.len() implies a@[i].0 == b@[i].0 && a@[i].1@ == b@[i].1@ by {
                assert(x[i] == (a@[i].0, a@[i].1@));
                assert(y[i] == (b@[i].0, b@[i].1@));
            }
        },
        _ => {},
    }
}

/// No template segment is empty, and the content of a style or script
/// segment has no whitespace at either end.
pub proof fn lemma_scan_segments(rest: Seq<char>, i: int)
    requires
        0 <= i < scan(rest).len(),
    ensures
        scan(rest)[i].0 is Template ==> scan(rest)[i].1.len() > 0,
        !(scan(rest)[i].0 is Template) ==> trimmed(scan(rest)[i].1) == scan(rest)[i].1,
    decreases rest.len(),
{
    lemma_span_bounds(rest);
    if i == 0 {
        if found_at(rest, STYLE_OPEN@, 0) {
            lemma_block_is_trimmed(rest, STYLE_OPEN@, STYLE_CLOSE@);
        } else if found_at(rest, SCRIPT_OPEN@, 0) {
            lemma_block_is_trimmed(rest, SCRIPT_OPEN@, SCRIPT_CLOSE@);
        }
    } else {
        let next = rest.skip(element_span(rest));
        assert(scan(rest)[i] == scan(next)[i - 1]);
        lemma_scan_segments(next, i - 1);
    }
}

proof fn lemma_block_is_trimmed(input: Seq<char>, open: Seq<char>, close: Seq<char>)
    requires
        between(input, open, close) is Some,
    ensures
        trimmed(between(input, open, close)->0) == between(input, open, close)->0,
{
    let rest = input.skip(first_match(input, open)->0 + open.len());
    lemma_trimmed_twice(rest.take(first_match(rest, close)->0));
}

/// The content of a block holds no close tag of its kind: a block ends at
/// the first close tag after its open tag.
proof fn lemma_block_has_no_close(input: Seq<char>, open: Seq<char>, close: Seq<char>)
    requires
        between(input, open, close) is Some,
        close.len() > 0,
    ensures
        !has_match(between(input, open, close)->0, close),
{
    let rest = input.skip(first_match(input, open)->0 + open.len());
    let j = first_match(rest, close)->0;
    let inner = rest.take(j);
    lemma_first_match(rest, close);
    lemma_trimmed(inner);
    let a = lead(inner);
    let b = inner.len() - trail(trim_start(inner));
    assert forall|i: int| !found_at(trimmed(inner), close, i) by {
        lemma_found_in_subrange(inner, close, a, b, i);
        lemma_found_in_subrange(rest, close, 0, j, a + i);
        assert(inner == rest.subrange(0, j));
    }
}

/// No open tag stands in a template segment, and no style close tag in the
/// content of a style segment, nor a script close tag in that of a script
/// segment.
pub proof fn lemma_scan_contents(rest: Seq<char>, i: int)
    requires
        0 <= i < scan(rest).len(),
    ensures
        scan(rest)[i].0 is Template ==> !has_match(scan(rest)[i].1, STYLE_OPEN@) && !has_match(
            scan(rest)[i].1,
            SCRIPT_OPEN@,
        ),
        scan(rest)[i].0 is Style ==> !has_match(scan(rest)[i].1, STYLE_CLOSE@),
        scan(rest)[i].0 is Script ==> !has_match(scan(rest)[i].1, SCRIPT_CLOSE@),
    decreases rest.len(),
{
    lemma_span_bounds(rest);
    if i == 0 {
        if found_at(rest, STYLE_OPEN@, 0) {
            lemma_block_has_no_close(rest, STYLE_OPEN@, STYLE_CLOSE@);
        } else if found_at(rest, SCRIPT_OPEN@, 0) {
            lemma_block_has_no_close(rest, SCRIPT_OPEN@, SCRIPT_CLOSE@);
        } else {
            let k = element_span(rest);
            lemma_first_match(rest, STYLE_OPEN@);
            lemma_first_match(rest, SCRIPT_OPEN@);
            assert forall|p: int|
                !found_at(rest.take(k), STYLE_OPEN@, p) && !found_at(
                    rest.take(k),
                    SCRIPT_OPEN@,
                    p,
                ) by {
                lemma_found_in_subrange(rest, STYLE_OPEN@, 0, k, p);
                lemma_found_in_subrange(rest, SCRIPT_OPEN@, 0, k, p);
            }
        }
    } else {
        let next = rest.skip(element_span(rest));
        assert(scan(rest)[i] == scan(next)[i - 1]);
        lemma_scan_contents(next, i - 1);
    }
}

/// Two template segments never follow one another: what comes after a
/// template is a block.
pub proof fn lemma_no_adjacent_templates(rest: Seq<char>, i: int)
    requires
        0 <= i,
        i + 1 < scan(rest).len(),
    ensures
        !(scan(rest)[i].0 is Template && scan(rest)[i + 1].0 is Template),
    decreases rest.len(),
{
    lemma_span_bounds(rest);
    let next = rest.skip(element_span(rest));
    assert(scan(rest)[i + 1] == scan(next)[i]);
    if i == 0 {
        if scan(rest)[0].0 is Template {
            let k = element_span(rest);
            lemma_first_match(rest, STYLE_OPEN@);
            lemma_first_match(rest, SCRIPT_OPEN@);
            lemma_found_in_subrange(rest, STYLE_OPEN@, k, rest.len() as int, 0);
            lemma_found_in_subrange(rest, SCRIPT_OPEN@, k, rest.len() as int, 0);
        }
    } else {
        assert(scan(rest)[i] == scan(next)[i - 1]);
        lemma_no_adjacent_templates(next, i - 1);
    }
}

/// A document without a style or script open tag scans to one template
/// segment, its trimmed text; to none where nothing is left of it after
/// trimming.
pub proof fn lemma_scan_without_open_tags(doc: Seq<char>)
    requires
        !has_match(doc, STYLE_OPEN@),
        !has_match(doc, SCRIPT_OPEN@),
    ensures
        tokens_of(doc) == Ok::<Seq<(Token, Seq<char>)>, LexError>(
            if trimmed(doc).len() == 0 {
                Seq::empty()
            } else {
                seq![(Token::Template, trimmed(doc))]
            },
        ),
{
    let text = trimmed(doc);
    lemma_trimmed(doc);
    assert forall|i: int| !found_at(text, STYLE_OPEN@, i) && !found_at(text, SCRIPT_OPEN@, i) by {
        let a = lead(doc);
        let b = doc.len() - trail(trim_start(doc));
        lemma_found_in_subrange(doc, STYLE_OPEN@, a, b, i);
        lemma_found_in_subrange(doc, SCRIPT_OPEN@, a, b, i);
    }
    lemma_first_match(text, STYLE_OPEN@);
    lemma_first_match(text, SCRIPT_OPEN@);
    if text.len() > 0 {
        let after = text.skip(text.len() as int);
        assert(text.take(text.len() as int) =~= text);
        assert(scan(after) =~= Seq::empty());
        assert(scan(text) =~= seq![(Token::Template, text)]);
    }
}

/// How many characters of `rest` its segments take up, tags and the
/// whitespace round the content of a block included.
pub open spec fn scanned(rest: Seq<char>) -> int
    decreases rest.len(),
    via scanned_decreases
{
    if rest.len() != 0 && element_at(rest) is Some {
        element_span(rest) + scanned(rest.skip(element_span(rest)))
    } else {
        0
    }
}

#[via_fn]
proof fn scanned_decreases(rest: Seq<char>) {
    if rest.len() != 0 && element_at(rest) is Some {
        lemma_span_bounds(rest);
    }
}

/// An open tag stands at the front of `rest`, and no close tag of its kind
/// after it.
pub open spec fn unclosed_at_front(rest: Seq<char>) -> bool {
    ||| found_at(rest, STYLE_OPEN@, 0) && !has_match(
        rest.skip(STYLE_OPEN@.len() as int),
        STYLE_CLOSE@,
    )
    ||| found_at(rest, SCRIPT_OPEN@, 0) && !has_match(
        rest.skip(SCRIPT_OPEN@.len() as int),
        SCRIPT_CLOSE@,
    )
}

/// Where a text is not empty and no segment stands at its front, an open
/// tag stands there that is not closed.
proof fn lemma_stall(rest: Seq<char>)
    requires
        rest.len() != 0,
        element_at(rest) is None,
    ensures
        unclosed_at_front(rest),
{
    lemma_first_match(rest, STYLE_OPEN@);
    lemma_first_match(rest, SCRIPT_OPEN@);
    if found_at(rest, STYLE_OPEN@, 0) {
        assert(first_match(rest, STYLE_OPEN@) == Some(0int));
        lemma_first_match(rest.skip(STYLE_OPEN@.len() as int), STYLE_CLOSE@);
    } else if found_at(rest, SCRIPT_OPEN@, 0) {
        assert(first_match(rest, SCRIPT_OPEN@) == Some(0int));
        lemma_first_match(rest.skip(SCRIPT_OPEN@.len() as int), SCRIPT_CLOSE@);
    }
}

/// The segments of a text lie one after the other from its first character
/// on, and reach its end unless the scan stops before an open tag that is
/// not closed: no character before that point is left out.
pub proof fn lemma_scan_covers(rest: Seq<char>)
    ensures
        0 <= scanned(rest) <= rest.len(),
        scanned(rest) < rest.len() ==> unclosed_at_front(rest.skip(scanned(rest))),
    decreases rest.len(),
{
    if rest.len() != 0 && element_at(rest) is Some {
        lemma_span_bounds(rest);
        let next = rest.skip(element_span(rest));
        lemma_scan_covers(next);
        assert(next.skip(scanned(next)) =~= rest.skip(scanned(rest)));
    } else if rest.len() != 0 {
        assert(rest.skip(0) =~= rest);
        lemma_stall(rest);
    }
}

/// Whitespace round a document changes nothing: the document and its
/// trimmed text scan alike.
pub proof fn lemma_scan_ignores_outer_whitespace(doc: Seq<char>)
    ensures
        tokens_of(trimmed(doc)) == tokens_of(doc),
{
    lemma_trim_keeps_matches(doc, STYLE_OPEN@);
    lemma_trim_keeps_matches(doc, STYLE_CLOSE@);
    lemma_trim_keeps_matches(doc, SCRIPT_OPEN@);
    lemma_trim_keeps_matches(doc, SCRIPT_CLOSE@);
    lemma_trimmed_twice(doc);
    assert(unclosed(trimmed(doc)) == unclosed(doc));
}

} // verus!
