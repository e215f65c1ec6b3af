//! Sequences of characters: whitespace, trimming and substring search.
//!
//! A document is modelled as a `Seq<char>`. The executable functions work on
//! `&[char]`, so that a cursor into a document is a sub-slice and every index
//! is a character index.

use vstd::prelude::*;

verus! {

/// Whether `c` has the Unicode property `White_Space`.
pub open spec fn white_space(c: char) -> bool {
    ||| '\u{9}' <= c <= '\u{d}'
    ||| c == ' '
    ||| c == '\u{85}'
    ||| c == '\u{a0}'
    ||| c == '\u{1680}'
    ||| '\u{2000}' <= c <= '\u{200a}'
    ||| c == '\u{2028}'
    ||| c == '\u{2029}'
    ||| c == '\u{202f}'
    ||| c == '\u{205f}'
    ||| c == '\u{3000}'
}

/// Every character of `s` is whitespace.
pub open spec fn all_white(s: Seq<char>) -> bool {
    forall|i: int| 0 <= i < s.len() ==> white_space(#[trigger] s[i])
}

/// `n` characters of whitespace stand at the front of `s`, and no more.
pub open spec fn is_lead(s: Seq<char>, n: int) -> bool {
    &&& 0 <= n <= s.len()
    &&& all_white(s.take(n))
    &&& n < s.len() ==> !white_space(s[n])
}

/// `n` characters of whitespace stand at the back of `s`, and no more.
pub open spec fn is_trail(s: Seq<char>, n: int) -> bool {
    &&& 0 <= n <= s.len()
    &&& all_white(s.skip(s.len() - n))
    &&& n < s.len() ==> !white_space(s[s.len() - n - 1])
}

/// The number of whitespace characters at the front of `s`.
pub open spec fn lead(s: Seq<char>) -> int {
    choose|n: int| is_lead(s, n)
}

/// The number of whitespace characters at the back of `s`.
pub open spec fn trail(s: Seq<char>) -> int {
    choose|n: int| is_trail(s, n)
}

/// `s` without the whitespace at its front.
pub open spec fn trim_start(s: Seq<char>) -> Seq<char> {
    s.skip(lead(s))
}

/// `s` without the whitespace at its back.
pub open spec fn trim_end(s: Seq<char>) -> Seq<char> {
    s.take(s.len() - trail(s))
}

/// `s` without the whitespace at either end.
pub open spec fn trimmed(s: Seq<char>) -> Seq<char> {
    trim_end(trim_start(s))
}

/// `needle` stands in `hay` at index `i`.
pub open spec fn found_at(hay: Seq<char>, needle: Seq<char>, i: int) -> bool {
    &&& 0 <= i <= hay.len() - needle.len()
    &&& hay.subrange(i, i + needle.len()) == needle
}

/// `needle` stands somewhere in `hay`.
pub open spec fn has_match(hay: Seq<char>, needle: Seq<char>) -> bool {
    exists|i: int| found_at(hay, needle, i)
}

/// `needle` stands in `hay` at index `i` and at no smaller index.
pub open spec fn is_first_match(hay: Seq<char>, needle: Seq<char>, i: int) -> bool {
    &&& found_at(hay, needle, i)
    &&& forall|j: int| 0 <= j < i ==> !found_at(hay, needle, j)
}

/// The smallest index at which `needle` stands in `hay`, if there is one.
pub open spec fn first_match(hay: Seq<char>, needle: Seq<char>) -> Option<int> {
    if has_match(hay, needle) {
        Some(choose|i: int| is_first_match(hay, needle, i))
    } else {
        None
    }
}

proof fn lemma_lead_from(s: Seq<char>, k: int)
    requires
        0 <= k <= s.len(),
        all_white(s.take(k)),
    ensures
        exists|n: int| is_lead(s, n),
    decreases s.len() - k,
{
    if k < s.len() && white_space(s[k]) {
        assert forall|i: int| 0 <= i < s.take(k + 1).len() implies white_space(
            #[trigger] s.take(k + 1)[i],
        ) by {
            if i < k {
                assert(s.take(k)[i] == s[i]);
            }
        }
        lemma_lead_from(s, k + 1);
    } else {
        assert(is_lead(s, k));
    }
}

proof fn lemma_trail_from(s: Seq<char>, k: int)
    requires
        0 <= k <= s.len(),
        all_white(s.skip(s.len() - k)),
    ensures
        exists|n: int| is_trail(s, n),
    decreases s.len() - k,
{
    if k < s.len() && white_space(s[s.len() - k - 1]) {
        let from = s.len() - k - 1;
        assert forall|i: int| 0 <= i < s.skip(from).len() implies white_space(
            #[trigger] s.skip(from)[i],
        ) by {
            if i > 0 {
                assert(s.skip(from + 1)[i - 1] == s[from + i]);
            }
        }
        lemma_trail_from(s, k + 1);
    } else {
        assert(is_trail(s, k));
    }
}

/// `lead(s)` is the one number that `is_lead` holds of.
pub proof fn lemma_lead(s: Seq<char>)
    ensures
        is_lead(s, lead(s)),
        forall|n: int| is_lead(s, n) ==> n == lead(s),
{
    lemma_lead_from(s, 0);
    let m = lead(s);
    assert forall|n: int| is_lead(s, n) implies n == m by {
        if n < m {
            assert(s.take(m)[n] == s[n]);
        } else if m < n {
            assert(s.take(n)[m] == s[m]);
        }
    }
}

/// `trail(s)` is the one number that `is_trail` holds of.
pub proof fn lemma_trail(s: Seq<char>)
    ensures
        is_trail(s, trail(s)),
        forall|n: int| is_trail(s, n) ==> n == trail(s),
{
    lemma_trail_from(s, 0);
    let m = trail(s);
    assert forall|n: int| is_trail(s, n) implies n == m by {
        if n < m {
            // the character just before the last `n` is blank by `m`, not blank by `n`
            assert(s.skip(s.len() - m)[m - n - 1] == s[s.len() - n - 1]);
        } else if m < n {
            assert(s.skip(s.len() - n)[n - m - 1] == s[s.len() - m - 1]);
        }
    }
}

/// What remains after trimming is the stretch of `s` between its leading and
/// its trailing whitespace; it neither starts nor ends with whitespace.
pub proof fn lemma_trimmed(s: Seq<char>)
    ensures
        0 <= lead(s) <= s.len(),
        0 <= trail(trim_start(s)) <= s.len() - lead(s),
        trimmed(s) == s.subrange(lead(s), s.len() - trail(trim_start(s))),
        trimmed(s).len() > 0 ==> !white_space(trimmed(s).first()) && !white_space(
            trimmed(s).last(),
        ),
        all_white(s.take(lead(s))),
        all_white(s.skip(s.len() - trail(trim_start(s)))),
{
    lemma_lead(s);
    let a = lead(s);
    let t = trim_start(s);
    lemma_trail(t);
    let n = trail(t);
    assert(trimmed(s) =~= s.subrange(a, s.len() - n));
    assert(s.skip(s.len() - n) =~= t.skip(t.len() - n));
    if trimmed(s).len() > 0 {
        assert(n < t.len());
        assert(trimmed(s).last() == t[t.len() - n - 1]);
        assert(trimmed(s).first() == s[a]);
    }
}

/// Where `needle` stands in `hay` at all, it stands at a first index.
proof fn lemma_first_match_below(hay: Seq<char>, needle: Seq<char>, k: int)
    requires
        found_at(hay, needle, k),
    ensures
        exists|i: int| is_first_match(hay, needle, i),
    decreases k,
{
    if exists|j: int| 0 <= j < k && found_at(hay, needle, j) {
        let j = choose|j: int| 0 <= j < k && found_at(hay, needle, j);
        lemma_first_match_below(hay, needle, j);
    } else {
        assert(is_first_match(hay, needle, k));
    }
}

/// `first_match` names the first index at which `needle` stands in `hay`, and
/// is `None` exactly where it stands at none.
pub proof fn lemma_first_match(hay: Seq<char>, needle: Seq<char>)
    ensures
        match first_match(hay, needle) {
            Some(i) => is_first_match(hay, needle, i),
            None => forall|i: int| !found_at(hay, needle, i),
        },
        forall|i: int| is_first_match(hay, needle, i) ==> first_match(hay, needle) == Some(i),
{
    if has_match(hay, needle) {
        let k = choose|k: int| found_at(hay, needle, k);
        lemma_first_match_below(hay, needle, k);
    }
    let m = first_match(hay, needle);
    assert forall|i: int| is_first_match(hay, needle, i) implies m == Some(i) by {
        assert(found_at(hay, needle, i));
        assert(is_first_match(hay, needle, m->0));
    }
}

/// A match in a stretch of `hay` is a match in `hay`, and the other way
/// round where the match lies inside the stretch.
pub proof fn lemma_found_in_subrange(hay: Seq<char>, needle: Seq<char>, a: int, b: int, i: int)
    requires
        0 <= a <= b <= hay.len(),
    ensures
        found_at(hay.subrange(a, b), needle, i) <==> (found_at(hay, needle, a + i) && 0 <= i && a
            + i + needle.len() <= b),
{
    let part = hay.subrange(a, b);
    if 0 <= i && a + i + needle.len() <= b {
        assert(part.subrange(i, i + needle.len()) =~= hay.subrange(a + i, a + i + needle.len()));
    }
}

/// Trimming what is trimmed changes nothing.
pub proof fn lemma_trimmed_twice(s: Seq<char>)
    ensures
        trimmed(trimmed(s)) == trimmed(s),
{
    lemma_trimmed(s);
    let t = trimmed(s);
    assert(t.take(0).len() == 0);
    assert(is_lead(t, 0));
    lemma_lead(t);
    assert(trim_start(t) =~= t);
    assert(t.skip(t.len() as int).len() == 0);
    assert(is_trail(t, 0));
    lemma_trail(t);
    assert(trim_end(t) =~= t);
}

/// A needle that neither starts nor ends with whitespace stands in a text
/// exactly where it stands in the trimmed text.
pub proof fn lemma_trim_keeps_matches(s: Seq<char>, needle: Seq<char>)
    requires
        needle.len() > 0,
        !white_space(needle.first()),
        !white_space(needle.last()),
    ensures
        has_match(trimmed(s), needle) == has_match(s, needle),
        forall|i: int|
            found_at(s, needle, i) <==> #[trigger] found_at(trimmed(s), needle, i - lead(s)),
{
    lemma_trimmed(s);
    let a = lead(s);
    let b = s.len() - trail(trim_start(s));
    assert forall|i: int| found_at(s, needle, i) <==> #[trigger] found_at(
        trimmed(s),
        needle,
        i - a,
    ) by {
        lemma_found_in_subrange(s, needle, a, b, i - a);
        if found_at(s, needle, i) {
            let part = s.subrange(i, i + needle.len());
            assert(part[0] == s[i]);
            assert(part[needle.len() - 1] == s[i + needle.len() - 1]);
            if i < a {
                assert(s.take(a)[i] == s[i]);
            }
            if i + needle.len() > b {
                assert(s.skip(b)[i + needle.len() - 1 - b] == s[i + needle.len() - 1]);
            }
        }
    }
    if has_match(s, needle) {
        let i = choose|i: int| found_at(s, needle, i);
        assert(found_at(trimmed(s), needle, i - a));
    }
    if has_match(trimmed(s), needle) {
        let j = choose|j: int| found_at(trimmed(s), needle, j);
        assert(found_at(trimmed(s), needle, (j + a) - a));
        assert(found_at(s, needle, j + a));
    }
}

/// Whether `c` is whitespace.
pub fn is_whitespace(c: char) -> (b: bool)
    ensures
        b == white_space(c),
{
    ('\u{9}' <= c && c <= '\u{d}') || c == ' ' || c == '\u{85}' || c == '\u{a0}' || c
        == '\u{1680}' || ('\u{2000}' <= c && c <= '\u{200a}') || c == '\u{2028}' || c
        == '\u{2029}' || c == '\u{202f}' || c == '\u{205f}' || c == '\u{3000}'
}

/// The part of `s` between its leading and its trailing whitespace.
pub fn trim(s: &[char]) -> (r: &[char])
    ensures
        r@ == trimmed(s@),
{
    let mut a: usize = 0;
    while a < s.len() && is_whitespace(s[a])
        invariant
            a <= s.len(),
            all_white(s@.take(a as int)),
        decreases s.len() - a,
    {
        proof {
            assert forall|i: int| 0 <= i < s@.take(a + 1).len() implies white_space(
                #[trigger] s@.take(a + 1)[i],
            ) by {
                if i < a {
                    assert(s@.take(a as int)[i] == s@[i]);
                }
            }
        }
        a += 1;
    }
    let mut b: usize = s.len();
    proof {
        assert(s@.skip(b as int).len() == 0);
    }
    while b > a && is_whitespace(s[b - 1])
        invariant
            a <= b <= s.len(),
            all_white(s@.skip(b as int)),
        decreases b,
    {
        proof {
            assert forall|i: int| 0 <= i < s@.skip(b - 1).len() implies white_space(
                #[trigger] s@.skip(b - 1)[i],
            ) by {
                if i > 0 {
                    assert(s@.skip(b as int)[i - 1] == s@[b + i - 1]);
                }
            }
        }
        b -= 1;
    }
    proof {
        let t = s@.skip(a as int);
        assert(is_lead(s@, a as int));
        lemma_lead(s@);
        assert(t == trim_start(s@));
        assert(t.skip(t.len() - (s.len() - b)) =~= s@.skip(b as int));
        assert(is_trail(t, s.len() - b));
        lemma_trail(t);
        assert(t.take(b - a) =~= s@.subrange(a as int, b as int));
    }
    &s[a..b]
}

/// Whether `needle` stands in `hay` at index `at`.
pub fn matches_at(hay: &[char], needle: &[char], at: usize) -> (b: bool)
    ensures
        b == found_at(hay@, needle@, at as int),
{
    if needle.len() > hay.len() || at > hay.len() - needle.len() {
        return false;
    }
    let mut k: usize = 0;
    while k < needle.len()
        invariant
            k <= needle.len(),
            at + needle.len() <= hay.len(),
            forall|j: int| 0 <= j < k ==> hay@[at + j] == #[trigger] needle@[j],
        decreases needle.len() - k,
    {
        if hay[at + k] != needle[k] {
            proof {
                let part = hay@.subrange(at as int, at + needle.len());
                assert(part[k as int] == hay@[at + k]);
            }
            return false;
        }
        k += 1;
    }
    proof {
        assert(hay@.subrange(at as int, at + needle.len()) =~= needle@);
    }
    true
}

/// Whether `hay` begins with `needle`.
pub fn starts_with(hay: &[char], needle: &[char]) -> (b: bool)
    ensures
        b == found_at(hay@, needle@, 0),
{
    matches_at(hay, needle, 0)
}

/// The first index at which `needle` stands in `hay`.
pub fn find(hay: &[char], needle: &[char]) -> (r: Option<usize>)
    ensures
        match r {
            Some(i) => first_match(hay@, needle@) == Some(i as int),
            None => first_match(hay@, needle@) is None,
        },
{
    if needle.len() > hay.len() {
        proof {
            lemma_first_match(hay@, needle@);
        }
        return None;
    }
    let last: usize = hay.len() - needle.len();
    let mut i: usize = 0;
    while i < last
        invariant
            last == hay.len() - needle.len(),
            i <= last,
            forall|j: int| 0 <= j < i ==> !found_at(hay@, needle@, j),
        decreases last - i,
    {
        if matches_at(hay, needle, i) {
            proof {
                lemma_first_match(hay@, needle@);
            }
            return Some(i);
        }
        i += 1;
    }
    proof {
        lemma_first_match(hay@, needle@);
    }
    if matches_at(hay, needle, last) {
        Some(last)
    } else {
        None
    }
}

/// Whether `needle` stands somewhere in `hay`.
pub fn contains(hay: &[char], needle: &[char]) -> (b: bool)
    ensures
        b == has_match(hay@, needle@),
{
    find(hay, needle).is_some()
}

/// The characters of `s`, one element for each.
pub fn chars_of(s: &str) -> (v: Vec<char>)
    ensures
        v@ == s@,
{
    let mut v: Vec<char> = Vec::new();
    for c in it: s.chars()
        invariant
            it.seq() == s@,
            v@ == it.seq().take(it.index() as int),
    {
        v.push(c);
    }
    v
}

/// `String::push` appends one character to the string.
pub assume_specification[ String::push ](s: &mut String, ch: char)
    ensures
        final(s)@ == old(s)@.push(ch),
;

/// The string that holds the characters of `chars`, in their order.
pub fn string_of(chars: &[char]) -> (s: String)
    ensures
        s@ == chars@,
{
    let mut s = String::new();
    let mut i: usize = 0;
    while i < chars.len()
        invariant
            i <= chars.len(),
            s@ == chars@.take(i as int),
        decreases chars.len() - i,
    {
        s.push(chars[i]);
        i += 1;
    }
    s
}

} // verus!
