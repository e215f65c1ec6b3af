use bird_compiler::text::{
    chars_of, contains, find, is_whitespace, matches_at, starts_with, string_of, trim,
};

fn chars(s: &str) -> Vec<char> {
    s.chars().collect()
}

#[test]
fn whitespace_agrees_with_std_for_every_char() {
    for code in 0u32..=0x10ffff {
        if let Some(c) = char::from_u32(code) {
            assert_eq!(is_whitespace(c), c.is_whitespace(), "U+{code:04X}");
        }
    }
}

#[test]
fn whitespace_named_characters() {
    for c in ['\t', '\n', '\u{b}', '\u{c}', '\r', ' ', '\u{85}', '\u{a0}', '\u{1680}',
        '\u{2000}', '\u{200a}', '\u{2028}', '\u{2029}', '\u{202f}', '\u{205f}', '\u{3000}']
    {
        assert!(is_whitespace(c));
    }
    for c in ['a', '<', '>', '/', '\u{8}', '\u{e}', '\u{200b}', '\u{180e}', '\u{feff}'] {
        assert!(!is_whitespace(c));
    }
}

#[test]
fn chars_of_gives_every_character() {
    assert_eq!(chars_of(""), Vec::<char>::new());
    assert_eq!(chars_of("aé世🦀"), vec!['a', 'é', '世', '🦀']);
}

#[test]
fn string_of_is_the_inverse_of_chars_of() {
    for s in ["", "plain", "aé世🦀 <style>", " \n\t"] {
        assert_eq!(string_of(&chars_of(s)), s);
    }
}

#[test]
fn trim_agrees_with_std_trim() {
    for s in [
        "", " ", "a", " a", "a ", "  a b  ", "\n\ta\u{a0}\u{3000}", "\u{2003}x\u{2003}y\u{2003}",
        " \u{200b} ", "\r\n<style> x </style>\r\n",
    ] {
        assert_eq!(string_of(trim(&chars(s))), s.trim(), "{s:?}");
    }
}

#[test]
fn trim_of_blank_text_is_empty() {
    assert!(trim(&chars(" \t\n\u{85}")).is_empty());
}

#[test]
fn find_gives_the_first_index() {
    assert_eq!(find(&chars("abcabc"), &chars("bc")), Some(1));
    assert_eq!(find(&chars("abcabc"), &chars("abc")), Some(0));
    assert_eq!(find(&chars("aaab"), &chars("ab")), Some(2));
    assert_eq!(find(&chars("abc"), &chars("c")), Some(2));
    assert_eq!(find(&chars("abc"), &chars("abc")), Some(0));
}

#[test]
fn find_misses_what_is_not_there() {
    assert_eq!(find(&chars("abc"), &chars("d")), None);
    assert_eq!(find(&chars("abc"), &chars("abcd")), None);
    assert_eq!(find(&chars(""), &chars("a")), None);
    assert_eq!(find(&chars("<styl"), &chars("<style>")), None);
}

#[test]
fn find_of_empty_needle_is_the_front() {
    assert_eq!(find(&chars("abc"), &chars("")), Some(0));
    assert_eq!(find(&chars(""), &chars("")), Some(0));
}

#[test]
fn find_counts_characters_not_bytes() {
    // std counts bytes: "é世" takes five of them.
    assert_eq!("é世<x>".find("<x>"), Some(5));
    assert_eq!(find(&chars("é世<x>"), &chars("<x>")), Some(2));
}

#[test]
fn find_agrees_with_std_on_ascii() {
    let hays = ["", "a", "ab", "aab", "abab", "<style><script></style>", "xx</script>x"];
    let needles = ["", "a", "b", "ab", "ba", "<style>", "</style>", "<script>", "</script>"];
    for hay in hays {
        for needle in needles {
            assert_eq!(find(&chars(hay), &chars(needle)), hay.find(needle), "{hay:?} {needle:?}");
            assert_eq!(contains(&chars(hay), &chars(needle)), hay.contains(needle));
            assert_eq!(starts_with(&chars(hay), &chars(needle)), hay.starts_with(needle));
        }
    }
}

#[test]
fn matches_at_checks_one_index() {
    let hay = chars("abcabc");
    assert!(matches_at(&hay, &chars("abc"), 0));
    assert!(matches_at(&hay, &chars("abc"), 3));
    assert!(!matches_at(&hay, &chars("abc"), 1));
    assert!(!matches_at(&hay, &chars("abc"), 4));
    assert!(!matches_at(&hay, &chars("abc"), 100));
    assert!(matches_at(&hay, &chars(""), 6));
    assert!(!matches_at(&hay, &chars(""), 7));
}
