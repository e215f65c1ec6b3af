use bird_compiler::contents::{accept_decoded, resolve, MAX_INPUT};
use bird_compiler::gate::BIRD_TAG_PATTERN;
use bird_compiler::{get_file_contents, load_file, Compiler, Gate, LexError, LoadError, Token};
use regex::Regex;

fn gate() -> Gate {
    Gate::new().expect("the wrapper pattern compiles")
}

#[test]
fn ordinals_are_one_two_three() {
    assert_eq!(u8::from(Token::Script), 1);
    assert_eq!(u8::from(Token::Style), 2);
    assert_eq!(u8::from(Token::Template), 3);
}

#[test]
fn kinds_have_names() {
    assert_eq!(Token::Script.name(), "Script");
    assert_eq!(Token::Style.name(), "Style");
    assert_eq!(Token::Template.name(), "Template");
}

#[test]
fn failures_have_messages() {
    assert_eq!(LexError::UnclosedTag(Token::Style).message(), "Unclosed <style> tag");
    assert_eq!(LexError::UnclosedTag(Token::Script).message(), "Unclosed <script> tag");
}

#[test]
fn compile_hands_plain_documents_on_unchanged() {
    for doc in ["", "hello world", "  spaced  \n", "<p>markup</p>", "héllo 世界"] {
        assert_eq!(Compiler.compile(doc), doc);
    }
}

#[test]
fn compile_is_the_identity_for_now() {
    for doc in ["<style>a</style>", "<script>x", "<bird:card title=\"x\"/>"] {
        assert_eq!(Compiler.compile(doc), doc);
    }
}

#[test]
fn gate_holds_the_wrapper_pattern() {
    assert_eq!(gate().pattern(), BIRD_TAG_PATTERN);
    assert_eq!(
        BIRD_TAG_PATTERN,
        "(?s)(?m)<bird:(\\w+)([^>]*)(?:/>|>(.*?)</bird:\\w+>)"
    );
}

#[test]
fn gate_from_another_expression_keeps_it() {
    let g = Gate::from_regex(Regex::new("x+y").unwrap());
    assert_eq!(g.pattern(), "x+y");
    assert!(g.has_wrapper("axxyb"));
    assert!(!g.has_wrapper("ab"));
}

#[test]
fn gate_from_a_refused_pattern_is_none() {
    assert!(Gate::from_compiled(Regex::new("(").map_err(|e| e)).is_none());
    assert!(Gate::from_compiled(Regex::new("a")).is_some());
}

#[test]
fn gate_finds_wrapper_tags() {
    let g = gate();
    assert!(g.has_wrapper("<bird:card/>"));
    assert!(g.has_wrapper("a <bird:card title=\"x\" /> b"));
    assert!(g.has_wrapper("<bird:card>\ninner\n</bird:card>"));
    assert!(g.has_wrapper("<bird:a>x</bird:b>"));
    assert!(!g.has_wrapper("<bird:card>never closed"));
    assert!(!g.has_wrapper("<bird:>x</bird:>"));
    assert!(!g.has_wrapper("<Bird:card/>"));
    assert!(!g.has_wrapper("plain"));
    assert!(!g.has_wrapper("<style>a</style>"));
}

#[test]
fn gate_lets_through_what_the_scanner_splits() {
    let g = gate();
    assert!(g.needs_compile("<style>a</style>"));
    assert!(g.needs_compile("x<script>a</script>"));
    assert!(g.needs_compile("<script>unclosed"));
    assert!(g.needs_compile("<bird:card/>"));
    assert!(!g.needs_compile("plain text"));
    assert!(!g.needs_compile("</style> close tag alone"));
    assert!(!g.needs_compile(""));
}

#[test]
fn documents_the_gate_turns_away_scan_to_one_template() {
    let g = gate();
    for doc in ["plain", "  padded  ", "</script>", "<p>x</p>", "", "   "] {
        assert!(!g.needs_compile(doc));
        let expected: Vec<(Token, String)> = if doc.trim().is_empty() {
            vec![]
        } else {
            vec![(Token::Template, doc.trim().to_string())]
        };
        assert_eq!(bird_compiler::tokenize(doc), Ok(expected));
    }
}

#[test]
fn accept_decoded_refuses_replaced_text() {
    assert_eq!(accept_decoded("ok".to_string(), false), Ok("ok".to_string()));
    assert_eq!(accept_decoded("b\u{fffd}d".to_string(), true), Err(LoadError::DecodeError));
}

#[test]
fn load_file_decodes_utf8() {
    assert_eq!(load_file("héllo".as_bytes(), "utf-8"), Ok("héllo".to_string()));
    assert_eq!(load_file(b"", "utf-8"), Ok(String::new()));
}

#[test]
fn load_file_decodes_other_encodings() {
    assert_eq!(load_file(b"caf\xe9", "latin1"), Ok("café".to_string()));
    assert_eq!(load_file(b"caf\xe9", "windows-1252"), Ok("café".to_string()));
    assert_eq!(load_file(b"h\x00i\x00", "utf-16le"), Ok("hi".to_string()));
    assert_eq!(load_file(b"\x93\xfa\x96\x7b", "shift_jis"), Ok("日本".to_string()));
}

#[test]
fn load_file_looks_labels_up_by_the_standard() {
    assert_eq!(load_file(b"a", "  UTF-8 "), Ok("a".to_string()));
    assert_eq!(load_file(b"a", "utf8"), Ok("a".to_string()));
    assert_eq!(load_file(b"a", "unicode-1-1-utf-8"), Ok("a".to_string()));
}

#[test]
fn load_file_removes_a_byte_order_mark() {
    assert_eq!(load_file(b"\xef\xbb\xbfa", "utf-8"), Ok("a".to_string()));
    // The mark decides, whatever the label says.
    assert_eq!(load_file(b"\xff\xfeh\x00i\x00", "utf-8"), Ok("hi".to_string()));
}

#[test]
fn load_file_refuses_unknown_labels() {
    assert_eq!(load_file(b"a", "no-such-encoding"), Err(LoadError::InvalidEncoding));
    assert_eq!(load_file(b"a", ""), Err(LoadError::InvalidEncoding));
}

#[test]
fn load_file_refuses_malformed_bytes() {
    assert_eq!(load_file(b"a\xffb", "utf-8"), Err(LoadError::DecodeError));
    assert_eq!(load_file(b"\xc3", "utf-8"), Err(LoadError::DecodeError));
}

#[test]
fn unknown_label_is_reported_before_malformed_bytes() {
    assert_eq!(load_file(b"\xff", "nope"), Err(LoadError::InvalidEncoding));
}

#[test]
fn resolve_gives_back_the_text() {
    let g = gate();
    for doc in ["plain", "<style>a</style>", "<bird:x/>", ""] {
        assert_eq!(resolve(&g, doc.to_string()), doc);
    }
}

#[test]
fn get_file_contents_gives_the_decoded_text() {
    let g = gate();
    assert_eq!(get_file_contents(&g, b"plain", "utf-8"), Ok("plain".to_string()));
    assert_eq!(
        get_file_contents(&g, b"<bird:card/> caf\xe9", "latin1"),
        Ok("<bird:card/> café".to_string())
    );
    assert_eq!(
        get_file_contents(&g, b"<style>a</style>", "utf-8"),
        Ok("<style>a</style>".to_string())
    );
}

#[test]
fn get_file_contents_passes_failures_on() {
    let g = gate();
    assert_eq!(get_file_contents(&g, b"a", "nope"), Err(LoadError::InvalidEncoding));
    assert_eq!(get_file_contents(&g, b"\xff", "utf-8"), Err(LoadError::DecodeError));
}

#[test]
fn input_limit_is_an_eighth_of_the_address_space() {
    assert_eq!(MAX_INPUT, usize::MAX / 8);
}
