use bird_compiler::lexer::{
    extract_between, extract_next_element, extract_script, extract_style, extract_template,
    Element, SCRIPT_CLOSE, SCRIPT_OPEN, STYLE_CLOSE, STYLE_OPEN,
};

fn chars(s: &str) -> Vec<char> {
    s.chars().collect()
}

fn text(c: &[char]) -> String {
    c.iter().collect()
}

#[test]
fn tag_constants_spell_the_tags() {
    assert_eq!(text(&STYLE_OPEN), "<style>");
    assert_eq!(text(&STYLE_CLOSE), "</style>");
    assert_eq!(text(&SCRIPT_OPEN), "<script>");
    assert_eq!(text(&SCRIPT_CLOSE), "</script>");
}

#[test]
fn between_gives_trimmed_inner_text() {
    assert_eq!(
        extract_between(&chars("a[  x y  ]b"), &chars("["), &chars("]")),
        Some("x y".to_string())
    );
}

#[test]
fn between_without_open_is_none() {
    assert_eq!(extract_between(&chars("x]"), &chars("["), &chars("]")), None);
}

#[test]
fn between_without_close_after_open_is_none() {
    assert_eq!(extract_between(&chars("[x"), &chars("["), &chars("]")), None);
    assert_eq!(extract_between(&chars("]a[x"), &chars("["), &chars("]")), None);
}

#[test]
fn between_takes_first_open_and_first_close_after_it() {
    assert_eq!(
        extract_between(&chars("]p[a[b]c]"), &chars("["), &chars("]")),
        Some("a[b".to_string())
    );
}

#[test]
fn between_with_empty_inner_text() {
    assert_eq!(extract_between(&chars("[]"), &chars("["), &chars("]")), Some(String::new()));
    assert_eq!(extract_between(&chars("[ \n ]"), &chars("["), &chars("]")), Some(String::new()));
}

#[test]
fn between_where_open_and_close_are_alike() {
    assert_eq!(extract_between(&chars("|a|b|"), &chars("|"), &chars("|")), Some("a".to_string()));
    assert_eq!(extract_between(&chars("|a"), &chars("|"), &chars("|")), None);
}

#[test]
fn style_and_script_use_their_own_tags() {
    let doc = chars("x<script> s </script><style> c </style>");
    assert_eq!(extract_style(&doc), Some("c".to_string()));
    assert_eq!(extract_script(&doc), Some("s".to_string()));
    assert_eq!(extract_style(&chars("<script>s</script>")), None);
    assert_eq!(extract_script(&chars("<style>c</style>")), None);
}

#[test]
fn template_ends_before_the_nearer_open_tag() {
    let doc = chars("ab<script>x</script><style>y</style>");
    let (head, tail) = extract_template(&doc);
    assert_eq!(text(head), "ab");
    assert_eq!(text(tail), "<script>x</script><style>y</style>");

    let doc = chars("ab<style>y</style><script>x</script>");
    let (head, tail) = extract_template(&doc);
    assert_eq!(text(head), "ab");
    assert_eq!(text(tail), "<style>y</style><script>x</script>");
}

#[test]
fn template_without_open_tag_is_everything() {
    let doc = chars("no tags </style> here");
    let (head, tail) = extract_template(&doc);
    assert_eq!(text(head), "no tags </style> here");
    assert!(tail.is_empty());
}

#[test]
fn template_before_a_tag_at_the_front_is_empty() {
    let doc = chars("<style>x");
    let (head, tail) = extract_template(&doc);
    assert!(head.is_empty());
    assert_eq!(text(tail), "<style>x");
}

#[test]
fn next_element_by_kind() {
    assert_eq!(
        extract_next_element(&chars("<style> a </style>rest")),
        Element::Style("a".to_string())
    );
    assert_eq!(
        extract_next_element(&chars("<script> b </script>rest")),
        Element::Script("b".to_string())
    );
    assert_eq!(
        extract_next_element(&chars(" t <script>b</script>")),
        Element::Template(" t ".to_string())
    );
}

#[test]
fn next_element_is_nothing_where_the_scan_cannot_go_on() {
    assert_eq!(extract_next_element(&chars("")), Element::Nothing);
    assert_eq!(extract_next_element(&chars("<style>never closed")), Element::Nothing);
    assert_eq!(extract_next_element(&chars("<script>never closed</style>")), Element::Nothing);
}
