use findex::glob::{wildcard_to_regex, Matcher};

#[test]
fn translate_single_star() {
    assert_eq!(wildcard_to_regex("*.txt"), "^[^/]*\\.txt$");
}

#[test]
fn translate_double_star() {
    assert_eq!(wildcard_to_regex("**/x"), "^.*\\/x$");
}

#[test]
fn translate_question_mark() {
    assert_eq!(wildcard_to_regex("a?c"), "^a[^/]c$");
}

#[test]
fn translate_braces_and_commas() {
    assert_eq!(wildcard_to_regex("{a,b}"), "^(?:a|b)$");
}

#[test]
fn translate_escapes_metacharacters() {
    assert_eq!(wildcard_to_regex("a+b(c)|d^e$f\\g"), "^a\\+b\\(c\\)\\|d\\^e\\$f\\\\g$");
}

#[test]
fn translate_passes_brackets_through() {
    assert_eq!(wildcard_to_regex("[ab]c"), "^[ab]c$");
}

#[test]
fn translate_empty_pattern() {
    assert_eq!(wildcard_to_regex(""), "^$");
}

#[test]
fn star_matches_within_component() {
    let m = Matcher::compile("*.txt").expect("pattern should compile");
    assert!(m.matches("report.txt"));
    assert!(!m.matches("report.txt.bak"));
    assert!(!m.matches("sub/report.txt"));
}

#[test]
fn double_star_crosses_separators() {
    let m = Matcher::compile("**/x").expect("pattern should compile");
    assert!(m.matches("a/b/x"));
    assert!(m.matches("/x"));
    assert!(!m.matches("ax"));
}

#[test]
fn question_mark_matches_one_character() {
    let m = Matcher::compile("a?c").expect("pattern should compile");
    assert!(m.matches("abc"));
    assert!(!m.matches("ac"));
    assert!(!m.matches("a/c"));
    assert!(!m.matches("abbc"));
}

#[test]
fn match_is_anchored() {
    let m = Matcher::compile("abc").expect("pattern should compile");
    assert!(m.matches("abc"));
    assert!(!m.matches("xabcx"));
    assert!(!m.matches("abcd"));
}

#[test]
fn brace_alternation_matches_either_arm() {
    let m = Matcher::compile("{cat,dog}.png").expect("pattern should compile");
    assert!(m.matches("cat.png"));
    assert!(m.matches("dog.png"));
    assert!(!m.matches("cow.png"));
}

#[test]
fn character_class_passes_through() {
    let m = Matcher::compile("[ab]c").expect("pattern should compile");
    assert!(m.matches("ac"));
    assert!(m.matches("bc"));
    assert!(!m.matches("cc"));
}

#[test]
fn malformed_class_is_a_pattern_error() {
    assert!(Matcher::compile("[").is_err());
}
