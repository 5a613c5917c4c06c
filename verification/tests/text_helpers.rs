use detypstify::pattern::{Pattern, PatternError, Segment};
use detypstify::render::{math_source, whiten_svg};
use detypstify::scraper::{rewrite_matches, rewrite_segments, Rewrite};
use detypstify::text::{contains_str, remove_char, replace_str};

#[test]
fn replace_is_leftmost_non_overlapping() {
    assert_eq!(replace_str("aaa", "aa", "b"), "ba");
    assert_eq!(replace_str("abcabc", "bc", ""), "aa");
    assert_eq!(replace_str("héllo", "é", "e"), "hello");
}

#[test]
fn contains_finds_substrings() {
    assert!(contains_str("hello", "ll"));
    assert!(contains_str("hello", ""));
    assert!(!contains_str("hello", "lo!"));
    assert!(!contains_str("", "a"));
}

#[test]
fn remove_char_removes_all() {
    assert_eq!(remove_char(" a b  c ", ' '), "abc");
}

#[test]
fn math_source_wraps_in_dollars() {
    assert_eq!(math_source("x^2"), "$x^2$");
    assert_eq!(math_source(""), "$$");
}

#[test]
fn svg_fill_is_whitened() {
    assert_eq!(
        whiten_svg("<path fill=\"#000000\"/><g fill=\"#123456\"/>"),
        "<path fill=\"#ffffff\"/><g fill=\"#123456\"/>"
    );
}

#[test]
fn invalid_pattern_is_refused() {
    assert!(matches!(Pattern::new("(unclosed"), Err(PatternError::Invalid)));
}

#[test]
fn pattern_captures_segments() {
    let p = Pattern::new("([a-z])([0-9]+)").ok().unwrap();
    let (segs, tail) = p.captures("x a12 b3!");
    assert_eq!(segs.len(), 2);
    assert_eq!(segs[0].before, "x ");
    assert_eq!(segs[0].groups, vec![Some("a12".to_string()), Some("a".to_string()), Some("12".to_string())]);
    assert_eq!(segs[1].before, " ");
    assert_eq!(segs[1].groups[2], Some("3".to_string()));
    assert_eq!(tail, "!");
    assert!(p.is_match("q7"));
    assert!(!p.is_match("77"));
}

#[test]
fn optional_group_is_absent() {
    let p = Pattern::new("a(b)?").ok().unwrap();
    let (segs, tail) = p.captures("ac");
    assert_eq!(segs[0].groups, vec![Some("a".to_string()), None]);
    assert_eq!(tail, "c");
}

#[test]
fn rewrite_squeezes_every_match() {
    let p = Pattern::new(r"\{[^}]*\}").ok().unwrap();
    assert_eq!(rewrite_matches(&p, "x{ a b } y { c }", Rewrite::SqueezeSpaces), "x{ab} y {c}");
}

#[test]
fn rewrite_spaces_an_argument() {
    let p = Pattern::new(r"(\\k)\{([a-z ]*)\}").ok().unwrap();
    assert_eq!(rewrite_matches(&p, r"\k{a b}", Rewrite::SpacedArgument), r"\k { ab }");
}

fn seg(before: &str, groups: &[Option<&str>]) -> Segment {
    Segment {
        before: before.to_string(),
        groups: groups.iter().map(|g| g.map(|t| t.to_string())).collect(),
    }
}

#[test]
fn segments_rewritten_as_millimetres() {
    let segs = vec![seg("a ", &[Some(r"\hspace { 25mm }"), Some("25")])];
    assert_eq!(rewrite_segments(&segs, " b", Rewrite::MillimetresAsCentimetres), r"a \hspace {250cm} b");
}

#[test]
fn segments_with_leading_zero_millimetres() {
    let segs = vec![seg("", &[Some(r"\hspace { 007mm }"), Some("007")])];
    assert_eq!(rewrite_segments(&segs, "", Rewrite::MillimetresAsCentimetres), r"\hspace {70cm}");
}

#[test]
fn segments_spaced_argument_with_absent_group() {
    let segs = vec![seg("x", &[Some(r"\hspace{1 em}"), None, Some("1 em")])];
    assert_eq!(rewrite_segments(&segs, "y", Rewrite::SpacedArgument), r"x { 1em }y");
}

#[test]
fn no_segments_give_the_tail() {
    let segs: Vec<Segment> = Vec::new();
    assert_eq!(rewrite_segments(&segs, "rest", Rewrite::SqueezeSpaces), "rest");
}

#[test]
fn squeezing_keeps_other_characters() {
    let segs = vec![seg("p q", &[Some(" r s ")]), seg(" t", &[Some("u v")])];
    let out = rewrite_segments(&segs, " w ", Rewrite::SqueezeSpaces);
    assert_eq!(out, "p qrs tuv w ");
    assert_eq!(remove_char(&out, ' '), remove_char("p q r s  tu v w ", ' '));
}
