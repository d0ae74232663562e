use codecrafters_grep::captures::Captures;
use codecrafters_grep::file_search::matching_lines;
use codecrafters_grep::parse::{assign_capture_indices, CompileError};
use codecrafters_grep::pattern::Pattern;
use codecrafters_grep::quantifier::Quantifier;
use codecrafters_grep::regex::Regex;

fn is_match(pattern: &str, input: &str) -> bool {
    Regex::parse(pattern).unwrap().matches(input)
}

fn chars(s: &str) -> Vec<char> {
    s.chars().collect()
}

#[test]
fn dot_does_not_match_empty_input() {
    assert!(!is_match(".", ""));
}

#[test]
fn literal_is_found_anywhere() {
    assert!(is_match("a", "abc"));
    assert!(is_match("c", "abc"));
    assert!(!is_match("d", "abc"));
}

#[test]
fn anchors_require_whole_line() {
    assert!(is_match("^abc$", "abc"));
    assert!(!is_match("^abc$", "abcd"));
    assert!(!is_match("^abc$", "xabc"));
}

#[test]
fn one_or_more() {
    assert!(!is_match("a+", ""));
    assert!(is_match("a+", "aaa"));
    assert!(!is_match("ba+", "b"));
}

#[test]
fn zero_or_more_may_match_nothing() {
    assert!(is_match("ca*t", "ct"));
    assert!(is_match("ca*t", "caaat"));
}

#[test]
fn zero_or_one() {
    assert!(is_match("a?b", "b"));
    assert!(is_match("a?b", "ab"));
}

#[test]
fn negative_class() {
    assert!(is_match("[^abc]", "d"));
    assert!(!is_match("[^abc]", "a"));
}

#[test]
fn positive_class() {
    assert!(is_match("[abc]", "xxb"));
    assert!(!is_match("[abc]", "xyz"));
}

#[test]
fn backreference_round_trip() {
    let re = Regex::parse(r"(\w+) and \1").unwrap();
    let caps = re.captures("cat and cat").unwrap();
    assert_eq!(caps.get_capture(1), Some("cat".to_string()));
    assert!(re.matches("cat and cat"));
    assert!(!re.matches("cat and dog"));
    assert!(re.captures("cat and dog").is_none());
}

#[test]
fn alternation_captures_branch() {
    let re = Regex::parse("(cat|dog)s?").unwrap();
    assert!(re.matches("cats"));
    assert!(re.matches("dog"));
    let caps = re.captures("cats").unwrap();
    assert_eq!(caps.get_capture(1), Some("cat".to_string()));
    assert!(!re.matches("cow"));
}

#[test]
fn repeated_runs_agree() {
    let re = Regex::parse(r"(\w+) and \1").unwrap();
    for input in ["cat and cat", "cat and dog", ""] {
        assert_eq!(re.matches(input), re.matches(input));
        let a = re.captures(input).map(|c| c.get_capture(1));
        let b = re.captures(input).map(|c| c.get_capture(1));
        assert_eq!(a, b);
    }
}

#[test]
fn star_gives_back_repetitions() {
    assert!(is_match("a*a", "aaa"));
    assert!(is_match("^a+ab$", "aaab"));
}

#[test]
fn digit_and_word_classes() {
    assert!(is_match(r"\d", "x7"));
    assert!(!is_match(r"\d", "xy"));
    assert!(is_match(r"\w", "_"));
    assert!(!is_match(r"\w", "-+"));
    assert!(is_match(r"\\", r"a\b"));
}

#[test]
fn exact_repetition() {
    assert!(is_match("^a{2}$", "aa"));
    assert!(!is_match("^a{2}$", "a"));
    assert!(!is_match("^a{2}$", "aaa"));
    assert!(is_match("^a{+2}$", "aa"));
}

#[test]
fn bad_brace_payload_is_an_error() {
    assert_eq!(Regex::parse("a{x}").unwrap_err(), CompileError::InvalidQuantifier);
    assert_eq!(Regex::parse("a{}").unwrap_err(), CompileError::InvalidQuantifier);
    assert!(is_match("^a{2", "aa"));
    assert!(Regex::parse("a{12}").is_ok());
}

#[test]
fn unterminated_groups_are_accepted() {
    assert!(is_match("[abc", "b"));
    assert!(is_match("(ab", "xab"));
}

#[test]
fn backreference_to_unset_group_fails() {
    assert!(!is_match(r"\1a", "a"));
    assert!(!is_match(r"\0", "a"));
}

#[test]
fn end_anchor_alone() {
    assert!(is_match("a$", "ba"));
    assert!(!is_match("a$", "ab"));
    assert!(is_match("^$", ""));
}

#[test]
fn parse_wraps_quantifiers() {
    let v = Pattern::parse("ab+").unwrap();
    assert_eq!(v.len(), 2);
    assert!(matches!(v[0], Pattern::Literal('a')));
    match &v[1] {
        Pattern::PatternWithQuantifier(inner, q) => {
            assert!(matches!(**inner, Pattern::Literal('b')));
            assert_eq!(*q, Quantifier::OneOrMore);
        }
        other => panic!("unexpected node {:?}", other),
    }
}

#[test]
fn parse_builds_classes_and_groups() {
    let v = Pattern::parse("[^x](a|b)").unwrap();
    assert_eq!(v.len(), 2);
    assert!(matches!(&v[0], Pattern::NegativeGroup(items) if items.len() == 1));
    assert!(matches!(&v[1], Pattern::Alternate(0, bs) if bs.len() == 2));
}

#[test]
fn capture_indices_are_depth_first() {
    let re = Regex::parse("((a)|b)(c)").unwrap();
    assert_eq!(re.capture_group_count, 3);
    match &re.patterns[0] {
        Pattern::Alternate(1, bs) => {
            assert!(matches!(&bs[0][0], Pattern::CaptureGroup(2, _)));
        }
        other => panic!("unexpected node {:?}", other),
    }
    assert!(matches!(&re.patterns[1], Pattern::CaptureGroup(3, _)));
}

#[test]
fn assign_capture_indices_advances_counter() {
    let mut v = Pattern::parse("(a(b))").unwrap();
    let mut next = 5usize;
    assign_capture_indices(&mut v[0], &mut next);
    assert_eq!(next, 7);
    match &v[0] {
        Pattern::CaptureGroup(5, inner) => {
            assert!(matches!(&inner[1], Pattern::CaptureGroup(6, _)));
        }
        other => panic!("unexpected node {:?}", other),
    }
}

#[test]
fn capture_store_set_and_get() {
    let mut c = Captures::new(2);
    assert_eq!(c.get_capture(1), None);
    c.capture(&chars("xy"), 2);
    assert_eq!(c.get_capture(2), Some("xy".to_string()));
    assert_eq!(c.get_capture(1), None);
    c.capture(&chars("z"), 3);
    assert_eq!(c.get_capture(3), None);
    assert_eq!(c.len(), 2);
    let d = c.duplicate();
    c.capture(&chars("w"), 2);
    assert_eq!(d.get_capture(2), Some("xy".to_string()));
}

#[test]
fn empty_store_ignores_writes() {
    let mut c = Captures::new(0);
    c.capture(&chars("a"), 1);
    assert_eq!(c.get_capture(1), None);
}

#[test]
fn single_node_matches() {
    let digit = Pattern::Digit;
    assert_eq!(digit.matches(&chars("5a")), Some(1));
    assert_eq!(digit.matches(&chars("a5")), None);
    assert_eq!(Pattern::EndOfString.matches(&[]), Some(0));
    assert_eq!(Pattern::EndOfString.matches(&chars("a")), None);
}

#[test]
fn optional_nodes() {
    let v = Pattern::parse("a?b*c+(x|y?)(p|q)").unwrap();
    let flags: Vec<bool> = v.iter().map(|p| p.is_optional()).collect();
    assert_eq!(flags, vec![true, true, false, true, false]);
}

#[test]
fn alternation_does_not_shrink_branch() {
    // each branch is tried only at the length it matched
    assert!(is_match("^(a*)ab$", "aab"));
    assert!(!is_match("^(a*|b)ab$", "aab"));
}

#[test]
fn non_ascii_input() {
    assert!(is_match("é+", "café"));
    assert!(is_match("^.$", "ß"));
}

#[test]
fn matching_lines_keeps_order_and_labels() {
    let re = Regex::parse(r"\d+").unwrap();
    let lines: Vec<String> = vec!["a1".to_string(), "bb".to_string(), "7".to_string()];
    assert_eq!(matching_lines(&re, &lines, None), vec!["a1".to_string(), "7".to_string()]);
    assert_eq!(
        matching_lines(&re, &lines, Some("f.txt")),
        vec!["f.txt:a1".to_string(), "f.txt:7".to_string()]
    );
    assert!(matching_lines(&re, &Vec::new(), Some("f")).is_empty());
}

#[test]
fn exhausted_input_needs_every_remaining_node_optional() {
    assert!(!is_match("a$b", "a"));
    assert!(is_match("a$b*", "a"));
    assert!(is_match("ab?$", "a"));
}

#[test]
fn alternation_is_optional_only_by_a_whole_branch() {
    assert!(!is_match("x(ab*|c)", "x"));
    assert!(is_match("x(ab*|c?)", "x"));
    let v = Pattern::parse("(ab*|c)").unwrap();
    assert!(!v[0].is_optional());
}

#[test]
fn zero_repetitions_take_nothing() {
    assert!(is_match("ba{0}c", "bc"));
    assert!(!is_match("^ba{0}c", "bac"));
}
