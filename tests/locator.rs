use powdr_lsp::locator::{is_identifier_char, PositionTracker};
use powdr_lsp::span::{HasSpan, Span};

fn spans(text: &str, name: &str) -> Vec<(usize, usize)> {
    let mut tracker = PositionTracker::new(text);
    tracker
        .find_symbol_positions(name)
        .iter()
        .map(|s| (s.start, s.end))
        .collect()
}

#[test]
fn prefix_of_longer_identifier_is_not_matched() {
    assert_eq!(spans("foo", "fo"), vec![]);
}

#[test]
fn suffix_of_longer_identifier_is_not_matched() {
    assert_eq!(spans("xfoo foo", "foo"), vec![(5, 8)]);
}

#[test]
fn commented_occurrence_is_skipped() {
    let text = "// Main is unused\nmachine Main {}";
    assert_eq!(spans(text, "Main"), vec![(26, 30)]);
}

#[test]
fn indented_comment_is_skipped() {
    let text = "machine A {\n   \t// reg X;\n  reg X;\n}";
    assert_eq!(spans(text, "X"), vec![(32, 33)]);
}

#[test]
fn comment_after_code_on_same_line_does_not_hide_earlier_text() {
    let text = "reg X; // X";
    assert_eq!(spans(text, "X"), vec![(4, 5), (10, 11)]);
}

#[test]
fn all_occurrences_left_to_right() {
    let text = "a b a(a) a_b a";
    assert_eq!(spans(text, "a"), vec![(0, 1), (4, 5), (6, 7), (13, 14)]);
}

#[test]
fn qualified_separator_counts_as_identifier() {
    assert_eq!(spans("x::Main Main", "Main"), vec![(8, 12)]);
}

#[test]
fn empty_name_and_empty_text_give_nothing() {
    assert_eq!(spans("abc", ""), vec![]);
    assert_eq!(spans("", "a"), vec![]);
}

#[test]
fn matches_consume_their_bytes() {
    assert_eq!(spans("aa aaaa", "aa"), vec![(0, 2)]);
    assert_eq!(spans("ab-ab-ab", "ab-ab"), vec![(0, 5)]);
}

#[test]
fn tracker_cursor_is_left_unchanged() {
    let text = "x y x";
    let mut tracker = PositionTracker::new(text);
    let first = tracker.find_symbol_positions("x");
    let second = tracker.find_symbol_positions("x");
    assert_eq!(first.len(), 2);
    assert_eq!(first, second);
    assert_eq!(tracker.current_pos, 0);
}

#[test]
fn identifier_characters() {
    assert!(is_identifier_char('a'));
    assert!(is_identifier_char('Z'));
    assert!(is_identifier_char('7'));
    assert!(is_identifier_char('_'));
    assert!(is_identifier_char(':'));
    assert!(is_identifier_char('é'));
    assert!(!is_identifier_char('-'));
    assert!(!is_identifier_char(' '));
    assert!(!is_identifier_char('('));
}

#[test]
fn span_reports_itself() {
    let s = Span { start: 3, end: 9 };
    assert_eq!(s.span(), s);
}

#[test]
fn unicode_whitespace_before_comment_marker_is_trimmed() {
    let text = "\u{3000}\u{a0}// Main\n\u{2003}Main";
    let start = text.rfind("Main").unwrap();
    assert_eq!(spans(text, "Main"), vec![(start, start + 4)]);
    let text = "\u{85}// x\nx";
    assert_eq!(spans(text, "x"), vec![(text.len() - 1, text.len())]);
}

#[test]
fn other_characters_before_comment_marker_keep_the_line() {
    let text = "\u{b7}// Main";
    assert_eq!(spans(text, "Main"), vec![(5, 9)]);
}
