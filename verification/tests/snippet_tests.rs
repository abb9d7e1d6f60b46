use ctx_codegraph::model::{SourceRange, TextRange};
use ctx_codegraph::snippet::{snippet_from_text, span_from_text, split_lines};

fn sample_file_content() -> &'static str {
    "line one\nline two\nline three\nline four\n"
}

fn text_range(start_line: usize, end_line: usize) -> TextRange {
    TextRange { start_line, start_col: 1, end_line, end_col: 1 }
}

fn src_range(start_line: usize, end_line: usize) -> SourceRange {
    SourceRange { start_line, start_col: 1, end_line, end_col: 1 }
}

#[test]
fn test_load_file_span_extracts_lines_from_disk() {
    assert_eq!(span_from_text(sample_file_content(), text_range(2, 3)), "line two\nline three\n");
}

#[test]
fn test_load_file_span_start_line_zero_returns_empty() {
    assert_eq!(span_from_text(sample_file_content(), text_range(0, 2)), "");
}

#[test]
fn test_load_file_span_start_line_beyond_file_returns_empty() {
    assert_eq!(span_from_text(sample_file_content(), text_range(100, 101)), "");
}

#[test]
fn test_load_file_span_start_line_greater_than_end_line_returns_empty() {
    assert_eq!(span_from_text(sample_file_content(), text_range(3, 2)), "");
}

#[test]
fn span_end_is_clamped_to_file() {
    assert_eq!(span_from_text(sample_file_content(), text_range(4, 9)), "line four\n");
}

#[test]
fn split_lines_follows_str_lines() {
    let text = "foo\r\nbar\n\nbaz\r";
    let expected: Vec<String> = text.lines().map(|l| l.to_string()).collect();
    assert_eq!(split_lines(text), expected);
    assert_eq!(split_lines("a\nb\n"), vec!["a".to_string(), "b".to_string()]);
    assert!(split_lines("").is_empty());
    assert_eq!(split_lines("\n"), vec!["".to_string()]);
}

#[test]
fn snippet_without_body_widens_by_context() {
    let text = "1\n2\n3\n4\n5\n6\n";
    assert_eq!(snippet_from_text(text, src_range(3, 4), None, false, 1), "2\n3\n4\n5\n");
    assert_eq!(snippet_from_text(text, src_range(1, 1), None, false, 3), "1\n2\n3\n4\n");
    assert_eq!(snippet_from_text(text, src_range(9, 9), None, false, 0), "");
    assert_eq!(snippet_from_text("", src_range(1, 1), None, false, 0), "");
}

#[test]
fn snippet_short_body_is_shown_whole() {
    let text = "a\nb\nc\nd\ne\n";
    let body = Some(src_range(2, 4));
    assert_eq!(snippet_from_text(text, src_range(2, 2), body, false, 0), "b\nc\nd\n");
}

#[test]
fn snippet_long_body_is_cut() {
    let lines: Vec<String> = (1..=100).map(|i| format!("l{i}")).collect();
    let text = lines.join("\n") + "\n";
    let body = Some(src_range(1, 100));
    let out = snippet_from_text(&text, src_range(1, 100), body, false, 0);
    let mut expected = String::new();
    for i in 1..=16 {
        expected.push_str(&format!("l{i}\n"));
    }
    expected.push_str("// ... 69 lines omitted ...\n");
    for i in 85..=100 {
        expected.push_str(&format!("l{i}\n"));
    }
    assert_eq!(out, expected);
    // a root may show up to 160 lines
    let root_out = snippet_from_text(&text, src_range(1, 100), body, true, 0);
    assert_eq!(root_out, text);
}
