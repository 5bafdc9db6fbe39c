use rust_ast_parser::error_context::{get_error_context, ErrorSpan};

fn span(start_line: usize, start_column: usize, end_line: usize) -> ErrorSpan {
    ErrorSpan { start_line, start_column, end_line }
}

#[test]
fn excerpt_shows_the_lines_around_the_error_and_marks_the_column() {
    let source = "fn main() {\n    let x = ;\n}\n";
    let got = get_error_context(source, &span(2, 12, 2));
    let want = "   1 | fn main() {\n   2 |     let x = ;\n Err:|             ^\n   3 | }\n";
    assert_eq!(got, want);
}

#[test]
fn excerpt_is_cut_to_one_line_before_and_two_after() {
    let source = "l1\nl2\nl3\nl4\nl5\nl6\nl7\nl8\n";
    let got = get_error_context(source, &span(4, 0, 4));
    let want = "   3 | l3\n   4 | l4\n Err:| ^\n   5 | l5\n   6 | l6\n";
    assert_eq!(got, want);
}

#[test]
fn excerpt_of_a_span_over_several_lines_ends_two_lines_after_its_end() {
    let source = "l1\nl2\nl3\nl4\nl5\nl6\nl7\nl8\n";
    let got = get_error_context(source, &span(2, 1, 4));
    let want = "   1 | l1\n   2 | l2\n Err:|  ^\n   3 | l3\n   4 | l4\n   5 | l5\n   6 | l6\n";
    assert_eq!(got, want);
}

#[test]
fn excerpt_at_the_first_line() {
    let got = get_error_context("a\nb\nc\nd\n", &span(1, 0, 1));
    assert_eq!(got, "   1 | a\n Err:| ^\n   2 | b\n   3 | c\n");
}

#[test]
fn a_span_at_line_zero_shows_the_first_lines_without_marker() {
    let got = get_error_context("a\nb\nc\nd\n", &span(0, 0, 0));
    assert_eq!(got, "   1 | a\n   2 | b\n");
}

#[test]
fn line_numbers_wider_than_four_columns_are_not_cut() {
    let mut source = String::new();
    for _ in 0..10001 {
        source.push_str("x\n");
    }
    let got = get_error_context(&source, &span(10000, 0, 10000));
    assert_eq!(got, "9999 | x\n10000 | x\n Err:|  ^\n10001 | x\n");
}

#[test]
fn a_span_outside_the_source_gives_an_empty_excerpt() {
    assert_eq!(get_error_context("a\nb\n", &span(10, 0, 10)), "");
    assert_eq!(get_error_context("", &span(1, 0, 1)), "");
    assert_eq!(get_error_context("a\n", &span(usize::MAX, usize::MAX, usize::MAX)), "");
}

#[test]
fn carriage_returns_before_line_feeds_are_not_shown() {
    let got = get_error_context("a\r\nb\r\n", &span(1, 2, 1));
    assert_eq!(got, "   1 | a\n Err:|   ^\n   2 | b\n");
}

#[test]
fn the_caret_stands_under_the_column_of_the_error() {
    for (source, line, column) in [
        ("ab", 1, 0),
        ("ab", 1, 1),
        ("fn main() {\n    let x = ;\n}\n", 2, 12),
        ("a\nb\nlong line here\n", 3, 5),
    ] {
        let got = get_error_context(source, &span(line, column, line));
        let rows: Vec<&str> = got.lines().collect();
        let at = rows.iter().position(|row| row.starts_with(" Err:|")).unwrap();
        let marker = rows[at];
        let above = rows[at - 1];
        let text = source.lines().nth(line - 1).unwrap();
        assert_eq!(marker.find('^'), Some(7 + column), "{source:?}");
        assert_eq!(marker.matches('^').count(), 1);
        assert_eq!(&above[7..], text);
        assert_eq!(above[7 + column..].chars().next(), text[column..].chars().next());
        assert_eq!(rows.iter().filter(|row| row.starts_with(" Err:|")).count(), 1);
    }
}

#[test]
fn the_caret_follows_a_number_wider_than_four_columns() {
    let mut source = String::new();
    for _ in 0..12345 {
        source.push_str("xyz\n");
    }
    let got = get_error_context(&source, &span(12345, 2, 12345));
    assert_eq!(got, "12344 | xyz\n12345 | xyz\n Err:|    ^\n");
}
