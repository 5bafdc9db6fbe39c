use rust_ast_parser::error_context::ErrorSpan;
use rust_ast_parser::parse::{describe_parse_error, parse_src};

#[test]
fn a_well_formed_unit_is_parsed() {
    let file = parse_src("use a::b;\nfn f() {}\nstruct S;\n").unwrap();
    assert_eq!(file.items.len(), 3);
    assert_eq!(parse_src("").unwrap().items.len(), 0);
}

#[test]
fn a_rejected_unit_is_reported_with_an_excerpt() {
    let message = parse_src("fn main() {\n    let x = ;\n}\n").unwrap_err();
    assert_eq!(
        message,
        "Error: Error(\"expected an expression\")\nContext:\n   1 | fn main() {\n   2 |     let x = ;\n Err:|             ^\n   3 | }\n"
    );
}

#[test]
fn the_message_joins_report_and_excerpt() {
    let span = ErrorSpan { start_line: 1, start_column: 3, end_line: 1 };
    assert_eq!(
        describe_parse_error("abc def\nx\n", "Error(\"bad\")", &span),
        "Error: Error(\"bad\")\nContext:\n   1 | abc def\n Err:|    ^\n   2 | x\n"
    );
}
