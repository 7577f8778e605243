use rlox::parser::Parser;
use rlox::report::{decimal_text, parse_error_place, report, report_parse_error};
use rlox::token::Scanner;

#[test]
fn decimal_numbers() {
    assert_eq!(decimal_text(0), "0");
    assert_eq!(decimal_text(7), "7");
    assert_eq!(decimal_text(1204), "1204");
}

#[test]
fn report_lines() {
    assert_eq!(report(12, "", "Unexpected character"), "[line 12] Error: Unexpected character");
    assert_eq!(report(3, " at end", "Expect ';'."), "[line 3] Error at end: Expect ';'.");
}

#[test]
fn parse_errors_are_reported_at_their_token() {
    let (tokens, _) = Scanner::new("var 1;\nprint 2".to_string()).scan_tokens();
    let (_, errors) = Parser::new(&tokens).parse();
    assert_eq!(errors.len(), 2);
    assert_eq!(parse_error_place(&errors[0].token), " at '1'");
    assert_eq!(report_parse_error(&errors[0]), "[line 1] Error at '1': Expect variable name.");
    assert_eq!(report_parse_error(&errors[1]), "[line 2] Error at end: Expect ';' after value.");
}
