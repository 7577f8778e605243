//! The text of the error reports shown to the user.
use crate::parser::ParseError;
use crate::token::{Token, TokenType, TokenV};
use vstd::prelude::*;
use vstd::string::StringExecFns;

verus! {

/// The text of a decimal digit.
pub open spec fn digit_text(d: nat) -> Seq<char> {
    if d == 0 {
        "0"@
    } else if d == 1 {
        "1"@
    } else if d == 2 {
        "2"@
    } else if d == 3 {
        "3"@
    } else if d == 4 {
        "4"@
    } else if d == 5 {
        "5"@
    } else if d == 6 {
        "6"@
    } else if d == 7 {
        "7"@
    } else if d == 8 {
        "8"@
    } else {
        "9"@
    }
}

/// A number written in decimal, without leading zeros.
pub open spec fn decimal(n: nat) -> Seq<char>
    decreases n,
{
    if n < 10 {
        digit_text(n)
    } else {
        decimal(n / 10) + digit_text(n % 10)
    }
}

fn digit(d: usize) -> (r: &'static str)
    requires
        d < 10,
    ensures
        r@ == digit_text(d as nat),
{
    if d == 0 {
        "0"
    } else if d == 1 {
        "1"
    } else if d == 2 {
        "2"
    } else if d == 3 {
        "3"
    } else if d == 4 {
        "4"
    } else if d == 5 {
        "5"
    } else if d == 6 {
        "6"
    } else if d == 7 {
        "7"
    } else if d == 8 {
        "8"
    } else {
        "9"
    }
}

/// `n` written in decimal.
pub fn decimal_text(n: usize) -> (r: String)
    ensures
        r@ == decimal(n as nat),
    decreases n,
{
    if n < 10 {
        String::from_str(digit(n))
    } else {
        let mut s = decimal_text(n / 10);
        s.append(digit(n % 10));
        s
    }
}

/// Where a syntax error is reported: at the end, or at the lexeme of the
/// token where it was found.
pub open spec fn error_place(token: TokenV) -> Seq<char> {
    if token.token_type == TokenType::Eof {
        " at end"@
    } else {
        " at '"@ + token.lexeme + "'"@
    }
}

/// `[line N] Error<place>: <message>`
pub open spec fn report_text(line: nat, place: Seq<char>, message: Seq<char>) -> Seq<char> {
    "[line "@ + decimal(line) + "] Error"@ + place + ": "@ + message
}

/// The line reporting an error found on `line`.
pub fn report(line: usize, place: &str, message: &str) -> (r: String)
    ensures
        r@ == report_text(line as nat, place@, message@),
{
    let mut text = String::from_str("[line ");
    let number = decimal_text(line);
    text.append(number.as_str());
    text.append("] Error");
    text.append(place);
    text.append(": ");
    text.append(message);
    text
}

/// Where the syntax error at `token` is reported.
pub fn parse_error_place(token: &Token) -> (r: String)
    ensures
        r@ == error_place(token@),
{
    if token.token_type == TokenType::Eof {
        String::from_str(" at end")
    } else {
        String::from_str(" at '").concat(token.lexeme.as_str()).concat("'")
    }
}

/// The line reporting a syntax error.
pub fn report_parse_error(err: &ParseError) -> (r: String)
    ensures
        r@ == report_text(err.token.line as nat, error_place(err.token@), err.message@),
{
    let place = parse_error_place(&err.token);
    report(err.token.line, place.as_str(), err.message.as_str())
}

} // verus!
