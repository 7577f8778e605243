use rlox::token::{is_alpha, is_alpha_numeric, try_keyword, Literal, Scanner, Token, TokenType};

fn scan(src: &str) -> (Vec<Token>, Vec<rlox::token::ScanError>) {
    Scanner::new(src.to_string()).scan_tokens()
}

fn types_of(src: &str) -> Vec<TokenType> {
    scan(src).0.iter().map(|t| t.token_type).collect()
}

#[test]
fn scans_a_variable_declaration() {
    let (tokens, errors) = scan("var x = 1;");
    assert!(errors.is_empty());
    let types: Vec<TokenType> = tokens.iter().map(|t| t.token_type).collect();
    assert_eq!(
        types,
        vec![
            TokenType::Var,
            TokenType::Identifier,
            TokenType::Equal,
            TokenType::Number,
            TokenType::Semicolon,
            TokenType::Eof
        ]
    );
    assert_eq!(tokens[1].lexeme, "x");
    assert!(matches!(&tokens[3].literal, Some(Literal::Number(n)) if n == "1"));
}

#[test]
fn ends_with_eof_on_empty_source() {
    let (tokens, errors) = scan("");
    assert!(errors.is_empty());
    assert_eq!(tokens.len(), 1);
    assert_eq!(tokens[0].token_type, TokenType::Eof);
    assert_eq!(tokens[0].lexeme, "");
    assert_eq!(tokens[0].line, 1);
}

#[test]
fn scans_one_and_two_character_operators() {
    assert_eq!(
        types_of("! != = == < <= > >= / ? : ( ) { } , . - + ; *"),
        vec![
            TokenType::Bang,
            TokenType::BangEqual,
            TokenType::Equal,
            TokenType::EqualEqual,
            TokenType::Less,
            TokenType::LessEqual,
            TokenType::Greater,
            TokenType::GreaterEqual,
            TokenType::Slash,
            TokenType::Question,
            TokenType::Colon,
            TokenType::LeftParen,
            TokenType::RightParen,
            TokenType::LeftBrace,
            TokenType::RightBrace,
            TokenType::Comma,
            TokenType::Dot,
            TokenType::Minus,
            TokenType::Plus,
            TokenType::Semicolon,
            TokenType::Star,
            TokenType::Eof
        ]
    );
}

#[test]
fn keywords_and_identifiers() {
    let (tokens, _) = scan("and class else false for fun if nil or print return super this true var while break orchid _x1");
    let types: Vec<TokenType> = tokens.iter().map(|t| t.token_type).collect();
    assert_eq!(
        types,
        vec![
            TokenType::And,
            TokenType::Class,
            TokenType::Else,
            TokenType::False,
            TokenType::For,
            TokenType::Fun,
            TokenType::If,
            TokenType::Nil,
            TokenType::Or,
            TokenType::Print,
            TokenType::Return,
            TokenType::Super,
            TokenType::This,
            TokenType::True,
            TokenType::Var,
            TokenType::While,
            TokenType::Break,
            TokenType::Identifier,
            TokenType::Identifier,
            TokenType::Eof
        ]
    );
    assert!(matches!(tokens[3].literal, Some(Literal::Boolean(false))));
    assert!(matches!(tokens[7].literal, Some(Literal::Nil)));
    assert!(matches!(tokens[13].literal, Some(Literal::Boolean(true))));
    assert!(tokens[17].literal.is_none());
    assert_eq!(tokens[17].lexeme, "orchid");
    assert_eq!(tokens[18].lexeme, "_x1");
}

#[test]
fn numbers_keep_their_text() {
    let (tokens, errors) = scan("12 3.25 4. .5");
    assert!(errors.is_empty());
    let types: Vec<TokenType> = tokens.iter().map(|t| t.token_type).collect();
    assert_eq!(
        types,
        vec![
            TokenType::Number,
            TokenType::Number,
            TokenType::Number,
            TokenType::Dot,
            TokenType::Dot,
            TokenType::Number,
            TokenType::Eof
        ]
    );
    assert!(matches!(&tokens[0].literal, Some(Literal::Number(n)) if n == "12"));
    assert!(matches!(&tokens[1].literal, Some(Literal::Number(n)) if n == "3.25"));
    assert_eq!(tokens[2].lexeme, "4");
    assert_eq!(tokens[5].lexeme, "5");
}

#[test]
fn strings_span_lines() {
    let (tokens, errors) = scan("\"one\ntwo\" x");
    assert!(errors.is_empty());
    assert_eq!(tokens[0].token_type, TokenType::String);
    assert_eq!(tokens[0].lexeme, "\"one\ntwo\"");
    assert!(matches!(&tokens[0].literal, Some(Literal::String(s)) if s == "one\ntwo"));
    assert_eq!(tokens[0].line, 2);
    assert_eq!(tokens[1].line, 2);
    assert_eq!(tokens[2].token_type, TokenType::Eof);
    assert_eq!(tokens[2].line, 2);
}

#[test]
fn comments_are_skipped() {
    let (tokens, errors) = scan("a // rest of line\n/* two\nlines */ b");
    assert!(errors.is_empty());
    assert_eq!(tokens.len(), 3);
    assert_eq!(tokens[0].lexeme, "a");
    assert_eq!(tokens[0].line, 1);
    assert_eq!(tokens[1].lexeme, "b");
    assert_eq!(tokens[1].line, 3);
}

#[test]
fn reports_unterminated_string() {
    let (tokens, errors) = scan("\"abc");
    assert_eq!(errors.len(), 1);
    assert_eq!(errors[0].message, "Unterminated string");
    assert_eq!(errors[0].line, 1);
    assert_eq!(tokens.len(), 1);
}

#[test]
fn reports_unterminated_comment() {
    let (tokens, errors) = scan("/* never\nclosed");
    assert_eq!(errors.len(), 1);
    assert_eq!(errors[0].message, "Unterminated multi-line comment");
    assert_eq!(errors[0].line, 2);
    assert_eq!(tokens.len(), 1);
}

#[test]
fn reports_unexpected_character_and_goes_on() {
    let (tokens, errors) = scan("a @ b");
    assert_eq!(errors.len(), 1);
    assert_eq!(errors[0].message, "Unexpected character");
    let types: Vec<TokenType> = tokens.iter().map(|t| t.token_type).collect();
    assert_eq!(types, vec![TokenType::Identifier, TokenType::Identifier, TokenType::Eof]);
}

#[test]
fn lines_count_newlines() {
    let (tokens, _) = scan("a\nb\n\nc");
    let lines: Vec<usize> = tokens.iter().map(|t| t.line).collect();
    assert_eq!(lines, vec![1, 2, 4, 4]);
}

#[test]
fn character_classes() {
    assert!(is_alpha('a'));
    assert!(is_alpha('Z'));
    assert!(is_alpha('_'));
    assert!(!is_alpha('1'));
    assert!(!is_alpha(' '));
    assert!(is_alpha_numeric('7'));
    assert!(is_alpha_numeric('q'));
    assert!(!is_alpha_numeric('-'));
}

#[test]
fn keyword_lookup() {
    assert_eq!(try_keyword("while"), Some(TokenType::While));
    assert_eq!(try_keyword("break"), Some(TokenType::Break));
    assert_eq!(try_keyword("nil"), Some(TokenType::Nil));
    assert_eq!(try_keyword("whilst"), None);
    assert_eq!(try_keyword(""), None);
}

#[test]
fn token_and_literal_text() {
    let (tokens, _) = scan("12 \"s\" true x");
    assert_eq!(tokens[0].to_string(), "Number 12 12");
    assert_eq!(tokens[1].to_string(), "String \"s\" \"s\"");
    assert_eq!(tokens[2].to_string(), "True true true");
    assert_eq!(tokens[3].to_string(), "Identifier x");
    assert_eq!(tokens[4].to_string(), "Eof ");
    assert_eq!(Literal::Nil.to_string(), "nil");
    assert_eq!(TokenType::LeftParen.name(), "LeftParen");
}

#[test]
fn truthiness() {
    assert!(!Literal::Nil.is_truthy());
    assert!(!Literal::Boolean(false).is_truthy());
    assert!(Literal::Boolean(true).is_truthy());
    assert!(Literal::Number("0".to_string()).is_truthy());
    assert!(Literal::String(String::new()).is_truthy());
}

#[test]
fn scans_the_remainder_operator() {
    let (tokens, errors) = scan("7 % 2");
    assert!(errors.is_empty());
    assert_eq!(tokens.len(), 4);
    assert_eq!(tokens[0].token_type, TokenType::Number);
    assert!(matches!(&tokens[0].literal, Some(Literal::Number(n)) if n == "7"));
    assert_eq!(tokens[1].token_type, TokenType::Percent);
    assert_eq!(tokens[1].lexeme, "%");
    assert!(tokens[1].literal.is_none());
    assert_eq!(tokens[2].token_type, TokenType::Number);
    assert_eq!(tokens[3].token_type, TokenType::Eof);
    assert_eq!(types_of("%%"), vec![TokenType::Percent, TokenType::Percent, TokenType::Eof]);
}

#[test]
fn strings_keep_their_unicode_text() {
    let (tokens, errors) = scan("\"héllo\" é");
    assert_eq!(tokens.len(), 2);
    assert_eq!(tokens[0].token_type, TokenType::String);
    assert_eq!(tokens[0].lexeme, "\"héllo\"");
    assert!(matches!(&tokens[0].literal, Some(Literal::String(s)) if s == "héllo"));
    // each byte of a character outside a string is unexpected
    assert_eq!(errors.len(), 2);
    assert_eq!(errors[0].message, "Unexpected character");
}

#[test]
fn scans_brackets() {
    assert_eq!(
        types_of("a[0] = [1];"),
        vec![
            TokenType::Identifier,
            TokenType::LeftBracket,
            TokenType::Number,
            TokenType::RightBracket,
            TokenType::Equal,
            TokenType::LeftBracket,
            TokenType::Number,
            TokenType::RightBracket,
            TokenType::Semicolon,
            TokenType::Eof
        ]
    );
}

#[test]
fn number_tokens_show_their_value() {
    let (tokens, _) = scan("007.50");
    assert_eq!(tokens[0].lexeme, "007.50");
    assert_eq!(tokens[0].to_string(), "Number 007.50 7.5");
}
