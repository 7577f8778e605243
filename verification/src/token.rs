use vstd::prelude::*;
use vstd::string::StringExecFns;
use vstd::slice::slice_subrange;
use vstd::string::to_string_from_display_ensures_for_str;
use vstd::string::StrSliceExecFns;
use vstd::utf8::{
    decode_utf8, encode_utf8, encode_utf8_valid_utf8, is_char_boundary,
    is_char_boundary_iff_not_is_continuation_byte, is_char_boundary_start_end_of_seq,
    is_continuation_byte, length_of_first_scalar, pop_first_scalar, valid_first_scalar, valid_utf8,
    valid_utf8_split,
};

verus! {

broadcast use to_string_from_display_ensures_for_str;

/// The kinds of lexemes that the scanner recognises.
#[derive(Debug, Clone, Copy, PartialEq, Eq, Structural)]
pub enum TokenType {
    // Single character
    LeftParen,
    RightParen,
    LeftBrace,
    RightBrace,
    LeftBracket,
    RightBracket,
    Comma,
    Dot,
    Minus,
    Plus,
    Semicolon,
    Slash,
    Star,
    Percent,
    Question,
    Colon,
    // One or two characters
    Bang,
    BangEqual,
    Equal,
    EqualEqual,
    Greater,
    GreaterEqual,
    Less,
    LessEqual,
    Identifier,
    // Literals
    String,
    Number,
    // Keywords
    And,
    Class,
    Else,
    False,
    Fun,
    For,
    If,
    Nil,
    Or,
    Print,
    Return,
    Super,
    This,
    True,
    Var,
    While,
    Break,
    Eof,
}

/// A literal value written in the source.
///
/// A number keeps the text it was written with; reading that text as a
/// 64-bit float is left to the evaluator.
#[derive(Debug)]
pub enum Literal {
    Number(String),
    String(String),
    Boolean(bool),
    Nil,
}

/// The mathematical model of a [`Literal`].
pub enum LiteralV {
    Number(Seq<char>),
    Str(Seq<char>),
    Boolean(bool),
    Nil,
}

impl View for Literal {
    type V = LiteralV;

    open spec fn view(&self) -> LiteralV {
        match self {
            Literal::Number(s) => LiteralV::Number(s@),
            Literal::String(s) => LiteralV::Str(s@),
            Literal::Boolean(b) => LiteralV::Boolean(*b),
            Literal::Nil => LiteralV::Nil,
        }
    }
}

impl Clone for Literal {
    fn clone(&self) -> (r: Self)
        ensures
            r == *self,
    {
        match self {
            Literal::Number(s) => Literal::Number(s.clone()),
            Literal::String(s) => Literal::String(s.clone()),
            Literal::Boolean(b) => Literal::Boolean(*b),
            Literal::Nil => Literal::Nil,
        }
    }
}

/// Lox follows Ruby's rule: `false` and `nil` are falsey, everything else is truthy.
pub open spec fn literal_truthy(l: LiteralV) -> bool {
    match l {
        LiteralV::Nil => false,
        LiteralV::Boolean(b) => b,
        _ => true,
    }
}

impl Literal {
    /// Lox follows Ruby's simple rule: false and nil are falsey, and everything else is truthy.
    pub fn is_truthy(&self) -> (r: bool)
        ensures
            r == literal_truthy(self@),
    {
        match self {
            Literal::Nil => false,
            Literal::Boolean(v) => *v,
            _ => true,
        }
    }
}

/// Where the first `.` of `s` at or after `i` stands, or the length of `s`.
pub open spec fn point_index(s: Seq<char>, i: nat) -> nat
    decreases s.len() - i,
{
    if i >= s.len() || s[i as int] == '.' {
        i
    } else {
        point_index(s, i + 1)
    }
}

/// `s` without leading zeros, keeping at least one digit.
pub open spec fn trim_leading_zeros(s: Seq<char>) -> Seq<char>
    decreases s.len(),
{
    if s.len() > 1 && s[0] == '0' {
        trim_leading_zeros(s.drop_first())
    } else {
        s
    }
}

/// `s` without trailing zeros.
pub open spec fn trim_trailing_zeros(s: Seq<char>) -> Seq<char>
    decreases s.len(),
{
    if s.len() > 0 && s.last() == '0' {
        trim_trailing_zeros(s.drop_last())
    } else {
        s
    }
}

/// How the value of the number literal `s` prints: its integer part without
/// leading zeros, then, if its fractional part has any digit but trailing
/// zeros, a point and that part without them (`007.50` shows as `7.5`, `10.0`
/// as `10`).
pub open spec fn number_text(s: Seq<char>) -> Seq<char> {
    let p = point_index(s, 0);
    let int_part = trim_leading_zeros(s.take(p as int));
    let frac = if p < s.len() {
        trim_trailing_zeros(s.subrange(p + 1int, s.len() as int))
    } else {
        Seq::empty()
    };
    if frac.len() == 0 {
        int_part
    } else {
        int_part + seq!['.'] + frac
    }
}

/// The text [`number_text`] describes.
fn number_text_of(s: &str) -> (r: String)
    ensures
        r@ == number_text(s@),
{
    let n = s.unicode_len();
    let mut p: usize = 0;
    while p < n && s.get_char(p) != '.'
        invariant
            n == s@.len(),
            p <= n,
            point_index(s@, 0) == point_index(s@, p as nat),
        decreases n - p,
    {
        p += 1;
    }
    assert(point_index(s@, p as nat) == p);
    let mut a: usize = 0;
    while p - a > 1 && s.get_char(a) == '0'
        invariant
            n == s@.len(),
            p <= n,
            a <= p,
            trim_leading_zeros(s@.take(p as int)) == trim_leading_zeros(
                s@.subrange(a as int, p as int),
            ),
        decreases p - a,
    {
        assert(s@.subrange(a as int, p as int).drop_first() =~= s@.subrange(a + 1, p as int));
        a += 1;
    }
    proof {
        if a == 0 {
            assert(s@.subrange(0, p as int) =~= s@.take(p as int));
        }
    }
    assert(trim_leading_zeros(s@.subrange(a as int, p as int)) == s@.subrange(a as int, p as int));
    let int_part = s.substring_char(a, p);
    if p < n {
        let mut b: usize = n;
        while b > p + 1 && s.get_char(b - 1) == '0'
            invariant
                n == s@.len(),
                p < n,
                p + 1 <= b <= n,
                trim_trailing_zeros(s@.subrange(p + 1, n as int)) == trim_trailing_zeros(
                    s@.subrange(p + 1, b as int),
                ),
            decreases b,
        {
            assert(s@.subrange(p + 1, b as int).drop_last() =~= s@.subrange(p + 1, b - 1));
            b -= 1;
        }
        assert(trim_trailing_zeros(s@.subrange(p + 1, b as int)) == s@.subrange(
            p + 1,
            b as int,
        ));
        if b > p + 1 {
            let frac = s.substring_char(p + 1, b);
            let r = String::from_str(int_part).concat(".").concat(frac);
            proof {
                reveal_strlit(".");
                assert(r@ =~= int_part@ + seq!['.'] + frac@);
            }
            return r;
        }
    }
    String::from_str(int_part)
}

/// How a literal is shown: a number as its value prints (see
/// [`number_text`]), a string between double quotes, a boolean as `true` or
/// `false`, and `nil`.
pub open spec fn literal_text(l: LiteralV) -> Seq<char> {
    match l {
        LiteralV::Number(s) => number_text(s),
        LiteralV::Str(s) => "\""@ + s + "\""@,
        LiteralV::Boolean(b) => if b {
            "true"@
        } else {
            "false"@
        },
        LiteralV::Nil => "nil"@,
    }
}

impl Literal {
    /// The text of the literal, as [`literal_text`] describes it.
    pub fn to_string(&self) -> (r: String)
        ensures
            r@ == literal_text(self@),
    {
        match self {
            Literal::Number(v) => number_text_of(v.as_str()),
            Literal::String(v) => String::from_str("\"").concat(v.as_str()).concat("\""),
            Literal::Boolean(v) => if *v {
                String::from_str("true")
            } else {
                String::from_str("false")
            },
            Literal::Nil => String::from_str("nil"),
        }
    }
}

pub open spec fn option_literal_view(l: Option<Literal>) -> Option<LiteralV> {
    match l {
        Some(x) => Some(x@),
        None => None,
    }
}

/// A lexeme together with its kind, its literal value and the line it ends on.
#[derive(Debug)]
pub struct Token {
    pub token_type: TokenType,
    pub lexeme: String,
    pub literal: Option<Literal>,
    pub line: usize,
}

/// The mathematical model of a [`Token`].
pub struct TokenV {
    pub token_type: TokenType,
    pub lexeme: Seq<char>,
    pub literal: Option<LiteralV>,
    pub line: nat,
}

impl View for Token {
    type V = TokenV;

    open spec fn view(&self) -> TokenV {
        TokenV {
            token_type: self.token_type,
            lexeme: self.lexeme@,
            literal: option_literal_view(self.literal),
            line: self.line as nat,
        }
    }
}

impl Clone for Token {
    fn clone(&self) -> (r: Self)
        ensures
            r == *self,
    {
        let literal = match &self.literal {
            Some(l) => Some(l.clone()),
            None => None,
        };
        Token {
            token_type: self.token_type,
            lexeme: self.lexeme.clone(),
            literal,
            line: self.line,
        }
    }
}


/// The name of a token type, as written in its declaration.
pub open spec fn token_type_name(t: TokenType) -> Seq<char> {
    match t {
        TokenType::LeftParen => "LeftParen"@,
        TokenType::RightParen => "RightParen"@,
        TokenType::LeftBrace => "LeftBrace"@,
        TokenType::RightBrace => "RightBrace"@,
        TokenType::LeftBracket => "LeftBracket"@,
        TokenType::RightBracket => "RightBracket"@,
        TokenType::Comma => "Comma"@,
        TokenType::Dot => "Dot"@,
        TokenType::Minus => "Minus"@,
        TokenType::Plus => "Plus"@,
        TokenType::Semicolon => "Semicolon"@,
        TokenType::Slash => "Slash"@,
        TokenType::Star => "Star"@,
        TokenType::Percent => "Percent"@,
        TokenType::Question => "Question"@,
        TokenType::Colon => "Colon"@,
        TokenType::Bang => "Bang"@,
        TokenType::BangEqual => "BangEqual"@,
        TokenType::Equal => "Equal"@,
        TokenType::EqualEqual => "EqualEqual"@,
        TokenType::Greater => "Greater"@,
        TokenType::GreaterEqual => "GreaterEqual"@,
        TokenType::Less => "Less"@,
        TokenType::LessEqual => "LessEqual"@,
        TokenType::Identifier => "Identifier"@,
        TokenType::String => "String"@,
        TokenType::Number => "Number"@,
        TokenType::And => "And"@,
        TokenType::Class => "Class"@,
        TokenType::Else => "Else"@,
        TokenType::False => "False"@,
        TokenType::Fun => "Fun"@,
        TokenType::For => "For"@,
        TokenType::If => "If"@,
        TokenType::Nil => "Nil"@,
        TokenType::Or => "Or"@,
        TokenType::Print => "Print"@,
        TokenType::Return => "Return"@,
        TokenType::Super => "Super"@,
        TokenType::This => "This"@,
        TokenType::True => "True"@,
        TokenType::Var => "Var"@,
        TokenType::While => "While"@,
        TokenType::Break => "Break"@,
        TokenType::Eof => "Eof"@,
    }
}

impl TokenType {
    /// The name of the token type, as written in its declaration.
    pub fn name(&self) -> (r: &'static str)
        ensures
            r@ == token_type_name(*self),
    {
        match self {
            TokenType::LeftParen => "LeftParen",
            TokenType::RightParen => "RightParen",
            TokenType::LeftBrace => "LeftBrace",
            TokenType::RightBrace => "RightBrace",
            TokenType::LeftBracket => "LeftBracket",
            TokenType::RightBracket => "RightBracket",
            TokenType::Comma => "Comma",
            TokenType::Dot => "Dot",
            TokenType::Minus => "Minus",
            TokenType::Plus => "Plus",
            TokenType::Semicolon => "Semicolon",
            TokenType::Slash => "Slash",
            TokenType::Star => "Star",
            TokenType::Percent => "Percent",
            TokenType::Question => "Question",
            TokenType::Colon => "Colon",
            TokenType::Bang => "Bang",
            TokenType::BangEqual => "BangEqual",
            TokenType::Equal => "Equal",
            TokenType::EqualEqual => "EqualEqual",
            TokenType::Greater => "Greater",
            TokenType::GreaterEqual => "GreaterEqual",
            TokenType::Less => "Less",
            TokenType::LessEqual => "LessEqual",
            TokenType::Identifier => "Identifier",
            TokenType::String => "String",
            TokenType::Number => "Number",
            TokenType::And => "And",
            TokenType::Class => "Class",
            TokenType::Else => "Else",
            TokenType::False => "False",
            TokenType::Fun => "Fun",
            TokenType::For => "For",
            TokenType::If => "If",
            TokenType::Nil => "Nil",
            TokenType::Or => "Or",
            TokenType::Print => "Print",
            TokenType::Return => "Return",
            TokenType::Super => "Super",
            TokenType::This => "This",
            TokenType::True => "True",
            TokenType::Var => "Var",
            TokenType::While => "While",
            TokenType::Break => "Break",
            TokenType::Eof => "Eof",
        }
    }
}

/// How a token is shown: its type, its lexeme and, if it has one, its
/// literal, separated by spaces.
pub open spec fn token_text(t: TokenV) -> Seq<char> {
    match t.literal {
        Some(l) => token_type_name(t.token_type) + " "@ + t.lexeme + " "@ + literal_text(l),
        None => token_type_name(t.token_type) + " "@ + t.lexeme,
    }
}

impl Token {
    /// The text of the token, as [`token_text`] describes it.
    pub fn to_string(&self) -> (r: String)
        ensures
            r@ == token_text(self@),
    {
        let mut text = String::from_str(self.token_type.name());
        text.append(" ");
        text.append(self.lexeme.as_str());
        match &self.literal {
            Some(lit) => {
                let shown = lit.to_string();
                text.append(" ");
                text.append(shown.as_str());
            },
            None => {},
        }
        text
    }

    pub fn new(token_type: TokenType, lexeme: String, literal: Option<Literal>, line: usize) -> (r:
        Self)
        ensures
            r == (Token { token_type, lexeme, literal, line }),
    {
        Token { token_type, lexeme, literal, line }
    }
}

pub open spec fn tokens_view(ts: Seq<Token>) -> Seq<TokenV> {
    ts.map_values(|t: Token| t@)
}

/// An error met while scanning: the line it was found on and what went wrong.
#[derive(Debug)]
pub struct ScanError {
    pub line: usize,
    pub message: String,
}

/// The mathematical model of a [`ScanError`].
pub struct ScanErrorV {
    pub line: nat,
    pub message: Seq<char>,
}

impl View for ScanError {
    type V = ScanErrorV;

    open spec fn view(&self) -> ScanErrorV {
        ScanErrorV { line: self.line as nat, message: self.message@ }
    }
}

pub open spec fn errors_view(es: Seq<ScanError>) -> Seq<ScanErrorV> {
    es.map_values(|e: ScanError| e@)
}

// ---------------------------------------------------------------------------
// Character classes and keywords
pub open spec fn spec_is_alpha(c: char) -> bool {
    ('a' <= c && c <= 'z') || ('A' <= c && c <= 'Z') || c == '_'
}

pub open spec fn spec_is_digit(c: char) -> bool {
    '0' <= c && c <= '9'
}

pub open spec fn spec_is_alpha_numeric(c: char) -> bool {
    spec_is_alpha(c) || spec_is_digit(c)
}

/// Whether `c` may start an identifier: an ASCII letter or an underscore.
pub fn is_alpha(c: char) -> (r: bool)
    ensures
        r == spec_is_alpha(c),
{
    ('a' <= c && c <= 'z') || ('A' <= c && c <= 'Z') || c == '_'
}

fn is_digit(c: char) -> (r: bool)
    ensures
        r == spec_is_digit(c),
{
    '0' <= c && c <= '9'
}

/// Whether `c` may continue an identifier: an ASCII letter, digit or underscore.
pub fn is_alpha_numeric(c: char) -> (r: bool)
    ensures
        r == spec_is_alpha_numeric(c),
{
    is_alpha(c) || is_digit(c)
}

/// The reserved words of Lox and the token type of each.
pub open spec fn keyword_type(s: Seq<char>) -> Option<TokenType> {
    if s == "and"@ {
        Some(TokenType::And)
    } else if s == "class"@ {
        Some(TokenType::Class)
    } else if s == "else"@ {
        Some(TokenType::Else)
    } else if s == "false"@ {
        Some(TokenType::False)
    } else if s == "for"@ {
        Some(TokenType::For)
    } else if s == "fun"@ {
        Some(TokenType::Fun)
    } else if s == "if"@ {
        Some(TokenType::If)
    } else if s == "nil"@ {
        Some(TokenType::Nil)
    } else if s == "or"@ {
        Some(TokenType::Or)
    } else if s == "print"@ {
        Some(TokenType::Print)
    } else if s == "return"@ {
        Some(TokenType::Return)
    } else if s == "super"@ {
        Some(TokenType::Super)
    } else if s == "this"@ {
        Some(TokenType::This)
    } else if s == "true"@ {
        Some(TokenType::True)
    } else if s == "var"@ {
        Some(TokenType::Var)
    } else if s == "while"@ {
        Some(TokenType::While)
    } else if s == "break"@ {
        Some(TokenType::Break)
    } else {
        None
    }
}

/// Whether two strings hold the same characters, compared one by one.
pub(crate) fn str_equals(a: &str, b: &str) -> (r: bool)
    ensures
        r == (a@ == b@),
{
    let n = a.unicode_len();
    if n != b.unicode_len() {
        return false;
    }
    let mut i: usize = 0;
    while i < n
        invariant
            n == a@.len(),
            n == b@.len(),
            0 <= i <= n,
            forall|k: int| 0 <= k < i ==> a@[k] == b@[k],
        decreases n - i,
    {
        if a.get_char(i) != b.get_char(i) {
            return false;
        }
        i += 1;
    }
    assert(a@ =~= b@);
    true
}

/// The token type of a reserved word, or `None` for any other text.
pub fn try_keyword(keyword_str: &str) -> (r: Option<TokenType>)
    ensures
        r == keyword_type(keyword_str@),
{
    if str_equals(keyword_str, "and") {
        Some(TokenType::And)
    } else if str_equals(keyword_str, "class") {
        Some(TokenType::Class)
    } else if str_equals(keyword_str, "else") {
        Some(TokenType::Else)
    } else if str_equals(keyword_str, "false") {
        Some(TokenType::False)
    } else if str_equals(keyword_str, "for") {
        Some(TokenType::For)
    } else if str_equals(keyword_str, "fun") {
        Some(TokenType::Fun)
    } else if str_equals(keyword_str, "if") {
        Some(TokenType::If)
    } else if str_equals(keyword_str, "nil") {
        Some(TokenType::Nil)
    } else if str_equals(keyword_str, "or") {
        Some(TokenType::Or)
    } else if str_equals(keyword_str, "print") {
        Some(TokenType::Print)
    } else if str_equals(keyword_str, "return") {
        Some(TokenType::Return)
    } else if str_equals(keyword_str, "super") {
        Some(TokenType::Super)
    } else if str_equals(keyword_str, "this") {
        Some(TokenType::This)
    } else if str_equals(keyword_str, "true") {
        Some(TokenType::True)
    } else if str_equals(keyword_str, "var") {
        Some(TokenType::Var)
    } else if str_equals(keyword_str, "while") {
        Some(TokenType::While)
    } else if str_equals(keyword_str, "break") {
        Some(TokenType::Break)
    } else {
        None
    }
}

// ---------------------------------------------------------------------------
// Text of a lexeme
/// Calls `String::from_utf8_lossy`: on bytes that are valid UTF-8 it gives
/// their decoding, as the function's documentation states (it replaces only
/// invalid sequences).
#[verifier::external_body]
fn text_of(bytes: &[u8]) -> (s: String)
    requires
        valid_utf8(bytes@),
    ensures
        s@ == decode_utf8(bytes@),
{
    String::from_utf8_lossy(bytes).into_owned()
}

/// A position of the source that an ASCII byte starts or ends.
pub open spec fn ascii_edge(src: Seq<u8>, i: int) -> bool {
    ||| i == 0
    ||| i == src.len()
    ||| (0 <= i < src.len() && src[i] < 128)
    ||| (0 < i <= src.len() && src[i - 1] < 128)
}

/// In valid UTF-8, a position next to an ASCII byte is a character boundary.
proof fn lemma_ascii_edge_boundary(src: Seq<u8>, i: int)
    requires
        valid_utf8(src),
        0 <= i <= src.len(),
        ascii_edge(src, i),
    ensures
        is_char_boundary(src, i),
{
    is_char_boundary_start_end_of_seq(src);
    if i == 0 || i == src.len() {
    } else if src[i] < 128 {
        is_char_boundary_iff_not_is_continuation_byte(src, i);
    } else {
        is_char_boundary_iff_not_is_continuation_byte(src, i - 1);
        valid_utf8_split(src, i - 1);
        let u = src.subrange(i - 1, src.len() as int);
        assert(valid_utf8(u));
        assert(u[0] == src[i - 1]);
        assert(length_of_first_scalar(u) == 1);
        let w = pop_first_scalar(u);
        assert(w =~= src.subrange(i, src.len() as int));
        assert(valid_utf8(w));
        assert(w[0] == src[i]);
        assert(valid_first_scalar(w));
        assert(!is_continuation_byte(src[i]));
        is_char_boundary_iff_not_is_continuation_byte(src, i);
    }
}

/// Bytes that are all ASCII are valid UTF-8 and decode to the characters
/// with the same codes, so the text of a lexeme made of ASCII bytes is known.
pub proof fn lemma_decode_ascii(bytes: Seq<u8>)
    requires
        forall|i: int| 0 <= i < bytes.len() ==> bytes[i] < 128,
    ensures
        valid_utf8(bytes),
        decode_utf8(bytes) == bytes.map_values(|b: u8| b as char),
    decreases bytes.len(),
{
    if bytes.len() > 0 {
        let rest = bytes.subrange(1, bytes.len() as int);
        lemma_decode_ascii(rest);
        let b = bytes[0];
        assert(b < 128 ==> (b & 0x7F) as u32 == b as u32) by (bit_vector);
        assert(length_of_first_scalar(bytes) == 1);
        assert(pop_first_scalar(bytes) =~= rest);
        assert(valid_first_scalar(bytes));
        assert(decode_utf8(bytes) =~= seq![b as char] + decode_utf8(rest));
        assert(bytes.map_values(|b: u8| b as char) =~= seq![b as char] + rest.map_values(
            |b: u8| b as char,
        ));
    } else {
        assert(bytes.map_values(|b: u8| b as char) =~= Seq::<char>::empty());
    }
}

/// In valid UTF-8, the bytes between two positions next to ASCII bytes are
/// valid UTF-8.
proof fn lemma_ascii_slice_valid(src: Seq<u8>, s: int, e: int)
    requires
        valid_utf8(src),
        0 <= s <= e <= src.len(),
        ascii_edge(src, s),
        ascii_edge(src, e),
    ensures
        valid_utf8(src.subrange(s, e)),
{
    lemma_ascii_edge_boundary(src, e);
    valid_utf8_split(src, e);
    let t = src.subrange(0, e);
    assert(valid_utf8(t));
    if s == e {
        assert(src.subrange(s, e).len() == 0);
    } else {
        assert(ascii_edge(t, s));
        lemma_ascii_edge_boundary(t, s);
        valid_utf8_split(t, s);
        assert(t.subrange(s, t.len() as int) =~= src.subrange(s, e));
    }
}

// ---------------------------------------------------------------------------
// The lexical grammar
/// The number of line breaks in `s`.
pub open spec fn newlines(s: Seq<u8>) -> nat
    decreases s.len(),
{
    if s.len() == 0 {
        0
    } else {
        newlines(s.drop_last()) + (if s.last() == 10u8 {
            1nat
        } else {
            0nat
        })
    }
}

/// The line on which the byte before position `i` stands: lines count from 1.
pub open spec fn line_at(src: Seq<u8>, i: int) -> nat {
    1 + newlines(src.take(i))
}

pub open spec fn byte_is(src: Seq<u8>, i: int, c: char) -> bool {
    0 <= i < src.len() && src[i] as char == c
}

/// Classes of bytes that the scanner reads runs of.
pub enum ByteClass {
    NotNewline,
    NotQuote,
    Digit,
    AlphaNumeric,
}

pub open spec fn in_class(b: u8, k: ByteClass) -> bool {
    match k {
        ByteClass::NotNewline => b as char != '\n',
        ByteClass::NotQuote => b as char != '"',
        ByteClass::Digit => spec_is_digit(b as char),
        ByteClass::AlphaNumeric => spec_is_alpha_numeric(b as char),
    }
}

/// The first position at or after `i` whose byte is not of class `k` (or the end).
pub open spec fn span_while(src: Seq<u8>, i: int, k: ByteClass) -> int
    decreases src.len() - i,
{
    if 0 <= i < src.len() && in_class(src[i], k) {
        span_while(src, i + 1, k)
    } else {
        i
    }
}

/// The first position at or after `i` where `*/` begins (or the end).
pub open spec fn comment_close(src: Seq<u8>, i: int) -> int
    decreases src.len() - i,
{
    if i < 0 || i >= src.len() {
        i
    } else if src[i] as char == '*' && byte_is(src, i + 1, '/') {
        i
    } else {
        comment_close(src, i + 1)
    }
}

/// The end of a number literal that starts at `s`: digits, then optionally
/// a dot followed by at least one digit and more digits.
pub open spec fn number_end(src: Seq<u8>, s: int) -> int {
    let j = span_while(src, s + 1, ByteClass::Digit);
    if byte_is(src, j, '.') && j + 1 < src.len() && spec_is_digit(src[j + 1] as char) {
        span_while(src, j + 1, ByteClass::Digit)
    } else {
        j
    }
}

/// What one lexeme turns into.
pub enum LexKind {
    /// A token whose type the lexeme fixes and that carries no literal.
    Simple(TokenType),
    /// An identifier or a reserved word.
    Word,
    Number,
    Str,
    /// Blank space or a comment.
    Skip,
    /// An error with this message.
    Fail(Seq<char>),
}

/// One lexeme: where it ends and what it turns into.
pub struct LexStep {
    pub end: int,
    pub kind: LexKind,
}

pub open spec fn one(s: int, t: TokenType) -> LexStep {
    LexStep { end: s + 1, kind: LexKind::Simple(t) }
}

pub open spec fn one_or_two(src: Seq<u8>, s: int, two: TokenType, single: TokenType) -> LexStep {
    if byte_is(src, s + 1, '=') {
        LexStep { end: s + 2, kind: LexKind::Simple(two) }
    } else {
        one(s, single)
    }
}

/// The lexeme that starts at position `s` of the source.
pub open spec fn lex_step(src: Seq<u8>, s: int) -> LexStep {
    let c = src[s] as char;
    if c == '(' {
        one(s, TokenType::LeftParen)
    } else if c == ')' {
        one(s, TokenType::RightParen)
    } else if c == '{' {
        one(s, TokenType::LeftBrace)
    } else if c == '}' {
        one(s, TokenType::RightBrace)
    } else if c == '[' {
        one(s, TokenType::LeftBracket)
    } else if c == ']' {
        one(s, TokenType::RightBracket)
    } else if c == ',' {
        one(s, TokenType::Comma)
    } else if c == '.' {
        one(s, TokenType::Dot)
    } else if c == '-' {
        one(s, TokenType::Minus)
    } else if c == '+' {
        one(s, TokenType::Plus)
    } else if c == ';' {
        one(s, TokenType::Semicolon)
    } else if c == '*' {
        one(s, TokenType::Star)
    } else if c == '%' {
        one(s, TokenType::Percent)
    } else if c == '?' {
        one(s, TokenType::Question)
    } else if c == ':' {
        one(s, TokenType::Colon)
    } else if c == '=' {
        one_or_two(src, s, TokenType::EqualEqual, TokenType::Equal)
    } else if c == '!' {
        one_or_two(src, s, TokenType::BangEqual, TokenType::Bang)
    } else if c == '<' {
        one_or_two(src, s, TokenType::LessEqual, TokenType::Less)
    } else if c == '>' {
        one_or_two(src, s, TokenType::GreaterEqual, TokenType::Greater)
    } else if c == '/' {
        if byte_is(src, s + 1, '/') {
            LexStep { end: span_while(src, s + 2, ByteClass::NotNewline), kind: LexKind::Skip }
        } else if byte_is(src, s + 1, '*') {
            let j = comment_close(src, s + 2);
            if j < src.len() {
                LexStep { end: j + 2, kind: LexKind::Skip }
            } else {
                LexStep {
                    end: src.len() as int,
                    kind: LexKind::Fail("Unterminated multi-line comment"@),
                }
            }
        } else {
            one(s, TokenType::Slash)
        }
    } else if c == ' ' || c == '\r' || c == '\t' || c == '\n' {
        LexStep { end: s + 1, kind: LexKind::Skip }
    } else if c == '"' {
        let j = span_while(src, s + 1, ByteClass::NotQuote);
        if j < src.len() {
            LexStep { end: j + 1, kind: LexKind::Str }
        } else {
            LexStep { end: src.len() as int, kind: LexKind::Fail("Unterminated string"@) }
        }
    } else if spec_is_digit(c) {
        LexStep { end: number_end(src, s), kind: LexKind::Number }
    } else if spec_is_alpha(c) {
        LexStep { end: span_while(src, s + 1, ByteClass::AlphaNumeric), kind: LexKind::Word }
    } else {
        LexStep { end: s + 1, kind: LexKind::Fail("Unexpected character"@) }
    }
}

/// Blank space is skipped: a space, carriage return, tab or line break is a
/// one-byte lexeme that yields no token and no error, so scanning from it
/// gives exactly what scanning from the next byte gives.
pub proof fn lemma_whitespace_skipped(src: Seq<u8>, s: int)
    requires
        0 <= s < src.len(),
        src[s] as char == ' ' || src[s] as char == '\r' || src[s] as char == '\t' || src[s] as char
            == '\n',
    ensures
        lex_step(src, s) == (LexStep { end: s + 1, kind: LexKind::Skip }),
        emitted(src, s, lex_step(src, s)) == Seq::<TokenV>::empty(),
        failed(src, lex_step(src, s)) == Seq::<ScanErrorV>::empty(),
        scan_from(src, s) == scan_from(src, s + 1),
{
    let r = scan_from(src, s + 1);
    assert(Seq::<TokenV>::empty() + r.0 =~= r.0);
    assert(Seq::<ScanErrorV>::empty() + r.1 =~= r.1);
}

/// Each punctuation character is a token of its own, and `=`, `!`, `<` and
/// `>` take a following `=` into a two-character token.
pub proof fn lemma_punctuation(src: Seq<u8>, s: int)
    requires
        0 <= s < src.len(),
    ensures
        ({
            let c = src[s] as char;
            let single = |t: TokenType| LexStep { end: s + 1, kind: LexKind::Simple(t) };
            let pair = |two: TokenType, one: TokenType|
                if byte_is(src, s + 1, '=') {
                    LexStep { end: s + 2, kind: LexKind::Simple(two) }
                } else {
                    LexStep { end: s + 1, kind: LexKind::Simple(one) }
                };
            &&& c == '(' ==> lex_step(src, s) == single(TokenType::LeftParen)
            &&& c == ')' ==> lex_step(src, s) == single(TokenType::RightParen)
            &&& c == '{' ==> lex_step(src, s) == single(TokenType::LeftBrace)
            &&& c == '}' ==> lex_step(src, s) == single(TokenType::RightBrace)
            &&& c == '[' ==> lex_step(src, s) == single(TokenType::LeftBracket)
            &&& c == ']' ==> lex_step(src, s) == single(TokenType::RightBracket)
            &&& c == ',' ==> lex_step(src, s) == single(TokenType::Comma)
            &&& c == '.' ==> lex_step(src, s) == single(TokenType::Dot)
            &&& c == '-' ==> lex_step(src, s) == single(TokenType::Minus)
            &&& c == '+' ==> lex_step(src, s) == single(TokenType::Plus)
            &&& c == ';' ==> lex_step(src, s) == single(TokenType::Semicolon)
            &&& c == '*' ==> lex_step(src, s) == single(TokenType::Star)
            &&& c == '%' ==> lex_step(src, s) == single(TokenType::Percent)
            &&& c == '?' ==> lex_step(src, s) == single(TokenType::Question)
            &&& c == ':' ==> lex_step(src, s) == single(TokenType::Colon)
            &&& c == '=' ==> lex_step(src, s) == pair(TokenType::EqualEqual, TokenType::Equal)
            &&& c == '!' ==> lex_step(src, s) == pair(TokenType::BangEqual, TokenType::Bang)
            &&& c == '<' ==> lex_step(src, s) == pair(TokenType::LessEqual, TokenType::Less)
            &&& c == '>' ==> lex_step(src, s) == pair(TokenType::GreaterEqual, TokenType::Greater)
        }),
{
}

/// The text of the source between positions `s` and `e`.
pub open spec fn lexeme_text(src: Seq<u8>, s: int, e: int) -> Seq<char> {
    decode_utf8(src.subrange(s, e))
}

/// An identifier is a reserved word's token when its text is one.
pub open spec fn word_type(text: Seq<char>) -> TokenType {
    match keyword_type(text) {
        Some(t) => t,
        None => TokenType::Identifier,
    }
}

pub open spec fn word_literal(t: TokenType) -> Option<LiteralV> {
    if t == TokenType::True {
        Some(LiteralV::Boolean(true))
    } else if t == TokenType::False {
        Some(LiteralV::Boolean(false))
    } else if t == TokenType::Nil {
        Some(LiteralV::Nil)
    } else {
        None
    }
}

/// The tokens that the lexeme from `s` described by `st` yields (none or one).
pub open spec fn emitted(src: Seq<u8>, s: int, st: LexStep) -> Seq<TokenV> {
    let text = lexeme_text(src, s, st.end);
    let line = line_at(src, st.end);
    match st.kind {
        LexKind::Simple(t) => seq![TokenV { token_type: t, lexeme: text, literal: None, line }],
        LexKind::Word => seq![
            TokenV {
                token_type: word_type(text),
                lexeme: text,
                literal: word_literal(word_type(text)),
                line,
            },
        ],
        LexKind::Number => seq![
            TokenV {
                token_type: TokenType::Number,
                lexeme: text,
                literal: Some(LiteralV::Number(text)),
                line,
            },
        ],
        LexKind::Str => seq![
            TokenV {
                token_type: TokenType::String,
                lexeme: text,
                literal: Some(LiteralV::Str(lexeme_text(src, s + 1, st.end - 1))),
                line,
            },
        ],
        _ => seq![],
    }
}

/// The errors that the lexeme described by `st` yields (none or one).
pub open spec fn failed(src: Seq<u8>, st: LexStep) -> Seq<ScanErrorV> {
    match st.kind {
        LexKind::Fail(m) => seq![ScanErrorV { line: line_at(src, st.end), message: m }],
        _ => seq![],
    }
}

/// The token that closes every scan.
pub open spec fn eof_token(src: Seq<u8>) -> TokenV {
    TokenV {
        token_type: TokenType::Eof,
        lexeme: Seq::empty(),
        literal: None,
        line: line_at(src, src.len() as int),
    }
}

/// The tokens and errors read from position `pos` of the source to its end.
pub open spec fn scan_from(src: Seq<u8>, pos: int) -> (Seq<TokenV>, Seq<ScanErrorV>)
    decreases src.len() - pos,
    via scan_from_decreases
{
    if pos < 0 || pos >= src.len() {
        (seq![eof_token(src)], seq![])
    } else {
        let st = lex_step(src, pos);
        let rest = scan_from(src, st.end);
        (emitted(src, pos, st) + rest.0, failed(src, st) + rest.1)
    }
}

/// The tokens and errors that scanning `src` yields.
pub open spec fn scan(src: Seq<u8>) -> (Seq<TokenV>, Seq<ScanErrorV>) {
    scan_from(src, 0)
}

#[via_fn]
proof fn scan_from_decreases(src: Seq<u8>, pos: int) {
    if 0 <= pos < src.len() {
        lemma_lex_step_bounds(src, pos);
    }
}

pub proof fn lemma_span_while_bounds(src: Seq<u8>, i: int, k: ByteClass)
    requires
        0 <= i <= src.len(),
    ensures
        i <= span_while(src, i, k) <= src.len(),
    decreases src.len() - i,
{
    if i < src.len() && in_class(src[i], k) {
        lemma_span_while_bounds(src, i + 1, k);
    }
}

/// [`span_while`] stops at the first byte, from `i` on, outside class `k`.
proof fn lemma_span_while_run(src: Seq<u8>, i: int, k: ByteClass)
    requires
        0 <= i <= src.len(),
    ensures
        i <= span_while(src, i, k) <= src.len(),
        forall|j: int| i <= j < span_while(src, i, k) ==> in_class(#[trigger] src[j], k),
        span_while(src, i, k) < src.len() ==> !in_class(src[span_while(src, i, k)], k),
    decreases src.len() - i,
{
    if i < src.len() && in_class(src[i], k) {
        lemma_span_while_run(src, i + 1, k);
    }
}

/// A word is the longest run of letters, digits and underscores that starts
/// with a letter or underscore.
pub proof fn lemma_word_extent(src: Seq<u8>, s: int)
    requires
        0 <= s < src.len(),
        spec_is_alpha(src[s] as char),
    ensures
        lex_step(src, s).kind == LexKind::Word,
        s < lex_step(src, s).end <= src.len(),
        forall|j: int|
            s <= j < lex_step(src, s).end ==> spec_is_alpha_numeric(#[trigger] src[j] as char),
        lex_step(src, s).end < src.len() ==> !spec_is_alpha_numeric(
            src[lex_step(src, s).end] as char,
        ),
{
    lemma_span_while_run(src, s + 1, ByteClass::AlphaNumeric);
}

/// A string runs from its opening quote to the next quote, which closes it;
/// without one it is an error that takes the rest of the source.
pub proof fn lemma_string_extent(src: Seq<u8>, s: int)
    requires
        0 <= s < src.len(),
        src[s] as char == '"',
    ensures
        forall|j: int|
            s < j < lex_step(src, s).end - 1 ==> #[trigger] src[j] as char != '"',
        lex_step(src, s).kind == LexKind::Str ==> src[lex_step(src, s).end - 1] as char == '"'
            && s + 1 < lex_step(src, s).end <= src.len(),
        lex_step(src, s).kind != LexKind::Str ==> lex_step(src, s) == (LexStep {
            end: src.len() as int,
            kind: LexKind::Fail("Unterminated string"@),
        }) && forall|j: int| s < j < src.len() ==> #[trigger] src[j] as char != '"',
{
    lemma_span_while_run(src, s + 1, ByteClass::NotQuote);
}

pub proof fn lemma_comment_close_bounds(src: Seq<u8>, i: int)
    requires
        0 <= i <= src.len(),
    ensures
        i <= comment_close(src, i) <= src.len(),
        comment_close(src, i) < src.len() ==> comment_close(src, i) + 1 < src.len(),
    decreases src.len() - i,
{
    if i < src.len() && !(src[i] as char == '*' && byte_is(src, i + 1, '/')) {
        lemma_comment_close_bounds(src, i + 1);
    }
}

pub proof fn lemma_lex_step_bounds(src: Seq<u8>, s: int)
    requires
        0 <= s < src.len(),
    ensures
        s < lex_step(src, s).end <= src.len(),
        lex_step(src, s).kind is Str ==> s + 2 <= lex_step(src, s).end,
{
    lemma_span_while_bounds(src, s + 1, ByteClass::Digit);
    let j = span_while(src, s + 1, ByteClass::Digit);
    if j + 1 < src.len() {
        lemma_span_while_bounds(src, j + 1, ByteClass::Digit);
    }
    lemma_span_while_bounds(src, s + 1, ByteClass::AlphaNumeric);
    lemma_span_while_bounds(src, s + 1, ByteClass::NotQuote);
    if s + 2 <= src.len() {
        lemma_span_while_bounds(src, s + 2, ByteClass::NotNewline);
        lemma_comment_close_bounds(src, s + 2);
    }
}

pub proof fn lemma_line_step(src: Seq<u8>, i: int)
    requires
        0 <= i < src.len(),
    ensures
        line_at(src, i + 1) == line_at(src, i) + (if src[i] == 10u8 {
            1nat
        } else {
            0nat
        }),
{
    assert(src.take(i + 1).drop_last() =~= src.take(i));
}

pub proof fn lemma_newlines_bound(s: Seq<u8>)
    ensures
        newlines(s) <= s.len(),
    decreases s.len(),
{
    if s.len() > 0 {
        lemma_newlines_bound(s.drop_last());
    }
}

// ---------------------------------------------------------------------------
// The scanner
/// Turns source text into tokens, one lexeme at a time.
pub struct Scanner {
    source: Vec<u8>,
    start: usize,
    current: usize,
    line: usize,
    tokens: Vec<Token>,
    errors: Vec<ScanError>,
}

impl Scanner {
    /// The bytes that this scanner reads.
    pub closed spec fn source_bytes(&self) -> Seq<u8> {
        self.source@
    }

    /// The scanner has not read anything yet.
    pub closed spec fn ready(&self) -> bool {
        &&& self.start == 0
        &&& self.current == 0
        &&& self.line == 1
        &&& self.tokens@.len() == 0
        &&& self.errors@.len() == 0
        &&& self.source@.len() < usize::MAX
        &&& valid_utf8(self.source@)
    }

    spec fn inv(&self) -> bool {
        &&& self.start <= self.current <= self.source@.len()
        &&& self.source@.len() < usize::MAX
        &&& valid_utf8(self.source@)
        &&& self.line == line_at(self.source@, self.current as int)
    }

    spec fn text_unchanged(&self, other: &Scanner) -> bool {
        &&& self.source == other.source
        &&& self.start == other.start
        &&& self.tokens == other.tokens
        &&& self.errors == other.errors
    }

    fn error(&mut self, line: usize, message: &str)
        ensures
            final(self).source == old(self).source,
            final(self).start == old(self).start,
            final(self).current == old(self).current,
            final(self).line == old(self).line,
            final(self).tokens == old(self).tokens,
            errors_view(final(self).errors@) == errors_view(old(self).errors@).push(
                ScanErrorV { line: line as nat, message: message@ },
            ),
    {
        let e = ScanError { line, message: message.to_string() };
        self.errors.push(e);
        assert(errors_view(self.errors@) =~= errors_view(old(self).errors@).push(
            ScanErrorV { line: line as nat, message: message@ },
        ));
    }

    /// A scanner over the UTF-8 bytes of `source`.
    pub fn new(source: String) -> (r: Self)
        requires
            encode_utf8(source@).len() < usize::MAX,
        ensures
            r.ready(),
            r.source_bytes() == encode_utf8(source@),
    {
        proof {
            encode_utf8_valid_utf8(source@);
        }
        Self {
            source: source.as_str().as_bytes_vec(),
            start: 0,
            current: 0,
            line: 1,
            tokens: Vec::new(),
            errors: Vec::new(),
        }
    }

    /// Consumes scanner and returns created tokens and any accompanying errors
    pub fn scan_tokens(self) -> (r: (Vec<Token>, Vec<ScanError>))
        requires
            self.ready(),
        ensures
            tokens_view(r.0@) == scan(self.source_bytes()).0,
            errors_view(r.1@) == scan(self.source_bytes()).1,
    {
        let mut this = self;
        this.run();
        (this.tokens, this.errors)
    }

    fn run(&mut self)
        requires
            old(self).ready(),
        ensures
            tokens_view(final(self).tokens@) == scan(old(self).source@).0,
            errors_view(final(self).errors@) == scan(old(self).source@).1,
    {
        let ghost src = self.source@;
        assert(tokens_view(self.tokens@) =~= Seq::<TokenV>::empty());
        assert(errors_view(self.errors@) =~= Seq::<ScanErrorV>::empty());
        assert(src.take(0) =~= Seq::<u8>::empty());
        while !self.is_at_end()
            invariant
                self.inv(),
                self.source@ == src,
                tokens_view(self.tokens@) + scan_from(src, self.current as int).0 == scan(src).0,
                errors_view(self.errors@) + scan_from(src, self.current as int).1 == scan(src).1,
            decreases src.len() - self.current,
        {
            let ghost cur = self.current as int;
            let ghost before_t = tokens_view(self.tokens@);
            let ghost before_e = errors_view(self.errors@);
            self.start = self.current;
            self.scan_token();
            let ghost st = lex_step(src, cur);
            proof {
                lemma_lex_step_bounds(src, cur);
            }
            assert(scan_from(src, cur).0 == emitted(src, cur, st) + scan_from(src, st.end).0);
            assert(before_t + (emitted(src, cur, st) + scan_from(src, st.end).0) =~= (before_t
                + emitted(src, cur, st)) + scan_from(src, st.end).0);
            assert(before_e + (failed(src, st) + scan_from(src, st.end).1) =~= (before_e + failed(
                src,
                st,
            )) + scan_from(src, st.end).1);
        }
        let ghost before_t = tokens_view(self.tokens@);
        self.tokens.push(Token::new(TokenType::Eof, String::new(), None, self.line));
        assert(tokens_view(self.tokens@) =~= before_t.push(eof_token(src)));
        assert(before_t + seq![eof_token(src)] =~= before_t.push(eof_token(src)));
        assert(errors_view(self.errors@) + Seq::<ScanErrorV>::empty() =~= errors_view(
            self.errors@,
        ));
    }

    fn scan_token(&mut self)
        requires
            old(self).inv(),
            old(self).start == old(self).current,
            old(self).current < old(self).source@.len(),
        ensures
            final(self).inv(),
            final(self).source == old(self).source,
            final(self).start == old(self).start,
            final(self).current == lex_step(old(self).source@, old(self).start as int).end,
            tokens_view(final(self).tokens@) == tokens_view(old(self).tokens@) + emitted(
                old(self).source@,
                old(self).start as int,
                lex_step(old(self).source@, old(self).start as int),
            ),
            errors_view(final(self).errors@) == errors_view(old(self).errors@) + failed(
                old(self).source@,
                lex_step(old(self).source@, old(self).start as int),
            ),
    {
        let ghost src = self.source@;
        let ghost s = self.start as int;
        let ghost t0 = tokens_view(self.tokens@);
        let ghost e0 = errors_view(self.errors@);
        proof {
            lemma_line_step(src, s);
            lemma_lex_step_bounds(src, s);
        }
        let c = self.advance();
        assert(c == src[s] as char);
        proof {
            if s + 1 < src.len() {
                lemma_line_step(src, s + 1);
            }
        }
        if c == '(' {
            self.add_token(TokenType::LeftParen);
        } else if c == ')' {
            self.add_token(TokenType::RightParen);
        } else if c == '{' {
            self.add_token(TokenType::LeftBrace);
        } else if c == '}' {
            self.add_token(TokenType::RightBrace);
        } else if c == '[' {
            self.add_token(TokenType::LeftBracket);
        } else if c == ']' {
            self.add_token(TokenType::RightBracket);
        } else if c == ',' {
            self.add_token(TokenType::Comma);
        } else if c == '.' {
            self.add_token(TokenType::Dot);
        } else if c == '-' {
            self.add_token(TokenType::Minus);
        } else if c == '+' {
            self.add_token(TokenType::Plus);
        } else if c == ';' {
            self.add_token(TokenType::Semicolon);
        } else if c == '*' {
            self.add_token(TokenType::Star);
        } else if c == '%' {
            self.add_token(TokenType::Percent);
        } else if c == '?' {
            self.add_token(TokenType::Question);
        } else if c == ':' {
            self.add_token(TokenType::Colon);
        } else if c == '=' {
            self.two_char(TokenType::EqualEqual, TokenType::Equal);
        } else if c == '!' {
            self.two_char(TokenType::BangEqual, TokenType::Bang);
        } else if c == '<' {
            self.two_char(TokenType::LessEqual, TokenType::Less);
        } else if c == '>' {
            self.two_char(TokenType::GreaterEqual, TokenType::Greater);
        } else if c == '/' {
            if self.advance_if('/') {
                // Double slash indicates comments
                proof {
                    lemma_span_while_bounds(src, s + 2, ByteClass::NotNewline);
                }
                while self.peek() != '\n' && !self.is_at_end()
                    invariant
                        self.text_unchanged(old(self)),
                        s + 2 <= self.current <= src.len(),
                        src == self.source@,
                        src.len() < usize::MAX,
                        self.line == line_at(src, self.current as int),
                        span_while(src, self.current as int, ByteClass::NotNewline) == span_while(
                            src,
                            s + 2,
                            ByteClass::NotNewline,
                        ),
                    decreases src.len() - self.current,
                {
                    proof {
                        lemma_line_step(src, self.current as int);
                    }
                    self.advance();
                }
            } else if self.advance_if('*') {
                // Slash star means multi-line comment
                proof {
                    lemma_comment_close_bounds(src, s + 2);
                }
                while !self.is_at_end() && !(self.peek() == '*' && self.peek_next() == '/')
                    invariant
                        self.text_unchanged(old(self)),
                        s + 2 <= self.current <= src.len(),
                        src == self.source@,
                        src.len() < usize::MAX,
                        self.line == line_at(src, self.current as int),
                        comment_close(src, self.current as int) == comment_close(src, s + 2),
                    decreases src.len() - self.current,
                {
                    proof {
                        lemma_line_step(src, self.current as int);
                        lemma_newlines_bound(src.take(self.current as int));
                    }
                    if self.peek() == '\n' {
                        self.line += 1;
                    }
                    self.advance();
                }
                if self.is_at_end() {
                    self.error(self.line, "Unterminated multi-line comment");
                    assert(errors_view(self.errors@) =~= e0 + failed(src, lex_step(src, s)));
                    assert(tokens_view(self.tokens@) =~= t0 + emitted(src, s, lex_step(src, s)));
                    return ;
                }
                // Consume the terminating star and slash
                proof {
                    lemma_line_step(src, self.current as int);
                    lemma_line_step(src, self.current + 1);
                }
                self.advance();
                self.advance();
            } else {
                self.add_token(TokenType::Slash);
            }
        } else if c == ' ' || c == '\r' || c == '\t' {
            // Ignore whitespace
        } else if c == '\n' {
            proof {
                lemma_newlines_bound(src.take(s));
            }
            self.line += 1;
        } else if c == '"' {
            self.string();
        } else if is_digit(c) {
            self.number();
        } else if is_alpha(c) {
            self.identifier();
        } else {
            self.error(self.line, "Unexpected character");
        }
        assert(tokens_view(self.tokens@) =~= t0 + emitted(src, s, lex_step(src, s)));
        assert(errors_view(self.errors@) =~= e0 + failed(src, lex_step(src, s)));
    }

    fn two_char(&mut self, two: TokenType, one: TokenType)
        requires
            old(self).inv(),
            old(self).start + 1 == old(self).current,
            old(self).source@[old(self).start as int] < 128,
        ensures
            final(self).inv(),
            final(self).source == old(self).source,
            final(self).start == old(self).start,
            final(self).errors == old(self).errors,
            ({
                let src = old(self).source@;
                let st = one_or_two(src, old(self).start as int, two, one);
                &&& final(self).current == st.end
                &&& tokens_view(final(self).tokens@) == tokens_view(old(self).tokens@) + emitted(
                    src,
                    old(self).start as int,
                    st,
                )
            }),
    {
        let ghost src = self.source@;
        if self.current < self.source.len() {
            proof {
                lemma_line_step(src, self.current as int);
            }
        }
        let token = if self.advance_if('=') {
            two
        } else {
            one
        };
        self.add_token(token);
    }

    fn identifier(&mut self)
        requires
            old(self).inv(),
            old(self).start + 1 == old(self).current,
            spec_is_alpha(old(self).source@[old(self).start as int] as char),
        ensures
            final(self).inv(),
            final(self).source == old(self).source,
            final(self).start == old(self).start,
            final(self).errors == old(self).errors,
            ({
                let src = old(self).source@;
                let st = LexStep {
                    end: span_while(src, old(self).start + 1, ByteClass::AlphaNumeric),
                    kind: LexKind::Word,
                };
                &&& final(self).current == st.end
                &&& tokens_view(final(self).tokens@) == tokens_view(old(self).tokens@) + emitted(
                    src,
                    old(self).start as int,
                    st,
                )
            }),
    {
        let ghost src = self.source@;
        let ghost s = self.start as int;
        proof {
            lemma_span_while_bounds(src, s + 1, ByteClass::AlphaNumeric);
        }
        while is_alpha_numeric(self.peek())
            invariant
                self.text_unchanged(old(self)),
                s + 1 <= self.current <= src.len(),
                src[self.current - 1] < 128,
                src == self.source@,
                src.len() < usize::MAX,
                self.line == line_at(src, self.current as int),
                span_while(src, self.current as int, ByteClass::AlphaNumeric) == span_while(
                    src,
                    s + 1,
                    ByteClass::AlphaNumeric,
                ),
            decreases src.len() - self.current,
        {
            proof {
                lemma_line_step(src, self.current as int);
            }
            self.advance();
        }
        proof {
            lemma_ascii_slice_valid(src, s, self.current as int);
        }
        let text = text_of(slice_subrange(self.source.as_slice(), self.start, self.current));
        let token_type = match try_keyword(text.as_str()) {
            Some(t) => t,
            None => TokenType::Identifier,
        };
        match token_type {
            TokenType::True => self.add_token_literal(
                TokenType::True,
                Some(Literal::Boolean(true)),
            ),
            TokenType::False => self.add_token_literal(
                TokenType::False,
                Some(Literal::Boolean(false)),
            ),
            TokenType::Nil => self.add_token_literal(TokenType::Nil, Some(Literal::Nil)),
            t => self.add_token(t),
        }
    }

    fn number(&mut self)
        requires
            old(self).inv(),
            old(self).start + 1 == old(self).current,
            spec_is_digit(old(self).source@[old(self).start as int] as char),
        ensures
            final(self).inv(),
            final(self).source == old(self).source,
            final(self).start == old(self).start,
            final(self).errors == old(self).errors,
            ({
                let src = old(self).source@;
                let st = LexStep {
                    end: number_end(src, old(self).start as int),
                    kind: LexKind::Number,
                };
                &&& final(self).current == st.end
                &&& tokens_view(final(self).tokens@) == tokens_view(old(self).tokens@) + emitted(
                    src,
                    old(self).start as int,
                    st,
                )
            }),
    {
        let ghost src = self.source@;
        let ghost s = self.start as int;
        proof {
            lemma_span_while_bounds(src, s + 1, ByteClass::Digit);
        }
        while is_digit(self.peek())
            invariant
                self.text_unchanged(old(self)),
                s + 1 <= self.current <= src.len(),
                src[self.current - 1] < 128,
                src == self.source@,
                src.len() < usize::MAX,
                self.line == line_at(src, self.current as int),
                span_while(src, self.current as int, ByteClass::Digit) == span_while(
                    src,
                    s + 1,
                    ByteClass::Digit,
                ),
            decreases src.len() - self.current,
        {
            proof {
                lemma_line_step(src, self.current as int);
            }
            self.advance();
        }
        // Look for fractional part
        if self.peek() == '.' && is_digit(self.peek_next()) {
            let ghost j = self.current as int;
            proof {
                lemma_line_step(src, j);
                lemma_span_while_bounds(src, j + 1, ByteClass::Digit);
            }
            self.advance();
            while is_digit(self.peek())
                invariant
                    self.text_unchanged(old(self)),
                    j + 1 <= self.current <= src.len(),
                    src[self.current - 1] < 128,
                    src == self.source@,
                    src.len() < usize::MAX,
                    self.line == line_at(src, self.current as int),
                    span_while(src, self.current as int, ByteClass::Digit) == span_while(
                        src,
                        j + 1,
                        ByteClass::Digit,
                    ),
                decreases src.len() - self.current,
            {
                proof {
                    lemma_line_step(src, self.current as int);
                }
                self.advance();
            }
        }
        proof {
            lemma_ascii_slice_valid(src, s, self.current as int);
        }
        let text = text_of(slice_subrange(self.source.as_slice(), self.start, self.current));
        self.add_token_literal(TokenType::Number, Some(Literal::Number(text)));
    }

    fn string(&mut self)
        requires
            old(self).inv(),
            old(self).start + 1 == old(self).current,
            old(self).source@[old(self).start as int] as char == '"',
        ensures
            final(self).inv(),
            final(self).source == old(self).source,
            final(self).start == old(self).start,
            ({
                let src = old(self).source@;
                let s = old(self).start as int;
                let j = span_while(src, s + 1, ByteClass::NotQuote);
                let st = if j < src.len() {
                    LexStep { end: j + 1, kind: LexKind::Str }
                } else {
                    LexStep { end: src.len() as int, kind: LexKind::Fail("Unterminated string"@) }
                };
                &&& final(self).current == st.end
                &&& tokens_view(final(self).tokens@) == tokens_view(old(self).tokens@) + emitted(
                    src,
                    s,
                    st,
                )
                &&& errors_view(final(self).errors@) == errors_view(old(self).errors@) + failed(
                    src,
                    st,
                )
            }),
    {
        let ghost src = self.source@;
        let ghost s = self.start as int;
        let ghost t0 = tokens_view(self.tokens@);
        let ghost e0 = errors_view(self.errors@);
        proof {
            lemma_span_while_bounds(src, s + 1, ByteClass::NotQuote);
        }
        while self.peek() != '"' && !self.is_at_end()
            invariant
                self.text_unchanged(old(self)),
                s + 1 <= self.current <= src.len(),
                src == self.source@,
                src.len() < usize::MAX,
                self.line == line_at(src, self.current as int),
                span_while(src, self.current as int, ByteClass::NotQuote) == span_while(
                    src,
                    s + 1,
                    ByteClass::NotQuote,
                ),
            decreases src.len() - self.current,
        {
            proof {
                lemma_line_step(src, self.current as int);
                lemma_newlines_bound(src.take(self.current as int));
            }
            if self.peek() == '\n' {
                self.line += 1;
            }
            self.advance();
        }
        if self.is_at_end() {
            self.error(self.line, "Unterminated string");
            assert(errors_view(self.errors@) =~= e0 + seq![
                ScanErrorV { line: line_at(src, src.len() as int), message: "Unterminated string"@ },
            ]);
            assert(tokens_view(self.tokens@) =~= t0 + Seq::<TokenV>::empty());
            return ;
        }
        // The closing ".
        proof {
            lemma_line_step(src, self.current as int);
        }
        self.advance();
        proof {
            lemma_ascii_slice_valid(src, s + 1, self.current - 1);
        }
        let value = text_of(
            slice_subrange(self.source.as_slice(), self.start + 1, self.current - 1),
        );
        self.add_token_literal(TokenType::String, Some(Literal::String(value)));
        assert(errors_view(self.errors@) =~= e0 + Seq::<ScanErrorV>::empty());
    }

    fn is_at_end(&self) -> (r: bool)
        ensures
            r == (self.current >= self.source@.len()),
    {
        self.current >= self.source.len()
    }

    fn advance(&mut self) -> (c: char)
        requires
            old(self).current < old(self).source@.len() < usize::MAX,
        ensures
            c == old(self).source@[old(self).current as int] as char,
            final(self).current == old(self).current + 1,
            final(self).source == old(self).source,
            final(self).start == old(self).start,
            final(self).line == old(self).line,
            final(self).tokens == old(self).tokens,
            final(self).errors == old(self).errors,
    {
        let ch = self.source[self.current] as char;
        self.current += 1;
        ch
    }

    fn advance_if(&mut self, expected: char) -> (r: bool)
        requires
            old(self).source@.len() < usize::MAX,
        ensures
            r == byte_is(old(self).source@, old(self).current as int, expected),
            final(self).current == old(self).current + (if r {
                1int
            } else {
                0int
            }),
            final(self).source == old(self).source,
            final(self).start == old(self).start,
            final(self).line == old(self).line,
            final(self).tokens == old(self).tokens,
            final(self).errors == old(self).errors,
    {
        if self.is_at_end() {
            return false;
        }
        if self.source[self.current] as char != expected {
            return false;
        }
        self.current += 1;
        true
    }

    fn add_token(&mut self, token_type: TokenType)
        requires
            old(self).inv(),
            old(self).start < old(self).current,
            old(self).source@[old(self).start as int] < 128,
            old(self).source@[old(self).current - 1] < 128,
        ensures
            final(self).source == old(self).source,
            final(self).start == old(self).start,
            final(self).current == old(self).current,
            final(self).line == old(self).line,
            final(self).errors == old(self).errors,
            tokens_view(final(self).tokens@) == tokens_view(old(self).tokens@).push(
                TokenV {
                    token_type,
                    lexeme: lexeme_text(
                        old(self).source@,
                        old(self).start as int,
                        old(self).current as int,
                    ),
                    literal: None,
                    line: old(self).line as nat,
                },
            ),
    {
        self.add_token_literal(token_type, None);
    }

    fn add_token_literal(&mut self, token_type: TokenType, literal: Option<Literal>)
        requires
            old(self).inv(),
            old(self).start < old(self).current,
            old(self).source@[old(self).start as int] < 128,
            old(self).source@[old(self).current - 1] < 128,
        ensures
            final(self).source == old(self).source,
            final(self).start == old(self).start,
            final(self).current == old(self).current,
            final(self).line == old(self).line,
            final(self).errors == old(self).errors,
            tokens_view(final(self).tokens@) == tokens_view(old(self).tokens@).push(
                TokenV {
                    token_type,
                    lexeme: lexeme_text(
                        old(self).source@,
                        old(self).start as int,
                        old(self).current as int,
                    ),
                    literal: option_literal_view(literal),
                    line: old(self).line as nat,
                },
            ),
    {
        proof {
            lemma_ascii_slice_valid(self.source@, self.start as int, self.current as int);
        }
        let lexeme = text_of(slice_subrange(self.source.as_slice(), self.start, self.current));
        let token = Token::new(token_type, lexeme, literal, self.line);
        self.tokens.push(token);
        assert(tokens_view(self.tokens@) =~= tokens_view(old(self).tokens@).push(token@));
    }

    fn peek(&self) -> (c: char)
        ensures
            c == (if self.current < self.source@.len() {
                self.source@[self.current as int] as char
            } else {
                '\0'
            }),
    {
        if self.is_at_end() {
            return '\0';
        }
        self.source[self.current] as char
    }

    fn peek_next(&self) -> (c: char)
        ensures
            c == (if self.current + 1 < self.source@.len() {
                self.source@[self.current + 1] as char
            } else {
                '\0'
            }),
    {
        if self.current >= self.source.len() || self.current + 1 >= self.source.len() {
            return '\0';
        }
        self.source[self.current + 1] as char
    }
}

} // verus!

verus! {

// ---------------------------------------------------------------------------
// Properties of every scan
/// The reserved words' token types.
pub open spec fn is_reserved(t: TokenType) -> bool {
    t == TokenType::And || t == TokenType::Class || t == TokenType::Else || t == TokenType::False
        || t == TokenType::For || t == TokenType::Fun || t == TokenType::If || t == TokenType::Nil
        || t == TokenType::Or || t == TokenType::Print || t == TokenType::Return || t
        == TokenType::Super || t == TokenType::This || t == TokenType::True || t == TokenType::Var
        || t == TokenType::While || t == TokenType::Break
}

/// A token carries a literal exactly when it is a literal, and the right one.
pub open spec fn literal_fits(t: TokenV) -> bool {
    match t.token_type {
        TokenType::True => t.literal == Some(LiteralV::Boolean(true)),
        TokenType::False => t.literal == Some(LiteralV::Boolean(false)),
        TokenType::Nil => t.literal == Some(LiteralV::Nil),
        TokenType::Number => t.literal == Some(LiteralV::Number(t.lexeme)),
        TokenType::String => t.literal matches Some(LiteralV::Str(_)),
        _ => t.literal is None,
    }
}

/// A reserved word's token spells that word, and an identifier spells none.
pub open spec fn word_fits(t: TokenV) -> bool {
    &&& is_reserved(t.token_type) ==> keyword_type(t.lexeme) == Some(t.token_type)
    &&& t.token_type == TokenType::Identifier ==> keyword_type(t.lexeme) is None
}

/// The source positions of the lexemes that yield tokens, from `pos` on.
pub open spec fn token_spans(src: Seq<u8>, pos: int) -> Seq<(int, int)>
    decreases src.len() - pos,
    via token_spans_decreases
{
    if pos < 0 || pos >= src.len() {
        seq![]
    } else {
        let st = lex_step(src, pos);
        let here: Seq<(int, int)> = if emitted(src, pos, st).len() == 1 {
            seq![(pos, st.end)]
        } else {
            seq![]
        };
        here + token_spans(src, st.end)
    }
}

#[via_fn]
proof fn token_spans_decreases(src: Seq<u8>, pos: int) {
    if 0 <= pos < src.len() {
        lemma_lex_step_bounds(src, pos);
    }
}

pub proof fn lemma_line_at_monotone(src: Seq<u8>, i: int, j: int)
    requires
        0 <= i <= j <= src.len(),
    ensures
        line_at(src, i) <= line_at(src, j),
    decreases j - i,
{
    if i < j {
        lemma_line_at_monotone(src, i, j - 1);
        lemma_line_step(src, j - 1);
    }
}

proof fn lemma_keyword_reserved(s: Seq<char>)
    ensures
        keyword_type(s) matches Some(t) ==> is_reserved(t),
{
}

proof fn lemma_emitted_shape(src: Seq<u8>, s: int)
    requires
        0 <= s < src.len(),
    ensures
        ({
            let st = lex_step(src, s);
            let em = emitted(src, s, st);
            &&& em.len() <= 1
            &&& em.len() == 1 ==> {
                &&& em[0].token_type != TokenType::Eof
                &&& em[0].lexeme == lexeme_text(src, s, st.end)
                &&& em[0].line == line_at(src, st.end)
                &&& literal_fits(em[0])
                &&& word_fits(em[0])
            }
        }),
{
    let st = lex_step(src, s);
    let text = lexeme_text(src, s, st.end);
    lemma_keyword_reserved(text);
}

proof fn lemma_scan_from_shape(src: Seq<u8>, pos: int)
    requires
        0 <= pos <= src.len(),
    ensures
        ({
            let ts = scan_from(src, pos).0;
            let sp = token_spans(src, pos);
            &&& ts.len() == sp.len() + 1
            &&& ts[ts.len() - 1] == eof_token(src)
            &&& forall|i: int|
                0 <= i < sp.len() ==> {
                    &&& pos <= (#[trigger] sp[i]).0 < sp[i].1 <= src.len()
                    &&& ts[i].token_type != TokenType::Eof
                    &&& ts[i].lexeme == lexeme_text(src, sp[i].0, sp[i].1)
                    &&& ts[i].line == line_at(src, sp[i].1)
                    &&& literal_fits(ts[i])
                    &&& word_fits(ts[i])
                }
            &&& forall|i: int, j: int|
                0 <= i < j < sp.len() ==> (#[trigger] sp[i]).1 <= (#[trigger] sp[j]).0
        }),
    decreases src.len() - pos,
{
    if pos < src.len() {
        let st = lex_step(src, pos);
        lemma_lex_step_bounds(src, pos);
        lemma_emitted_shape(src, pos);
        lemma_scan_from_shape(src, st.end);
        let em = emitted(src, pos, st);
        let rest = scan_from(src, st.end).0;
        let rsp = token_spans(src, st.end);
        let ts = scan_from(src, pos).0;
        let sp = token_spans(src, pos);
        assert(ts == em + rest);
        if em.len() == 1 {
            assert(sp == seq![(pos, st.end)] + rsp);
            assert forall|i: int| 0 <= i < sp.len() implies {
                &&& pos <= (#[trigger] sp[i]).0 < sp[i].1 <= src.len()
                &&& ts[i].token_type != TokenType::Eof
                &&& ts[i].lexeme == lexeme_text(src, sp[i].0, sp[i].1)
                &&& ts[i].line == line_at(src, sp[i].1)
                &&& literal_fits(ts[i])
                &&& word_fits(ts[i])
            } by {
                if i > 0 {
                    assert(sp[i] == rsp[i - 1]);
                    assert(ts[i] == rest[i - 1]);
                }
            }
            assert forall|i: int, j: int| 0 <= i < j < sp.len() implies (#[trigger] sp[i]).1
                <= (#[trigger] sp[j]).0 by {
                assert(sp[j] == rsp[j - 1]);
                if i > 0 {
                    assert(sp[i] == rsp[i - 1]);
                }
            }
        } else {
            assert(em.len() == 0);
            assert(sp =~= rsp);
            assert(ts =~= rest);
        }
    }
}

/// Every scan ends with exactly one end-of-file token, on the line after the
/// source's last line break; every other token's lexeme is the text of its
/// own stretch of the source, the stretches come in order without overlap,
/// each token stands on the line where its lexeme ends, carries the literal
/// that its kind calls for, and a reserved word or identifier spells its kind.
pub proof fn lemma_scan_shape(src: Seq<u8>)
    ensures
        ({
            let ts = scan(src).0;
            let sp = token_spans(src, 0);
            &&& ts.len() == sp.len() + 1
            &&& ts[ts.len() - 1].token_type == TokenType::Eof
            &&& ts[ts.len() - 1].line == 1 + newlines(src)
            &&& forall|i: int|
                0 <= i < sp.len() ==> {
                    &&& 0 <= (#[trigger] sp[i]).0 < sp[i].1 <= src.len()
                    &&& ts[i].token_type != TokenType::Eof
                    &&& ts[i].lexeme == lexeme_text(src, sp[i].0, sp[i].1)
                    &&& ts[i].line == line_at(src, sp[i].1)
                    &&& literal_fits(ts[i])
                    &&& word_fits(ts[i])
                }
            &&& forall|i: int, j: int|
                0 <= i < j < sp.len() ==> (#[trigger] sp[i]).1 <= (#[trigger] sp[j]).0
        }),
{
    lemma_scan_from_shape(src, 0);
    assert(src.take(src.len() as int) =~= src);
}

/// Token lines never go down: a later token stands on the same line as an
/// earlier one or further on.
pub proof fn lemma_scan_lines_ordered(src: Seq<u8>, i: int, j: int)
    requires
        0 <= i <= j < scan(src).0.len(),
    ensures
        1 <= scan(src).0[i].line <= scan(src).0[j].line,
{
    let ts = scan(src).0;
    let sp = token_spans(src, 0);
    let n = sp.len();
    assert(ts.len() == n + 1 && ts[ts.len() - 1] == eof_token(src) && (forall|k: int|
        0 <= k < n ==> 0 <= (#[trigger] sp[k]).0 < sp[k].1 <= src.len() && ts[k].line == line_at(
            src,
            sp[k].1,
        )) && (forall|a: int, b: int|
        0 <= a < b < n ==> (#[trigger] sp[a]).1 <= (#[trigger] sp[b]).0)) by {
        lemma_scan_from_shape(src, 0);
    }
    let end_i = if i < n {
        sp[i].1
    } else {
        src.len() as int
    };
    let end_j = if j < n {
        sp[j].1
    } else {
        src.len() as int
    };
    if i < n {
        assert(sp[i].1 <= src.len());
    }
    if j < n && i < j {
        assert(sp[i].1 <= sp[j].0);
    }
    lemma_line_at_monotone(src, end_i, end_j);
}

} // verus!
