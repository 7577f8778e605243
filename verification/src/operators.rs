//! What the unary and binary operators do with operands of each kind of
//! value, and the error each refuses operands with. The arithmetic itself is
//! left to whoever holds the values.
use crate::token::{Token, TokenType, TokenV};
use vstd::prelude::*;
use vstd::string::to_string_from_display_ensures_for_str;

verus! {

broadcast use to_string_from_display_ensures_for_str;

/// The kinds of values a running program computes with.
#[derive(Clone, Copy, Debug, PartialEq, Eq, Structural)]
pub enum ValueKind {
    Number,
    String,
    Boolean,
    Nil,
    Callable,
    Instance,
    List,
}

/// What a binary operator computes from its operands.
#[derive(Clone, Copy, Debug, PartialEq, Eq, Structural)]
pub enum BinaryAction {
    /// Subtract, divide, multiply or take the remainder of two numbers, as
    /// the operator says.
    Arithmetic,
    /// Add two numbers.
    AddNumbers,
    /// Join two strings.
    Concatenate,
    /// Join a string and the text of a number after it.
    ConcatenateNumberRight,
    /// Join the text of a number and a string after it.
    ConcatenateNumberLeft,
    /// Compare two numbers, as the operator says.
    CompareNumbers,
    /// Compare two strings, as the operator says.
    CompareStrings,
    /// Whether the operands are equal.
    Equal,
    /// Whether the operands differ.
    NotEqual,
}

/// What a unary operator computes from its operand.
#[derive(Clone, Copy, Debug, PartialEq, Eq, Structural)]
pub enum UnaryAction {
    /// The negation of a number.
    Negate,
    /// Whether the operand is falsey.
    Not,
}

/// The token types a binary expression is built with.
pub open spec fn is_binary_operator(t: TokenType) -> bool {
    t == TokenType::Minus || t == TokenType::Slash || t == TokenType::Star || t
        == TokenType::Percent || t == TokenType::Plus || t == TokenType::Greater || t
        == TokenType::GreaterEqual || t == TokenType::Less || t == TokenType::LessEqual || t
        == TokenType::EqualEqual || t == TokenType::BangEqual
}

/// What `op` does with a `left` and a `right` operand of the given kinds, or
/// the message it refuses them with: arithmetic wants two numbers; `+` adds
/// two numbers or joins a string with a string or a number; a comparison
/// wants two numbers or two strings; equality takes anything.
pub open spec fn spec_binary_action(op: TokenType, left: ValueKind, right: ValueKind) -> Result<
    BinaryAction,
    Seq<char>,
> {
    if op == TokenType::Minus || op == TokenType::Slash || op == TokenType::Star || op
        == TokenType::Percent {
        if left == ValueKind::Number && right == ValueKind::Number {
            Ok(BinaryAction::Arithmetic)
        } else {
            Err("Operands must be numbers."@)
        }
    } else if op == TokenType::Plus {
        match (left, right) {
            (ValueKind::Number, ValueKind::Number) => Ok(BinaryAction::AddNumbers),
            (ValueKind::String, ValueKind::String) => Ok(BinaryAction::Concatenate),
            (ValueKind::String, ValueKind::Number) => Ok(BinaryAction::ConcatenateNumberRight),
            (ValueKind::Number, ValueKind::String) => Ok(BinaryAction::ConcatenateNumberLeft),
            _ => Err("Operands must be numbers or strings."@),
        }
    } else if op == TokenType::EqualEqual {
        Ok(BinaryAction::Equal)
    } else if op == TokenType::BangEqual {
        Ok(BinaryAction::NotEqual)
    } else {
        match (left, right) {
            (ValueKind::Number, ValueKind::Number) => Ok(BinaryAction::CompareNumbers),
            (ValueKind::String, ValueKind::String) => Ok(BinaryAction::CompareStrings),
            _ => Err("Operands must be two numbers or two strings."@),
        }
    }
}

/// The comparison operators.
pub open spec fn is_comparison(t: TokenType) -> bool {
    t == TokenType::Greater || t == TokenType::GreaterEqual || t == TokenType::Less || t
        == TokenType::LessEqual
}

/// The arithmetic operators other than `+`.
pub open spec fn is_arithmetic(t: TokenType) -> bool {
    t == TokenType::Minus || t == TokenType::Slash || t == TokenType::Star || t
        == TokenType::Percent
}

/// Every comparison treats its operands alike: whichever of `>`, `>=`, `<`,
/// `<=` it is, two numbers are compared as numbers, two strings as strings,
/// and any other pair is refused with the same message.
pub proof fn lemma_comparisons_agree(op1: TokenType, op2: TokenType, left: ValueKind, right: ValueKind)
    requires
        is_comparison(op1),
        is_comparison(op2),
    ensures
        spec_binary_action(op1, left, right) == spec_binary_action(op2, left, right),
        (left == ValueKind::Number && right == ValueKind::Number) ==> spec_binary_action(
            op1,
            left,
            right,
        ) == Ok::<BinaryAction, Seq<char>>(BinaryAction::CompareNumbers),
        (left == ValueKind::String && right == ValueKind::String) ==> spec_binary_action(
            op1,
            left,
            right,
        ) == Ok::<BinaryAction, Seq<char>>(BinaryAction::CompareStrings),
        spec_binary_action(op1, left, right) is Ok <==> ((left == ValueKind::Number && right
            == ValueKind::Number) || (left == ValueKind::String && right == ValueKind::String)),
        spec_binary_action(op1, left, right) is Err ==> spec_binary_action(op1, left, right)
            == Err::<BinaryAction, Seq<char>>("Operands must be two numbers or two strings."@),
{
}

/// Arithmetic other than `+` takes two numbers and nothing else, the same
/// for each of `-`, `/`, `*`, `%`.
pub proof fn lemma_arithmetic_wants_numbers(
    op1: TokenType,
    op2: TokenType,
    left: ValueKind,
    right: ValueKind,
)
    requires
        is_arithmetic(op1),
        is_arithmetic(op2),
    ensures
        spec_binary_action(op1, left, right) == spec_binary_action(op2, left, right),
        spec_binary_action(op1, left, right) is Ok <==> (left == ValueKind::Number && right
            == ValueKind::Number),
        spec_binary_action(op1, left, right) is Ok ==> spec_binary_action(op1, left, right)
            == Ok::<BinaryAction, Seq<char>>(BinaryAction::Arithmetic),
        spec_binary_action(op1, left, right) is Err ==> spec_binary_action(op1, left, right)
            == Err::<BinaryAction, Seq<char>>("Operands must be numbers."@),
{
}

/// `+` takes two numbers, two strings, or a string and a number in either
/// order, and refuses anything else; `==` and `!=` take any operands.
pub proof fn lemma_plus_and_equality(left: ValueKind, right: ValueKind)
    ensures
        spec_binary_action(TokenType::Plus, left, right) is Ok <==> ((left == ValueKind::Number
            || left == ValueKind::String) && (right == ValueKind::Number || right
            == ValueKind::String)),
        (left == ValueKind::Number && right == ValueKind::Number) ==> spec_binary_action(
            TokenType::Plus,
            left,
            right,
        ) == Ok::<BinaryAction, Seq<char>>(BinaryAction::AddNumbers),
        (left == ValueKind::String && right == ValueKind::String) ==> spec_binary_action(
            TokenType::Plus,
            left,
            right,
        ) == Ok::<BinaryAction, Seq<char>>(BinaryAction::Concatenate),
        (left == ValueKind::String && right == ValueKind::Number) ==> spec_binary_action(
            TokenType::Plus,
            left,
            right,
        ) == Ok::<BinaryAction, Seq<char>>(BinaryAction::ConcatenateNumberRight),
        (left == ValueKind::Number && right == ValueKind::String) ==> spec_binary_action(
            TokenType::Plus,
            left,
            right,
        ) == Ok::<BinaryAction, Seq<char>>(BinaryAction::ConcatenateNumberLeft),
        spec_binary_action(TokenType::Plus, left, right) is Err ==> spec_binary_action(
            TokenType::Plus,
            left,
            right,
        ) == Err::<BinaryAction, Seq<char>>("Operands must be numbers or strings."@),
        spec_binary_action(TokenType::EqualEqual, left, right) == Ok::<BinaryAction, Seq<char>>(
            BinaryAction::Equal,
        ),
        spec_binary_action(TokenType::BangEqual, left, right) == Ok::<BinaryAction, Seq<char>>(
            BinaryAction::NotEqual,
        ),
{
}

/// `!` takes any operand and `-` only a number.
pub proof fn lemma_unary_kinds(operand: ValueKind)
    ensures
        spec_unary_action(TokenType::Bang, operand) == Ok::<UnaryAction, Seq<char>>(
            UnaryAction::Not,
        ),
        spec_unary_action(TokenType::Minus, operand) is Ok <==> operand == ValueKind::Number,
        operand == ValueKind::Number ==> spec_unary_action(TokenType::Minus, operand) == Ok::<
            UnaryAction,
            Seq<char>,
        >(UnaryAction::Negate),
{
}

/// The model of what [`binary_action`] and [`unary_action`] return.
pub open spec fn action_view<A>(r: Result<A, (Token, String)>) -> Result<A, (TokenV, Seq<char>)> {
    match r {
        Ok(a) => Ok(a),
        Err(e) => Err((e.0@, e.1@)),
    }
}

/// What the binary operator `operator` does with operands of kinds `left`
/// and `right`; operands it refuses are an error at the operator.
pub fn binary_action(operator: &Token, left: ValueKind, right: ValueKind) -> (r: Result<
    BinaryAction,
    (Token, String),
>)
    requires
        is_binary_operator(operator.token_type),
    ensures
        action_view(r) == (match spec_binary_action(operator.token_type, left, right) {
            Ok(a) => Ok(a),
            Err(m) => Err((operator@, m)),
        }),
{
    match operator.token_type {
        TokenType::Minus | TokenType::Slash | TokenType::Star | TokenType::Percent => {
            match (left, right) {
                (ValueKind::Number, ValueKind::Number) => Ok(BinaryAction::Arithmetic),
                _ => Err((operator.clone(), "Operands must be numbers.".to_string())),
            }
        },
        TokenType::Plus => match (left, right) {
            (ValueKind::Number, ValueKind::Number) => Ok(BinaryAction::AddNumbers),
            (ValueKind::String, ValueKind::String) => Ok(BinaryAction::Concatenate),
            (ValueKind::String, ValueKind::Number) => Ok(BinaryAction::ConcatenateNumberRight),
            (ValueKind::Number, ValueKind::String) => Ok(BinaryAction::ConcatenateNumberLeft),
            _ => Err((operator.clone(), "Operands must be numbers or strings.".to_string())),
        },
        TokenType::EqualEqual => Ok(BinaryAction::Equal),
        TokenType::BangEqual => Ok(BinaryAction::NotEqual),
        _ => match (left, right) {
            (ValueKind::Number, ValueKind::Number) => Ok(BinaryAction::CompareNumbers),
            (ValueKind::String, ValueKind::String) => Ok(BinaryAction::CompareStrings),
            _ => Err((operator.clone(), "Operands must be two numbers or two strings.".to_string())),
        },
    }
}

/// The token types a unary expression is built with.
pub open spec fn is_unary_operator(t: TokenType) -> bool {
    t == TokenType::Minus || t == TokenType::Bang
}

/// What `op` does with an operand of kind `operand`: `-` wants a number, `!`
/// takes anything.
pub open spec fn spec_unary_action(op: TokenType, operand: ValueKind) -> Result<
    UnaryAction,
    Seq<char>,
> {
    if op == TokenType::Bang {
        Ok(UnaryAction::Not)
    } else if operand == ValueKind::Number {
        Ok(UnaryAction::Negate)
    } else {
        Err("Operand must be a number."@)
    }
}

/// What the unary operator `operator` does with an operand of kind
/// `operand`; an operand it refuses is an error at the operator.
pub fn unary_action(operator: &Token, operand: ValueKind) -> (r: Result<UnaryAction, (Token, String)>)
    requires
        is_unary_operator(operator.token_type),
    ensures
        action_view(r) == (match spec_unary_action(operator.token_type, operand) {
            Ok(a) => Ok(a),
            Err(m) => Err((operator@, m)),
        }),
{
    match operator.token_type {
        TokenType::Bang => Ok(UnaryAction::Not),
        _ => match operand {
            ValueKind::Number => Ok(UnaryAction::Negate),
            _ => Err((operator.clone(), "Operand must be a number.".to_string())),
        },
    }
}

} // verus!
