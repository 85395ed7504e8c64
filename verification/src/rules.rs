//! How tokens take part in expressions.
use vstd::prelude::*;
use crate::chunk::OpCode;
use crate::scanner::TokenType;

verus! {

#[derive(Debug, Clone, Copy, PartialEq, Eq, Structural)]
pub enum Precedence {
    Loosest,
    Assignment,  // =
    Or,  // or
    And,  // and
    Equality,  // == !=
    Comparison,  // < > <= >=
    Term,  // + -
    Factor,  // * /
    Unary,  // ! -
    Call,  // . ()
    Primary,
}

/// How tightly an operator binds.
pub open spec fn tightness(precedence: Precedence) -> int {
    match precedence {
        Precedence::Loosest => 0,
        Precedence::Assignment => 1,
        Precedence::Or => 2,
        Precedence::And => 3,
        Precedence::Equality => 4,
        Precedence::Comparison => 5,
        Precedence::Term => 6,
        Precedence::Factor => 7,
        Precedence::Unary => 8,
        Precedence::Call => 9,
        Precedence::Primary => 10,
    }
}

/// The next tighter precedence.
pub open spec fn tighter(precedence: Precedence) -> Precedence {
    match precedence {
        Precedence::Loosest => Precedence::Assignment,
        Precedence::Assignment => Precedence::Or,
        Precedence::Or => Precedence::And,
        Precedence::And => Precedence::Equality,
        Precedence::Equality => Precedence::Comparison,
        Precedence::Comparison => Precedence::Term,
        Precedence::Term => Precedence::Factor,
        Precedence::Factor => Precedence::Unary,
        Precedence::Unary => Precedence::Call,
        Precedence::Call => Precedence::Primary,
        Precedence::Primary => Precedence::Primary,
    }
}

/// What a token does at the start of an expression.
#[derive(Debug, Clone, Copy, PartialEq, Eq, Structural)]
pub enum Prefix {
    Grouping,
    List,
    Unary,
    Text,
    Variable,
    Number,
    Literal,
}

/// What a token does behind an expression.
#[derive(Debug, Clone, Copy, PartialEq, Eq, Structural)]
pub enum Infix {
    Call,
    Index,
    Binary,
    And,
    Or,
}

#[derive(Debug, Clone, Copy, PartialEq, Eq, Structural)]
pub struct ParseRule {
    pub prefix: Option<Prefix>,
    pub infix: Option<Infix>,
    pub precedence: Precedence,
}

/// The part that each kind of token plays in expressions.
#[verifier::opaque]
pub open spec fn rule_of(kind: TokenType) -> ParseRule {
    let binary = |precedence: Precedence|
        ParseRule { prefix: None, infix: Some(Infix::Binary), precedence };
    let prefix = |prefix: Prefix|
        ParseRule { prefix: Some(prefix), infix: None, precedence: Precedence::Loosest };
    match kind {
        TokenType::LeftParen => ParseRule {
            prefix: Some(Prefix::Grouping),
            infix: Some(Infix::Call),
            precedence: Precedence::Call,
        },
        TokenType::LeftBracket => ParseRule {
            prefix: Some(Prefix::List),
            infix: Some(Infix::Index),
            precedence: Precedence::Call,
        },
        TokenType::Minus => ParseRule {
            prefix: Some(Prefix::Unary),
            infix: Some(Infix::Binary),
            precedence: Precedence::Term,
        },
        TokenType::Plus => binary(Precedence::Term),
        TokenType::Slash | TokenType::Backslash | TokenType::Star => binary(Precedence::Factor),
        TokenType::BangEqual | TokenType::EqualEqual => binary(Precedence::Equality),
        TokenType::Greater | TokenType::GreaterEqual | TokenType::Less | TokenType::LessEqual =>
            binary(Precedence::Comparison),
        TokenType::Bang => prefix(Prefix::Unary),
        TokenType::String => prefix(Prefix::Text),
        TokenType::Identifier => prefix(Prefix::Variable),
        TokenType::Number => prefix(Prefix::Number),
        TokenType::False | TokenType::Nil | TokenType::True => prefix(Prefix::Literal),
        TokenType::And => ParseRule {
            prefix: None,
            infix: Some(Infix::And),
            precedence: Precedence::And,
        },
        TokenType::Or => ParseRule {
            prefix: None,
            infix: Some(Infix::Or),
            precedence: Precedence::Or,
        },
        _ => ParseRule { prefix: None, infix: None, precedence: Precedence::Loosest },
    }
}

/// The instructions of a binary operator, one or two.
pub open spec fn binary_ops(kind: TokenType) -> (Option<OpCode>, Option<OpCode>) {
    match kind {
        TokenType::BangEqual => (Some(OpCode::Equal), Some(OpCode::Not)),
        TokenType::EqualEqual => (Some(OpCode::Equal), None),
        TokenType::Greater => (Some(OpCode::Greater), None),
        TokenType::GreaterEqual => (Some(OpCode::Less), Some(OpCode::Not)),
        TokenType::Less => (Some(OpCode::Less), None),
        TokenType::LessEqual => (Some(OpCode::Greater), Some(OpCode::Not)),
        TokenType::Plus => (Some(OpCode::Add), None),
        TokenType::Minus => (Some(OpCode::Subtract), None),
        TokenType::Star => (Some(OpCode::Multiply), None),
        TokenType::Slash => (Some(OpCode::Divide), None),
        TokenType::Backslash => (Some(OpCode::IntDivide), None),
        _ => (None, None),
    }
}

pub fn get_rule(kind: TokenType) -> (rule: ParseRule)
    ensures
        rule == rule_of(kind),
{
    proof {
        reveal(rule_of);
    }
    match kind {
        TokenType::LeftParen => ParseRule {
            prefix: Some(Prefix::Grouping),
            infix: Some(Infix::Call),
            precedence: Precedence::Call,
        },
        TokenType::LeftBracket => ParseRule {
            prefix: Some(Prefix::List),
            infix: Some(Infix::Index),
            precedence: Precedence::Call,
        },
        TokenType::Minus => ParseRule {
            prefix: Some(Prefix::Unary),
            infix: Some(Infix::Binary),
            precedence: Precedence::Term,
        },
        TokenType::Plus => ParseRule {
            prefix: None,
            infix: Some(Infix::Binary),
            precedence: Precedence::Term,
        },
        TokenType::Slash | TokenType::Backslash | TokenType::Star => ParseRule {
            prefix: None,
            infix: Some(Infix::Binary),
            precedence: Precedence::Factor,
        },
        TokenType::Bang => ParseRule {
            prefix: Some(Prefix::Unary),
            infix: None,
            precedence: Precedence::Loosest,
        },
        TokenType::BangEqual | TokenType::EqualEqual => ParseRule {
            prefix: None,
            infix: Some(Infix::Binary),
            precedence: Precedence::Equality,
        },
        TokenType::Greater | TokenType::GreaterEqual | TokenType::Less | TokenType::LessEqual =>
        ParseRule {
            prefix: None,
            infix: Some(Infix::Binary),
            precedence: Precedence::Comparison,
        },
        TokenType::String => ParseRule {
            prefix: Some(Prefix::Text),
            infix: None,
            precedence: Precedence::Loosest,
        },
        TokenType::Identifier => ParseRule {
            prefix: Some(Prefix::Variable),
            infix: None,
            precedence: Precedence::Loosest,
        },
        TokenType::Number => ParseRule {
            prefix: Some(Prefix::Number),
            infix: None,
            precedence: Precedence::Loosest,
        },
        TokenType::And => ParseRule {
            prefix: None,
            infix: Some(Infix::And),
            precedence: Precedence::And,
        },
        TokenType::Or => ParseRule {
            prefix: None,
            infix: Some(Infix::Or),
            precedence: Precedence::Or,
        },
        TokenType::False | TokenType::Nil | TokenType::True => ParseRule {
            prefix: Some(Prefix::Literal),
            infix: None,
            precedence: Precedence::Loosest,
        },
        // The tokens that play no part in expressions.
        _ => ParseRule { prefix: None, infix: None, precedence: Precedence::Loosest },
    }
}

impl Precedence {
    pub fn level(self) -> (level: u8)
        ensures
            level == tightness(self),
    {
        match self {
            Precedence::Loosest => 0,
            Precedence::Assignment => 1,
            Precedence::Or => 2,
            Precedence::And => 3,
            Precedence::Equality => 4,
            Precedence::Comparison => 5,
            Precedence::Term => 6,
            Precedence::Factor => 7,
            Precedence::Unary => 8,
            Precedence::Call => 9,
            Precedence::Primary => 10,
        }
    }

    pub fn next(self) -> (next: Precedence)
        ensures
            next == tighter(self),
    {
        match self {
            Precedence::Loosest => Precedence::Assignment,
            Precedence::Assignment => Precedence::Or,
            Precedence::Or => Precedence::And,
            Precedence::And => Precedence::Equality,
            Precedence::Equality => Precedence::Comparison,
            Precedence::Comparison => Precedence::Term,
            Precedence::Term => Precedence::Factor,
            Precedence::Factor => Precedence::Unary,
            Precedence::Unary => Precedence::Call,
            Precedence::Call => Precedence::Primary,
            Precedence::Primary => Precedence::Primary,
        }
    }
}

} // verus!
