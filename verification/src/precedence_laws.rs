//! Which operators bind more tightly than others, and what they do.
use vstd::prelude::*;
use crate::chunk::OpCode;
use crate::expressions::literal_op;
use crate::rules::{binary_ops, rule_of, tighter, tightness, Infix, Precedence, Prefix};
use crate::scanner::TokenType;

verus! {

/// How loosely an operator between two operands joins them: the operators of
/// each level take those of the levels above it as operands. Zero for what is
/// no such operator.
pub open spec fn level_of(kind: TokenType) -> int {
    match kind {
        TokenType::Or => 1,
        TokenType::And => 2,
        TokenType::EqualEqual | TokenType::BangEqual => 3,
        TokenType::Less | TokenType::LessEqual | TokenType::Greater | TokenType::GreaterEqual => 4,
        TokenType::Plus | TokenType::Minus => 5,
        TokenType::Star | TokenType::Slash | TokenType::Backslash => 6,
        TokenType::LeftParen | TokenType::LeftBracket => 8,
        _ => 0,
    }
}

/// A product binds more tightly than a sum, a sum than a comparison, that than
/// an equation, that than `and`, and that than `or`; operators of one level
/// bind alike, and a call or an index binds more tightly than all of them.
pub proof fn law_operators_bind_by_level(a: TokenType, b: TokenType)
    ensures
        level_of(a) < level_of(b) <==> tightness(rule_of(a).precedence) < tightness(
            rule_of(b).precedence,
        ),
        level_of(a) == level_of(b) <==> rule_of(a).precedence == rule_of(b).precedence,
{
    reveal(rule_of);
}

/// A product binds more tightly than a sum.
pub proof fn law_factors_bind_more_tightly_than_terms(factor: TokenType, term: TokenType)
    requires
        factor is Star || factor is Slash || factor is Backslash,
        term is Plus || term is Minus,
    ensures
        tightness(rule_of(factor).precedence) > tightness(rule_of(term).precedence),
{
    reveal(rule_of);
}

/// A sum binds more tightly than a comparison.
pub proof fn law_terms_bind_more_tightly_than_comparisons(term: TokenType, comparison: TokenType)
    requires
        term is Plus || term is Minus,
        comparison is Less || comparison is LessEqual || comparison is Greater || comparison
            is GreaterEqual,
    ensures
        tightness(rule_of(term).precedence) > tightness(rule_of(comparison).precedence),
{
    reveal(rule_of);
}

/// A comparison binds more tightly than an equation, that than `and`, that than
/// `or`, and that than an assignment.
pub proof fn law_conditions_bind_in_order(comparison: TokenType, equation: TokenType)
    requires
        comparison is Less || comparison is LessEqual || comparison is Greater || comparison
            is GreaterEqual,
        equation is EqualEqual || equation is BangEqual,
    ensures
        tightness(rule_of(comparison).precedence) > tightness(rule_of(equation).precedence),
        tightness(rule_of(equation).precedence) > tightness(rule_of(TokenType::And).precedence),
        tightness(rule_of(TokenType::And).precedence) > tightness(
            rule_of(TokenType::Or).precedence,
        ),
        tightness(rule_of(TokenType::Or).precedence) > tightness(Precedence::Assignment),
{
    reveal(rule_of);
}

/// An operator in front of its operand binds more tightly than every operator
/// between two, and less than a call or an index. An expression can hold every
/// operator. What is no operator joins nothing.
pub proof fn law_prefix_operators_bind_in_between(kind: TokenType)
    ensures
        0 < level_of(kind) < 8 ==> tightness(Precedence::Assignment) < tightness(
            rule_of(kind).precedence,
        ) < tightness(Precedence::Unary),
        level_of(kind) == 8 ==> tightness(Precedence::Unary) < tightness(rule_of(kind).precedence),
        level_of(kind) == 0 <==> tightness(rule_of(kind).precedence) < tightness(
            Precedence::Assignment,
        ),
        level_of(kind) == 0 <==> rule_of(kind).infix is None,
{
    reveal(rule_of);
}

/// The right operand of an operator holds only operators that bind more
/// tightly than it does.
pub proof fn law_right_operands_bind_more_tightly(kind: TokenType, other: TokenType)
    requires
        0 < level_of(kind) < 8,
    ensures
        tightness(tighter(rule_of(kind).precedence)) <= tightness(rule_of(other).precedence)
            <==> level_of(kind) < level_of(other),
        tightness(tighter(rule_of(kind).precedence)) > tightness(rule_of(kind).precedence),
        tightness(tighter(rule_of(kind).precedence)) <= tightness(Precedence::Unary),
{
    reveal(rule_of);
}

/// What each token does in front of an operand, as one, and between two.
pub proof fn law_parts_of_tokens(kind: TokenType)
    ensures
        rule_of(kind).prefix == Some(Prefix::Number) <==> kind is Number,
        rule_of(kind).prefix == Some(Prefix::Text) <==> kind is String,
        rule_of(kind).prefix == Some(Prefix::Variable) <==> kind is Identifier,
        rule_of(kind).prefix == Some(Prefix::Literal) <==> kind is Nil || kind is True || kind
            is False,
        rule_of(kind).prefix == Some(Prefix::Unary) <==> kind is Minus || kind is Bang,
        rule_of(kind).prefix == Some(Prefix::Grouping) <==> kind is LeftParen,
        rule_of(kind).prefix == Some(Prefix::List) <==> kind is LeftBracket,
        rule_of(kind).infix == Some(Infix::And) <==> kind is And,
        rule_of(kind).infix == Some(Infix::Or) <==> kind is Or,
        rule_of(kind).infix == Some(Infix::Call) <==> kind is LeftParen,
        rule_of(kind).infix == Some(Infix::Index) <==> kind is LeftBracket,
        rule_of(kind).infix == Some(Infix::Binary) <==> 3 <= level_of(kind) <= 6,
{
    reveal(rule_of);
}

/// The negated comparisons are made of the others: `a != b` is not `a == b`,
/// `a >= b` is not `a < b`, and `a <= b` is not `a > b`.
pub proof fn law_negated_comparisons()
    ensures
        ({
            let opposite = |kind: TokenType, of: TokenType|
                binary_ops(kind).0 == binary_ops(of).0 && binary_ops(of).1 is None && binary_ops(
                    kind,
                ).1 == Some(OpCode::Not);
            &&& opposite(TokenType::BangEqual, TokenType::EqualEqual)
            &&& opposite(TokenType::GreaterEqual, TokenType::Less)
            &&& opposite(TokenType::LessEqual, TokenType::Greater)
        }),
        binary_ops(TokenType::EqualEqual).0 == Some(OpCode::Equal),
        binary_ops(TokenType::Less).0 == Some(OpCode::Less),
        binary_ops(TokenType::Greater).0 == Some(OpCode::Greater),
{
}

/// The words for fixed values put these on the stack.
pub proof fn law_literals()
    ensures
        literal_op(TokenType::Nil) is Nil,
        literal_op(TokenType::True) is True,
        literal_op(TokenType::False) is False,
{
}

} // verus!
