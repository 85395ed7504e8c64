//! Expressions are compiled by the grammar.
use vstd::prelude::*;
use crate::chunk::OpCode;
use crate::expressions::{
    expression, grouping, infix, operators, parse_precedence, prefix, unary,
};
use crate::grammar::{
    can_precede, codes, comes_to, has_read, is_ready, joined_by, joins, left_of, lemma_and,
    lemma_binary, lemma_constant, lemma_enter, lemma_group, lemma_index, lemma_join, lemma_jump,
    lemma_levels, lemma_name, lemma_op, lemma_or, lemma_or_begun, lemma_rem, lemma_splits,
    lemma_step, lemma_unary, lemma_wrap, level, makes, or_begun, right_end, right_of, scope_of,
    splits, Tree,
};
use crate::parser::PState;
use crate::precedence_laws::{
    law_parts_of_tokens, law_right_operands_bind_more_tightly, level_of,
};
use crate::rules::{rule_of, tighter, tightness, Precedence};
use crate::scanner::TokenType;
use crate::value::Value;

verus! {

/// The compiler reads an operand, and goes on with the operators behind `t`.
spec fn gets_to(s: PState, t: PState, p: Precedence, ca: bool) -> bool {
    let s1 = s.advance();
    &&& s1.rem() < s.rem()
    &&& s1.previous.token_type == s.current.token_type
    &&& rule_of(s.current.token_type).prefix matches Some(rule) && {
        let s2 = prefix(s1, rule, ca);
        &&& s2.rem() < s.rem()
        &&& operators(s2, p, ca) == operators(t, p, ca)
    }
}

/// The left operand of an operator can be read.
proof fn lemma_left_ready(s: PState, tree: Tree, i: int, m: int, j: int)
    requires
        is_ready(s, tree, i, j),
        joins(tree),
        splits(tree, s.tokens, i, m, j),
        i < m < j - 1,
    ensures
        is_ready(s, left_of(tree), i, m),
        can_precede(left_of(tree), s.tokens[m].token_type),
        level(left_of(tree)) >= level(tree),
        s.tokens[m].token_type == joined_by(tree),
        level(tree) == level_of(joined_by(tree)),
        level_of(joined_by(tree)) > 0,
{
}

/// The right operand of an operator can be read once the left one has been.
proof fn lemma_right_ready(s: PState, t: PState, u: PState, tree: Tree, i: int, m: int, j: int)
    requires
        is_ready(s, tree, i, j),
        joins(tree),
        splits(tree, s.tokens, i, m, j),
        i < m < j - 1,
        makes(s, t, left_of(tree), m),
        exists|code: Seq<u8>| #[trigger] has_read(t, u, m + 1, code),
        u.function.constants == t.function.constants,
    ensures
        is_ready(u, right_of(tree), m + 1, right_end(tree, j)),
        u.tokens == s.tokens,
        u.function.locals == s.function.locals,
{
    assert(scope_of(u) == scope_of(s));
}

proof fn lemma_same(s: PState, i: int)
    requires
        comes_to(s, i),
    ensures
        has_read(s, s, i, Seq::empty()),
{
    assert(s.function.code =~= s.function.code + Seq::empty());
}

/// One operand by itself.
proof fn lemma_leaf(s: PState, tree: Tree, i: int, j: int, p: Precedence, ca: bool) -> (t: PState)
    requires
        is_ready(s, tree, i, j),
        tree is Number || tree is Text || tree is Word || tree is Name,
        can_precede(tree, s.tokens[j].token_type),
    ensures
        makes(s, t, tree, j),
        gets_to(s, t, p, ca),
{
    let kind = s.tokens[i].token_type;
    law_parts_of_tokens(kind);
    lemma_step(s, i);
    let s1 = s.advance();
    let t = prefix(s1, rule_of(kind).prefix->0, ca);
    match tree {
        Tree::Number(bits) => {
            lemma_constant(s1, j, Value::Number(bits), tree);
        },
        Tree::Text(text) => {
            lemma_constant(s1, j, Value::Obj(text), tree);
        },
        Tree::Name(_) => {
            lemma_name(s1, j, s1.previous, ca);
        },
        _ => {
            let op = crate::expressions::literal_op(kind);
            lemma_op(s1, j, op, s1.span_of(s1.previous));
            let code = seq![crate::chunk::byte_of(op)];
            assert(has_read(s1, t, j, code) && codes(
                tree,
                code,
                scope_of(s1),
                t.function.constants,
            ));
        },
    }
    assert(makes(s1, t, tree, j));
    lemma_same(t, j);
    lemma_wrap(s, s1, t, t, tree, i + 1, j, j);
    lemma_rem(t, j);
    t
}

/// What stands in brackets, or behind an operator in front of it, can be read.
proof fn lemma_inner_ready(s: PState, tree: Tree, inner: Tree, i: int, j: int)
    requires
        is_ready(s, tree, i, j),
        tree is Group && tree->Group_0 == inner || tree is Unary && tree->Unary_1 == inner,
    ensures
        has_read(s, s.advance().enter(), i + 1, Seq::empty()),
        is_ready(
            s.advance().enter(),
            inner,
            i + 1,
            if tree is Group {
                j - 1
            } else {
                j
            },
        ),
        s.advance().enter().tokens == s.tokens,
{
    lemma_step(s, i);
    let s1 = s.advance();
    let e = s1.enter();
    lemma_enter(s1, i + 1);
    lemma_join(s, s1, e, i + 1, i + 1, Seq::empty(), Seq::empty());
    assert(Seq::<u8>::empty() + Seq::empty() =~= Seq::empty());
    assert(scope_of(e) == scope_of(s));
}

proof fn lemma_group_operand(s: PState, tree: Tree, i: int, j: int, p: Precedence, ca: bool) -> (t:
    PState)
    requires
        is_ready(s, tree, i, j),
        tree is Group,
    ensures
        makes(s, t, tree, j),
        gets_to(s, t, p, ca),
    decreases tree, 0int,
{
    let inner = *tree->Group_0;
    law_parts_of_tokens(s.tokens[i].token_type);
    lemma_inner_ready(s, tree, inner, i, j);
    let e = s.advance().enter();
    lemma_levels(TokenType::RightParen);
    lemma_level(inner);
    assert(s.tokens[j - 1].token_type == TokenType::RightParen);
    lemma_parsed(e, inner, i + 1, j - 1, Precedence::Assignment);
    lemma_group(s, tree, inner, i, j);
    let t = grouping(s.advance());
    lemma_step(s, i);
    lemma_rem(t, j);
    t
}

proof fn lemma_unary_operand(s: PState, tree: Tree, i: int, j: int, p: Precedence, ca: bool) -> (t:
    PState)
    requires
        is_ready(s, tree, i, j),
        tree is Unary,
        can_precede(tree, s.tokens[j].token_type),
    ensures
        makes(s, t, tree, j),
        gets_to(s, t, p, ca),
    decreases tree, 0int,
{
    let kind = s.tokens[i].token_type;
    let operand = *tree->Unary_1;
    law_parts_of_tokens(kind);
    lemma_inner_ready(s, tree, operand, i, j);
    let e = s.advance().enter();
    lemma_levels(s.tokens[j].token_type);
    lemma_parsed(e, operand, i + 1, j, Precedence::Unary);
    lemma_unary(s, tree, kind, operand, i, j);
    let t = unary(s.advance());
    lemma_step(s, i);
    lemma_rem(t, j);
    t
}

/// The compiler goes on with an operator that binds tightly enough.
proof fn lemma_goes_on(
    s: PState,
    t: PState,
    u: PState,
    kind: TokenType,
    m: int,
    j: int,
    p: Precedence,
    ca: bool,
)
    requires
        gets_to(s, t, p, ca),
        comes_to(t, m),
        t.tokens[m].token_type == kind,
        m + 1 < t.tokens.len(),
        !(t.tokens[m + 1].token_type is Error),
        rule_of(kind).infix is Some,
        u == infix(t.advance(), rule_of(kind).infix->0, ca),
        comes_to(u, j),
        u.tokens == t.tokens,
        m < j,
        tightness(p) <= tightness(rule_of(kind).precedence),
    ensures
        gets_to(s, u, p, ca),
{
    lemma_step(t, m);
    lemma_rem(t, m);
    lemma_rem(u, j);
    assert(operators(t, p, ca) == operators(u, p, ca));
}

/// What has been read of an expression.
proof fn lemma_made(s: PState, t: PState, tree: Tree, j: int)
    requires
        makes(s, t, tree, j),
    ensures
        comes_to(t, j),
        t.tokens == s.tokens,
{
}

/// An operand, with the operators that join it.
proof fn lemma_operand(s: PState, tree: Tree, i: int, j: int, p: Precedence, ca: bool) -> (t: PState)
    requires
        is_ready(s, tree, i, j),
        tightness(p) <= level(tree) + 1,
        can_precede(tree, s.tokens[j].token_type),
    ensures
        makes(s, t, tree, j),
        gets_to(s, t, p, ca),
    decreases tree, 1int,
{
    if tree is Group {
        lemma_group_operand(s, tree, i, j, p, ca)
    } else if tree is Unary {
        lemma_unary_operand(s, tree, i, j, p, ca)
    } else if joins(tree) {
        let m = lemma_splits(tree, s.tokens, i, j);
        let left = left_of(tree);
        lemma_left_ready(s, tree, i, m, j);
        let t = lemma_operand(s, left, i, m, p, ca);
        lemma_joined(s, t, tree, i, m, j, ca);
        let u = infix(t.advance(), rule_of(joined_by(tree)).infix->0, ca);
        lemma_levels(joined_by(tree));
        lemma_made(s, t, left, m);
        lemma_made(s, u, tree, j);
        lemma_goes_on(s, t, u, joined_by(tree), m, j, p, ca);
        u
    } else {
        lemma_leaf(s, tree, i, j, p, ca)
    }
}

/// The operator behind a left operand, and its right operand.
proof fn lemma_joined(s: PState, t: PState, tree: Tree, i: int, m: int, j: int, ca: bool)
    requires
        is_ready(s, tree, i, j),
        joins(tree),
        splits(tree, s.tokens, i, m, j),
        i < m < j - 1,
        can_precede(tree, s.tokens[j].token_type),
        makes(s, t, left_of(tree), m),
    ensures
        rule_of(joined_by(tree)).infix is Some,
        makes(s, infix(t.advance(), rule_of(joined_by(tree)).infix->0, ca), tree, j),
    decreases tree, 0int,
{
    let kind = joined_by(tree);
    law_parts_of_tokens(kind);
    lemma_left_ready(s, tree, i, m, j);
    lemma_step(t, m);
    lemma_levels(s.tokens[j].token_type);
    let t1 = t.advance();
    let right = right_of(tree);
    match tree {
        Tree::Binary(_, _, _) => {
            lemma_right_ready(s, t, t1, tree, i, m, j);
            law_right_operands_bind_more_tightly(kind, s.tokens[j].token_type);
            lemma_levels(kind);
            let q = tighter(rule_of(kind).precedence);
            assert(tightness(q) == level_of(kind) + 2);
            lemma_parsed(t1, right, m + 1, j, q);
            lemma_binary(s, t, tree, kind, left_of(tree), right, m, j);
        },
        Tree::And(_, _) => {
            let s1 = t1.emit_jump(OpCode::JumpIfFalse);
            let e = s1.op(OpCode::Pop);
            lemma_jump(t1, m + 1, OpCode::JumpIfFalse);
            let first = seq![crate::chunk::byte_of(OpCode::JumpIfFalse), 255u8, 255u8];
            let pop = seq![crate::chunk::byte_of(OpCode::Pop)];
            lemma_op(s1, m + 1, OpCode::Pop, s1.span_of(s1.previous));
            lemma_join(t, t1, s1, m + 1, m + 1, Seq::empty(), first);
            lemma_join(t, s1, e, m + 1, m + 1, Seq::empty() + first, pop);
            lemma_right_ready(s, t, e, tree, i, m, j);
            lemma_parsed(e, right, m + 1, j, Precedence::And);
            lemma_and(s, t, tree, left_of(tree), right, m, j);
        },
        Tree::Or(_, _) => {
            let e = or_begun(t1);
            lemma_or_begun(t1, m + 1);
            let code = seq![crate::chunk::byte_of(OpCode::JumpIfFalse)] + crate::grammar::distance(
                3,
            ) + seq![
                crate::chunk::byte_of(OpCode::Jump),
                255u8,
                255u8,
                crate::chunk::byte_of(OpCode::Pop),
            ];
            lemma_join(t, t1, e, m + 1, m + 1, Seq::empty(), code);
            lemma_right_ready(s, t, e, tree, i, m, j);
            lemma_parsed(e, right, m + 1, j, Precedence::Or);
            lemma_or(s, t, tree, left_of(tree), right, m, j);
        },
        _ => {
            let e = t1.enter();
            lemma_enter(t1, m + 1);
            lemma_join(t, t1, e, m + 1, m + 1, Seq::empty(), Seq::empty());
            lemma_right_ready(s, t, e, tree, i, m, j);
            lemma_levels(TokenType::RightBracket);
            lemma_parsed(e, right, m + 1, j - 1, Precedence::Assignment);
            lemma_index(s, t, tree, left_of(tree), right, m, j, ca);
        },
    }
}

/// An expression that holds together at least as tightly as is asked for, and
/// is followed by what holds it less tightly.
proof fn lemma_parsed(s: PState, tree: Tree, i: int, j: int, p: Precedence)
    requires
        is_ready(s, tree, i, j),
        tightness(p) <= level(tree) + 1,
        can_precede(tree, s.tokens[j].token_type),
        tightness(rule_of(s.tokens[j].token_type).precedence) < tightness(p),
    ensures
        makes(s, parse_precedence(s, p), tree, j),
    decreases tree, 2int,
{
    let ca = tightness(p) <= tightness(Precedence::Assignment);
    let t = lemma_operand(s, tree, i, j, p, ca);
    assert(operators(t, p, ca) == t);
    assert(parse_precedence(s, p) == t);
}

/// An expression of the grammar is read as far as it goes, and its code is that
/// of its operands, in their order, with each operator behind its own: a product
/// in a sum is worked off before the sum, and what stands in brackets before
/// what stands around them.
pub proof fn law_expressions_are_compiled_by_the_grammar(s: PState, tree: Tree, i: int, j: int)
    requires
        is_ready(s, tree, i, j),
        level_of(s.tokens[j].token_type) == 0,
        !(s.tokens[j].token_type is Equal),
    ensures
        exists|code: Seq<u8>| #[trigger]
            has_read(s, expression(s), j, code) && codes(
                tree,
                code,
                scope_of(s),
                expression(s).function.constants,
            ),
{
    lemma_levels(s.tokens[j].token_type);
    lemma_level(tree);
    lemma_parsed(s, tree, i, j, Precedence::Assignment);
}

proof fn lemma_level(tree: Tree)
    requires
        crate::grammar::is_grammatical(tree),
    ensures
        level(tree) > 0,
{
}

} // verus!
