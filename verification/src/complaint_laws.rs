//! What is said of a program that is not well formed.
use vstd::prelude::*;
use crate::expressions::{
    argument_items, call, expression, grouping, index, list, list_items, operators,
    parse_precedence, prefix, whole_expression,
};
use crate::parser::{Lexed, PState};
use crate::rules::{rule_of, Precedence};
use crate::scanner::TokenType;
use crate::statements::{
    block, condition, expression_statement, print_statement, return_statement, switch_case,
    switch_cases, switch_default, switch_end, Compile, Part,
};
use crate::value::Value;

verus! {

/// One thing is reported between two states, at a token.
pub open spec fn complains(s: PState, t: PState, token: Lexed, message: &'static str) -> bool {
    &&& t.notes.len() == s.notes.len() + 1
    &&& t.notes.drop_last() == s.notes
    &&& t.notes.last().message == message
    &&& t.notes.last().span.start == token.start
    &&& t.notes.last().span.end == token.end
    &&& t.had_error
}

/// A compiler that reports what it meets next.
pub open spec fn is_listening(s: PState) -> bool {
    !s.panic_mode && s.note_limit is None
}

proof fn lemma_consume(s: PState, kind: TokenType, message: &'static str)
    requires
        is_listening(s),
        !s.at(kind),
    ensures
        complains(s, s.consume(kind, message), s.current, message),
        s.consume(kind, message).current == s.current,
{
    reveal(PState::consume);
    assert(s.consume(kind, message).notes.drop_last() =~= s.notes);
}

proof fn lemma_error(s: PState, message: &'static str)
    requires
        is_listening(s),
    ensures
        complains(s, s.error(message), s.previous, message),
        complains(s, s.compiler_error(message), s.previous, message),
{
    assert(s.error(message).notes.drop_last() =~= s.notes);
    assert(s.compiler_error(message).notes.drop_last() =~= s.notes);
}

/// A bracket that is missing behind an expression, an index, arguments or
/// elements is missed where something else stands.
pub proof fn law_missing_brackets_are_named(s: PState)
    requires
        s.enter().rem() <= s.rem(),
    ensures
        ({
            let e = expression(s.enter());
            &&& is_listening(e) && !e.at(TokenType::RightParen) ==> complains(
                e,
                grouping(s),
                e.current,
                "Expect ')' after expression.",
            )
            &&& is_listening(e) && !e.at(TokenType::RightBracket) ==> complains(
                e,
                index(s, false),
                e.current,
                "Expect ']' after index.",
            )
        }),
        ({
            let e = argument_items(s.enter(), 0).0;
            !s.enter().at(TokenType::RightParen) && is_listening(e) && !e.at(TokenType::RightParen)
                ==> complains(e, call(s), e.current, "Expect ')' after arguments.")
        }),
        ({
            let e = list_items(s.enter(), 0).0;
            !s.enter().at(TokenType::RightBracket) && is_listening(e) && !e.at(
                TokenType::RightBracket,
            ) ==> complains(e, list(s), e.current, "Expect ']' after list elements.")
        }),
{
    let e = expression(s.enter());
    if is_listening(e) && !e.at(TokenType::RightParen) {
        lemma_consume(e, TokenType::RightParen, "Expect ')' after expression.");
    }
    if is_listening(e) && !e.at(TokenType::RightBracket) {
        lemma_consume(e, TokenType::RightBracket, "Expect ']' after index.");
    }
    let a = argument_items(s.enter(), 0).0;
    if is_listening(a) && !a.at(TokenType::RightParen) {
        lemma_consume(a, TokenType::RightParen, "Expect ')' after arguments.");
    }
    let l = list_items(s.enter(), 0).0;
    if is_listening(l) && !l.at(TokenType::RightBracket) {
        lemma_consume(l, TokenType::RightBracket, "Expect ']' after list elements.");
    }
}

/// A statement that does not end is missed its end, by what it is.
pub proof fn law_missing_ends_are_named(s: PState)
    requires
        is_listening(whole_expression(s)),
        !whole_expression(s).at(TokenType::Semicolon),
    ensures
        ({
            let e = whole_expression(s);
            &&& complains(e, expression_statement(s), e.current, "Expect ';' after expression.")
            &&& complains(e, print_statement(s), e.current, "Expect ';' after value.")
            &&& !(s.function.kind is Script) && !s.at(TokenType::Semicolon) ==> complains(
                e,
                return_statement(s),
                e.current,
                "Expect ';' after return value.",
            )
        }),
{
    reveal(expression_statement);
    reveal(print_statement);
    reveal(return_statement);
    let e = whole_expression(s);
    lemma_consume(e, TokenType::Semicolon, "Expect ';' after expression.");
    lemma_consume(e, TokenType::Semicolon, "Expect ';' after value.");
    lemma_consume(e, TokenType::Semicolon, "Expect ';' after return value.");
}

/// A condition stands in brackets, and a block ends with one.
pub proof fn law_conditions_and_blocks_are_closed(s: PState, message: &'static str, rec: Compile)
    ensures
        ({
            let e = whole_expression(s.consume(TokenType::LeftParen, message).enter());
            is_listening(e) && !e.at(TokenType::RightParen) ==> complains(
                e,
                condition(s, message),
                e.current,
                "Expect ')' after condition.",
            )
        }),
        ({
            let e = rec(Part::Items { in_switch: false }, s);
            is_listening(e) && !e.at(TokenType::RightBrace) ==> complains(
                e,
                block(s, rec),
                e.current,
                "Expect '}' after block.",
            )
        }),
{
    reveal(condition);
    let e = whole_expression(s.consume(TokenType::LeftParen, message).enter());
    if is_listening(e) && !e.at(TokenType::RightParen) {
        lemma_consume(e, TokenType::RightParen, "Expect ')' after condition.");
    }
    let b = rec(Part::Items { in_switch: false }, s);
    if is_listening(b) && !b.at(TokenType::RightBrace) {
        lemma_consume(b, TokenType::RightBrace, "Expect '}' after block.");
    }
}

/// What begins no expression is not one.
pub proof fn law_expressions_are_expected(s: PState, p: Precedence)
    requires
        is_listening(s.advance()),
        rule_of(s.advance().previous.token_type).prefix is None,
    ensures
        complains(
            s.advance(),
            parse_precedence(s, p),
            s.advance().previous,
            "Expect expression.",
        ),
{
    lemma_error(s.advance(), "Expect expression.");
}

/// What is not a variable or an item of a list cannot be assigned to.
pub proof fn law_other_targets_are_refused(s: PState)
    requires
        s.advance().rem() < s.rem(),
        rule_of(s.advance().previous.token_type).prefix is Some,
        ({
            let rule = rule_of(s.advance().previous.token_type).prefix->0;
            let operand = prefix(s.advance(), rule, true);
            let whole = operators(operand, Precedence::Assignment, true);
            operand.rem() < s.rem() && whole.at(TokenType::Equal) && is_listening(whole.advance())
        }),
    ensures
        ({
            let rule = rule_of(s.advance().previous.token_type).prefix->0;
            let operand = prefix(s.advance(), rule, true);
            let read = operators(operand, Precedence::Assignment, true).advance();
            complains(read, expression(s), read.previous, "Invalid assignment target.")
        }),
{
    let rule = rule_of(s.advance().previous.token_type).prefix->0;
    let operand = prefix(s.advance(), rule, true);
    lemma_error(
        operators(operand, Precedence::Assignment, true).advance(),
        "Invalid assignment target.",
    );
}

/// Inside a `switch` stand cases; a second `default`, and a `case` behind one, are
/// refused.
pub proof fn law_cases_are_expected(s: PState, exits: Seq<int>, rec: Compile)
    requires
        is_listening(s),
    ensures
        !s.at(TokenType::RightBrace) && !s.at(TokenType::Eof) && !s.at(TokenType::Case) && !s.at(
            TokenType::Default,
        ) ==> exists|t: PState|
            complains(s, t, s.current, "Expect 'case' or 'default'.") && switch_cases(
                s,
                false,
                exits,
                rec,
            ) == #[trigger] switch_end(t, exits),
        exists|t: PState|
            complains(s, t, s.previous, "Cannot have 'case' after 'default'.") && switch_case(
                s,
                true,
                rec,
            ) == #[trigger] switch_case(t, false, rec),
        exists|t: PState|
            complains(s, t, s.previous, "Cannot have more than one 'default' case.")
                && switch_default(s, true, rec) == #[trigger] switch_default(t, false, rec),
{
    reveal(switch_cases);
    reveal(switch_case);
    reveal(switch_default);
    let t = s.error_at_current("Expect 'case' or 'default'.");
    assert(t.notes.drop_last() =~= s.notes);
    if !s.at(TokenType::RightBrace) && !s.at(TokenType::Eof) && !s.at(TokenType::Case) && !s.at(
        TokenType::Default,
    ) {
        assert(switch_cases(s, false, exits, rec) == switch_end(t, exits));
    }
    lemma_error(s, "Cannot have 'case' after 'default'.");
    lemma_error(s, "Cannot have more than one 'default' case.");
    let u = s.compiler_error("Cannot have 'case' after 'default'.");
    assert(switch_case(s, true, rec) == switch_case(u, false, rec));
    let v = s.compiler_error("Cannot have more than one 'default' case.");
    assert(switch_default(s, true, rec) == switch_default(v, false, rec));
}

/// A call has room for so many arguments, a list for so many elements, and one
/// more is refused.
pub proof fn law_too_many_items_are_refused(s: PState)
    requires
        is_listening(expression(s)),
        !expression(s).at(TokenType::Comma),
    ensures
        ({
            let e = expression(s);
            &&& complains(
                e,
                argument_items(s, 255).0,
                e.previous,
                "Cannot have more than 255 arguments.",
            )
            &&& complains(e, list_items(s, 255).0, e.previous, "Error processing list literal.")
            &&& argument_items(s, 254) == (e, 255u8)
            &&& list_items(s, 254) == (e, 255usize)
        }),
{
    let e = expression(s);
    lemma_error(e, "Cannot have more than 255 arguments.");
    lemma_error(e, "Error processing list literal.");
}

/// The names of globals have to be among the first constants.
pub proof fn law_too_many_globals_are_refused(s: PState, name: Lexed)
    requires
        is_listening(s),
        s.constant_place(Value::Obj(name.text)) > 255,
    ensures
        complains(
            s,
            s.identifier_constant(name),
            s.previous,
            "Too many globals in one chunk.",
        ),
{
    reveal(PState::identifier_constant);
    lemma_error(s.make_constant(Value::Obj(name.text)), "Too many globals in one chunk.");
}

} // verus!
