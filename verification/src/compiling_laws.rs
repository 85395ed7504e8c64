//! What holds of every run of the compiler: its bounds change nothing while
//! they are kept, names are met in the order of the source, and a program is
//! missing exactly where something was reported.
use vstd::prelude::*;
use crate::chunk::OpCode;
use crate::compiler::{
    at_end, at_start, lexed, lexed_all, lexed_once, reports, CompileOptions, CompileOutcome, Lexing,
};
use crate::debug_info::{BindingKind, DebugPointKind};
use crate::expression_laws::{
    calm, forward, in_order, keeps, lemma_advance, lemma_close_function, lemma_consume, lemma_declares, lemma_define,
    lemma_end_scope, lemma_enter, lemma_error, lemma_expression, lemma_loop, lemma_mark,
    lemma_open_function, lemma_parse_variable, lemma_patch, lemma_point, lemma_same,
    lemma_synchronize, told, tokens_in_order, unbounded, within_bounds,
};
use crate::expressions::whole_expression;
use crate::parser::{one_more, well_ended, FState, FunctionType, PState, SymbolKind};
use crate::scanner::{law_lex_makes_progress, lemma_token_start, token_start, TokenType};
use crate::source::{SourceDocument, TextPosition};
use crate::statements::{
    block, compiled, condition, declaration, expression_statement, for_clauses, for_condition,
    for_increment, for_initializer, for_statement, fun_declaration, function, if_statement,
    inside, is_keyword_statement, items, keyword_statement, parameters, part_body, patch_all,
    print_statement, program, rank, return_statement, statement, switch_case, switch_cases,
    switch_default, switch_end, switch_statement, var_declaration, while_statement,
    with_captures, with_closure, within, Compile, ForHeader, Part,
};
use crate::text::{lemma_utf8_len_monotone, utf8_len};

verus! {

proof fn lemma_expression_statement(s: PState)
    ensures
        keeps(s, expression_statement(s), expression_statement(unbounded(s))),
{
    reveal(keeps);
    reveal(expression_statement);
    lemma_expression(s);
    lemma_consume(whole_expression(s), TokenType::Semicolon, "Expect ';' after expression.");
}

proof fn lemma_print_statement(s: PState)
    ensures
        keeps(s, print_statement(s), print_statement(unbounded(s))),
{
    reveal(keeps);
    reveal(print_statement);
    lemma_expression(s);
    lemma_consume(whole_expression(s), TokenType::Semicolon, "Expect ';' after value.");
}

proof fn lemma_return_statement(s: PState)
    ensures
        keeps(s, return_statement(s), return_statement(unbounded(s))),
{
    reveal(keeps);
    reveal(return_statement);
    let message = "Cannot return from top-level code.";
    lemma_error(s, message);
    let s1 = if s.function.kind == FunctionType::Script {
        s.compiler_error(message)
    } else {
        s
    };
    if s1.at(TokenType::Semicolon) {
        lemma_advance(s1);
    } else {
        lemma_expression(s1);
        lemma_consume(whole_expression(s1), TokenType::Semicolon, "Expect ';' after return value.");
    }
}

proof fn lemma_var_declaration(s: PState)
    ensures
        keeps(s, var_declaration(s), var_declaration(unbounded(s))),
{
    reveal(keeps);
    reveal(var_declaration);
    lemma_parse_variable(s, "Expect variable name.", BindingKind::Local);
    let s0 = s.parse_variable("Expect variable name.", BindingKind::Local);
    lemma_declares(s0, SymbolKind::Variable);
    let s1 = s0.declares(SymbolKind::Variable);
    let global = s.variable_operand("Expect variable name.", BindingKind::Local);
    let s2 = if s1.at(TokenType::Equal) {
        lemma_advance(s1);
        lemma_expression(s1.advance());
        whole_expression(s1.advance())
    } else {
        s1.op(OpCode::Nil)
    };
    let message = "Expect ';' after variable declaration.";
    lemma_consume(s2, TokenType::Semicolon, message);
    lemma_define(s2.consume(TokenType::Semicolon, message), global);
}

proof fn lemma_condition(s: PState, message: &'static str)
    ensures
        keeps(s, condition(s, message), condition(unbounded(s), message)),
{
    reveal(keeps);
    reveal(condition);
    lemma_consume(s, TokenType::LeftParen, message);
    let s0 = s.consume(TokenType::LeftParen, message);
    lemma_enter(s0);
    lemma_expression(s0.enter());
    lemma_consume(
        whole_expression(s0.enter()),
        TokenType::RightParen,
        "Expect ')' after condition.",
    );
}

/// What is compiled inside a part, and what is without bounds.
#[verifier::opaque]
spec fn alike(rec: Compile, other: Compile) -> bool {
    forall|part: Part, s: PState| #[trigger] keeps(s, rec(part, s), other(part, unbounded(s)))
}

proof fn lemma_rec(rec: Compile, other: Compile, part: Part, s: PState)
    requires
        alike(rec, other),
    ensures
        keeps(s, rec(part, s), other(part, unbounded(s))),
{
    reveal(alike);
}

/// The head of an `if`, with the jump past the first branch.
#[verifier::opaque]
spec fn if_begun(s: PState) -> PState {
    condition(s.enter(), "Expect '(' after 'if'.").emit_jump(OpCode::JumpIfFalse)
}

/// The first branch, and the place of the jump behind it.
#[verifier::opaque]
spec fn then_branch(s: PState, rec: Compile) -> (PState, int) {
    let s1 = rec(Part::Statement, s.op(OpCode::Pop)).emit_jump(OpCode::Jump);
    (s1.patch_jump(s.jump_place()).op(OpCode::Pop), s1.jump_place())
}

/// The second branch, if there is one.
#[verifier::opaque]
spec fn else_branch(s: PState, end: int, rec: Compile) -> PState {
    let s1 = if s.at(TokenType::Else) {
        rec(Part::Statement, s.advance())
    } else {
        s
    };
    s1.patch_jump(end).leave()
}

proof fn lemma_if_begun(s: PState)
    ensures
        keeps(s, if_begun(s), if_begun(unbounded(s))),
{
    reveal(keeps);
    reveal(if_begun);
    lemma_enter(s);
    lemma_condition(s.enter(), "Expect '(' after 'if'.");
}

proof fn lemma_then_branch(s: PState, rec: Compile, other: Compile)
    requires
        alike(rec, other),
    ensures
        keeps(s, then_branch(s, rec).0, then_branch(unbounded(s), other).0),
        calm(s) && within_bounds(then_branch(s, rec).0) ==> then_branch(s, rec).1 == then_branch(
            unbounded(s),
            other,
        ).1,
{
    reveal(keeps);
    reveal(then_branch);
    lemma_rec(rec, other, Part::Statement, s.op(OpCode::Pop));
    let s1 = rec(Part::Statement, s.op(OpCode::Pop)).emit_jump(OpCode::Jump);
    lemma_patch(s1, s.jump_place());
}

proof fn lemma_else_branch(s: PState, end: int, rec: Compile, other: Compile)
    requires
        alike(rec, other),
    ensures
        keeps(s, else_branch(s, end, rec), else_branch(unbounded(s), end, other)),
{
    reveal(keeps);
    reveal(else_branch);
    let s1 = if s.at(TokenType::Else) {
        lemma_advance(s);
        lemma_rec(rec, other, Part::Statement, s.advance());
        rec(Part::Statement, s.advance())
    } else {
        s
    };
    lemma_patch(s1, end);
}

proof fn lemma_if_is(s: PState, rec: Compile)
    ensures
        if_statement(s, rec) == ({
            let (t, end) = then_branch(if_begun(s), rec);
            else_branch(t, end, rec)
        }),
{
    reveal(if_statement);
    reveal(if_begun);
    reveal(then_branch);
    reveal(else_branch);
}

proof fn lemma_if(s: PState, rec: Compile, other: Compile)
    requires
        alike(rec, other),
    ensures
        keeps(s, if_statement(s, rec), if_statement(unbounded(s), other)),
{
    lemma_if_is(s, rec);
    lemma_if_is(unbounded(s), other);
    lemma_if_begun(s);
    let s1 = if_begun(s);
    lemma_then_branch(s1, rec, other);
    let (s2, end) = then_branch(s1, rec);
    lemma_else_branch(s2, end, rec, other);
    reveal(keeps);
}

proof fn lemma_while(s: PState, rec: Compile, other: Compile)
    requires
        alike(rec, other),
    ensures
        keeps(s, while_statement(s, rec), while_statement(unbounded(s), other)),
{
    reveal(keeps);
    reveal(while_statement);
    let start = s.function.code.len() as int;
    let message = "Expect '(' after 'while'.";
    lemma_enter(s);
    lemma_condition(s.enter(), message);
    let s1 = condition(s.enter(), message).emit_jump(OpCode::JumpIfFalse);
    let exit = s1.jump_place();
    lemma_rec(rec, other, Part::Statement, s1.op(OpCode::Pop));
    let s2 = rec(Part::Statement, s1.op(OpCode::Pop));
    lemma_loop(s2, start);
    lemma_patch(s2.emit_loop(start), exit);
}

proof fn lemma_for_initializer(s: PState)
    ensures
        keeps(s, for_initializer(s), for_initializer(unbounded(s))),
{
    reveal(keeps);
    reveal(for_initializer);
    lemma_advance(s);
    if s.at(TokenType::Semicolon) {
    } else if s.at(TokenType::Var) {
        let s1 = s.advance();
        let s2 = s1.schedule_point(DebugPointKind::LoopInitializer, s1.span_of(s1.previous));
        lemma_var_declaration(s2);
        lemma_point(var_declaration(s2), s1.next_point_id);
    } else {
        let s1 = s.schedule_point(DebugPointKind::LoopInitializer, s.span_of(s.current));
        lemma_expression_statement(s1);
        lemma_point(expression_statement(s1), s.next_point_id);
    }
}

proof fn lemma_for_condition(s: PState)
    ensures
        keeps(s, for_condition(s), for_condition(unbounded(s))),
{
    reveal(keeps);
    reveal(for_condition);
    let s1 = s.schedule_point(DebugPointKind::LoopCondition, s.span_of(s.current));
    lemma_expression(s1);
    let message = "Expect ';' after loop condition.";
    lemma_consume(whole_expression(s1), TokenType::Semicolon, message);
    lemma_point(
        whole_expression(s1).consume(TokenType::Semicolon, message),
        s.next_point_id,
    );
}

proof fn lemma_for_increment(s: PState, start: int)
    ensures
        keeps(s, for_increment(s, start), for_increment(unbounded(s), start)),
{
    reveal(keeps);
    reveal(for_increment);
    let s1 = s.emit_jump(OpCode::Jump);
    let body = s1.jump_place();
    let s2 = s1.schedule_point(DebugPointKind::LoopIncrement, s1.span_of(s1.current));
    lemma_expression(s2);
    lemma_point(whole_expression(s2), s1.next_point_id);
    let s3 = whole_expression(s2).finish_point(s1.next_point_id).op(OpCode::Pop);
    let message = "Expect ')' after for clauses.";
    lemma_consume(s3, TokenType::RightParen, message);
    let s4 = s3.consume(TokenType::RightParen, message);
    lemma_loop(s4, start);
    lemma_patch(s4.emit_loop(start), body);
}

proof fn lemma_for_clauses(s: PState)
    ensures
        keeps(s, for_clauses(s).state, for_clauses(unbounded(s)).state),
        calm(s) && within_bounds(for_clauses(s).state) ==> for_clauses(s).back == for_clauses(
            unbounded(s),
        ).back && for_clauses(s).exit == for_clauses(unbounded(s)).exit,
{
    reveal(keeps);
    reveal(for_clauses);
    let start = s.function.code.len() as int;
    let conditional = !s.at(TokenType::Semicolon);
    let s1 = if conditional {
        lemma_for_condition(s);
        for_condition(s)
    } else {
        lemma_advance(s);
        s.advance()
    };
    let s2 = if conditional {
        s1.op(OpCode::Pop)
    } else {
        s1
    };
    lemma_advance(s2);
    lemma_for_increment(s2, start);
}

/// The header of a `for` up to its first part.
#[verifier::opaque]
spec fn for_begun(s: PState) -> PState {
    for_initializer(
        s.enter().begin_scope().consume(TokenType::LeftParen, "Expect '(' after 'for'.").enter(),
    )
}

/// The body of a `for`, and what follows it.
#[verifier::opaque]
spec fn for_ended(header: ForHeader, rec: Compile) -> PState {
    let s1 = rec(Part::Statement, header.state.leave()).emit_loop(header.back);
    let s2 = match header.exit {
        Some(place) => s1.patch_jump(place).op(OpCode::Pop),
        None => s1,
    };
    s2.end_scope().leave()
}

proof fn lemma_for_begun(s: PState)
    ensures
        keeps(s, for_begun(s), for_begun(unbounded(s))),
{
    reveal(keeps);
    reveal(for_begun);
    let message = "Expect '(' after 'for'.";
    lemma_enter(s);
    let s1 = s.enter().begin_scope();
    lemma_consume(s1, TokenType::LeftParen, message);
    let s2 = s1.consume(TokenType::LeftParen, message);
    lemma_enter(s2);
    lemma_for_initializer(s2.enter());
}

proof fn lemma_for_ended(header: ForHeader, rec: Compile, other: Compile)
    requires
        alike(rec, other),
    ensures
        keeps(
            header.state,
            for_ended(header, rec),
            for_ended(ForHeader { state: unbounded(header.state), ..header }, other),
        ),
{
    reveal(keeps);
    reveal(for_ended);
    lemma_rec(rec, other, Part::Statement, header.state.leave());
    let body = rec(Part::Statement, header.state.leave());
    lemma_loop(body, header.back);
    let s1 = body.emit_loop(header.back);
    let s2 = match header.exit {
        Some(place) => {
            lemma_patch(s1, place);
            s1.patch_jump(place).op(OpCode::Pop)
        },
        None => s1,
    };
    lemma_end_scope(s2);
}

proof fn lemma_for_is(s: PState, rec: Compile)
    ensures
        for_statement(s, rec) == for_ended(for_clauses(for_begun(s)), rec),
{
    reveal(for_statement);
    reveal(for_begun);
    reveal(for_ended);
}

proof fn lemma_for(s: PState, rec: Compile, other: Compile)
    requires
        alike(rec, other),
    ensures
        keeps(s, for_statement(s, rec), for_statement(unbounded(s), other)),
{
    lemma_for_is(s, rec);
    lemma_for_is(unbounded(s), other);
    lemma_for_begun(s);
    lemma_for_clauses(for_begun(s));
    let header = for_clauses(for_begun(s));
    lemma_for_ended(header, rec, other);
    reveal(keeps);
}

proof fn lemma_items(s: PState, in_switch: bool, rec: Compile, other: Compile)
    requires
        alike(rec, other),
    ensures
        keeps(s, items(s, in_switch, rec), items(unbounded(s), in_switch, other)),
{
    reveal(keeps);
    reveal(items);
    lemma_rec(rec, other, Part::Declaration, s);
    lemma_rec(rec, other, Part::Items { in_switch }, rec(Part::Declaration, s));
}

proof fn lemma_block(s: PState, rec: Compile, other: Compile)
    requires
        alike(rec, other),
    ensures
        keeps(s, block(s, rec), block(unbounded(s), other)),
{
    reveal(keeps);
    lemma_rec(rec, other, Part::Items { in_switch: false }, s);
    lemma_consume(
        rec(Part::Items { in_switch: false }, s),
        TokenType::RightBrace,
        "Expect '}' after block.",
    );
}

proof fn lemma_switch_case(s: PState, has_default: bool, rec: Compile, other: Compile)
    requires
        alike(rec, other),
    ensures
        keeps(
            s,
            switch_case(s, has_default, rec).0,
            switch_case(unbounded(s), has_default, other).0,
        ),
        calm(s) && within_bounds(switch_case(s, has_default, rec).0) ==> switch_case(
            s,
            has_default,
            rec,
        ).1 == switch_case(unbounded(s), has_default, other).1,
{
    reveal(keeps);
    reveal(switch_case);
    let message = "Cannot have 'case' after 'default'.";
    lemma_error(s, message);
    let s1 = if has_default {
        s.compiler_error(message)
    } else {
        s
    };
    let dup = s1.op(OpCode::Dup);
    lemma_expression(dup);
    let colon = "Expect ':' after 'case' value.";
    lemma_consume(whole_expression(dup), TokenType::Colon, colon);
    let s2 = whole_expression(dup).consume(TokenType::Colon, colon).op(OpCode::Equal).emit_jump(
        OpCode::JumpIfFalse,
    );
    let next = s2.jump_place();
    let part = Part::Items { in_switch: true };
    lemma_rec(rec, other, part, s2.op(OpCode::Pop));
    let s3 = rec(part, s2.op(OpCode::Pop)).emit_jump(OpCode::Jump);
    lemma_patch(s3, next);
}

proof fn lemma_switch_default(s: PState, has_default: bool, rec: Compile, other: Compile)
    requires
        alike(rec, other),
    ensures
        keeps(
            s,
            switch_default(s, has_default, rec),
            switch_default(unbounded(s), has_default, other),
        ),
{
    reveal(keeps);
    reveal(switch_default);
    let message = "Cannot have more than one 'default' case.";
    lemma_error(s, message);
    let s1 = if has_default {
        s.compiler_error(message)
    } else {
        s
    };
    let colon = "Expect ':' after 'default'.";
    lemma_consume(s1, TokenType::Colon, colon);
    lemma_rec(rec, other, Part::Items { in_switch: true }, s1.consume(TokenType::Colon, colon));
}

proof fn lemma_patch_all(s: PState, places: Seq<int>, i: int)
    ensures
        keeps(s, patch_all(s, places, i), patch_all(unbounded(s), places, i)),
    decreases places.len() - i,
{
    reveal(keeps);
    if 0 <= i < places.len() {
        lemma_patch(s, places[i]);
        lemma_patch_all(s.patch_jump(places[i]), places, i + 1);
    }
}

proof fn lemma_switch_end(s: PState, exits: Seq<int>)
    ensures
        keeps(s, switch_end(s, exits), switch_end(unbounded(s), exits)),
{
    reveal(keeps);
    reveal(switch_end);
    let message = "Expect '}' after switch case.";
    lemma_consume(s, TokenType::RightBrace, message);
    lemma_patch_all(s.consume(TokenType::RightBrace, message), exits, 0);
}

proof fn lemma_switch_cases(
    s: PState,
    has_default: bool,
    exits: Seq<int>,
    rec: Compile,
    other: Compile,
)
    requires
        alike(rec, other),
    ensures
        keeps(
            s,
            switch_cases(s, has_default, exits, rec),
            switch_cases(unbounded(s), has_default, exits, other),
        ),
{
    reveal(keeps);
    reveal(switch_cases);
    if s.at(TokenType::RightBrace) || s.at(TokenType::Eof) {
        lemma_switch_end(s, exits);
    } else if s.at(TokenType::Case) {
        lemma_advance(s);
        lemma_switch_case(s.advance(), has_default, rec, other);
        let (s1, exit) = switch_case(s.advance(), has_default, rec);
        lemma_rec(rec, other, Part::Cases { has_default, exits: exits.push(exit) }, s1);
    } else if s.at(TokenType::Default) {
        lemma_advance(s);
        lemma_switch_default(s.advance(), has_default, rec, other);
        let s1 = switch_default(s.advance(), has_default, rec);
        lemma_rec(rec, other, Part::Cases { has_default: true, exits }, s1);
    } else {
        let message = "Expect 'case' or 'default'.";
        lemma_error(s, message);
        lemma_switch_end(s.error_at_current(message), exits);
    }
}

proof fn lemma_switch(s: PState, rec: Compile, other: Compile)
    requires
        alike(rec, other),
    ensures
        keeps(s, switch_statement(s, rec), switch_statement(unbounded(s), other)),
{
    reveal(keeps);
    reveal(switch_statement);
    let message = "Expect '(' after 'switch'";
    lemma_enter(s);
    lemma_condition(s.enter(), message);
    let s0 = condition(s.enter(), message);
    let brace = "Expect '{' before switch case.";
    lemma_consume(s0, TokenType::LeftBrace, brace);
    let s1 = s0.consume(TokenType::LeftBrace, brace);
    lemma_enter(s1);
    let s2 = s1.enter().begin_scope();
    let part = Part::Cases { has_default: false, exits: Seq::empty() };
    lemma_rec(rec, other, part, s2);
    lemma_end_scope(rec(part, s2).op(OpCode::Pop));
}

proof fn lemma_parameter(s: PState)
    ensures
        ({
            let message = "Expect parameter name.";
            let kind = BindingKind::Parameter;
            keeps(
                s,
                s.parse_variable(message, kind).declares(SymbolKind::Parameter).define_variable(
                    s.variable_operand(message, kind),
                ),
                unbounded(s).parse_variable(message, kind).declares(
                    SymbolKind::Parameter,
                ).define_variable(unbounded(s).variable_operand(message, kind)),
            )
        }),
{
    reveal(keeps);
    let message = "Expect parameter name.";
    let kind = BindingKind::Parameter;
    lemma_parse_variable(s, message, kind);
    let s1 = s.parse_variable(message, kind);
    lemma_declares(s1, SymbolKind::Parameter);
    lemma_define(s1.declares(SymbolKind::Parameter), s.variable_operand(message, kind));
}

proof fn lemma_parameters(s: PState)
    ensures
        keeps(s, parameters(s), parameters(unbounded(s))),
    decreases s.rem(),
{
    reveal(keeps);
    let arity = one_more(s.function.arity);
    let s1 = s.with_function(FState { arity, ..s.function });
    let full = "Cannot have more than 255 parameters.";
    lemma_error(s1, full);
    let s2 = if arity > 255 {
        s1.compiler_error_at_current(full)
    } else {
        s1
    };
    let message = "Expect parameter name.";
    lemma_parameter(s2);
    let s3 = s2.parse_variable(message, BindingKind::Parameter).declares(
        SymbolKind::Parameter,
    ).define_variable(s2.variable_operand(message, BindingKind::Parameter));
    if s3.at(TokenType::Comma) {
        lemma_advance(s3);
        let s4 = s3.advance();
        if s4.rem() < s.rem() {
            lemma_parameters(s4);
        }
    }
}

proof fn lemma_captures(s: PState, function: FState, i: int)
    ensures
        keeps(s, with_captures(s, function, i), with_captures(unbounded(s), function, i)),
    decreases function.upvalues.len() - i,
{
    reveal(keeps);
    if 0 <= i < function.upvalues.len() {
        let upvalue = function.upvalues[i];
        let local = if upvalue.is_local {
            1u8
        } else {
            0u8
        };
        lemma_captures(s.byte(local).byte(upvalue.index), function, i + 1);
    }
}

proof fn lemma_with_closure(s: PState)
    ensures
        keeps(s, with_closure(s), with_closure(unbounded(s))),
{
    reveal(keeps);
    reveal(with_closure);
    reveal(PState::leave_function);
    let s1 = s.leave_function();
    let value = crate::statements::function_constant(s.finished.len() as int);
    let constant = s1.constant_place(value);
    let s2 = s1.make_constant(value);
    let message = "Too many constants in one chunk.";
    lemma_error(s2, message);
    let s3 = if constant <= 255 {
        s2.op_byte(OpCode::Closure, constant as u8)
    } else if constant <= 0xff_ffff {
        s2.op_long(OpCode::ClosureLong, constant)
    } else {
        s2.compiler_error(message)
    };
    lemma_captures(s3, s.function, 0);
}

/// A function up to its parameters.
#[verifier::opaque]
spec fn function_begun(s: PState) -> PState {
    let s1 = s.open_function(FunctionType::Function).begin_scope().consume(
        TokenType::LeftParen,
        "Expect '(' after function name.",
    ).enter();
    if s1.at(TokenType::RightParen) {
        s1
    } else {
        parameters(s1)
    }
}

/// What stands between the parameters of a function and its body.
#[verifier::opaque]
spec fn body_begun(s: PState) -> PState {
    s.consume(TokenType::RightParen, "Expect ')' after parameters.").leave().consume(
        TokenType::LeftBrace,
        "Expect '{' before function body.",
    ).enter()
}

/// The body of a function, and the closure that is made of it.
#[verifier::opaque]
spec fn function_ended(s: PState, start: TextPosition, rec: Compile) -> PState {
    with_closure(block(s, rec).leave().declare_function(start).close_function())
}

proof fn lemma_function_begun(s: PState)
    ensures
        keeps(s, function_begun(s), function_begun(unbounded(s))),
{
    reveal(keeps);
    reveal(function_begun);
    lemma_open_function(s, FunctionType::Function);
    let s1 = s.open_function(FunctionType::Function).begin_scope();
    let message = "Expect '(' after function name.";
    lemma_consume(s1, TokenType::LeftParen, message);
    let s2 = s1.consume(TokenType::LeftParen, message);
    lemma_enter(s2);
    lemma_parameters(s2.enter());
}

proof fn lemma_body_begun(s: PState)
    ensures
        keeps(s, body_begun(s), body_begun(unbounded(s))),
{
    reveal(keeps);
    reveal(body_begun);
    let after = "Expect ')' after parameters.";
    lemma_consume(s, TokenType::RightParen, after);
    let s1 = s.consume(TokenType::RightParen, after).leave();
    let before = "Expect '{' before function body.";
    lemma_consume(s1, TokenType::LeftBrace, before);
    lemma_enter(s1.consume(TokenType::LeftBrace, before));
}

proof fn lemma_function_ended(s: PState, start: TextPosition, rec: Compile, other: Compile)
    requires
        alike(rec, other),
    ensures
        keeps(s, function_ended(s, start, rec), function_ended(unbounded(s), start, other)),
{
    reveal(keeps);
    reveal(function_ended);
    reveal(PState::declare_function);
    lemma_block(s, rec, other);
    let s1 = block(s, rec).leave().declare_function(start);
    lemma_close_function(s1);
    lemma_with_closure(s1.close_function());
}

proof fn lemma_function_is(s: PState, start: TextPosition, rec: Compile)
    ensures
        function(s, start, rec) == function_ended(body_begun(function_begun(s)), start, rec),
{
    reveal(function);
    reveal(function_begun);
    reveal(body_begun);
    reveal(function_ended);
}

proof fn lemma_function(s: PState, start: TextPosition, rec: Compile, other: Compile)
    requires
        alike(rec, other),
    ensures
        keeps(s, function(s, start, rec), function(unbounded(s), start, other)),
{
    lemma_function_is(s, start, rec);
    lemma_function_is(unbounded(s), start, other);
    lemma_function_begun(s);
    lemma_body_begun(function_begun(s));
    lemma_function_ended(body_begun(function_begun(s)), start, rec, other);
    reveal(keeps);
}

proof fn lemma_fun_declaration(s: PState, start: TextPosition, rec: Compile, other: Compile)
    requires
        alike(rec, other),
    ensures
        keeps(s, fun_declaration(s, start, rec), fun_declaration(unbounded(s), start, other)),
{
    reveal(keeps);
    reveal(fun_declaration);
    let message = "Expect function name.";
    lemma_parse_variable(s, message, BindingKind::Local);
    let s0 = s.parse_variable(message, BindingKind::Local);
    lemma_declares(s0, SymbolKind::Function);
    lemma_mark(s0.declares(SymbolKind::Function));
    let s1 = s0.declares(SymbolKind::Function).mark_initialized();
    lemma_function(s1, start, rec, other);
    lemma_define(function(s1, start, rec), s.variable_operand(message, BindingKind::Local));
}

proof fn lemma_keyword(s: PState, keyword: TokenType, rec: Compile, other: Compile)
    requires
        alike(rec, other),
    ensures
        keeps(
            s,
            keyword_statement(s, keyword, rec),
            keyword_statement(unbounded(s), keyword, other),
        ),
{
    reveal(keyword_statement);
    match keyword {
        TokenType::Print => {
            lemma_print_statement(s);
        },
        TokenType::Return => {
            lemma_return_statement(s);
        },
        TokenType::If => {
            lemma_if(s, rec, other);
        },
        TokenType::Switch => {
            lemma_switch(s, rec, other);
        },
        _ => {
            lemma_while(s, rec, other);
        },
    }
}

proof fn lemma_statement(s: PState, rec: Compile, other: Compile)
    requires
        alike(rec, other),
    ensures
        keeps(s, statement(s, rec), statement(unbounded(s), other)),
{
    reveal(keeps);
    reveal(statement);
    lemma_advance(s);
    let s1 = s.advance();
    if is_keyword_statement(s.current.token_type) {
        let s2 = s1.schedule_point(DebugPointKind::Statement, s1.span_of(s1.previous));
        lemma_keyword(s2, s.current.token_type, rec, other);
        lemma_point(keyword_statement(s2, s.current.token_type, rec), s1.next_point_id);
    } else if s.at(TokenType::For) {
        lemma_for(s1, rec, other);
    } else if s.at(TokenType::LeftBrace) {
        lemma_enter(s1);
        let s2 = s1.enter().begin_scope();
        lemma_block(s2, rec, other);
        lemma_end_scope(block(s2, rec));
    } else {
        let s2 = s.schedule_point(DebugPointKind::Statement, s.span_of(s.current));
        lemma_expression_statement(s2);
        lemma_point(expression_statement(s2), s.next_point_id);
    }
}

proof fn lemma_declaration(s: PState, rec: Compile, other: Compile)
    requires
        alike(rec, other),
    ensures
        keeps(s, declaration(s, rec), declaration(unbounded(s), other)),
{
    reveal(keeps);
    reveal(declaration);
    lemma_advance(s);
    let s1 = s.advance();
    let s2 = s1.schedule_point(DebugPointKind::Statement, s1.span_of(s1.previous));
    let id = s1.next_point_id;
    let s3 = match s.current.token_type {
        TokenType::Fun => {
            lemma_fun_declaration(s2, s1.previous.start, rec, other);
            let t = fun_declaration(s2, s1.previous.start, rec);
            lemma_point(t, id);
            t.finish_point(id)
        },
        TokenType::Var => {
            lemma_var_declaration(s2);
            lemma_point(var_declaration(s2), id);
            var_declaration(s2).finish_point(id)
        },
        _ => {
            lemma_rec(rec, other, Part::Statement, s);
            rec(Part::Statement, s)
        },
    };
    lemma_synchronize(s3);
}

proof fn lemma_part(part: Part, s: PState, rec: Compile, other: Compile)
    requires
        alike(rec, other),
    ensures
        keeps(s, part_body(part, s, rec), part_body(part, unbounded(s), other)),
{
    match part {
        Part::Statement => {
            lemma_statement(s, rec, other);
        },
        Part::Declaration => {
            lemma_declaration(s, rec, other);
        },
        Part::Items { in_switch } => {
            lemma_items(s, in_switch, rec, other);
        },
        Part::Cases { has_default, exits } => {
            lemma_switch_cases(s, has_default, exits, rec, other);
        },
    }
}

proof fn lemma_compiled(part: Part, s: PState)
    ensures
        keeps(s, compiled(part, s), compiled(part, unbounded(s))),
    decreases s.rem(), rank(part),
{
    let rec = inside(part, s);
    let other = inside(part, unbounded(s));
    assert(alike(rec, other)) by {
        reveal(alike);
        assert forall|inner: Part, t: PState| #[trigger] keeps(
            t,
            rec(inner, t),
            other(inner, unbounded(t)),
        ) by {
            if within(inner, t, part, s) {
                lemma_compiled(inner, t);
            } else {
                lemma_same(t);
            }
        }
    }
    lemma_part(part, s, rec, other);
}

proof fn lemma_program(s: PState)
    ensures
        keeps(s, program(s), program(unbounded(s))),
    decreases s.rem(),
{
    reveal(keeps);
    if s.at(TokenType::Eof) {
        lemma_advance(s);
    } else {
        lemma_compiled(Part::Declaration, s);
        let s1 = compiled(Part::Declaration, s);
        if s1.rem() < s.rem() {
            lemma_program(s1);
        }
    }
}

/// Tokens come in the order of the source, and only the last one is its end.
proof fn lemma_lexed_in_order(source: Seq<char>, numbers: Seq<u64>, l: Lexing)
    requires
        utf8_len(source) < usize::MAX,
        0 <= l.at <= source.len(),
        tokens_in_order(l.tokens),
        forall|i: int|
            #![trigger l.tokens[i]]
            0 <= i < l.tokens.len() ==> l.tokens[i].token_type != TokenType::Eof
                && l.tokens[i].start.byte_offset <= utf8_len(source.take(l.at)),
    ensures
        tokens_in_order(lexed_all(source, numbers, l).tokens),
        well_ended(lexed_all(source, numbers, l).tokens),
    decreases source.len() - l.at,
{
    let from = token_start(source, l.at);
    lemma_token_start(source, l.at);
    law_lex_makes_progress(source, from);
    let next = lexed_once(source, numbers, l);
    assert(source.take(source.len() as int) =~= source);
    lemma_utf8_len_monotone(source, l.at, from);
    lemma_utf8_len_monotone(source, from, next.at);
    lemma_utf8_len_monotone(source, next.at, source.len() as int);
    assert(next.tokens.drop_last() =~= l.tokens);
    assert forall|i: int| #![trigger next.tokens[i]] 0 <= i < next.tokens.len() implies
        next.tokens[i].start.byte_offset <= utf8_len(source.take(from)) by {
        if i < l.tokens.len() {
            assert(next.tokens[i] == l.tokens[i]);
        }
    }
    assert forall|i: int, k: int|
        #![trigger next.tokens[i], next.tokens[k]]
        0 <= i <= k < next.tokens.len() implies next.tokens[i].start.byte_offset
        <= next.tokens[k].start.byte_offset by {
        if k < l.tokens.len() {
            assert(next.tokens[i] == l.tokens[i] && next.tokens[k] == l.tokens[k]);
        }
    }
    if next.tokens.last().token_type == TokenType::Eof {
        assert forall|i: int| 0 <= i < next.tokens.len() implies ((
        #[trigger] next.tokens[i]).token_type == TokenType::Eof <==> i == next.tokens.len() - 1) by {
            if i < l.tokens.len() {
                assert(next.tokens[i] == l.tokens[i]);
            }
        }
    } else {
        assert forall|i: int|
            #![trigger next.tokens[i]]
            0 <= i < next.tokens.len() implies next.tokens[i].token_type != TokenType::Eof by {
            if i < l.tokens.len() {
                assert(next.tokens[i] == l.tokens[i]);
            }
        }
        lemma_lexed_in_order(source, numbers, next);
    }
}

/// Compiling without bounds.
pub open spec fn no_bounds() -> CompileOptions {
    CompileOptions { diagnostic_limit: None, recursion_limit: None }
}

proof fn lemma_at_end(document: SourceDocument, numbers: Seq<u64>, options: CompileOptions)
    requires
        document.wf(),
    ensures
        ({
            let t = at_end(document, numbers, options);
            &&& t.note_limit == options.diagnostic_limit
            &&& t.depth_limit == options.recursion_limit
            &&& told(t)
            &&& in_order(t.sightings)
            &&& within_bounds(t) ==> at_end(document, numbers, no_bounds()) == unbounded(t)
        }),
{
    let source = document.text@;
    let first = Lexing { tokens: Seq::empty(), texts: Seq::empty(), at: 0, numbers: 0 };
    lemma_lexed_in_order(source, numbers, first);
    let tokens = lexed(source, numbers).tokens;
    let s = at_start(document, tokens, options);
    assert(unbounded(s) == at_start(document, tokens, no_bounds()));
    reveal(keeps);
    reveal(forward);
    lemma_advance(s);
    lemma_program(s.advance());
    lemma_close_function(program(s.advance()));
}

/// The bounds are those that were set.
pub proof fn lemma_bounds_are_set(
    document: SourceDocument,
    numbers: Seq<u64>,
    options: CompileOptions,
)
    requires
        document.wf(),
    ensures
        at_end(document, numbers, options).note_limit == options.diagnostic_limit,
        at_end(document, numbers, options).depth_limit == options.recursion_limit,
{
    lemma_at_end(document, numbers, options);
}

/// While no bound is passed, bounds change nothing: a document is compiled
/// with them as it is without.
pub proof fn law_bounds_change_nothing(
    document: SourceDocument,
    numbers: Seq<u64>,
    options: CompileOptions,
)
    requires
        document.wf(),
        within_bounds(at_end(document, numbers, options)),
    ensures
        at_end(document, numbers, no_bounds()) == unbounded(at_end(document, numbers, options)),
{
    lemma_at_end(document, numbers, options);
}

/// A document has no program exactly if something was reported about it, and
/// what was reported is there to be read unless nothing may be kept.
pub proof fn law_failures_are_reported(
    document: SourceDocument,
    numbers: Seq<u64>,
    options: CompileOptions,
    outcome: CompileOutcome,
)
    requires
        document.wf(),
        outcome.shows(
            at_end(document, numbers, options),
            lexed(document.text@, numbers).texts,
        ),
    ensures
        outcome.program is None <==> outcome.diagnostic_count > 0,
        options.diagnostic_limit != Some(0usize) ==> (outcome.program is None
            <==> outcome.diagnostics@.len() > 0),
{
    lemma_at_end(document, numbers, options);
    let s = at_end(document, numbers, options);
    assert(reports(outcome.diagnostics@).len() == s.notes.len());
}

/// Where there was an error, something was noted, unless nothing may be kept.
pub proof fn law_errors_are_noted(
    document: SourceDocument,
    numbers: Seq<u64>,
    options: CompileOptions,
)
    requires
        document.wf(),
        options.diagnostic_limit != Some(0usize),
    ensures
        at_end(document, numbers, options).had_error <==> at_end(
            document,
            numbers,
            options,
        ).notes.len() > 0,
{
    lemma_at_end(document, numbers, options);
}

/// Names are met in the order of the source.
pub proof fn law_names_are_met_in_order(
    document: SourceDocument,
    numbers: Seq<u64>,
    options: CompileOptions,
)
    requires
        document.wf(),
    ensures
        in_order(at_end(document, numbers, options).sightings),
{
    lemma_at_end(document, numbers, options);
}

} // verus!
