//! How statements and declarations are told apart, and the code of declarations.
use vstd::prelude::*;
use crate::chunk::{byte_of, law_constant_is_found_at_its_index, OpCode};
use crate::debug_info::{BindingKind, DebugPointKind};
use crate::expressions::whole_expression;
use crate::parser::{FState, PState, SymbolKind};
use crate::scanner::TokenType;
use crate::statement_laws::{adds, lemma_consume, lemma_op, lemma_point, one};
use crate::statements::{
    block, condition, declaration, expression_statement, for_statement, fun_declaration,
    function_constant, if_statement, items, keyword_statement, parameters, print_statement,
    return_statement, statement, switch_statement, var_declaration, while_statement, with_captures,
    with_closure, Compile, Part,
};
use crate::value::Value;

verus! {

/// A statement is what its first word says; one that begins with none of these
/// words is an expression. Behind the word a place to pause is waiting.
pub proof fn law_statements_go_by_their_first_word(s: PState, rec: Compile)
    ensures
        ({
            let read = s.advance();
            let begun = read.schedule_point(DebugPointKind::Statement, read.span_of(read.previous));
            let code = statement(s, rec).function.code;
            &&& s.at(TokenType::Print) ==> code == print_statement(begun).function.code
            &&& s.at(TokenType::Return) ==> code == return_statement(begun).function.code
            &&& s.at(TokenType::If) ==> code == if_statement(begun, rec).function.code
            &&& s.at(TokenType::While) ==> code == while_statement(begun, rec).function.code
            &&& s.at(TokenType::Switch) ==> code == switch_statement(begun, rec).function.code
            &&& s.at(TokenType::For) ==> statement(s, rec) == for_statement(read, rec)
            &&& s.at(TokenType::LeftBrace) ==> statement(s, rec) == block(
                read.enter().begin_scope(),
                rec,
            ).end_scope().leave()
            &&& s.at(TokenType::Number) || s.at(TokenType::Identifier) || s.at(TokenType::String)
                || s.at(TokenType::LeftParen) ==> code == expression_statement(
                s.schedule_point(DebugPointKind::Statement, s.span_of(s.current)),
            ).function.code
        }),
{
    reveal(statement);
    reveal(keyword_statement);
    let read = s.advance();
    let span = read.span_of(read.previous);
    let begun = read.schedule_point(DebugPointKind::Statement, span);
    let id = read.next_point_id;
    lemma_point(print_statement(begun), DebugPointKind::Statement, span, id);
    lemma_point(return_statement(begun), DebugPointKind::Statement, span, id);
    lemma_point(if_statement(begun, rec), DebugPointKind::Statement, span, id);
    lemma_point(while_statement(begun, rec), DebugPointKind::Statement, span, id);
    lemma_point(switch_statement(begun, rec), DebugPointKind::Statement, span, id);
    let here = s.schedule_point(DebugPointKind::Statement, s.span_of(s.current));
    lemma_point(
        expression_statement(here),
        DebugPointKind::Statement,
        span,
        s.next_point_id,
    );
}

/// A declaration is of a function or of a variable by its first word, and else a
/// statement.
pub proof fn law_declarations_go_by_their_first_word(s: PState, rec: Compile)
    ensures
        ({
            let read = s.advance();
            let begun = read.schedule_point(DebugPointKind::Statement, read.span_of(read.previous));
            let t = declaration(s, rec);
            &&& s.at(TokenType::Var) && !var_declaration(begun).finish_point(
                read.next_point_id,
            ).panic_mode ==> t.function.code == var_declaration(begun).function.code
            &&& s.at(TokenType::Fun) && !fun_declaration(
                begun,
                read.previous.start,
                rec,
            ).finish_point(read.next_point_id).panic_mode ==> t.function.code == fun_declaration(
                begun,
                read.previous.start,
                rec,
            ).function.code
            &&& !s.at(TokenType::Var) && !s.at(TokenType::Fun) && !rec(
                Part::Statement,
                s,
            ).panic_mode ==> t == rec(Part::Statement, s)
        }),
{
    reveal(declaration);
    let read = s.advance();
    let span = read.span_of(read.previous);
    let begun = read.schedule_point(DebugPointKind::Statement, span);
    let id = read.next_point_id;
    lemma_point(var_declaration(begun), DebugPointKind::Statement, span, id);
    lemma_point(
        fun_declaration(begun, read.previous.start, rec),
        DebugPointKind::Statement,
        span,
        id,
    );
}

/// A variable outside of all scopes is given its value, or `nil`, and becomes the
/// global of its name.
pub proof fn law_global_variables_are_defined(s: PState, a: Seq<u8>)
    requires
        s.function.scope_depth == 0,
        s.at(TokenType::Identifier),
        s.function.constants.len() < 256,
        ({
            let named = s.parse_variable("Expect variable name.", BindingKind::Local).declares(
                SymbolKind::Variable,
            );
            let begun = named.advance();
            &&& named.at(TokenType::Equal) ==> adds(begun, whole_expression(begun), a)
                && whole_expression(begun).function.scope_depth == 0
            &&& !named.at(TokenType::Equal) ==> a == one(OpCode::Nil)
        }),
    ensures
        exists|place: u8|
            adds(s, var_declaration(s), a + #[trigger] seq![byte_of(OpCode::DefineGlobal), place])
                && s.parse_variable("Expect variable name.", BindingKind::Local).function.constants[
            place as int] == Value::Obj(s.current.text),
{
    reveal(var_declaration);
    reveal(PState::parse_variable);
    reveal(PState::variable_operand);
    reveal(PState::declare_variable);
    reveal(PState::identifier_constant);
    reveal(PState::declares);
    reveal(PState::define_variable);
    reveal(FState::with_op);
    reveal(FState::with_byte);
    let message = "Expect variable name.";
    lemma_consume(s, TokenType::Identifier, message);
    let read = s.consume(TokenType::Identifier, message);
    assert(read == s.advance()) by {
        reveal(PState::consume);
    }
    assert(read.previous == s.current) by {
        reveal(PState::advance);
        crate::statement_laws::lemma_read(PState { previous: s.current, ..s });
    }
    let value = Value::Obj(s.current.text);
    law_constant_is_found_at_its_index(s.function.constants, value);
    let place = s.constant_place(value);
    assert(place < 256);
    let s1 = s.parse_variable(message, BindingKind::Local).declares(SymbolKind::Variable);
    assert(s1.function.code == s.function.code);
    assert(s1.function.scope_depth == 0);
    lemma_consume(s1, TokenType::Equal, "");
    let s2 = if s1.at(TokenType::Equal) {
        whole_expression(s1.advance())
    } else {
        s1.op(OpCode::Nil)
    };
    lemma_op(s1, OpCode::Nil);
    assert(s2.function.code == s.function.code + a);
    let end = "Expect ';' after variable declaration.";
    lemma_consume(s2, TokenType::Semicolon, end);
    let s3 = s2.consume(TokenType::Semicolon, end);
    let t = s3.define_variable(place as u8);
    assert(var_declaration(s) == t);
    assert(t.function.code =~= s.function.code + (a + seq![
        byte_of(OpCode::DefineGlobal),
        place as u8,
    ]));
    assert(s.parse_variable(message, BindingKind::Local).function.constants[(place as u8) as int]
        == value);
}

/// A `switch` runs its subject and its cases, and drops the subject at the end.
pub proof fn law_switch(s: PState, rec: Compile, a: Seq<u8>, c: Seq<u8>)
    requires
        ({
            let asked = condition(s.enter(), "Expect '(' after 'switch'");
            let begun = asked.consume(
                TokenType::LeftBrace,
                "Expect '{' before switch case.",
            ).enter().begin_scope();
            let cased = rec(Part::Cases { has_default: false, exits: Seq::empty() }, begun);
            &&& adds(s, asked, a)
            &&& adds(begun, cased, c)
            &&& cased.function.scope_depth > i32::MIN
            &&& cased.function.locals.len() > 0 ==> cased.function.locals.last().depth
                < cased.function.scope_depth
        }),
    ensures
        adds(s, switch_statement(s, rec), a + c + one(OpCode::Pop)),
{
    reveal(switch_statement);
    let s1 = condition(s.enter(), "Expect '(' after 'switch'");
    lemma_consume(s1, TokenType::LeftBrace, "Expect '{' before switch case.");
    let s2 = s1.consume(TokenType::LeftBrace, "Expect '{' before switch case.");
    lemma_consume(s2, TokenType::LeftBrace, "");
    let begun = s2.enter().begin_scope();
    let cased = rec(Part::Cases { has_default: false, exits: Seq::empty() }, begun);
    let popped = cased.op(OpCode::Pop);
    lemma_op(cased, OpCode::Pop);
    assert(popped.function.locals == cased.function.locals && popped.function.scope_depth
        == cased.function.scope_depth) by {
        reveal(FState::with_op);
    }
    let n = popped.function.locals.len() as int;
    crate::scope_laws::law_scopes_end(popped, n);
    let none = Seq::new(
        0,
        |k: int|
            crate::scope_laws::dropping(
                popped.function.locals[popped.function.locals.len() - 1 - k],
            ),
    );
    let ended = popped.end_scope();
    assert(ended.function.code =~= popped.function.code);
    assert(switch_statement(s, rec).function.code == ended.function.code);
    assert(s.function.code + a + c + one(OpCode::Pop) =~= s.function.code + (a + c + one(
        OpCode::Pop,
    )));
}

/// The function that is finished becomes a constant of the one around it, which
/// makes a closure of it.
pub proof fn law_functions_become_closures(s: PState)
    requires
        s.enclosing.len() > 0,
        s.enclosing.last().constants.len() < 256,
    ensures
        ({
            let outer = s.enclosing.last();
            let t = with_closure(s);
            let n = outer.code.len() as int;
            let place = t.function.code[n + 1] as int;
            &&& t.finished == s.finished.push(s.function)
            &&& t.function.code.len() == n + 2 + 2 * s.function.upvalues.len()
            &&& t.function.code.take(n) == outer.code
            &&& t.function.code[n] == byte_of(OpCode::Closure)
            &&& place < t.function.constants.len()
            &&& t.function.constants[place] == Value::Obj(
                (usize::MAX - s.finished.len() as int) as usize,
            )
        }),
{
    reveal(with_closure);
    reveal(PState::leave_function);
    reveal(FState::with_op);
    reveal(FState::with_byte);
    let s1 = s.leave_function();
    let value = function_constant(s.finished.len() as int);
    law_constant_is_found_at_its_index(s1.function.constants, value);
    let constant = s1.constant_place(value);
    assert(constant <= 255);
    let s2 = s1.make_constant(value).op_byte(OpCode::Closure, constant as u8);
    let t = with_closure(s);
    assert(t == with_captures(s2, s.function, 0));
    crate::scope_laws::lemma_captures(s2, s.function, 0);
    lemma_captures_keep(s2, s.function, 0);
    let n = s1.function.code.len() as int;
    assert(t.function.code[n] == s2.function.code[n]);
    assert(t.function.code[n + 1] == s2.function.code[n + 1]);
    assert(t.function.code.take(n) =~= s1.function.code) by {
        assert forall|j: int| 0 <= j < n implies t.function.code[j] == s1.function.code[j] by {
            assert(t.function.code[j] == s2.function.code[j]);
        }
    }
}

proof fn lemma_captures_keep(s: PState, function: FState, i: int)
    requires
        0 <= i,
    ensures
        with_captures(s, function, i).finished == s.finished,
        with_captures(s, function, i).function.constants == s.function.constants,
    decreases function.upvalues.len() - i,
{
    if i < function.upvalues.len() {
        reveal(FState::with_byte);
        let upvalue = function.upvalues[i];
        let local = if upvalue.is_local {
            1u8
        } else {
            0u8
        };
        lemma_captures_keep(s.byte(local).byte(upvalue.index), function, i + 1);
    }
}

/// A parameter is one more local variable of its function, and one more to be
/// given in a call.
pub proof fn law_parameters_are_counted(s: PState)
    requires
        s.at(TokenType::Identifier),
        s.function.scope_depth > 0,
        s.function.arity < 255,
        0 < s.function.locals.len() < crate::parser::LOCALS_MAX,
        !s.advance().at(TokenType::Comma),
    ensures
        parameters(s).function.arity == s.function.arity + 1,
        parameters(s).function.locals.len() == s.function.locals.len() + 1,
        parameters(s).function.locals.last().name == s.current.text,
        parameters(s).function.locals.last().depth == s.function.scope_depth,
        parameters(s).function.code == s.function.code,
{
    reveal(PState::parse_variable);
    reveal(PState::variable_operand);
    reveal(PState::declare_variable);
    reveal(PState::add_local);
    reveal(PState::declares);
    reveal(PState::define_variable);
    reveal(PState::mark_initialized);
    reveal(PState::consume);
    let arity = crate::parser::one_more(s.function.arity);
    let s1 = s.with_function(FState { arity, ..s.function });
    crate::statement_laws::lemma_read(PState { previous: s1.current, ..s1 });
    reveal(PState::advance);
    lemma_read_alike(
        PState { previous: s.current, ..s },
        PState { previous: s1.current, ..s1 },
    );
}

/// What is read does not depend on the function that is being compiled.
proof fn lemma_read_alike(s: PState, t: PState)
    requires
        t == (PState { function: t.function, ..s }),
    ensures
        t.read() == (PState { function: t.function, ..s.read() }),
        s.read().previous == s.previous,
    decreases s.tokens.len() - s.next,
{
    let token = s.tokens[s.next];
    let a = PState { current: token, next: s.next + 1, ..s };
    let b = PState { current: token, next: s.next + 1, ..t };
    if token.token_type == TokenType::Error && 0 <= s.next < s.tokens.len() - 1 {
        let message = crate::parser::fault_message(token);
        lemma_read_alike(a.error_at_current(message), b.error_at_current(message));
    }
}

/// A block holds declarations up to its bracket, and a case up to the next case as
/// well.
pub proof fn law_blocks_hold_declarations(s: PState, in_switch: bool, rec: Compile)
    ensures
        ({
            let ends = s.at(TokenType::RightBrace) || s.at(TokenType::Eof);
            let next = s.at(TokenType::Case) || s.at(TokenType::Default);
            &&& ends || in_switch && next ==> items(s, in_switch, rec) == s
            &&& !ends && !(in_switch && next) ==> items(s, in_switch, rec) == rec(
                Part::Items { in_switch },
                rec(Part::Declaration, s),
            )
        }),
{
    reveal(items);
}

} // verus!
