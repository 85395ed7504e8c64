//! The code of assignments, calls and lists: the parts in the order in which
//! they are written, and then what is done with them.
use vstd::prelude::*;
use crate::chunk::{byte_of, law_constant_is_found_at_its_index, OpCode};
use crate::expressions::{
    access, argument_items, call, expression, index, list, list_items, named_variable, with_access,
};
use crate::grammar::{is_global, is_local, lemma_local_place};
use crate::parser::{local_place, FState, Lexed, PState};
use crate::scanner::TokenType;
use crate::scopes::captured;
use crate::source::SourceSpan;
use crate::statement_laws::{adds, lemma_consume, one};
use crate::value::Value;

verus! {

proof fn lemma_at(s: PState, op: OpCode, span: SourceSpan)
    ensures
        s.op_at(op, span).function.code == s.function.code + one(op),
{
    reveal(FState::with_op);
    assert(s.op_at(op, span).function.code =~= s.function.code + one(op));
}

proof fn lemma_op_byte(s: PState, op: OpCode, byte: u8, span: SourceSpan)
    ensures
        s.op_byte_at(op, byte, span).function.code == s.function.code + seq![byte_of(op), byte],
{
    reveal(FState::with_op);
    reveal(FState::with_byte);
    assert(s.op_byte_at(op, byte, span).function.code =~= s.function.code + seq![
        byte_of(op),
        byte,
    ]);
}

/// An assignment to a local variable runs the value and puts it in the slot of
/// the variable.
pub proof fn law_assignments_to_locals(s: PState, name: Lexed, place: int, a: Seq<u8>)
    requires
        s.at(TokenType::Equal),
        is_local(s.function.locals, name.text, place),
        place < 256,
        s.function.locals[place].depth != -1,
        ({
            let begun = s.uses(name, OpCode::GetLocal, place, true).advance();
            adds(begun, expression(begun), a) && begun.rem() <= s.rem()
        }),
    ensures
        adds(s, named_variable(s, name, true), a + seq![byte_of(OpCode::SetLocal), place as u8]),
{
    reveal(access);
    reveal(with_access);
    lemma_local_place(s.function.locals, name.text);
    let found = local_place(s.function.locals, name.text);
    if found > 0 && found < place {
        assert(s.function.locals[place].name != name.text);
    }
    if place < found {
        assert(s.function.locals[found].name != name.text);
    }
    if found <= 0 {
        assert(s.function.locals[place].name != name.text);
    }
    let s1 = s.uses(name, OpCode::GetLocal, place, true);
    reveal(PState::uses);
    lemma_consume(s1, TokenType::Equal, "");
    let s2 = s1.advance();
    let s3 = expression(s2);
    let span = s3.span_of(name);
    lemma_op_byte(s3, OpCode::SetLocal, place as u8, span);
    assert(named_variable(s, name, true) == s3.op_byte_at(OpCode::SetLocal, place as u8, span));
    assert(named_variable(s, name, true).function.code =~= s.function.code + (a + seq![
        byte_of(OpCode::SetLocal),
        place as u8,
    ]));
}

/// An assignment to a global in the script runs the value and sets the global of
/// that name.
pub proof fn law_assignments_to_globals(s: PState, name: Lexed, a: Seq<u8>)
    requires
        s.at(TokenType::Equal),
        is_global(s.function.locals, name.text),
        s.enclosing.len() == 0,
        s.function.constants.len() < 256,
        ({
            let place = s.constant_place(Value::Obj(name.text));
            let begun = s.identifier_constant(name).uses(
                name,
                OpCode::GetGlobal,
                place,
                true,
            ).advance();
            adds(begun, expression(begun), a) && begun.rem() <= s.rem()
        }),
    ensures
        exists|place: u8|
            #![trigger s.identifier_constant(name).function.constants[place as int]]
            adds(s, named_variable(s, name, true), a + seq![byte_of(OpCode::SetGlobal), place])
                && s.identifier_constant(name).function.constants[place as int] == Value::Obj(
                name.text,
            ),
{
    reveal(access);
    reveal(with_access);
    reveal(PState::uses);
    reveal(PState::identifier_constant);
    lemma_local_place(s.function.locals, name.text);
    let found = local_place(s.function.locals, name.text);
    if found > 0 {
        assert(s.function.locals[found].name != name.text);
    }
    assert(captured(s.enclosing, s.function, name.text) == (
        s.enclosing,
        s.function,
        Ok::<Option<usize>, ()>(None),
    ));
    assert(s.resolve_upvalue(name) == s);
    law_constant_is_found_at_its_index(s.function.constants, Value::Obj(name.text));
    let place = s.constant_place(Value::Obj(name.text));
    let s1 = s.identifier_constant(name).uses(name, OpCode::GetGlobal, place, true);
    lemma_consume(s1, TokenType::Equal, "");
    let s2 = s1.advance();
    let s3 = expression(s2);
    let span = s3.span_of(name);
    lemma_op_byte(s3, OpCode::SetGlobal, place as u8, span);
    assert(named_variable(s, name, true) == s3.op_byte_at(OpCode::SetGlobal, place as u8, span));
    assert(named_variable(s, name, true).function.code =~= s.function.code + (a + seq![
        byte_of(OpCode::SetGlobal),
        place as u8,
    ]));
    assert(s.identifier_constant(name).function.constants[(place as u8) as int] == Value::Obj(
        name.text,
    ));
}

/// An item of a list is read, or, with a value behind it, set to that.
pub proof fn law_items_are_read_or_set(s: PState, can_assign: bool, a: Seq<u8>, b: Seq<u8>)
    requires
        ({
            let begun = s.enter();
            let placed = expression(begun);
            let closed = placed.consume(TokenType::RightBracket, "Expect ']' after index.").leave();
            let valued = closed.advance();
            &&& begun.rem() <= s.rem()
            &&& adds(begun, placed, a)
            &&& can_assign && closed.at(TokenType::Equal) ==> adds(valued, expression(valued), b)
                && valued.rem() <= s.rem()
            &&& !(can_assign && closed.at(TokenType::Equal)) ==> b.len() == 0
        }),
    ensures
        ({
            let placed = expression(s.enter());
            let closed = placed.consume(TokenType::RightBracket, "Expect ']' after index.").leave();
            adds(
                s,
                index(s, can_assign),
                a + b + one(
                    if can_assign && closed.at(TokenType::Equal) {
                        OpCode::SetIndex
                    } else {
                        OpCode::GetIndex
                    },
                ),
            )
        }),
{
    let s1 = s.enter();
    let s2 = expression(s1);
    let message = "Expect ']' after index.";
    lemma_consume(s, TokenType::RightBracket, message);
    lemma_consume(s2, TokenType::RightBracket, message);
    let s3 = s2.consume(TokenType::RightBracket, message).leave();
    lemma_consume(s3, TokenType::RightBracket, message);
    let op = if can_assign && s3.at(TokenType::Equal) {
        OpCode::SetIndex
    } else {
        OpCode::GetIndex
    };
    let span = s3.merged(s.previous, s3.previous);
    let s4 = if can_assign && s3.at(TokenType::Equal) {
        expression(s3.advance())
    } else {
        s3
    };
    lemma_at(s4, op, span);
    assert(index(s, can_assign) == s4.op_at(op, span));
    assert(index(s, can_assign).function.code =~= s.function.code + (a + b + one(op)));
}

/// A call runs its arguments, and then calls what lies below them with as many.
pub proof fn law_calls_count_their_arguments(s: PState, a: Seq<u8>, count: u8)
    requires
        ({
            let begun = s.enter();
            &&& begun.rem() <= s.rem()
            &&& begun.at(TokenType::RightParen) ==> a.len() == 0 && count == 0
            &&& !begun.at(TokenType::RightParen) ==> adds(begun, argument_items(begun, 0).0, a)
                && argument_items(begun, 0).1 == count
        }),
    ensures
        adds(s, call(s), a + seq![byte_of(OpCode::Call), count]),
{
    let s1 = s.enter();
    let message = "Expect ')' after arguments.";
    let s2 = if s1.at(TokenType::RightParen) {
        s1
    } else {
        argument_items(s1, 0).0
    };
    lemma_consume(s, TokenType::RightParen, message);
    lemma_consume(s2, TokenType::RightParen, message);
    let s3 = s2.consume(TokenType::RightParen, message).leave();
    let span = s3.merged(s.previous, s3.previous);
    lemma_op_byte(s3, OpCode::Call, count, span);
    assert(call(s) == s3.op_byte_at(OpCode::Call, count, span));
    assert(call(s).function.code =~= s.function.code + (a + seq![byte_of(OpCode::Call), count]));
}

/// A list runs its elements, and is then built of as many.
pub proof fn law_lists_count_their_elements(s: PState, a: Seq<u8>, count: u8)
    requires
        ({
            let begun = s.enter();
            &&& begun.rem() <= s.rem()
            &&& begun.at(TokenType::RightBracket) ==> a.len() == 0 && count == 0
            &&& !begun.at(TokenType::RightBracket) ==> adds(begun, list_items(begun, 0).0, a)
                && list_items(begun, 0).1 == count
        }),
    ensures
        adds(s, list(s), a + seq![byte_of(OpCode::BuildList), count]),
{
    let s1 = s.enter();
    let message = "Expect ']' after list elements.";
    let s2 = if s1.at(TokenType::RightBracket) {
        s1
    } else {
        list_items(s1, 0).0
    };
    lemma_consume(s, TokenType::RightBracket, message);
    lemma_consume(s2, TokenType::RightBracket, message);
    let s3 = s2.consume(TokenType::RightBracket, message).leave();
    let span = s3.span_of(s3.previous);
    lemma_op_byte(s3, OpCode::BuildList, count, span);
    assert(list(s) == s3.op_byte(OpCode::BuildList, count));
    assert(s3.op_byte(OpCode::BuildList, count) == s3.op_byte_at(OpCode::BuildList, count, span));
    assert(list(s).function.code =~= s.function.code + (a + seq![
        byte_of(OpCode::BuildList),
        count,
    ]));
}

/// Arguments and elements are counted one by one, and read as long as commas
/// follow.
pub proof fn law_items_are_counted_one_by_one(s: PState, count: u8)
    requires
        count < 255,
    ensures
        ({
            let first = expression(s);
            let next = first.advance();
            &&& !first.at(TokenType::Comma) ==> argument_items(s, count) == (
                first,
                (count + 1) as u8,
            ) && list_items(s, count as usize) == (first, (count + 1) as usize)
            &&& first.at(TokenType::Comma) && next.rem() < s.rem() ==> argument_items(s, count)
                == argument_items(next, (count + 1) as u8) && list_items(s, count as usize)
                == list_items(next, (count + 1) as usize)
        }),
{
}

} // verus!
