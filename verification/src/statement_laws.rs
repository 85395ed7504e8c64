//! The code that statements are made into: what is run in which order, and what
//! is jumped over.
use vstd::prelude::*;
use crate::chunk::{byte_of, short_operand, OpCode};
use crate::debug_info::DebugPointKind;
use crate::expressions::whole_expression;
use crate::parser::{FState, PState};
use crate::scanner::TokenType;
use crate::statements::{
    condition, expression_statement, for_clauses, for_condition, for_increment, for_initializer,
    for_statement, if_statement, patch_all, print_statement, return_statement, switch_case,
    switch_end, while_statement, Compile, ForHeader, Part,
};

verus! {

/// `t` is `s` with more code.
pub open spec fn adds(s: PState, t: PState, code: Seq<u8>) -> bool {
    t.function.code == s.function.code + code
}

/// An instruction and a distance in the code, in two bytes, the low one first.
pub open spec fn jump(op: OpCode, n: nat) -> Seq<u8> {
    seq![byte_of(op), (n % 256) as u8, (n / 256) as u8]
}

pub open spec fn one(op: OpCode) -> Seq<u8> {
    seq![byte_of(op)]
}

pub proof fn lemma_consume(s: PState, kind: TokenType, message: &'static str)
    ensures
        s.consume(kind, message).function == s.function,
        s.enter().function == s.function,
        s.leave().function == s.function,
        s.advance().function == s.function,
{
    reveal(PState::consume);
    reveal(PState::enter);
    reveal(PState::advance);
    lemma_read(PState { previous: s.current, ..s });
}

pub proof fn lemma_read(s: PState)
    ensures
        s.read().function == s.function,
        s.read().previous == s.previous,
    decreases s.tokens.len() - s.next,
{
    let token = s.tokens[s.next];
    let taken = PState { current: token, next: s.next + 1, ..s };
    if token.token_type == TokenType::Error && 0 <= s.next < s.tokens.len() - 1 {
        lemma_read(taken.error_at_current(crate::parser::fault_message(token)));
    }
}

pub proof fn lemma_point(s: PState, kind: DebugPointKind, span: crate::source::SourceSpan, id: u64)
    ensures
        s.schedule_point(kind, span).function.code == s.function.code,
        s.finish_point(id).function.code == s.function.code,
{
    reveal(PState::finish_point);
}

pub proof fn lemma_op(s: PState, op: OpCode)
    ensures
        s.op(op).function.code == s.function.code + one(op),
{
    reveal(FState::with_op);
    assert(s.op(op).function.code =~= s.function.code + one(op));
}

proof fn lemma_jump(s: PState, op: OpCode)
    ensures
        s.emit_jump(op).function.code == s.function.code + seq![byte_of(op), 255u8, 255u8],
        s.emit_jump(op).jump_place() == s.function.code.len() + 1,
{
    reveal(FState::with_op);
    reveal(FState::with_byte);
    assert(u16::MAX as int % 256 == 255 && u16::MAX as int / 256 % 256 == 255);
    assert(s.emit_jump(op).function.code =~= s.function.code + seq![byte_of(op), 255u8, 255u8]);
}

/// A jump that is patched goes behind the last instruction so far: from behind
/// the jump over all code that has been added since. Other code stays.
pub proof fn law_patched_jumps_go_to_the_end(s: PState, place: int)
    requires
        0 <= place,
        place + 2 <= s.function.code.len() <= place + 2 + u16::MAX,
    ensures
        ({
            let code = s.patch_jump(place).function.code;
            &&& code.len() == s.function.code.len()
            &&& place + 2 + short_operand(code[place], code[place + 1]) == code.len()
            &&& forall|i: int|
                0 <= i < code.len() && i != place && i != place + 1 ==> #[trigger] code[i]
                    == s.function.code[i]
        }),
        s.patch_jump(place).notes == s.notes,
{
    reveal(FState::with_operand);
    let n = s.function.code.len() - place - 2;
    assert(n / 256 % 256 == n / 256);
    assert(n % 256 + (n / 256) * 256 == n);
}

/// A jump that cannot reach the end of the code is reported.
pub proof fn law_far_jumps_are_reported(s: PState, place: int)
    requires
        s.function.code.len() > place + 2 + u16::MAX,
    ensures
        s.patch_jump(place).had_error || s.panic_mode,
{
}

/// A loop goes back to where it starts, from behind its own last byte.
pub proof fn law_loops_go_back(s: PState, start: int)
    requires
        0 <= start <= s.function.code.len(),
        s.function.code.len() - start + 3 <= u16::MAX,
    ensures
        ({
            let t = s.emit_loop(start);
            let code = t.function.code;
            let n = s.function.code.len() as int;
            &&& code.len() == n + 3
            &&& code.take(n) == s.function.code
            &&& code[n] == byte_of(OpCode::Loop)
            &&& n + 3 - short_operand(code[n + 1], code[n + 2]) == start
            &&& t.notes == s.notes
        }),
        adds(s, s.emit_loop(start), jump(OpCode::Loop, (s.function.code.len() - start + 3) as nat)),
{
    reveal(PState::emit_loop);
    reveal(FState::with_op);
    reveal(FState::with_byte);
    let n = s.function.code.len() - start + 3;
    assert(n / 256 % 256 == n / 256);
    assert(n % 256 + (n / 256) * 256 == n);
    let t = s.emit_loop(start);
    assert(t.function.code =~= s.function.code + jump(OpCode::Loop, n as nat));
    assert(t.function.code.take(s.function.code.len() as int) =~= s.function.code);
}

proof fn lemma_patched(s: PState, before: Seq<u8>, op: OpCode, after: Seq<u8>, place: int)
    requires
        s.function.code == before + seq![byte_of(op), 255u8, 255u8] + after,
        place == before.len() + 1,
        after.len() <= u16::MAX,
    ensures
        s.patch_jump(place).function.code == before + jump(op, after.len()) + after,
{
    reveal(FState::with_operand);
    let n = after.len() as int;
    assert(n / 256 % 256 == n / 256);
    assert(s.function.code.len() - place - 2 == n);
    assert(s.patch_jump(place).function.code =~= before + jump(op, after.len()) + after);
}

/// The value of an expression that is a statement is dropped; that of `print`
/// is shown, and that of `return` returned. Without one, `nil` is returned. A
/// `return` outside of functions is reported.
pub proof fn law_simple_statements(s: PState, a: Seq<u8>)
    requires
        adds(s, whole_expression(s), a),
    ensures
        adds(s, expression_statement(s), a + one(OpCode::Pop)),
        adds(s, print_statement(s), a + one(OpCode::Print)),
        !(s.function.kind is Script) && !s.at(TokenType::Semicolon) ==> adds(
            s,
            return_statement(s),
            a + one(OpCode::Return),
        ),
        !(s.function.kind is Script) && s.at(TokenType::Semicolon) ==> adds(
            s,
            return_statement(s),
            one(OpCode::Nil) + one(OpCode::Return),
        ),
        s.function.kind is Script && !s.panic_mode && s.note_count < usize::MAX ==> return_statement(
            s,
        ).note_count > s.note_count,
{
    reveal(expression_statement);
    reveal(print_statement);
    reveal(return_statement);
    let t = whole_expression(s);
    lemma_consume(t, TokenType::Semicolon, "Expect ';' after expression.");
    lemma_consume(t, TokenType::Semicolon, "Expect ';' after value.");
    lemma_consume(t, TokenType::Semicolon, "Expect ';' after return value.");
    lemma_consume(s, TokenType::Semicolon, "Expect ';' after return value.");
    lemma_op(t.consume(TokenType::Semicolon, "Expect ';' after expression."), OpCode::Pop);
    lemma_op(t.consume(TokenType::Semicolon, "Expect ';' after value."), OpCode::Print);
    lemma_op(t.consume(TokenType::Semicolon, "Expect ';' after return value."), OpCode::Return);
    lemma_op(s.advance(), OpCode::Nil);
    lemma_op(s.advance().op(OpCode::Nil), OpCode::Return);
    assert(s.function.code + a + one(OpCode::Pop) =~= s.function.code + (a + one(OpCode::Pop)));
    assert(s.function.code + a + one(OpCode::Print) =~= s.function.code + (a + one(
        OpCode::Print,
    )));
    assert(s.function.code + a + one(OpCode::Return) =~= s.function.code + (a + one(
        OpCode::Return,
    )));
    assert(s.function.code + one(OpCode::Nil) + one(OpCode::Return) =~= s.function.code + (one(
        OpCode::Nil,
    ) + one(OpCode::Return)));
    if s.function.kind is Script && !s.panic_mode && s.note_count < usize::MAX {
        lemma_complains(s);
    }
}

proof fn lemma_complains(s: PState)
    requires
        s.function.kind is Script,
        !s.panic_mode,
        s.note_count < usize::MAX,
    ensures
        return_statement(s).note_count > s.note_count,
{
    reveal(return_statement);
    reveal(crate::expression_laws::keeps);
    let s1 = s.compiler_error("Cannot return from top-level code.");
    if s1.at(TokenType::Semicolon) {
        crate::expression_laws::lemma_advance(s1);
    } else {
        let t = whole_expression(s1);
        crate::expression_laws::lemma_expression(s1);
        crate::expression_laws::lemma_consume(
            t,
            TokenType::Semicolon,
            "Expect ';' after return value.",
        );
    }
}

/// A `while` runs its condition; where that is false it goes on behind the
/// statement, and else it drops the value, runs the body and goes back to the
/// condition. The value of the condition is dropped either way.
pub proof fn law_while(s: PState, rec: Compile, a: Seq<u8>, b: Seq<u8>)
    requires
        ({
            let tested = condition(s.enter(), "Expect '(' after 'while'.");
            let begun = tested.emit_jump(OpCode::JumpIfFalse).op(OpCode::Pop);
            adds(s, tested, a) && adds(begun, rec(Part::Statement, begun), b)
        }),
        a.len() + b.len() + 7 <= u16::MAX,
    ensures
        adds(
            s,
            while_statement(s, rec),
            a + jump(OpCode::JumpIfFalse, b.len() + 4) + one(OpCode::Pop) + b + jump(
                OpCode::Loop,
                a.len() + b.len() + 7,
            ) + one(OpCode::Pop),
        ),
{
    reveal(while_statement);
    let code = s.function.code;
    let c = condition(s.enter(), "Expect '(' after 'while'.");
    let s1 = c.emit_jump(OpCode::JumpIfFalse);
    let begun = s1.op(OpCode::Pop);
    let s2 = rec(Part::Statement, begun);
    let s3 = s2.emit_loop(code.len() as int);
    let s4 = s3.patch_jump(s1.jump_place());
    let s5 = s4.op(OpCode::Pop);
    lemma_jump(c, OpCode::JumpIfFalse);
    lemma_op(s1, OpCode::Pop);
    law_loops_go_back(s2, code.len() as int);
    let back = jump(OpCode::Loop, a.len() + b.len() + 7);
    let after = one(OpCode::Pop) + b + back;
    assert(s3.function.code =~= code + a + seq![byte_of(OpCode::JumpIfFalse), 255u8, 255u8]
        + after);
    lemma_patched(s3, code + a, OpCode::JumpIfFalse, after, s1.jump_place());
    lemma_op(s4, OpCode::Pop);
    assert(s5.function.code =~= code + (a + jump(OpCode::JumpIfFalse, b.len() + 4) + one(
        OpCode::Pop,
    ) + b + back + one(OpCode::Pop)));
}

/// An `if` runs its condition; where that is true it runs the first statement
/// and goes on behind the second, and else it runs the second, if there is one.
/// The value of the condition is dropped either way.
pub proof fn law_if(s: PState, rec: Compile, a: Seq<u8>, b: Seq<u8>, c: Seq<u8>)
    requires
        ({
            let tested = condition(s.enter(), "Expect '(' after 'if'.");
            let jumped = tested.emit_jump(OpCode::JumpIfFalse);
            let begun = jumped.op(OpCode::Pop);
            let done = rec(Part::Statement, begun);
            let otherwise = done.emit_jump(OpCode::Jump).patch_jump(jumped.jump_place()).op(
                OpCode::Pop,
            );
            &&& adds(s, tested, a)
            &&& adds(begun, done, b)
            &&& otherwise.at(TokenType::Else) ==> adds(
                otherwise.advance(),
                rec(Part::Statement, otherwise.advance()),
                c,
            )
            &&& !otherwise.at(TokenType::Else) ==> c.len() == 0
        }),
        b.len() + 4 <= u16::MAX,
        c.len() + 1 <= u16::MAX,
    ensures
        adds(
            s,
            if_statement(s, rec),
            a + jump(OpCode::JumpIfFalse, b.len() + 4) + one(OpCode::Pop) + b + jump(
                OpCode::Jump,
                c.len() + 1,
            ) + one(OpCode::Pop) + c,
        ),
{
    reveal(if_statement);
    let code = s.function.code;
    let t = condition(s.enter(), "Expect '(' after 'if'.");
    let s1 = t.emit_jump(OpCode::JumpIfFalse);
    let begun = s1.op(OpCode::Pop);
    let done = rec(Part::Statement, begun);
    let s2 = done.emit_jump(OpCode::Jump);
    let s3 = s2.patch_jump(s1.jump_place());
    let s4 = s3.op(OpCode::Pop);
    lemma_jump(t, OpCode::JumpIfFalse);
    lemma_op(s1, OpCode::Pop);
    lemma_jump(done, OpCode::Jump);
    let blank = seq![byte_of(OpCode::Jump), 255u8, 255u8];
    let after = one(OpCode::Pop) + b + blank;
    assert(s2.function.code =~= code + a + seq![byte_of(OpCode::JumpIfFalse), 255u8, 255u8]
        + after);
    lemma_patched(s2, code + a, OpCode::JumpIfFalse, after, s1.jump_place());
    lemma_op(s3, OpCode::Pop);
    lemma_consume(s4, TokenType::Else, "");
    let s5 = if s4.at(TokenType::Else) {
        rec(Part::Statement, s4.advance())
    } else {
        s4
    };
    let head = code + a + jump(OpCode::JumpIfFalse, b.len() + 4) + one(OpCode::Pop) + b;
    assert(s5.function.code =~= head + blank + (one(OpCode::Pop) + c));
    lemma_patched(s5, head, OpCode::Jump, one(OpCode::Pop) + c, s2.jump_place());
    assert(if_statement(s, rec).function.code =~= code + (a + jump(
        OpCode::JumpIfFalse,
        b.len() + 4,
    ) + one(OpCode::Pop) + b + jump(OpCode::Jump, c.len() + 1) + one(OpCode::Pop) + c));
}

/// A case of a `switch` compares its value with a copy of the subject. Where
/// they differ it goes on behind the case; else it runs the statements and comes
/// to a jump, which the end of the `switch` is to receive.
pub proof fn law_cases(s: PState, rec: Compile, a: Seq<u8>, b: Seq<u8>)
    requires
        ({
            let copied = s.op(OpCode::Dup);
            let valued = whole_expression(copied);
            let compared = valued.consume(TokenType::Colon, "Expect ':' after 'case' value.").op(
                OpCode::Equal,
            );
            let begun = compared.emit_jump(OpCode::JumpIfFalse).op(OpCode::Pop);
            &&& adds(copied, valued, a)
            &&& adds(begun, rec(Part::Items { in_switch: true }, begun), b)
        }),
        b.len() + 4 <= u16::MAX,
    ensures
        ({
            let (t, exit) = switch_case(s, false, rec);
            let head = one(OpCode::Dup) + a + one(OpCode::Equal) + jump(
                OpCode::JumpIfFalse,
                b.len() + 4,
            ) + one(OpCode::Pop) + b;
            &&& adds(s, t, head + seq![byte_of(OpCode::Jump), 255u8, 255u8] + one(OpCode::Pop))
            &&& exit == s.function.code.len() + head.len() + 1
        }),
{
    reveal(switch_case);
    let code = s.function.code;
    let s1 = s.op(OpCode::Dup);
    let s2 = whole_expression(s1);
    let message = "Expect ':' after 'case' value.";
    let s3 = s2.consume(TokenType::Colon, message);
    let s4 = s3.op(OpCode::Equal);
    let s5 = s4.emit_jump(OpCode::JumpIfFalse);
    let s6 = s5.op(OpCode::Pop);
    let s7 = rec(Part::Items { in_switch: true }, s6);
    let s8 = s7.emit_jump(OpCode::Jump);
    let s9 = s8.patch_jump(s5.jump_place());
    lemma_op(s, OpCode::Dup);
    lemma_consume(s2, TokenType::Colon, message);
    lemma_op(s3, OpCode::Equal);
    lemma_jump(s4, OpCode::JumpIfFalse);
    lemma_op(s5, OpCode::Pop);
    lemma_jump(s7, OpCode::Jump);
    let blank = seq![byte_of(OpCode::Jump), 255u8, 255u8];
    let before = code + one(OpCode::Dup) + a + one(OpCode::Equal);
    let after = one(OpCode::Pop) + b + blank;
    assert(s8.function.code =~= before + seq![byte_of(OpCode::JumpIfFalse), 255u8, 255u8] + after);
    lemma_patched(s8, before, OpCode::JumpIfFalse, after, s5.jump_place());
    lemma_op(s9, OpCode::Pop);
    let (t, exit) = switch_case(s, false, rec);
    assert(t.function.code =~= code + (one(OpCode::Dup) + a + one(OpCode::Equal) + jump(
        OpCode::JumpIfFalse,
        b.len() + 4,
    ) + one(OpCode::Pop) + b + blank + one(OpCode::Pop)));
}

/// The jumps out of the cases of a `switch` all go to its end.
pub proof fn law_cases_jump_to_the_end(s: PState, exits: Seq<int>, k: int)
    requires
        forall|i: int|
            0 <= i < exits.len() ==> 0 <= #[trigger] exits[i] && exits[i] + 2
                <= s.function.code.len() <= exits[i] + 2 + u16::MAX,
        forall|i: int, j: int|
            0 <= i < j < exits.len() ==> #[trigger] exits[i] + 2 <= #[trigger] exits[j],
        0 <= k < exits.len(),
    ensures
        ({
            let code = switch_end(s, exits).function.code;
            &&& code.len() == s.function.code.len()
            &&& exits[k] + 2 + short_operand(code[exits[k]], code[exits[k] + 1]) == code.len()
        }),
{
    reveal(switch_end);
    let message = "Expect '}' after switch case.";
    lemma_consume(s, TokenType::RightBrace, message);
    lemma_patch_all(s.consume(TokenType::RightBrace, message), exits, 0, k);
}

proof fn lemma_patch_all(s: PState, exits: Seq<int>, i: int, k: int)
    requires
        forall|i: int|
            0 <= i < exits.len() ==> 0 <= #[trigger] exits[i] && exits[i] + 2
                <= s.function.code.len() <= exits[i] + 2 + u16::MAX,
        forall|i: int, j: int|
            0 <= i < j < exits.len() ==> #[trigger] exits[i] + 2 <= #[trigger] exits[j],
        0 <= i,
        0 <= k < exits.len(),
        k < i ==> exits[k] + 2 + short_operand(
            s.function.code[exits[k]],
            s.function.code[exits[k] + 1],
        ) == s.function.code.len(),
    ensures
        ({
            let code = patch_all(s, exits, i).function.code;
            &&& code.len() == s.function.code.len()
            &&& exits[k] + 2 + short_operand(code[exits[k]], code[exits[k] + 1]) == code.len()
        }),
    decreases exits.len() - i,
{
    if i < exits.len() {
        law_patched_jumps_go_to_the_end(s, exits[i]);
        assert(k < i ==> exits[k] + 2 <= exits[i]);
        lemma_patch_all(s.patch_jump(exits[i]), exits, i + 1, k);
    }
}

/// A `for` with a condition and an increment, behind its first clause: the
/// condition; where that is false, on behind the statement; else over the
/// increment to the body, and from there back to the increment, which goes back
/// to the condition.
pub proof fn law_for_header(s: PState, a: Seq<u8>, c: Seq<u8>)
    requires
        !s.at(TokenType::Semicolon),
        ({
            let pointed = s.schedule_point(DebugPointKind::LoopCondition, s.span_of(s.current));
            let tested = for_condition(s).op(OpCode::Pop);
            let jumped = tested.emit_jump(OpCode::Jump);
            let begun = jumped.schedule_point(
                DebugPointKind::LoopIncrement,
                jumped.span_of(jumped.current),
            );
            &&& adds(pointed, whole_expression(pointed), a)
            &&& !tested.at(TokenType::RightParen)
            &&& adds(begun, whole_expression(begun), c)
        }),
        a.len() + c.len() + 11 <= u16::MAX,
    ensures
        ({
            let header = for_clauses(s);
            let start = s.function.code.len() as int;
            &&& adds(
                s,
                header.state,
                a + seq![byte_of(OpCode::JumpIfFalse), 255u8, 255u8] + one(OpCode::Pop) + jump(
                    OpCode::Jump,
                    c.len() + 4,
                ) + c + one(OpCode::Pop) + jump(OpCode::Loop, a.len() + c.len() + 11),
            )
            &&& header.exit == Some(start + a.len() + 1)
            &&& header.back == start + a.len() + 7
        }),
{
    reveal(for_clauses);
    reveal(for_condition);
    reveal(for_increment);
    let code = s.function.code;
    let start = code.len() as int;
    let s0 = s.schedule_point(DebugPointKind::LoopCondition, s.span_of(s.current));
    lemma_point(s, DebugPointKind::LoopCondition, s.span_of(s.current), 0);
    let message = "Expect ';' after loop condition.";
    let e = whole_expression(s0);
    lemma_consume(e, TokenType::Semicolon, message);
    let x = e.consume(TokenType::Semicolon, message);
    lemma_point(x, DebugPointKind::LoopCondition, s.span_of(s.current), s.next_point_id);
    let y = x.finish_point(s.next_point_id);
    lemma_jump(y, OpCode::JumpIfFalse);
    let s1 = for_condition(s);
    lemma_op(s1, OpCode::Pop);
    let s2 = s1.op(OpCode::Pop);
    lemma_jump(s2, OpCode::Jump);
    let s3 = s2.emit_jump(OpCode::Jump);
    let s4 = s3.schedule_point(DebugPointKind::LoopIncrement, s3.span_of(s3.current));
    lemma_point(s3, DebugPointKind::LoopIncrement, s3.span_of(s3.current), 0);
    let s5 = whole_expression(s4);
    lemma_point(s5, DebugPointKind::LoopIncrement, s3.span_of(s3.current), s3.next_point_id);
    let s6 = s5.finish_point(s3.next_point_id);
    lemma_op(s6, OpCode::Pop);
    let s7 = s6.op(OpCode::Pop);
    lemma_consume(s7, TokenType::RightParen, "Expect ')' after for clauses.");
    let s8 = s7.consume(TokenType::RightParen, "Expect ')' after for clauses.");
    law_loops_go_back(s8, start);
    let s9 = s8.emit_loop(start);
    let blank = seq![byte_of(OpCode::JumpIfFalse), 255u8, 255u8];
    let head = code + a + blank + one(OpCode::Pop);
    let back = jump(OpCode::Loop, a.len() + c.len() + 11);
    let after = c + one(OpCode::Pop) + back;
    assert(s9.function.code =~= head + seq![byte_of(OpCode::Jump), 255u8, 255u8] + after);
    lemma_patched(s9, head, OpCode::Jump, after, s3.jump_place());
    let header = for_clauses(s);
    assert(header.state == s9.patch_jump(s3.jump_place()));
    assert(header.state.function.code =~= code + (a + blank + one(OpCode::Pop) + jump(
        OpCode::Jump,
        c.len() + 4,
    ) + c + one(OpCode::Pop) + back));
}

/// A `for` without a condition and an increment goes back to its body for ever.
pub proof fn law_for_without_clauses(s: PState)
    requires
        s.at(TokenType::Semicolon),
        s.advance().at(TokenType::RightParen),
    ensures
        ({
            let header = for_clauses(s);
            &&& header.state.function == s.function
            &&& header.exit is None
            &&& header.back == s.function.code.len()
        }),
{
    reveal(for_clauses);
    lemma_consume(s, TokenType::Semicolon, "");
    lemma_consume(s.advance(), TokenType::RightParen, "");
}

/// Behind its header a `for` runs its body and goes back; where it has a
/// condition, that jumps behind the loop, and its value is dropped there. The
/// variable of the loop goes at the end.
pub proof fn law_for(s: PState, rec: Compile, b: Seq<u8>)
    requires
        ({
            let header = for_header(s);
            let begun = header.state.leave();
            &&& adds(begun, rec(Part::Statement, begun), b)
            &&& 0 <= header.back <= begun.function.code.len()
            &&& begun.function.code.len() + b.len() - header.back + 3 <= u16::MAX
            &&& header.exit matches Some(place) ==> 0 <= place && place + 2
                <= begun.function.code.len() && begun.function.code.len() + b.len() + 3 <= place + 2
                + u16::MAX
        }),
    ensures
        ({
            let header = for_header(s);
            let code = header.state.function.code;
            let n = code.len() as int;
            exists|looped: PState| #[trigger]
                for_statement(s, rec) == looped.end_scope().leave() && {
                    let after = looped.function.code;
                    &&& forall|i: int|
                        0 <= i < n && header.exit != Some(i) && header.exit != Some(i - 1)
                            ==> #[trigger] after[i] == code[i]
                    &&& after.subrange(n, n + b.len()) == b
                    &&& after[n + b.len()] == byte_of(OpCode::Loop)
                    &&& n + b.len() + 3 - short_operand(
                        after[n + b.len() + 1],
                        after[n + b.len() + 2],
                    ) == header.back
                    &&& header.exit is None ==> after.len() == n + b.len() + 3
                    &&& header.exit matches Some(place) ==> {
                        &&& after.len() == n + b.len() + 4
                        &&& place + 2 + short_operand(after[place], after[place + 1]) == n
                            + b.len() + 3
                        &&& after.last() == byte_of(OpCode::Pop)
                    }
                }
        }),
{
    reveal(for_statement);
    let header = for_header(s);
    let begun = header.state.leave();
    let code = begun.function.code;
    let n = code.len() as int;
    let s1 = rec(Part::Statement, begun);
    let s2 = s1.emit_loop(header.back);
    law_loops_go_back(s1, header.back);
    let looped = match header.exit {
        Some(place) => s2.patch_jump(place).op(OpCode::Pop),
        None => s2,
    };
    assert forall|i: int| 0 <= i < s1.function.code.len() implies #[trigger] s2.function.code[i]
        == s1.function.code[i] by {
        assert(s2.function.code.take(s1.function.code.len() as int)[i] == s1.function.code[i]);
    }
    if let Some(place) = header.exit {
        law_patched_jumps_go_to_the_end(s2, place);
        lemma_op(s2.patch_jump(place), OpCode::Pop);
    }
    let after = looped.function.code;
    assert(after.subrange(n, n + b.len()) =~= b);
    assert(for_statement(s, rec) == looped.end_scope().leave());
}

/// What is known behind the header of a `for`.
pub open spec fn for_header(s: PState) -> ForHeader {
    for_clauses(
        for_initializer(
            s.enter().begin_scope().consume(
                TokenType::LeftParen,
                "Expect '(' after 'for'.",
            ).enter(),
        ),
    )
}

} // verus!
