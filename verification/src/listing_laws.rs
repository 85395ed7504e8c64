//! That instructions are as long as the machine takes them to be.
use vstd::prelude::*;
use crate::chunk::{byte_of, law_instructions_round_trip, short_operand, OpCode};
use crate::disassembly::{instruction_length, jump_target};
use crate::instruction_laws::{comes_to, has_operand, law_jumps, lemma_comes_to, wide_operand};
use crate::machine::{Input, Outcome, VmState};
use crate::object::Function;
use crate::value::Value;

verus! {

/// The bytes of an instruction that neither jumps nor calls nor makes a closure.
pub open spec fn bytes(op: OpCode) -> Option<int> {
    match op {
        OpCode::Nil | OpCode::True | OpCode::False | OpCode::Pop | OpCode::Dup | OpCode::GetIndex
        | OpCode::SetIndex | OpCode::Equal | OpCode::Greater | OpCode::Less | OpCode::Add
        | OpCode::Subtract | OpCode::Multiply | OpCode::Divide | OpCode::IntDivide | OpCode::Not
        | OpCode::Negate | OpCode::Print => Some(1),
        OpCode::Constant | OpCode::GetLocal | OpCode::SetLocal | OpCode::GetGlobal
        | OpCode::DefineGlobal | OpCode::SetGlobal | OpCode::GetUpvalue | OpCode::SetUpvalue
        | OpCode::BuildList => Some(2),
        OpCode::GetLocalLong | OpCode::SetLocalLong | OpCode::BuildListLong => Some(3),
        OpCode::ConstantLong => Some(4),
        _ => None,
    }
}

/// The machine has gone on behind an instruction of so many bytes.
pub open spec fn goes_behind(s: VmState, o: Outcome, n: int) -> bool {
    match o {
        Outcome::Next(t) | Outcome::Printed(t, _) => t.frames.len() == s.frames.len()
            && t.frames.last().ip == s.frames.last().ip + n,
        Outcome::Complete(_) => false,
        Outcome::Fails(_) => true,
    }
}

/// The machine goes on behind an instruction by as many bytes as listings take
/// it to have.
pub proof fn law_instructions_are_as_long_as_they_are_listed(
    s: VmState,
    f: Function,
    op: OpCode,
    input: Input,
)
    requires
        comes_to(s, f, op),
        bytes(op) is Some,
        s.frames.last().ip + bytes(op)->0 <= f.chunk.code@.len(),
    ensures
        goes_behind(s, s.step(input.number, input.texts), bytes(op)->0),
        instruction_length(
            s.heap,
            f.chunk.code@,
            f.chunk.constants@,
            s.frames.last().ip as int,
        ) == bytes(op)->0,
{
    law_instructions_round_trip(op, byte_of(op));
    lemma_comes_to(s, f, op);
    if bytes(op) == Some(1int) {
        lemma_one(s, f, op, input);
    } else if bytes(op) == Some(2int) {
        lemma_two(s, f, op, input);
    } else {
        lemma_more(s, f, op, input);
    }
}

proof fn lemma_one(s: VmState, f: Function, op: OpCode, input: Input)
    requires
        comes_to(s, f, op),
        bytes(op) == Some(1int),
        s.frames.last().ip < f.chunk.code@.len(),
    ensures
        goes_behind(s, s.step(input.number, input.texts), 1),
{
    lemma_comes_to(s, f, op);
    reveal(VmState::step);
}

proof fn lemma_two(s: VmState, f: Function, op: OpCode, input: Input)
    requires
        comes_to(s, f, op),
        bytes(op) == Some(2int),
        s.frames.last().ip + 2 <= f.chunk.code@.len(),
    ensures
        goes_behind(s, s.step(input.number, input.texts), 2),
{
    lemma_comes_to(s, f, op);
    reveal(VmState::step);
}

proof fn lemma_more(s: VmState, f: Function, op: OpCode, input: Input)
    requires
        comes_to(s, f, op),
        bytes(op) is Some,
        bytes(op)->0 > 2,
        s.frames.last().ip + bytes(op)->0 <= f.chunk.code@.len(),
    ensures
        goes_behind(s, s.step(input.number, input.texts), bytes(op)->0),
{
    lemma_comes_to(s, f, op);
    reveal(VmState::step);
}

/// A jump is listed with the place that the machine goes to.
pub proof fn law_jumps_are_listed_with_their_target(s: VmState, f: Function, op: OpCode, input: Input)
    requires
        op is Jump || op is JumpIfFalse || op is Loop,
        comes_to(s, f, op),
        has_operand(s, f, 2),
        op is JumpIfFalse ==> s.stack.len() > 0 && (s.stack.last() is Nil || s.stack.last()
            == Value::Bool(false)),
        s.frames.last().ip + 3 + wide_operand(s, f, 1) <= usize::MAX,
        op is Loop ==> wide_operand(s, f, 1) <= s.frames.last().ip + 3,
    ensures
        s.step(input.number, input.texts) matches Outcome::Next(t) && t.frames.last().ip
            == jump_target(
            s.frames.last().ip as int,
            short_operand(
                f.chunk.code@[s.frames.last().ip + 1],
                f.chunk.code@[s.frames.last().ip + 2],
            ),
            !(op is Loop),
        ),
{
    law_jumps(s, f, op, input);
}

} // verus!
