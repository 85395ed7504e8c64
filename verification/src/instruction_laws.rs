//! What each instruction does, in terms of the values that it finds on the
//! stack and the values that it leaves there.
use vstd::prelude::*;
use crate::chunk::{byte_of, law_instructions_round_trip, OpCode};
use crate::format::shown;
use crate::interpreter::answers;
use crate::machine::{ArithmeticOp, CallFrame, Fault, Input, Outcome, VmState, FRAMES_MAX, STACK_MAX};
use crate::number::{is_nan, stands_for};
use crate::machine_laws::{in_order, law_capturing_is_by_slot, law_closing_leaves_nothing_open_above};
use crate::number_laws::{law_whole_numbers_are_ordered, law_whole_part_of_whole_numbers};
use crate::object::{Content, Function, HeapState, UpvalueCell};
use crate::runtime_host::Arithmetic;
use crate::session::ActivationId;
use crate::table::Key;
use crate::value::Value;
use crate::vm::lemma_close_keeps;

verus! {

/// The running call is of the function `f`, and comes to the instruction `op`.
pub open spec fn comes_to(s: VmState, f: Function, op: OpCode) -> bool {
    &&& s.frames.len() > 0
    &&& s.heap.get(s.frames.last().closure) matches Content::Closure { function, upvalues }
        && s.heap.get(function) == Content::Function(f)
    &&& s.frames.last().ip < f.chunk.code@.len()
    &&& f.chunk.code@[s.frames.last().ip as int] == byte_of(op)
}

/// The byte `k` places behind the instruction is there.
pub open spec fn has_operand(s: VmState, f: Function, k: int) -> bool {
    s.frames.last().ip + k < f.chunk.code@.len()
}

pub open spec fn operand(s: VmState, f: Function, k: int) -> int {
    f.chunk.code@[s.frames.last().ip + k] as int
}

/// A number in two bytes, the low one first.
pub open spec fn wide_operand(s: VmState, f: Function, k: int) -> int {
    operand(s, f, k) + 256 * operand(s, f, k + 1)
}

/// The machine goes on `n` bytes further, with another stack.
pub open spec fn goes_on(s: VmState, stack: Seq<Value>, n: int) -> VmState {
    let last = s.frames.last();
    VmState {
        stack,
        frames: s.frames.drop_last().push(CallFrame { ip: (last.ip + n) as usize, ..last }),
        ..s
    }
}

/// The stack with the top `n` values replaced by one.
pub open spec fn replacing(stack: Seq<Value>, n: int, value: Value) -> Seq<Value> {
    stack.take(stack.len() - n).push(value)
}

/// The value `depth` places below the top.
pub open spec fn below(stack: Seq<Value>, depth: int) -> Value {
    stack[stack.len() - 1 - depth]
}

pub open spec fn text_in(heap: HeapState, value: Value, text: Seq<char>) -> bool {
    value matches Value::Obj(object) && (heap.get(object) matches Content::Text { text: own, hash: _ }
        && own == text)
}

pub open spec fn list_in(heap: HeapState, value: Value, items: Seq<Value>) -> bool {
    value matches Value::Obj(object) && heap.get(object) == Content::List(items)
}

pub proof fn lemma_comes_to(s: VmState, f: Function, op: OpCode)
    requires
        comes_to(s, f, op),
    ensures
        s.running() == Some(f),
        s.next_op() == Some(op),
        s.frame() == s.frames.last(),
        s.frames.last().ip < f.chunk.code@.len() <= usize::MAX,
        forall|k: int| 0 <= k && has_operand(s, f, k) ==> #[trigger] s.arg(k) == Some(
            f.chunk.code@[s.frames.last().ip + k],
        ),
{
    law_instructions_round_trip(op, byte_of(op));
    assert(f.chunk.code@.len() == f.chunk.code.len());
    assert(s.arg(0) == Some(byte_of(op)));
}

pub proof fn lemma_goes_on(s: VmState, stack: Seq<Value>, n: int)
    requires
        s.frames.len() > 0,
        s.frames.last().ip + n <= usize::MAX,
        0 <= n,
    ensures
        s.with_stack(stack).skipped(n) == goes_on(s, stack, n),
        s.with_stack(stack).at_ip((s.frames.last().ip + n) as usize) == goes_on(s, stack, n),
{
    assert(s.with_stack(stack).skipped(n).frames =~= goes_on(s, stack, n).frames);
}

/// The five operations of arithmetic: the result that is left in place of two
/// numbers is what the arithmetic gives for that operation on the lower and
/// the upper number, in this order.
pub proof fn law_arithmetic_is_that_of_the_instruction<A: Arithmetic>(
    arithmetic: A,
    s: VmState,
    f: Function,
    op: OpCode,
    input: Input,
    left: u64,
    right: u64,
)
    requires
        op is Add || op is Subtract || op is Multiply || op is Divide || op is IntDivide,
        comes_to(s, f, op),
        2 <= s.stack.len() <= STACK_MAX,
        below(s.stack, 1) == Value::Number(left),
        below(s.stack, 0) == Value::Number(right),
        answers(arithmetic, s, input),
    ensures
        s.step(input.number, input.texts) == Outcome::Next(
            goes_on(s, replacing(s.stack, 2, Value::Number(input.number)), 1),
        ),
        op is Add ==> call_ensures(
            A::compute,
            (&arithmetic, ArithmeticOp::Add, left, right),
            input.number,
        ),
        op is Subtract ==> call_ensures(
            A::compute,
            (&arithmetic, ArithmeticOp::Subtract, left, right),
            input.number,
        ),
        op is Multiply ==> call_ensures(
            A::compute,
            (&arithmetic, ArithmeticOp::Multiply, left, right),
            input.number,
        ),
        op is Divide ==> call_ensures(
            A::compute,
            (&arithmetic, ArithmeticOp::Divide, left, right),
            input.number,
        ),
        op is IntDivide ==> call_ensures(
            A::compute,
            (&arithmetic, ArithmeticOp::IntDivide, left, right),
            input.number,
        ),
{
    reveal(VmState::step);
    lemma_comes_to(s, f, op);
    lemma_goes_on(s, replacing(s.stack, 2, Value::Number(input.number)), 1);
}

/// Where the operands of arithmetic are not both numbers, and nothing else
/// can be made of them, the program fails and says so.
pub proof fn law_arithmetic_needs_numbers(s: VmState, f: Function, op: OpCode, input: Input)
    requires
        op is Subtract || op is Divide || op is IntDivide || op is Greater || op is Less,
        comes_to(s, f, op),
        2 <= s.stack.len(),
        !(below(s.stack, 1) is Number && below(s.stack, 0) is Number),
    ensures
        s.step(input.number, input.texts) == Outcome::Fails(
            Fault::Message("Operands must be numbers."),
        ),
{
    reveal(VmState::step);
    lemma_comes_to(s, f, op);
}

/// `+` joins two strings, the lower one first.
pub proof fn law_add_joins_strings(
    s: VmState,
    f: Function,
    input: Input,
    left: Seq<char>,
    right: Seq<char>,
)
    requires
        comes_to(s, f, OpCode::Add),
        2 <= s.stack.len() <= STACK_MAX,
        text_in(s.heap, below(s.stack, 1), left),
        text_in(s.heap, below(s.stack, 0), right),
        s.heap.texts_are_known(),
        forall|text: Seq<char>| #[trigger]
            s.heap.interned.contains_key(text) ==> text_in(
                s.heap,
                Value::Obj(s.heap.interned[text]),
                text,
            ),
        s.heap.objects.len() < usize::MAX,
    ensures
        s.step(input.number, input.texts) matches Outcome::Next(t) && {
            &&& t.stack.len() == s.stack.len() - 1
            &&& t.stack.drop_last() == s.stack.take(s.stack.len() - 2)
            &&& text_in(t.heap, t.stack.last(), left + right)
            &&& t.frames == goes_on(s, t.stack, 1).frames
        },
{
    reveal(VmState::step);
    lemma_comes_to(s, f, OpCode::Add);
    let joined = left + right;
    let value = Value::Obj(s.heap.text_object(joined));
    let stack = replacing(s.stack, 2, value);
    let made = VmState { heap: s.heap.with_text(joined), ..s };
    lemma_goes_on(made, stack, 1);
    assert(stack.drop_last() =~= s.stack.take(s.stack.len() - 2));
    if s.heap.interned.contains_key(joined) {
        assert(text_in(s.heap, Value::Obj(s.heap.interned[joined]), joined));
    }
}

/// `+` makes a new list of the items of two, those of the lower one first.
pub proof fn law_add_joins_lists(
    s: VmState,
    f: Function,
    input: Input,
    left: Seq<Value>,
    right: Seq<Value>,
)
    requires
        comes_to(s, f, OpCode::Add),
        2 <= s.stack.len() <= STACK_MAX,
        list_in(s.heap, below(s.stack, 1), left),
        list_in(s.heap, below(s.stack, 0), right),
        s.heap.objects.len() < usize::MAX,
    ensures
        s.step(input.number, input.texts) matches Outcome::Next(t) && {
            &&& t.stack.drop_last() == s.stack.take(s.stack.len() - 2)
            &&& list_in(t.heap, t.stack.last(), left + right)
            &&& t.heap.objects.drop_last() == s.heap.objects
        },
{
    reveal(VmState::step);
    lemma_comes_to(s, f, OpCode::Add);
    let made = s.allocated(Content::List(left + right));
    let stack = replacing(s.stack, 2, Value::Obj(s.heap.next()));
    lemma_goes_on(made, stack, 1);
    assert(stack.drop_last() =~= s.stack.take(s.stack.len() - 2));
    assert(made.heap.objects.drop_last() =~= s.heap.objects);
}

/// `+` fails on anything else.
pub proof fn law_add_needs_operands_of_one_kind(s: VmState, f: Function, input: Input)
    requires
        comes_to(s, f, OpCode::Add),
        2 <= s.stack.len(),
        !(below(s.stack, 1) is Number && below(s.stack, 0) is Number),
        !(below(s.stack, 1) is Obj && below(s.stack, 0) is Obj),
    ensures
        s.step(input.number, input.texts) == Outcome::Fails(
            Fault::Message("Operands must be two numbers or two strings."),
        ),
{
    reveal(VmState::step);
    lemma_comes_to(s, f, OpCode::Add);
}

/// A list times a whole number is a new list that has the items so many times:
/// each place holds the item at that place, counted round.
pub proof fn law_multiply_repeats_lists(
    s: VmState,
    f: Function,
    input: Input,
    items: Seq<Value>,
    bits: u64,
    n: int,
)
    requires
        comes_to(s, f, OpCode::Multiply),
        2 <= s.stack.len() <= STACK_MAX,
        list_in(s.heap, below(s.stack, 1), items),
        below(s.stack, 0) == Value::Number(bits),
        0 <= n <= usize::MAX,
        stands_for(bits, n),
        n * items.len() <= usize::MAX,
        s.heap.objects.len() < usize::MAX,
    ensures
        s.step(input.number, input.texts) matches Outcome::Next(t) && {
            &&& t.stack.drop_last() == s.stack.take(s.stack.len() - 2)
            &&& exists|copies: Seq<Value>| #[trigger]
                list_in(t.heap, t.stack.last(), copies) && repeats(copies, items, n)
        },
{
    lemma_comes_to(s, f, OpCode::Multiply);
    assert(s.step(input.number, input.texts) == s.multiply(input.number)) by {
        reveal(VmState::step);
    }
    law_whole_part_of_whole_numbers(bits, n);
    let copies = crate::machine::repeat(items, n as nat);
    lemma_repeat(items, n as nat);
    assert(items.len() * n == n * items.len()) by (nonlinear_arith);
    let made = s.allocated(Content::List(copies));
    let stack = replacing(s.stack, 2, Value::Obj(s.heap.next()));
    lemma_goes_on(made, stack, 1);
    assert(stack.drop_last() =~= s.stack.take(s.stack.len() - 2));
    assert(s.items_of(below(s.stack, 1)) == Some(items));
    assert(crate::machine::repetitions(bits) == n);
    let t = goes_on(made, stack, 1);
    assert(s.multiply(input.number) == Outcome::Next(t));
    assert(copies.len() == n * items.len());
    assert forall|i: int| 0 <= i < copies.len() implies #[trigger] copies[i] == items[i % (
    items.len() as int)] by {
        assert(crate::machine::repeat(items, n as nat)[i] == items[i % (items.len() as int)]);
    }
    assert(repeats(copies, items, n));
    assert(list_in(t.heap, t.stack.last(), copies));
    let o = s.step(input.number, input.texts);
    assert(o == Outcome::Next(t));
    assert(o matches Outcome::Next(t) && t.stack.drop_last() == s.stack.take(s.stack.len() - 2));
    assert(o matches Outcome::Next(t) && exists|copies: Seq<Value>| #[trigger]
        list_in(t.heap, t.stack.last(), copies) && repeats(copies, items, n));
}

/// `copies` is `items`, `n` times over.
pub open spec fn repeats(copies: Seq<Value>, items: Seq<Value>, n: int) -> bool {
    &&& copies.len() == n * items.len()
    &&& forall|i: int|
        0 <= i < copies.len() ==> #[trigger] copies[i] == items[i % (items.len() as int)]
}

proof fn lemma_repeat(items: Seq<Value>, n: nat)
    ensures
        crate::machine::repeat(items, n).len() == n * items.len(),
        forall|i: int|
            0 <= i < n * items.len() ==> #[trigger] crate::machine::repeat(items, n)[i] == items[i
                % (items.len() as int)],
    decreases n,
{
    let len = items.len() as int;
    if n > 0 {
        let less = (n - 1) as nat;
        lemma_repeat(items, less);
        assert(n * items.len() == less * items.len() + items.len()) by (nonlinear_arith)
            requires
                n == less + 1,
        ;
        let all = crate::machine::repeat(items, n);
        assert forall|i: int| 0 <= i < n * items.len() implies #[trigger] all[i] == items[i % len] by {
            if i >= less * items.len() {
                let k = i - less * items.len();
                assert(i % len == k) by (nonlinear_arith)
                    requires
                        i == less * len + k,
                        0 <= k < len,
                ;
            } else {
                assert(crate::machine::repeat(items, less)[i] == items[i % len]);
            }
        }
    } else {
        assert(n * items.len() == 0) by (nonlinear_arith)
            requires
                n == 0,
        ;
    }
}

/// Instructions that only push a value: a constant, `nil`, `true`, `false`, or
/// the top of the stack again.
pub proof fn law_pushing(s: VmState, f: Function, op: OpCode, input: Input)
    requires
        op is Constant || op is Nil || op is True || op is False || op is Dup,
        comes_to(s, f, op),
        s.stack.len() < STACK_MAX,
        op is Constant ==> has_operand(s, f, 1) && operand(s, f, 1) < f.chunk.constants@.len(),
        op is Dup ==> s.stack.len() > 0,
    ensures
        op is Constant ==> s.step(input.number, input.texts) == Outcome::Next(
            goes_on(s, s.stack.push(f.chunk.constants@[operand(s, f, 1)]), 2),
        ),
        op is Nil ==> s.step(input.number, input.texts) == Outcome::Next(
            goes_on(s, s.stack.push(Value::Nil), 1),
        ),
        op is True ==> s.step(input.number, input.texts) == Outcome::Next(
            goes_on(s, s.stack.push(Value::Bool(true)), 1),
        ),
        op is False ==> s.step(input.number, input.texts) == Outcome::Next(
            goes_on(s, s.stack.push(Value::Bool(false)), 1),
        ),
        op is Dup ==> s.step(input.number, input.texts) == Outcome::Next(
            goes_on(s, s.stack.push(s.stack.last()), 1),
        ),
{
    reveal(VmState::step);
    lemma_comes_to(s, f, op);
    assert(s.stack.take(s.stack.len() as int) =~= s.stack);
    let n = if op is Constant {
        2int
    } else {
        1
    };
    let value = match op {
        OpCode::Constant => f.chunk.constants@[operand(s, f, 1)],
        OpCode::Nil => Value::Nil,
        OpCode::True => Value::Bool(true),
        OpCode::False => Value::Bool(false),
        _ => s.stack.last(),
    };
    if op is Constant {
        assert(s.arg(1) == Some(f.chunk.code@[s.frames.last().ip + 1]));
    }
    lemma_goes_on(s, s.stack.push(value), n);
}

/// `pop` drops the top value, and nothing else.
pub proof fn law_popping(s: VmState, f: Function, input: Input)
    requires
        comes_to(s, f, OpCode::Pop),
        s.stack.len() > 0,
    ensures
        s.step(input.number, input.texts) == Outcome::Next(goes_on(s, s.stack.drop_last(), 1)),
{
    reveal(VmState::step);
    lemma_comes_to(s, f, OpCode::Pop);
    lemma_goes_on(s, s.stack.drop_last(), 1);
    assert(s.stack.take(s.stack.len() - 1) =~= s.stack.drop_last());
}

/// A local is read from its slot above the base of the call, and written
/// there; a value that is written stays on the stack.
pub proof fn law_locals_are_slots(s: VmState, f: Function, op: OpCode, input: Input)
    requires
        op is GetLocal || op is SetLocal,
        comes_to(s, f, op),
        has_operand(s, f, 1),
        s.frames.last().base + operand(s, f, 1) < s.stack.len(),
        op is GetLocal ==> s.stack.len() < STACK_MAX,
    ensures
        op is GetLocal ==> s.step(input.number, input.texts) == Outcome::Next(
            goes_on(s, s.stack.push(s.stack[s.frames.last().base + operand(s, f, 1)]), 2),
        ),
        op is SetLocal ==> s.step(input.number, input.texts) == Outcome::Next(
            goes_on(
                s,
                s.stack.update(s.frames.last().base + operand(s, f, 1), s.stack.last()),
                2,
            ),
        ),
{
    reveal(VmState::step);
    lemma_comes_to(s, f, op);
    assert(s.arg(1) == Some(f.chunk.code@[s.frames.last().ip + 1]));
    assert(s.stack.take(s.stack.len() as int) =~= s.stack);
    let slot = s.frames.last().base + operand(s, f, 1);
    lemma_goes_on(s, s.stack.push(s.stack[slot]), 2);
    lemma_goes_on(s, s.stack.update(slot, s.stack.last()), 2);
}

/// The same, for slots that take two bytes.
pub proof fn law_far_locals_are_slots(s: VmState, f: Function, op: OpCode, input: Input)
    requires
        op is GetLocalLong || op is SetLocalLong,
        comes_to(s, f, op),
        has_operand(s, f, 2),
        s.frames.last().base + wide_operand(s, f, 1) < s.stack.len(),
        op is GetLocalLong ==> s.stack.len() < STACK_MAX,
    ensures
        op is GetLocalLong ==> s.step(input.number, input.texts) == Outcome::Next(
            goes_on(s, s.stack.push(s.stack[s.frames.last().base + wide_operand(s, f, 1)]), 3),
        ),
        op is SetLocalLong ==> s.step(input.number, input.texts) == Outcome::Next(
            goes_on(
                s,
                s.stack.update(s.frames.last().base + wide_operand(s, f, 1), s.stack.last()),
                3,
            ),
        ),
{
    lemma_comes_to(s, f, op);
    assert(op is GetLocalLong ==> s.step(input.number, input.texts) == s.get_local(
        s.short_arg(1),
        3,
    )) by {
        reveal(VmState::step);
    }
    assert(op is SetLocalLong ==> s.step(input.number, input.texts) == s.set_local(
        s.short_arg(1),
        3,
    )) by {
        reveal(VmState::step);
    }
    assert(s.arg(1) == Some(f.chunk.code@[s.frames.last().ip + 1]));
    assert(s.arg(2) == Some(f.chunk.code@[s.frames.last().ip + 2]));
    assert(s.stack.take(s.stack.len() as int) =~= s.stack);
    let slot = s.frames.last().base + wide_operand(s, f, 1);
    lemma_goes_on(s, s.stack.push(s.stack[slot]), 3);
    lemma_goes_on(s, s.stack.update(slot, s.stack.last()), 3);
}

/// The operand names a global.
pub open spec fn names_global(s: VmState, f: Function, key: Key) -> bool {
    &&& has_operand(s, f, 1)
    &&& operand(s, f, 1) < f.chunk.constants@.len()
    &&& f.chunk.constants@[operand(s, f, 1)] == Value::Obj(key.object)
    &&& s.heap.get(key.object) matches Content::Text { text: _, hash } && hash == key.hash
}

/// A global that is defined is the value that it was defined or set to; the
/// definition takes the value off the stack, an assignment leaves it there and
/// changes no other global. A global that is not defined can neither be read
/// nor set.
pub proof fn law_globals_hold_what_they_are_given(
    s: VmState,
    f: Function,
    op: OpCode,
    input: Input,
    key: Key,
)
    requires
        op is GetGlobal || op is SetGlobal || op is DefineGlobal,
        comes_to(s, f, op),
        names_global(s, f, key),
        op is GetGlobal ==> s.stack.len() < STACK_MAX,
        !(op is GetGlobal) ==> s.stack.len() > 0,
    ensures
        op is GetGlobal && s.globals.contains_key(key) ==> s.step(input.number, input.texts)
            == Outcome::Next(goes_on(s, s.stack.push(s.globals[key]), 2)),
        op is SetGlobal && s.globals.contains_key(key) ==> s.step(input.number, input.texts)
            == Outcome::Next(
            VmState {
                globals: s.globals.insert(key, s.stack.last()),
                ..goes_on(s, s.stack, 2)
            },
        ),
        !(op is DefineGlobal) && !s.globals.contains_key(key) ==> s.step(
            input.number,
            input.texts,
        ) == Outcome::Fails(Fault::UndefinedVariable { name: key.object }),
        op is DefineGlobal ==> s.step(input.number, input.texts) == Outcome::Next(
            VmState {
                globals: s.globals.insert(key, s.stack.last()),
                ..goes_on(s, s.stack.drop_last(), 2)
            },
        ),
{
    reveal(VmState::step);
    lemma_comes_to(s, f, op);
    assert(s.arg(1) == Some(f.chunk.code@[s.frames.last().ip + 1]));
    assert(s.heap.key(key.object) == Some(key));
    assert(s.stack.take(s.stack.len() as int) =~= s.stack);
    assert(s.stack.take(s.stack.len() - 1) =~= s.stack.drop_last());
    lemma_goes_on(s, s.stack.push(s.globals[key]), 2);
    let set = VmState { globals: s.globals.insert(key, s.stack.last()), ..s };
    lemma_goes_on(set, s.stack, 2);
    lemma_goes_on(set, s.stack.drop_last(), 2);
    assert(set.with_stack(s.stack) == set);
}

/// The operand names a captured variable of the running closure.
pub open spec fn names_cell(s: VmState, f: Function, cell: usize) -> bool {
    &&& has_operand(s, f, 1)
    &&& s.heap.get(s.frames.last().closure) matches Content::Closure { function: _, upvalues }
        && operand(s, f, 1) < upvalues.len() && upvalues[operand(s, f, 1)] == cell
}

/// A captured variable is the stack slot that it was captured from while that
/// is there, and later a value of its own: it is read and written there.
pub proof fn law_captured_variables_are_shared(
    s: VmState,
    f: Function,
    op: OpCode,
    input: Input,
    cell: usize,
)
    requires
        op is GetUpvalue || op is SetUpvalue,
        comes_to(s, f, op),
        names_cell(s, f, cell),
        s.heap.get(cell) matches Content::Upvalue(c) && (c matches UpvalueCell::Open { slot }
            ==> slot < s.stack.len()),
        op is GetUpvalue ==> s.stack.len() < STACK_MAX,
        op is SetUpvalue ==> s.stack.len() > 0,
    ensures
        op is GetUpvalue ==> s.step(input.number, input.texts) == Outcome::Next(
            goes_on(
                s,
                s.stack.push(
                    match s.heap.get(cell)->Upvalue_0 {
                        UpvalueCell::Open { slot } => s.stack[slot as int],
                        UpvalueCell::Closed { value } => value,
                    },
                ),
                2,
            ),
        ),
        op is SetUpvalue ==> (match s.heap.get(cell)->Upvalue_0 {
            UpvalueCell::Open { slot } => s.step(input.number, input.texts) == Outcome::Next(
                goes_on(s, s.stack.update(slot as int, s.stack.last()), 2),
            ),
            UpvalueCell::Closed { value: _ } => s.step(input.number, input.texts) matches
                Outcome::Next(t) && {
                &&& t.stack == s.stack
                &&& t.heap.get(cell) == Content::Upvalue(
                    UpvalueCell::Closed { value: s.stack.last() },
                )
                &&& forall|other: usize| other != cell ==> t.heap.get(other) == s.heap.get(other)
                &&& t.frames == goes_on(s, s.stack, 2).frames
            },
        }),
{
    reveal(VmState::step);
    lemma_comes_to(s, f, op);
    assert(s.arg(1) == Some(f.chunk.code@[s.frames.last().ip + 1]));
    assert(s.stack.take(s.stack.len() as int) =~= s.stack);
    match s.heap.get(cell)->Upvalue_0 {
        UpvalueCell::Open { slot } => {
            lemma_goes_on(s, s.stack.push(s.stack[slot as int]), 2);
            lemma_goes_on(s, s.stack.update(slot as int, s.stack.last()), 2);
        },
        UpvalueCell::Closed { value } => {
            lemma_goes_on(s, s.stack.push(value), 2);
            let set = s.with_content(
                cell,
                Content::Upvalue(UpvalueCell::Closed { value: s.stack.last() }),
            );
            lemma_goes_on(set, s.stack, 2);
            assert(set.with_stack(s.stack) == set);
        },
    }
}

/// A list is built of the top values, the lowest of them first.
pub proof fn law_lists_hold_their_items_in_order(s: VmState, f: Function, input: Input)
    requires
        comes_to(s, f, OpCode::BuildList),
        has_operand(s, f, 1),
        operand(s, f, 1) <= s.stack.len() < STACK_MAX,
        s.heap.objects.len() < usize::MAX,
    ensures
        s.step(input.number, input.texts) matches Outcome::Next(t) && {
            let n = operand(s, f, 1);
            &&& t.stack.len() == s.stack.len() - n + 1
            &&& t.stack.drop_last() == s.stack.take(s.stack.len() - n)
            &&& t.heap.objects.drop_last() == s.heap.objects
            &&& t.stack.last() == Value::Obj(s.heap.objects.len() as usize)
            &&& list_in(t.heap, t.stack.last(), s.stack.subrange(s.stack.len() - n, s.stack.len() as int))
            &&& t.frames == goes_on(s, t.stack, 2).frames
        },
{
    lemma_comes_to(s, f, OpCode::BuildList);
    assert(s.step(input.number, input.texts) == s.build_list(s.byte_arg(), 2)) by {
        reveal(VmState::step);
    }
    assert(s.arg(1) == Some(f.chunk.code@[s.frames.last().ip + 1]));
    let n = operand(s, f, 1);
    let items = s.stack.subrange(s.stack.len() - n, s.stack.len() as int);
    assert(s.stack.skip(s.stack.len() - n) =~= items);
    let made = s.allocated(Content::List(items));
    let stack = replacing(s.stack, n, Value::Obj(s.heap.next()));
    lemma_goes_on(made, stack, 2);
    assert(stack.drop_last() =~= s.stack.take(s.stack.len() - n));
    assert(made.heap.objects.drop_last() =~= s.heap.objects);
}

/// An item of a list is read by its place, and written there: the list keeps
/// its other items, and no other object changes. What is written is left on
/// the stack.
pub proof fn law_items_are_found_by_place(
    s: VmState,
    f: Function,
    op: OpCode,
    input: Input,
    items: Seq<Value>,
    bits: u64,
    n: int,
)
    requires
        op is GetIndex || op is SetIndex,
        comes_to(s, f, op),
        (if op is GetIndex {
            2int
        } else {
            3
        }) <= s.stack.len() <= STACK_MAX,
        list_in(
            s.heap,
            below(
                s.stack,
                if op is GetIndex {
                    1
                } else {
                    2
                },
            ),
            items,
        ),
        below(
            s.stack,
            if op is GetIndex {
                0
            } else {
                1
            },
        ) == Value::Number(bits),
        stands_for(bits, n),
        0 <= n < items.len(),
    ensures
        op is GetIndex ==> s.step(input.number, input.texts) == Outcome::Next(
            goes_on(s, replacing(s.stack, 2, items[n]), 1),
        ),
        op is SetIndex ==> (s.step(input.number, input.texts) matches Outcome::Next(t) && {
            &&& t.stack == replacing(s.stack, 3, s.stack.last())
            &&& list_in(t.heap, below(s.stack, 2), items.update(n, s.stack.last()))
            &&& forall|other: usize|
                Value::Obj(other) != below(s.stack, 2) ==> t.heap.get(other) == s.heap.get(other)
        }),
{
    lemma_comes_to(s, f, op);
    assert(op is GetIndex ==> s.step(input.number, input.texts) == s.get_index()) by {
        reveal(VmState::step);
    }
    assert(op is SetIndex ==> s.step(input.number, input.texts) == s.set_index()) by {
        reveal(VmState::step);
    }
    let depth = if op is GetIndex {
        1int
    } else {
        2
    };
    let list = below(s.stack, depth);
    let index = below(s.stack, depth - 1);
    assert(s.items_of(list) == Some(items));
    assert(s.index_fault(list, index) is None);
    let found = s.index_of(list, index);
    crate::number::lemma_stands_for_one(bits, found, n);
    lemma_goes_on(s, replacing(s.stack, 2, items[n]), 1);
    let value = s.stack.last();
    let set = s.with_content(list->Obj_0, Content::List(items.update(n, value)));
    lemma_goes_on(set, replacing(s.stack, 3, value), 1);
}

/// What is no place of a list cannot be read or written.
pub proof fn law_other_indexes_fail(
    s: VmState,
    f: Function,
    input: Input,
    items: Seq<Value>,
    index: Value,
)
    requires
        comes_to(s, f, OpCode::GetIndex),
        2 <= s.stack.len(),
        below(s.stack, 0) == index,
    ensures
        !(below(s.stack, 1) is Obj) ==> s.step(input.number, input.texts) == Outcome::Fails(
            Fault::Message("Only lists can be subscripted."),
        ),
        list_in(s.heap, below(s.stack, 1), items) && !(index is Number) ==> s.step(
            input.number,
            input.texts,
        ) == Outcome::Fails(Fault::Message("List index must be a number.")),
        list_in(s.heap, below(s.stack, 1), items) && (index matches Value::Number(bits) && forall|
            n: int,
        |
            0 <= n < items.len() ==> !#[trigger] stands_for(bits, n)) ==> s.step(
            input.number,
            input.texts,
        ) == Outcome::Fails(Fault::Message("List index out of bounds.")),
{
    lemma_comes_to(s, f, OpCode::GetIndex);
    assert(s.step(input.number, input.texts) == s.get_index()) by {
        reveal(VmState::step);
    }
}

/// `==` compares by kind and value: `nil` with `nil`, truth values, numbers as
/// numbers, and objects as objects; values of two kinds are never equal.
pub proof fn law_equality(s: VmState, f: Function, input: Input, a: Value, b: Value)
    requires
        comes_to(s, f, OpCode::Equal),
        2 <= s.stack.len() <= STACK_MAX,
        below(s.stack, 1) == a,
        below(s.stack, 0) == b,
    ensures
        exists|equal: bool|
            s.step(input.number, input.texts) == Outcome::Next(
                #[trigger] goes_on(s, replacing(s.stack, 2, Value::Bool(equal)), 1),
            ) && {
                &&& a is Nil && b is Nil ==> equal
                &&& a is Bool && b is Bool ==> equal == (a == b)
                &&& a is Obj && b is Obj ==> equal == (a == b)
                &&& a is Nil != b is Nil || a is Bool != b is Bool || a is Number != b is Number
                    ==> !equal
                &&& forall|x: int, y: int|
                    a is Number && b is Number && #[trigger] stands_for(a->Number_0, x)
                        && #[trigger] stands_for(b->Number_0, y) ==> equal == (x == y)
                &&& a is Number && b is Number && (is_nan(a->Number_0) || is_nan(b->Number_0))
                    ==> !equal
                &&& a is Number && a == b && !is_nan(a->Number_0) ==> equal
            },
{
    lemma_comes_to(s, f, OpCode::Equal);
    assert(s.step(input.number, input.texts) == s.equal()) by {
        reveal(VmState::step);
    }
    let equal = crate::value::equal_values(a, b);
    lemma_goes_on(s, replacing(s.stack, 2, Value::Bool(equal)), 1);
    if a is Number && b is Number {
        assert forall|x: int, y: int| #[trigger] stands_for(a->Number_0, x) && #[trigger] stands_for(
            b->Number_0,
            y,
        ) implies equal == (x == y) by {
            law_whole_numbers_are_ordered(a->Number_0, b->Number_0, x, y);
        }
    }
    assert(s.step(input.number, input.texts) == Outcome::Next(
        goes_on(s, replacing(s.stack, 2, Value::Bool(equal)), 1),
    ));
}

/// `<` and `>` compare the lower number with the upper one.
pub proof fn law_comparison(
    s: VmState,
    f: Function,
    op: OpCode,
    input: Input,
    a: u64,
    b: u64,
    x: int,
    y: int,
)
    requires
        op is Less || op is Greater,
        comes_to(s, f, op),
        2 <= s.stack.len() <= STACK_MAX,
        below(s.stack, 1) == Value::Number(a),
        below(s.stack, 0) == Value::Number(b),
    ensures
        stands_for(a, x) && stands_for(b, y) ==> s.step(input.number, input.texts)
            == Outcome::Next(
            goes_on(
                s,
                replacing(
                    s.stack,
                    2,
                    Value::Bool(
                        if op is Less {
                            x < y
                        } else {
                            x > y
                        },
                    ),
                ),
                1,
            ),
        ),
        is_nan(a) || is_nan(b) ==> s.step(input.number, input.texts) == Outcome::Next(
            goes_on(s, replacing(s.stack, 2, Value::Bool(false)), 1),
        ),
{
    lemma_comes_to(s, f, op);
    assert(op is Less ==> s.step(input.number, input.texts) == s.compare(false)) by {
        reveal(VmState::step);
    }
    assert(op is Greater ==> s.step(input.number, input.texts) == s.compare(true)) by {
        reveal(VmState::step);
    }
    lemma_goes_on(s, replacing(s.stack, 2, Value::Bool(true)), 1);
    lemma_goes_on(s, replacing(s.stack, 2, Value::Bool(false)), 1);
    if stands_for(a, x) && stands_for(b, y) {
        law_whole_numbers_are_ordered(a, b, x, y);
        law_whole_numbers_are_ordered(b, a, y, x);
    }
}

/// `!` is true of `nil` and `false`, and of nothing else; `-` takes a number.
pub proof fn law_prefix_operators(s: VmState, f: Function, op: OpCode, input: Input)
    requires
        op is Not || op is Negate,
        comes_to(s, f, op),
        1 <= s.stack.len() <= STACK_MAX,
    ensures
        op is Not ==> s.step(input.number, input.texts) == Outcome::Next(
            goes_on(
                s,
                s.stack.update(
                    s.stack.len() - 1,
                    Value::Bool(s.stack.last() is Nil || s.stack.last() == Value::Bool(false)),
                ),
                1,
            ),
        ),
        op is Negate && !(s.stack.last() is Number) ==> s.step(input.number, input.texts)
            == Outcome::Fails(Fault::Message("Operand must be a number.")),
        op is Negate ==> (s.stack.last() matches Value::Number(bits) ==> exists|opposite: u64|
            s.step(input.number, input.texts) == Outcome::Next(
                #[trigger] goes_on(
                    s,
                    s.stack.update(s.stack.len() - 1, Value::Number(opposite)),
                    1,
                ),
            ) && opposite % 0x8000_0000_0000_0000 == bits % 0x8000_0000_0000_0000 && opposite
                != bits),
{
    lemma_comes_to(s, f, op);
    assert(op is Not ==> s.step(input.number, input.texts) == s.not()) by {
        reveal(VmState::step);
    }
    assert(op is Negate ==> s.step(input.number, input.texts) == s.negate()) by {
        reveal(VmState::step);
    }
    let value = s.stack.last();
    let falsy = Value::Bool(value is Nil || value == Value::Bool(false));
    assert(replacing(s.stack, 1, falsy) =~= s.stack.update(s.stack.len() - 1, falsy));
    lemma_goes_on(s, replacing(s.stack, 1, falsy), 1);
    if let Value::Number(bits) = value {
        let opposite = Value::Number(crate::number::negated(bits));
        assert(replacing(s.stack, 1, opposite) =~= s.stack.update(s.stack.len() - 1, opposite));
        lemma_goes_on(s, replacing(s.stack, 1, opposite), 1);
    }
}

/// A jump goes on behind its operand, as many bytes further as that says; a
/// jump on false does so where the top value is `nil` or `false`, and leaves
/// it; a loop goes that many bytes back.
pub proof fn law_jumps(s: VmState, f: Function, op: OpCode, input: Input)
    requires
        op is Jump || op is JumpIfFalse || op is Loop,
        comes_to(s, f, op),
        has_operand(s, f, 2),
        op is JumpIfFalse ==> s.stack.len() > 0,
        s.frames.last().ip + 3 + wide_operand(s, f, 1) <= usize::MAX,
        op is Loop ==> wide_operand(s, f, 1) <= s.frames.last().ip + 3,
    ensures
        op is Jump ==> s.step(input.number, input.texts) == Outcome::Next(
            goes_on(s, s.stack, 3 + wide_operand(s, f, 1)),
        ),
        op is JumpIfFalse && (s.stack.last() is Nil || s.stack.last() == Value::Bool(false))
            ==> s.step(input.number, input.texts) == Outcome::Next(
            goes_on(s, s.stack, 3 + wide_operand(s, f, 1)),
        ),
        op is JumpIfFalse && !(s.stack.last() is Nil || s.stack.last() == Value::Bool(false))
            ==> s.step(input.number, input.texts) == Outcome::Next(goes_on(s, s.stack, 3)),
        op is Loop ==> s.step(input.number, input.texts) == Outcome::Next(
            goes_on(s, s.stack, 3 - wide_operand(s, f, 1)),
        ),
{
    lemma_comes_to(s, f, op);
    assert(op is Jump ==> s.step(input.number, input.texts) == s.jump(true)) by {
        reveal(VmState::step);
    }
    assert(op is JumpIfFalse ==> s.step(input.number, input.texts) == s.jump_if_false()) by {
        reveal(VmState::step);
    }
    assert(op is Loop ==> s.step(input.number, input.texts) == s.jump_back()) by {
        reveal(VmState::step);
    }
    assert(s.arg(1) == Some(f.chunk.code@[s.frames.last().ip + 1]));
    assert(s.arg(2) == Some(f.chunk.code@[s.frames.last().ip + 2]));
    lemma_goes_on(s, s.stack, 3);
    lemma_goes_on(s, s.stack, 3 + wide_operand(s, f, 1));
    assert(s.with_stack(s.stack) == s);
    if op is Loop {
        let t = goes_on(s, s.stack, 3 - wide_operand(s, f, 1));
        assert(s.at_ip((s.frames.last().ip + 3 - wide_operand(s, f, 1)) as usize).frames
            =~= t.frames);
    }
}

/// `print` shows the top value and takes it off the stack.
pub proof fn law_printing(s: VmState, f: Function, input: Input)
    requires
        comes_to(s, f, OpCode::Print),
        s.stack.len() > 0,
    ensures
        s.step(input.number, input.texts) == Outcome::Printed(
            goes_on(s, s.stack.drop_last(), 1),
            shown(s.heap, input.texts, s.stack.last()),
        ),
{
    lemma_comes_to(s, f, OpCode::Print);
    assert(s.step(input.number, input.texts) == s.print(input.texts)) by {
        reveal(VmState::step);
    }
    lemma_goes_on(s, s.stack.drop_last(), 1);
    assert(s.stack.take(s.stack.len() - 1) =~= s.stack.drop_last());
}

/// A call of a closure begins at the first instruction of its function, with
/// the callee and the arguments as its first slots, in a call of its own. The
/// caller goes on behind the call. The number of arguments must be right, and
/// only so many calls can be under way.
pub proof fn law_calls_of_closures(
    s: VmState,
    f: Function,
    input: Input,
    closure: usize,
    callee: Function,
)
    requires
        comes_to(s, f, OpCode::Call),
        has_operand(s, f, 1),
        operand(s, f, 1) < s.stack.len() <= usize::MAX,
        below(s.stack, operand(s, f, 1)) == Value::Obj(closure),
        s.heap.get(closure) matches Content::Closure { function, upvalues: _ } && s.heap.get(
            function,
        ) == Content::Function(callee),
        s.frames.last().ip < f.chunk.spans@.len(),
    ensures
        operand(s, f, 1) != callee.arity ==> s.step(input.number, input.texts) == Outcome::Fails(
            Fault::WrongArity { expected: callee.arity, got: operand(s, f, 1) as usize },
        ),
        operand(s, f, 1) == callee.arity && s.frames.len() >= FRAMES_MAX ==> s.step(
            input.number,
            input.texts,
        ) == Outcome::Fails(Fault::Message("Stack overflow.")),
        operand(s, f, 1) == callee.arity && s.frames.len() < FRAMES_MAX ==> (s.step(
            input.number,
            input.texts,
        ) matches Outcome::Next(t) && {
            let called = t.frames.last();
            &&& t.stack == s.stack
            &&& t.heap == s.heap
            &&& t.frames.len() == s.frames.len() + 1
            &&& t.frames.drop_last() == goes_on(s, s.stack, 2).frames
            &&& called.closure == closure
            &&& called.ip == 0
            &&& t.stack[called.base as int] == Value::Obj(closure)
            &&& called.base == s.stack.len() - 1 - callee.arity
            &&& called.activation_id == ActivationId(s.next_activation)
            &&& called.call_site == Some(f.chunk.spans@[s.frames.last().ip as int])
            &&& called.call_site_offset == Some(s.frames.last().ip)
            &&& s.next_activation < u64::MAX ==> t.next_activation == s.next_activation + 1
        }),
{
    lemma_comes_to(s, f, OpCode::Call);
    assert(s.step(input.number, input.texts) == s.call_op(input.number)) by {
        reveal(VmState::step);
    }
    assert(s.arg(1) == Some(f.chunk.code@[s.frames.last().ip + 1]));
    lemma_goes_on(s, s.stack, 2);
    assert(s.with_stack(s.stack) == s);
    if operand(s, f, 1) == callee.arity && s.frames.len() < FRAMES_MAX {
        let t = s.call(closure, callee.arity as int, 2)->Next_0;
        assert(t.frames.drop_last() =~= goes_on(s, s.stack, 2).frames);
    }
}

/// What is neither a function nor a class cannot be called.
pub proof fn law_other_values_cannot_be_called(s: VmState, f: Function, input: Input)
    requires
        comes_to(s, f, OpCode::Call),
        has_operand(s, f, 1),
        operand(s, f, 1) < s.stack.len(),
        below(s.stack, operand(s, f, 1)) matches Value::Obj(object) ==> (s.heap.get(object) is Text
            || s.heap.get(object) is List),
    ensures
        s.step(input.number, input.texts) == Outcome::Fails(
            Fault::Message("Can only call functions and classes."),
        ),
{
    lemma_comes_to(s, f, OpCode::Call);
    assert(s.step(input.number, input.texts) == s.call_op(input.number)) by {
        reveal(VmState::step);
    }
    assert(s.arg(1) == Some(f.chunk.code@[s.frames.last().ip + 1]));
}

/// A call of the clock leaves the time that it gives, in place of the callee
/// and the arguments.
pub proof fn law_the_clock_tells_the_time<A: Arithmetic>(
    arithmetic: A,
    s: VmState,
    f: Function,
    input: Input,
    native: usize,
)
    requires
        comes_to(s, f, OpCode::Call),
        has_operand(s, f, 1),
        operand(s, f, 1) < s.stack.len() <= STACK_MAX,
        below(s.stack, operand(s, f, 1)) == Value::Obj(native),
        s.heap.get(native) is Native,
        answers(arithmetic, s, input),
    ensures
        call_ensures(A::clock, (&arithmetic,), input.number),
        s.step(input.number, input.texts) == Outcome::Next(
            goes_on(
                s,
                replacing(s.stack, operand(s, f, 1) + 1, Value::Number(input.number)),
                2,
            ),
        ),
{
    lemma_comes_to(s, f, OpCode::Call);
    assert(s.step(input.number, input.texts) == s.call_op(input.number)) by {
        reveal(VmState::step);
    }
    assert(s.arg(1) == Some(f.chunk.code@[s.frames.last().ip + 1]));
    assert(s.callee() == Some(Value::Obj(native)));
    lemma_goes_on(s, replacing(s.stack, operand(s, f, 1) + 1, Value::Number(input.number)), 2);
}

/// A return drops the slots of its call and leaves the value that was on top
/// to the caller, who goes on where the call was. The variables of the call
/// that are captured keep their values. The end of the script ends the program.
pub proof fn law_returns(s: VmState, f: Function, input: Input)
    requires
        comes_to(s, f, OpCode::Return),
        s.frames.last().base < s.stack.len(),
        in_order(s),
        forall|i: int|
            0 <= i < s.open.len() ==> s.open_slot(#[trigger] s.open[i]) < s.stack.len() - 1,
    ensures
        ({
            let base = s.frames.last().base as int;
            let o = s.step(input.number, input.texts);
            &&& s.frames.len() > 1 ==> (o matches Outcome::Next(t) && {
                &&& t.stack == s.stack.take(base).push(s.stack.last())
                &&& t.frames == s.frames.drop_last()
                &&& t.globals == s.globals
            })
            &&& s.frames.len() == 1 ==> (o matches Outcome::Complete(t) && {
                &&& t.stack == s.stack.take(base)
                &&& t.frames.len() == 0
                &&& t.globals == s.globals
            })
            &&& match o {
                Outcome::Next(t) | Outcome::Complete(t) => forall|i: int|
                    0 <= i < s.open.len() && s.open_slot(#[trigger] s.open[i]) >= base
                        ==> t.heap.get(s.open[i]) == Content::Upvalue(
                        UpvalueCell::Closed { value: s.stack[s.open_slot(s.open[i])] },
                    ),
                _ => false,
            }
        }),
{
    lemma_comes_to(s, f, OpCode::Return);
    assert(s.step(input.number, input.texts) == s.return_op()) by {
        reveal(VmState::step);
    }
    let base = s.frames.last().base as int;
    let d = s.dropped(1);
    assert forall|i: int| 0 <= i < d.open.len() implies d.open_slot(#[trigger] d.open[i])
        == s.open_slot(s.open[i]) && d.open_slot(d.open[i]) < d.stack.len() by {
        assert(d.open[i] == s.open[i]);
        assert(s.open_slot(s.open[i]) < s.stack.len() - 1);
    }
    assert(in_order(d)) by {
        assert forall|i: int, j: int| 0 <= i < j < d.open.len() implies d.open_slot(
            #[trigger] d.open[i],
        ) > d.open_slot(#[trigger] d.open[j]) by {
            assert(s.open_slot(s.open[i]) > s.open_slot(s.open[j]));
        }
    }
    law_closing_leaves_nothing_open_above(d, base);
    lemma_close_keeps(d, base);
    assert(d.stack.take(base) =~= s.stack.take(base));
    let t = d.closed_from(base);
    assert forall|i: int| 0 <= i < s.open.len() && s.open_slot(#[trigger] s.open[i]) >= base implies t.heap.get(
        s.open[i],
    ) == Content::Upvalue(UpvalueCell::Closed { value: s.stack[s.open_slot(s.open[i])] }) by {
        assert(d.open[i] == s.open[i]);
        assert(d.stack[d.open_slot(d.open[i])] == s.stack[s.open_slot(s.open[i])]);
    }
}

/// The end of the scope of a captured variable takes it off the stack, and the
/// captured variable keeps its value.
pub proof fn law_closing_a_variable(s: VmState, f: Function, input: Input)
    requires
        comes_to(s, f, OpCode::CloseUpvalue),
        s.stack.len() > 0,
        in_order(s),
        forall|i: int|
            0 <= i < s.open.len() ==> s.open_slot(#[trigger] s.open[i]) < s.stack.len(),
    ensures
        s.step(input.number, input.texts) matches Outcome::Next(t) && {
            &&& t.stack == s.stack.drop_last()
            &&& t.frames == goes_on(s, t.stack, 1).frames
            &&& forall|i: int|
                0 <= i < s.open.len() && s.open_slot(#[trigger] s.open[i]) == s.stack.len() - 1
                    ==> t.heap.get(s.open[i]) == Content::Upvalue(
                    UpvalueCell::Closed { value: s.stack.last() },
                )
        },
{
    lemma_comes_to(s, f, OpCode::CloseUpvalue);
    assert(s.step(input.number, input.texts) == s.close_upvalue()) by {
        reveal(VmState::step);
    }
    let last = s.stack.len() - 1;
    law_closing_leaves_nothing_open_above(s, last);
    lemma_close_keeps(s, last);
    let t = s.closed_from(last);
    assert(t.stack.take(t.stack.len() - 1) =~= s.stack.drop_last());
    lemma_goes_on(t, s.stack.drop_last(), 1);
}

/// A closure without captured variables is made of the function that the
/// operand names.
pub proof fn law_closures_are_of_their_function(
    s: VmState,
    f: Function,
    input: Input,
    function: usize,
    inner: Function,
)
    requires
        comes_to(s, f, OpCode::Closure),
        has_operand(s, f, 1),
        operand(s, f, 1) < f.chunk.constants@.len(),
        f.chunk.constants@[operand(s, f, 1)] == Value::Obj(function),
        s.heap.get(function) == Content::Function(inner),
        inner.upvalue_count == 0,
        s.stack.len() < STACK_MAX,
        s.heap.objects.len() < usize::MAX,
    ensures
        s.step(input.number, input.texts) matches Outcome::Next(t) && {
            &&& t.stack == s.stack.push(Value::Obj(s.heap.objects.len() as usize))
            &&& t.heap.get(s.heap.objects.len() as usize) == (Content::Closure {
                function,
                upvalues: Seq::empty(),
            })
            &&& t.frames == goes_on(s, t.stack, 2).frames
            &&& t.heap.objects.drop_last() == s.heap.objects
        },
{
    lemma_comes_to(s, f, OpCode::Closure);
    assert(s.step(input.number, input.texts) == s.closure(s.byte_arg(), 2)) by {
        reveal(VmState::step);
    }
    assert(s.arg(1) == Some(f.chunk.code@[s.frames.last().ip + 1]));
    let operands = s.captures(s.own_cells(), 0, 2)->0;
    assert(operands.len() == 0);
    let made = s.allocated(Content::Closure { function, upvalues: Seq::empty() });
    let stack = s.stack.push(Value::Obj(s.heap.next()));
    assert(s.stack.take(s.stack.len() as int) =~= s.stack);
    lemma_goes_on(made, stack, 2);
    assert(made.heap.objects.drop_last() =~= s.heap.objects);
}

/// A closure that captures one variable of the running function shares it: the
/// captured variable is the stack slot above the base of the call, or, where
/// the operand says so, a captured variable of the running closure.
pub proof fn law_closures_capture(
    s: VmState,
    f: Function,
    input: Input,
    function: usize,
    inner: Function,
    own: Seq<usize>,
)
    requires
        comes_to(s, f, OpCode::Closure),
        has_operand(s, f, 3),
        operand(s, f, 1) < f.chunk.constants@.len(),
        f.chunk.constants@[operand(s, f, 1)] == Value::Obj(function),
        s.heap.get(function) == Content::Function(inner),
        inner.upvalue_count == 1,
        s.stack.len() < STACK_MAX,
        s.heap.objects.len() + 2 < usize::MAX,
        s.heap.get(s.frames.last().closure) matches Content::Closure { function: _, upvalues }
            && upvalues == own,
        operand(s, f, 2) == 1 || operand(s, f, 3) < own.len(),
        s.frames.last().base + operand(s, f, 3) <= usize::MAX,
        in_order(s),
    ensures
        s.step(input.number, input.texts) matches Outcome::Next(t) && {
            &&& t.stack.drop_last() == s.stack
            &&& t.frames == goes_on(s, t.stack, 4).frames
            &&& t.stack.last() matches Value::Obj(object) && t.heap.get(object) matches
                Content::Closure { function: made, upvalues: cells } && {
                &&& made == function
                &&& cells.len() == 1
                &&& operand(s, f, 2) == 1 ==> t.heap.get(cells[0]) == Content::Upvalue(
                    UpvalueCell::Open {
                        slot: (s.frames.last().base + operand(s, f, 3)) as usize,
                    },
                ) && t.open.contains(cells[0])
                &&& operand(s, f, 2) != 1 ==> cells[0] == own[operand(s, f, 3)]
            }
        },
{
    lemma_comes_to(s, f, OpCode::Closure);
    assert(s.step(input.number, input.texts) == s.closure(s.byte_arg(), 2)) by {
        reveal(VmState::step);
    }
    let ip = s.frames.last().ip;
    assert(s.arg(1) == Some(f.chunk.code@[ip + 1]));
    assert(s.arg(2) == Some(f.chunk.code@[ip + 2]));
    assert(s.arg(3) == Some(f.chunk.code@[ip + 3]));
    assert(s.own_cells() == own);
    assert forall|i: int| 0 <= i < 1 implies (#[trigger] s.arg(2 + 2 * i)) is Some
        && s.capture_fits(own, i, 2) by {
        assert(i == 0);
    }
    let operands = s.captures(own, 1, 2)->0;
    assert(operands.len() == 1);
    assert(operands[0] == (s.arg(2) == Some(1u8), s.arg(3)->0));
    let base = s.frames.last().base;
    let slot = (base + operand(s, f, 3)) as usize;
    let (next, cells) = s.capture_all(operands, own, 0, Seq::empty());
    if operands[0].0 {
        law_capturing_is_by_slot(s, slot);
        let (after, cell) = s.captured(slot);
        assert(cells =~= seq![cell]) by {
            reveal_with_fuel(VmState::capture_all, 2);
        }
        assert(next == after) by {
            reveal_with_fuel(VmState::capture_all, 2);
        }
    } else {
        assert(cells =~= seq![own[operand(s, f, 3)]] && next == s) by {
            reveal_with_fuel(VmState::capture_all, 2);
        }
    }
    let made = next.allocated(Content::Closure { function, upvalues: cells });
    let stack = s.stack.push(Value::Obj(next.heap.next()));
    assert(s.stack.take(s.stack.len() as int) =~= s.stack);
    lemma_goes_on(made, stack, 4);
    assert(stack.drop_last() =~= s.stack);
}

/// Nothing can be pushed on a full stack.
pub proof fn law_full_stacks_overflow(s: VmState, f: Function, op: OpCode, input: Input)
    requires
        op is Nil || op is True || op is False || op is Dup,
        comes_to(s, f, op),
        s.stack.len() >= STACK_MAX,
    ensures
        s.step(input.number, input.texts) == Outcome::Fails(Fault::Message("Stack overflow.")),
{
    lemma_comes_to(s, f, op);
    reveal(VmState::step);
}

/// An instruction without its operand is not carried out.
pub proof fn law_broken_code_is_not_run(s: VmState, f: Function, op: OpCode, input: Input)
    requires
        op is Constant || op is GetLocal || op is SetLocal || op is Call || op is BuildList,
        comes_to(s, f, op),
        !has_operand(s, f, 1),
    ensures
        s.step(input.number, input.texts) is Fails,
{
    lemma_comes_to(s, f, op);
    assert(s.arg(1) is None);
    reveal(VmState::step);
}

} // verus!
