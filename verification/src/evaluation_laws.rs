//! That the machine works off an expression by the tree that it was written as.
use vstd::prelude::*;
use crate::chunk::{byte_of, OpCode};
use crate::grammar::{codes, composes, loads, operation, Scope, Tree};
use crate::instruction_laws::{
    below, comes_to, goes_on, has_operand, law_arithmetic_is_that_of_the_instruction,
    law_prefix_operators, law_pushing, lemma_comes_to, lemma_goes_on, operand, replacing,
};
use crate::interpreter::{answered, answers, lemma_played, reaches};
use crate::machine::{ArithmeticOp, Input, Outcome, VmState, STACK_MAX};
use crate::number::number_equal;
use crate::object::{Content, Function};
use crate::runtime_host::Arithmetic;
use crate::scanner::TokenType;
use crate::value::Value;

verus! {

/// An expression of numbers, signs and the five operations of arithmetic.
pub open spec fn is_numeric(tree: Tree) -> bool
    decreases tree,
{
    match tree {
        Tree::Number(_) => true,
        Tree::Group(inner) => is_numeric(*inner),
        Tree::Unary(kind, operand) => kind is Minus && is_numeric(*operand),
        Tree::Binary(kind, left, right) => meaning(kind) is Some && is_numeric(*left)
            && is_numeric(*right),
        _ => false,
    }
}

/// What is asked of the arithmetic for an operator.
pub open spec fn meaning(kind: TokenType) -> Option<ArithmeticOp> {
    match kind {
        TokenType::Plus => Some(ArithmeticOp::Add),
        TokenType::Minus => Some(ArithmeticOp::Subtract),
        TokenType::Star => Some(ArithmeticOp::Multiply),
        TokenType::Slash => Some(ArithmeticOp::Divide),
        TokenType::Backslash => Some(ArithmeticOp::IntDivide),
        _ => None,
    }
}

/// Two numbers that differ in their sign.
pub open spec fn opposites(a: u64, b: u64) -> bool {
    a % 0x8000_0000_0000_0000 == b % 0x8000_0000_0000_0000 && a != b
}

/// The arithmetic gives a number for an operator and the numbers of its
/// operands, the left one first.
pub open spec fn gives<A: Arithmetic>(
    arithmetic: A,
    kind: TokenType,
    left: u64,
    right: u64,
    number: u64,
) -> bool {
    meaning(kind) matches Some(op) && call_ensures(
        A::compute,
        (&arithmetic, op, left, right),
        number,
    )
}

/// The number that an expression stands for: a number itself, or what the
/// operator that joins it makes of what its operands stand for.
pub open spec fn stands_for_number<A: Arithmetic>(arithmetic: A, tree: Tree, number: u64) -> bool
    decreases tree,
{
    match tree {
        Tree::Number(bits) => number == bits || number_equal(number, bits),
        Tree::Group(inner) => stands_for_number(arithmetic, *inner, number),
        Tree::Unary(_, operand) => exists|x: u64| #[trigger]
            opposites(x, number) && stands_for_number(arithmetic, *operand, x),
        Tree::Binary(kind, left, right) => exists|x: u64, y: u64| #[trigger]
            gives(arithmetic, kind, x, y, number) && stands_for_number(arithmetic, *left, x)
                && stands_for_number(arithmetic, *right, y),
        _ => false,
    }
}

/// How many instructions an expression takes.
pub open spec fn steps(tree: Tree) -> nat
    decreases tree,
{
    match tree {
        Tree::Group(inner) => steps(*inner),
        Tree::Unary(_, operand) => steps(*operand) + 1,
        Tree::Binary(_, left, right) => steps(*left) + steps(*right) + 1,
        _ => 1,
    }
}

/// How much of the stack an expression takes.
pub open spec fn height(tree: Tree) -> nat
    decreases tree,
{
    match tree {
        Tree::Group(inner) => height(*inner),
        Tree::Unary(_, operand) => height(*operand),
        Tree::Binary(_, left, right) => if height(*left) > height(*right) + 1 {
            height(*left)
        } else {
            height(*right) + 1
        },
        _ => 1,
    }
}

proof fn lemma_height(tree: Tree)
    ensures
        height(tree) >= 1,
    decreases tree,
{
    match tree {
        Tree::Group(inner) => {
            lemma_height(*inner);
        },
        Tree::Unary(_, operand) => {
            lemma_height(*operand);
        },
        _ => {},
    }
}

/// The running function is `f`, and the code that comes next is `code`.
pub open spec fn comes_to_code(s: VmState, f: Function, code: Seq<u8>) -> bool {
    &&& s.frames.len() > 0
    &&& s.heap.get(s.frames.last().closure) matches Content::Closure { function, upvalues }
        && s.heap.get(function) == Content::Function(f)
    &&& s.frames.last().ip + code.len() <= f.chunk.code@.len()
    &&& f.chunk.code@.subrange(s.frames.last().ip as int, s.frames.last().ip + code.len()) == code
}

/// Code in two parts is come to part by part.
proof fn lemma_parts(s: VmState, f: Function, a: Seq<u8>, b: Seq<u8>, stack: Seq<Value>)
    requires
        comes_to_code(s, f, a + b),
    ensures
        comes_to_code(s, f, a),
        comes_to_code(goes_on(s, stack, a.len() as int), f, b),
{
    let ip = s.frames.last().ip as int;
    let all = f.chunk.code@.subrange(ip, ip + (a + b).len());
    assert(f.chunk.code@.len() == f.chunk.code.len());
    assert(f.chunk.code@.subrange(ip, ip + a.len()) =~= a) by {
        assert(all.take(a.len() as int) =~= a);
        assert forall|i: int| 0 <= i < a.len() implies f.chunk.code@.subrange(
            ip,
            ip + a.len(),
        )[i] == a[i] by {
            assert(all[i] == (a + b)[i]);
        }
    }
    assert(f.chunk.code@.subrange(ip + a.len(), ip + a.len() + b.len()) =~= b) by {
        assert forall|i: int| 0 <= i < b.len() implies f.chunk.code@.subrange(
            ip + a.len(),
            ip + a.len() + b.len(),
        )[i] == b[i] by {
            assert(all[a.len() + i] == (a + b)[a.len() + i]);
        }
    }
}

proof fn lemma_first(s: VmState, f: Function, code: Seq<u8>, op: OpCode)
    requires
        comes_to_code(s, f, code),
        code.len() > 0,
        code[0] == byte_of(op),
    ensures
        comes_to(s, f, op),
        forall|k: int| 0 <= k < code.len() ==> has_operand(s, f, k) && #[trigger] operand(s, f, k)
            == code[k],
{
    let ip = s.frames.last().ip as int;
    assert forall|k: int| 0 <= k < code.len() implies has_operand(s, f, k) && #[trigger] operand(
        s,
        f,
        k,
    ) == code[k] by {
        assert(f.chunk.code@.subrange(ip, ip + code.len())[k] == code[k]);
    }
    assert(operand(s, f, 0) == code[0]);
}

proof fn lemma_twice(s: VmState, a: Seq<Value>, n: int, b: Seq<Value>, m: int)
    requires
        s.frames.len() > 0,
        0 <= n,
        0 <= m,
        s.frames.last().ip + n + m <= usize::MAX,
    ensures
        goes_on(goes_on(s, a, n), b, m) == goes_on(s, b, n + m),
{
    assert(goes_on(goes_on(s, a, n), b, m).frames =~= goes_on(s, b, n + m).frames);
}

/// One more instruction of an execution.
proof fn lemma_step<A: Arithmetic>(
    arithmetic: A,
    start: VmState,
    inputs: Seq<Input>,
    k: int,
    s: VmState,
)
    requires
        answered(arithmetic, start, inputs),
        0 <= k < inputs.len(),
        reaches(start, inputs.take(k), s),
    ensures
        answers(arithmetic, s, inputs[k]),
        s.step(inputs[k].number, inputs[k].texts) matches Outcome::Next(t) ==> reaches(
            start,
            inputs.take(k + 1),
            t,
        ),
{
    lemma_played(start, inputs.take(k), s, inputs[k]);
    assert(inputs.take(k).push(inputs[k]) =~= inputs.take(k + 1));
}

/// A constant that is pushed, by a short or a long operand.
proof fn lemma_constant(
    s: VmState,
    f: Function,
    code: Seq<u8>,
    value: Value,
    input: Input,
) -> (found: Value)
    requires
        comes_to_code(s, f, code),
        loads(code, f.chunk.constants@, value),
        f.chunk.constants@.len() < 0x100_0000,
        s.stack.len() < STACK_MAX,
    ensures
        found == value || crate::value::equal_values(found, value),
        s.step(input.number, input.texts) == Outcome::Next(
            goes_on(s, s.stack.push(found), code.len() as int),
        ),
{
    let constants = f.chunk.constants@;
    let place = choose|place: int|
        0 <= place < constants.len() && (#[trigger] constants[place] == value
            || crate::value::equal_values(constants[place], value)) && if place < 256 {
            code == seq![byte_of(OpCode::Constant), place as u8]
        } else {
            code == seq![
                byte_of(OpCode::ConstantLong),
                (place % 256) as u8,
                (place / 256 % 256) as u8,
                (place / 65536 % 256) as u8,
            ]
        };
    let found = constants[place];
    if place < 256 {
        lemma_first(s, f, code, OpCode::Constant);
        assert(operand(s, f, 1) == code[1]);
        law_pushing(s, f, OpCode::Constant, input);
    } else {
        lemma_first(s, f, code, OpCode::ConstantLong);
        lemma_comes_to(s, f, OpCode::ConstantLong);
        assert(operand(s, f, 1) == code[1]);
        assert(operand(s, f, 2) == code[2]);
        assert(operand(s, f, 3) == code[3]);
        assert(s.arg(1) == Some(f.chunk.code@[s.frames.last().ip + 1]));
        assert(s.arg(2) == Some(f.chunk.code@[s.frames.last().ip + 2]));
        assert(s.arg(3) == Some(f.chunk.code@[s.frames.last().ip + 3]));
        crate::chunk::law_long_operands_round_trip(place);
        assert(s.long_arg(1) == Some(place));
        assert(s.step(input.number, input.texts) == s.load(s.constant_arg(s.long_arg(1)), 4)) by {
            reveal(VmState::step);
        }
        assert(s.stack.take(s.stack.len() as int) =~= s.stack);
        lemma_goes_on(s, s.stack.push(found), 4);
    }
    found
}

/// The code of an expression leaves the number that it stands for.
proof fn lemma_evaluates<A: Arithmetic>(
    arithmetic: A,
    start: VmState,
    inputs: Seq<Input>,
    k: int,
    s: VmState,
    f: Function,
    tree: Tree,
    code: Seq<u8>,
    scope: Scope,
) -> (number: u64)
    requires
        is_numeric(tree),
        answered(arithmetic, start, inputs),
        0 <= k,
        k + steps(tree) <= inputs.len(),
        reaches(start, inputs.take(k), s),
        comes_to_code(s, f, code),
        codes(tree, code, scope, f.chunk.constants@),
        f.chunk.constants@.len() < 0x100_0000,
        s.stack.len() + height(tree) <= STACK_MAX,
    ensures
        stands_for_number(arithmetic, tree, number),
        reaches(
            start,
            inputs.take(k + steps(tree)),
            goes_on(s, s.stack.push(Value::Number(number)), code.len() as int),
        ),
    decreases tree, 1int,
{
    assert(f.chunk.code@.len() == f.chunk.code.len());
    match tree {
        Tree::Number(bits) => {
            let found = lemma_constant(s, f, code, Value::Number(bits), inputs[k]);
            lemma_step(arithmetic, start, inputs, k, s);
            found->Number_0
        },
        Tree::Group(inner) => lemma_evaluates(
            arithmetic,
            start,
            inputs,
            k,
            s,
            f,
            *inner,
            code,
            scope,
        ),
        Tree::Unary(kind, operand) => {
            let a = choose|a: Seq<u8>| #[trigger]
                composes(tree, code, a, Seq::empty()) && codes(
                    *operand,
                    a,
                    scope,
                    f.chunk.constants@,
                );
            let tail = seq![byte_of(OpCode::Negate)];
            lemma_height(*operand);
            assert(code =~= a + tail);
            lemma_parts(s, f, a, tail, s.stack);
            let x = lemma_evaluates(arithmetic, start, inputs, k, s, f, *operand, a, scope);
            let stack = s.stack.push(Value::Number(x));
            let t = goes_on(s, stack, a.len() as int);
            lemma_parts(s, f, a, tail, stack);
            let j = k + steps(*operand);
            lemma_first(t, f, tail, OpCode::Negate);
            law_prefix_operators(t, f, OpCode::Negate, inputs[j]);
            lemma_step(arithmetic, start, inputs, j, t);
            let y = choose|y: u64|
                t.step(inputs[j].number, inputs[j].texts) == Outcome::Next(
                    #[trigger] goes_on(
                        t,
                        t.stack.update(t.stack.len() - 1, Value::Number(y)),
                        1,
                    ),
                ) && y % 0x8000_0000_0000_0000 == x % 0x8000_0000_0000_0000 && y != x;
            let last = s.stack.push(Value::Number(y));
            assert(t.stack.update(t.stack.len() - 1, Value::Number(y)) =~= last);
            lemma_twice(s, stack, a.len() as int, last, 1);
            assert(opposites(x, y));
            y
        },
        Tree::Binary(kind, left, right) => {
            let (a, b) = choose|a: Seq<u8>, b: Seq<u8>| #[trigger]
                composes(tree, code, a, b) && codes(*left, a, scope, f.chunk.constants@) && codes(
                    *right,
                    b,
                    scope,
                    f.chunk.constants@,
                );
            lemma_pair(arithmetic, start, inputs, k, s, f, tree, code, a, b, scope)
        },
        _ => 0,
    }
}

/// The two operands of an operator, and the operator.
proof fn lemma_pair<A: Arithmetic>(
    arithmetic: A,
    start: VmState,
    inputs: Seq<Input>,
    k: int,
    s: VmState,
    f: Function,
    tree: Tree,
    code: Seq<u8>,
    a: Seq<u8>,
    b: Seq<u8>,
    scope: Scope,
) -> (number: u64)
    requires
        tree is Binary,
        is_numeric(tree),
        answered(arithmetic, start, inputs),
        0 <= k,
        k + steps(tree) <= inputs.len(),
        reaches(start, inputs.take(k), s),
        comes_to_code(s, f, code),
        composes(tree, code, a, b),
        codes(*tree->Binary_1, a, scope, f.chunk.constants@),
        codes(*tree->Binary_2, b, scope, f.chunk.constants@),
        f.chunk.constants@.len() < 0x100_0000,
        s.stack.len() + height(tree) <= STACK_MAX,
    ensures
        stands_for_number(arithmetic, tree, number),
        reaches(
            start,
            inputs.take(k + steps(tree)),
            goes_on(s, s.stack.push(Value::Number(number)), code.len() as int),
        ),
    decreases tree, 0int,
{
    assert(f.chunk.code@.len() == f.chunk.code.len());
    let kind = tree->Binary_0;
    let left = *tree->Binary_1;
    let right = *tree->Binary_2;
    let tail = operation(kind);
    lemma_height(left);
    lemma_height(right);
    assert(code =~= a + (b + tail));
    lemma_parts(s, f, a, b + tail, s.stack);
    let x = lemma_evaluates(arithmetic, start, inputs, k, s, f, left, a, scope);
    let one = s.stack.push(Value::Number(x));
    let t = goes_on(s, one, a.len() as int);
    lemma_parts(s, f, a, b + tail, one);
    lemma_parts(t, f, b, tail, one);
    let i = k + steps(left);
    let y = lemma_evaluates(arithmetic, start, inputs, i, t, f, right, b, scope);
    let two = one.push(Value::Number(y));
    let u = goes_on(t, two, b.len() as int);
    lemma_parts(t, f, b, tail, two);
    let j = i + steps(right);
    let op = match kind {
        TokenType::Plus => OpCode::Add,
        TokenType::Minus => OpCode::Subtract,
        TokenType::Star => OpCode::Multiply,
        TokenType::Slash => OpCode::Divide,
        _ => OpCode::IntDivide,
    };
    assert(tail[0] == byte_of(op));
    lemma_first(u, f, tail, op);
    lemma_step(arithmetic, start, inputs, j, u);
    assert(below(u.stack, 1) == Value::Number(x));
    assert(below(u.stack, 0) == Value::Number(y));
    law_arithmetic_is_that_of_the_instruction(arithmetic, u, f, op, inputs[j], x, y);
    let number = inputs[j].number;
    let last = s.stack.push(Value::Number(number));
    assert(replacing(u.stack, 2, Value::Number(number)) =~= last);
    lemma_twice(t, two, b.len() as int, last, 1);
    lemma_twice(s, one, a.len() as int, last, b.len() as int + 1);
    assert(gives(arithmetic, kind, x, y, number));
    number
}

/// An expression of numbers, written by the grammar and made into code, leaves on
/// the stack the number that its tree stands for: each operator is worked off on
/// what its own operands stand for, so that a product in a sum is worked out
/// before the sum. Nothing else is changed.
pub proof fn law_expressions_evaluate_as_they_are_written<A: Arithmetic>(
    arithmetic: A,
    s: VmState,
    f: Function,
    inputs: Seq<Input>,
    tree: Tree,
    code: Seq<u8>,
    scope: Scope,
)
    requires
        is_numeric(tree),
        comes_to_code(s, f, code),
        codes(tree, code, scope, f.chunk.constants@),
        f.chunk.constants@.len() < 0x100_0000,
        s.stack.len() + height(tree) <= STACK_MAX,
        inputs.len() == steps(tree),
        answered(arithmetic, s, inputs),
    ensures
        exists|number: u64| #[trigger]
            stands_for_number(arithmetic, tree, number) && reaches(
                s,
                inputs,
                goes_on(s, s.stack.push(Value::Number(number)), code.len() as int),
            ),
{
    assert(inputs.take(0) =~= Seq::empty());
    assert(reaches(s, inputs.take(0), s));
    let number = lemma_evaluates(arithmetic, s, inputs, 0, s, f, tree, code, scope);
    assert(inputs.take(steps(tree) as int) =~= inputs);
    assert(stands_for_number(arithmetic, tree, number));
}

} // verus!
