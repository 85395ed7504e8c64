//! What each instruction does to the state of the machine.
use vstd::prelude::*;
use crate::chunk::{long_operand, op_of, short_operand, OpCode};
use crate::format::{shown, NumberTexts};
use crate::number::{count_bits, negated, number_less, stands_for, whole_magnitude, SIGN_BIT};
use crate::object::{Content, Function, HeapState, UpvalueCell};
use crate::session::ActivationId;
use crate::source::SourceSpan;
use crate::table::Key;
use crate::value::{equal_values, Value};

verus! {

pub const FRAMES_MAX: usize = 256;

pub const STACK_MAX: usize = 65_536;

/// A call under way: its closure, the next instruction, and where its slots
/// begin on the stack; the call that it came from, but for the script.
#[derive(Debug, Clone, Copy, PartialEq, Eq, Structural)]
pub struct CallFrame {
    pub closure: usize,
    pub ip: usize,
    pub base: usize,
    pub activation_id: ActivationId,
    pub call_site: Option<SourceSpan>,
    pub call_site_offset: Option<usize>,
}

/// Why a program cannot go on.
#[derive(Debug, Clone, Copy)]
pub enum Fault {
    Message(&'static str),
    WrongArity { expected: usize, got: usize },
    UndefinedVariable { name: usize },
    UndefinedProperty { name: usize },
    NoListMethod { name: usize },
}

/// An operation of floating-point arithmetic.
#[derive(Debug, Clone, Copy, PartialEq, Eq, Structural)]
pub enum ArithmeticOp {
    Add,
    Subtract,
    Multiply,
    Divide,
    /// A quotient without its fraction.
    IntDivide,
}

/// What an instruction needs from outside the machine.
#[derive(Debug, Clone, Copy, PartialEq, Eq, Structural)]
pub enum Request {
    Nothing,
    Compute { op: ArithmeticOp, left: u64, right: u64 },
    /// The time.
    Clock,
    /// The texts of the numbers in a value.
    Show { value: Value },
}

#[verifier::ext_equal]
pub ghost struct VmState {
    pub heap: HeapState,
    pub stack: Seq<Value>,
    pub frames: Seq<CallFrame>,
    pub globals: Map<Key, Value>,
    /// The open captured variables, those highest on the stack first.
    pub open: Seq<usize>,
    pub next_activation: u64,
    /// The string that names initializers.
    pub init: usize,
}

/// What one instruction leads to. A fault leaves the machine as it was.
pub ghost enum Outcome {
    Next(VmState),
    Printed(VmState, Seq<char>),
    Complete(VmState),
    Fails(Fault),
}

pub open spec fn malformed() -> Outcome {
    Outcome::Fails(Fault::Message("Malformed bytecode."))
}

pub open spec fn fails(message: &'static str) -> Outcome {
    Outcome::Fails(Fault::Message(message))
}

pub open spec fn plus(ip: usize, n: int) -> usize {
    if ip + n > usize::MAX {
        usize::MAX
    } else {
        (ip + n) as usize
    }
}

impl VmState {
    pub open spec fn frame(self) -> CallFrame {
        self.frames.last()
    }

    /// The function of a closure.
    pub open spec fn function_of(self, closure: usize) -> Option<Function> {
        match self.heap.get(closure) {
            Content::Closure { function, upvalues } => match self.heap.get(function) {
                Content::Function(f) => Some(f),
                _ => None,
            },
            _ => None,
        }
    }

    /// The function that is running.
    pub open spec fn running(self) -> Option<Function> {
        if self.frames.len() == 0 {
            None
        } else {
            self.function_of(self.frame().closure)
        }
    }

    /// The byte of code `k` places behind the next instruction.
    pub open spec fn arg(self, k: int) -> Option<u8> {
        match self.running() {
            Some(f) => if 0 <= k && self.frame().ip + k < f.chunk.code@.len() {
                Some(f.chunk.code@[self.frame().ip + k])
            } else {
                None
            },
            None => None,
        }
    }

    pub open spec fn short_arg(self, k: int) -> Option<int> {
        match (self.arg(k), self.arg(k + 1)) {
            (Some(low), Some(high)) => Some(short_operand(low, high)),
            _ => None,
        }
    }

    pub open spec fn long_arg(self, k: int) -> Option<int> {
        match (self.arg(k), self.arg(k + 1), self.arg(k + 2)) {
            (Some(low), Some(middle), Some(high)) => Some(long_operand(low, middle, high)),
            _ => None,
        }
    }

    pub open spec fn constant(self, index: int) -> Option<Value> {
        match self.running() {
            Some(f) => if 0 <= index < f.chunk.constants@.len() {
                Some(f.chunk.constants@[index])
            } else {
                None
            },
            None => None,
        }
    }

    /// The name that the byte operand `k` names.
    pub open spec fn name_arg(self, k: int) -> Option<Key> {
        match self.arg(k) {
            Some(index) => match self.constant(index as int) {
                Some(Value::Obj(object)) => self.heap.key(object),
                _ => None,
            },
            None => None,
        }
    }

    /// The value `depth` places below the top of the stack.
    pub open spec fn top(self, depth: int) -> Option<Value> {
        if 0 <= depth < self.stack.len() {
            Some(self.stack[self.stack.len() - 1 - depth])
        } else {
            None
        }
    }

    pub open spec fn with_stack(self, stack: Seq<Value>) -> VmState {
        VmState { stack, ..self }
    }

    /// Without the top `n` values.
    pub open spec fn dropped(self, n: int) -> VmState {
        self.with_stack(self.stack.take(self.stack.len() - n))
    }

    pub open spec fn at_ip(self, ip: usize) -> VmState {
        VmState {
            frames: self.frames.update(
                self.frames.len() - 1,
                CallFrame { ip, ..self.frame() },
            ),
            ..self
        }
    }

    /// Behind an instruction of `n` bytes.
    pub open spec fn skipped(self, n: int) -> VmState {
        self.at_ip(plus(self.frame().ip, n))
    }

    /// Replaces the top `n` values by one, behind an instruction of `len` bytes.
    pub open spec fn result(self, n: int, value: Value, len: int) -> Outcome {
        if n > self.stack.len() {
            malformed()
        } else if self.stack.len() - n >= STACK_MAX {
            fails("Stack overflow.")
        } else {
            Outcome::Next(
                self.with_stack(self.stack.take(self.stack.len() - n).push(value)).skipped(len),
            )
        }
    }

    pub open spec fn load(self, value: Option<Value>, len: int) -> Outcome {
        match value {
            Some(value) => self.result(0, value, len),
            None => malformed(),
        }
    }

    /// The place of a slot of the running function on the stack.
    pub open spec fn slot(self, slot: int) -> int {
        self.frame().base + slot
    }

    pub open spec fn get_local(self, slot: Option<int>, len: int) -> Outcome {
        match slot {
            Some(slot) => if self.slot(slot) < self.stack.len() {
                self.result(0, self.stack[self.slot(slot)], len)
            } else {
                malformed()
            },
            None => malformed(),
        }
    }

    pub open spec fn set_local(self, slot: Option<int>, len: int) -> Outcome {
        match (slot, self.top(0)) {
            (Some(slot), Some(value)) => if self.slot(slot) < self.stack.len() {
                Outcome::Next(
                    self.with_stack(self.stack.update(self.slot(slot), value)).skipped(len),
                )
            } else {
                malformed()
            },
            _ => malformed(),
        }
    }

    pub open spec fn get_global(self) -> Outcome {
        match self.name_arg(1) {
            Some(key) => if self.globals.contains_key(key) {
                self.result(0, self.globals[key], 2)
            } else {
                Outcome::Fails(Fault::UndefinedVariable { name: key.object })
            },
            None => malformed(),
        }
    }

    pub open spec fn with_global(self, key: Key, value: Value) -> VmState {
        VmState { globals: self.globals.insert(key, value), ..self }
    }

    pub open spec fn define_global(self) -> Outcome {
        match (self.name_arg(1), self.top(0)) {
            (Some(key), Some(value)) => Outcome::Next(
                self.with_global(key, value).dropped(1).skipped(2),
            ),
            _ => malformed(),
        }
    }

    pub open spec fn set_global(self) -> Outcome {
        match (self.name_arg(1), self.top(0)) {
            (Some(key), Some(value)) => if self.globals.contains_key(key) {
                Outcome::Next(self.with_global(key, value).skipped(2))
            } else {
                Outcome::Fails(Fault::UndefinedVariable { name: key.object })
            },
            _ => malformed(),
        }
    }

    /// The captured variable that the byte operand names.
    pub open spec fn cell_arg(self) -> Option<usize> {
        match self.arg(1) {
            Some(index) => match self.heap.get(self.frame().closure) {
                Content::Closure { function, upvalues } => if index < upvalues.len() {
                    Some(upvalues[index as int])
                } else {
                    None
                },
                _ => None,
            },
            None => None,
        }
    }

    pub open spec fn get_upvalue(self) -> Outcome {
        match self.cell_arg() {
            Some(cell) => match self.heap.get(cell) {
                Content::Upvalue(UpvalueCell::Open { slot }) => if slot < self.stack.len() {
                    self.result(0, self.stack[slot as int], 2)
                } else {
                    malformed()
                },
                Content::Upvalue(UpvalueCell::Closed { value }) => self.result(0, value, 2),
                _ => malformed(),
            },
            None => malformed(),
        }
    }

    pub open spec fn with_content(self, object: usize, content: Content) -> VmState {
        VmState { heap: self.heap.replaced(object, content), ..self }
    }

    pub open spec fn set_upvalue(self) -> Outcome {
        match (self.cell_arg(), self.top(0)) {
            (Some(cell), Some(value)) => match self.heap.get(cell) {
                Content::Upvalue(UpvalueCell::Open { slot }) => if slot < self.stack.len() {
                    Outcome::Next(
                        self.with_stack(self.stack.update(slot as int, value)).skipped(2),
                    )
                } else {
                    malformed()
                },
                Content::Upvalue(UpvalueCell::Closed { value: _ }) => Outcome::Next(
                    self.with_content(
                        cell,
                        Content::Upvalue(UpvalueCell::Closed { value }),
                    ).skipped(2),
                ),
                _ => malformed(),
            },
            _ => malformed(),
        }
    }

    /// The state with one more object, which is what a result is.
    pub open spec fn allocated(self, content: Content) -> VmState {
        VmState { heap: self.heap.allocated(content), ..self }
    }

    pub open spec fn build_list(self, count: Option<int>, len: int) -> Outcome {
        match count {
            Some(n) => if n > self.stack.len() {
                malformed()
            } else {
                let items = self.stack.skip(self.stack.len() - n);
                self.allocated(Content::List(items)).result(n, Value::Obj(self.heap.next()), len)
            },
            None => malformed(),
        }
    }

    pub open spec fn items_of(self, value: Value) -> Option<Seq<Value>> {
        match value {
            Value::Obj(object) => match self.heap.get(object) {
                Content::List(items) => Some(items),
                _ => None,
            },
            _ => None,
        }
    }

    /// What is wrong with an index into a list, if anything.
    pub open spec fn index_fault(self, list: Value, index: Value) -> Option<Fault> {
        match (self.items_of(list), index) {
            (None, _) => Some(Fault::Message("Only lists can be subscripted.")),
            (Some(items), Value::Number(bits)) => if exists|n: int|
                0 <= n < items.len() && #[trigger] stands_for(bits, n) {
                None
            } else {
                Some(Fault::Message("List index out of bounds."))
            },
            _ => Some(Fault::Message("List index must be a number.")),
        }
    }

    pub open spec fn index_of(self, list: Value, index: Value) -> int {
        let items = self.items_of(list)->0;
        choose|n: int| 0 <= n < items.len() && #[trigger] stands_for(index->Number_0, n)
    }

    pub open spec fn get_index(self) -> Outcome {
        match (self.top(1), self.top(0)) {
            (Some(list), Some(index)) => match self.index_fault(list, index) {
                Some(fault) => Outcome::Fails(fault),
                None => self.result(
                    2,
                    self.items_of(list)->0[self.index_of(list, index)],
                    1,
                ),
            },
            _ => malformed(),
        }
    }

    pub open spec fn set_index(self) -> Outcome {
        match (self.top(2), self.top(1), self.top(0)) {
            (Some(list), Some(index), Some(value)) => match self.index_fault(list, index) {
                Some(fault) => Outcome::Fails(fault),
                None => self.with_content(
                    list->Obj_0,
                    Content::List(
                        self.items_of(list)->0.update(self.index_of(list, index), value),
                    ),
                ).result(3, value, 1),
            },
            _ => malformed(),
        }
    }

    pub open spec fn equal(self) -> Outcome {
        match (self.top(1), self.top(0)) {
            (Some(a), Some(b)) => self.result(2, Value::Bool(equal_values(a, b)), 1),
            _ => malformed(),
        }
    }

    pub open spec fn compare(self, greater: bool) -> Outcome {
        match (self.top(1), self.top(0)) {
            (Some(Value::Number(a)), Some(Value::Number(b))) => self.result(
                2,
                Value::Bool(
                    if greater {
                        number_less(b, a)
                    } else {
                        number_less(a, b)
                    },
                ),
                1,
            ),
            (Some(_), Some(_)) => fails("Operands must be numbers."),
            _ => malformed(),
        }
    }

    /// An operation on two numbers, whose result is given.
    pub open spec fn arithmetic(self, number: u64) -> Outcome {
        match (self.top(1), self.top(0)) {
            (Some(Value::Number(_)), Some(Value::Number(_))) => self.result(
                2,
                Value::Number(number),
                1,
            ),
            (Some(_), Some(_)) => fails("Operands must be numbers."),
            _ => malformed(),
        }
    }

    pub open spec fn text_of(self, value: Value) -> Option<Seq<char>> {
        match value {
            Value::Obj(object) => match self.heap.get(object) {
                Content::Text { text, hash } => Some(text),
                _ => None,
            },
            _ => None,
        }
    }

    /// Joins two strings or two lists, or adds two numbers, whose sum is given.
    pub open spec fn add(self, number: u64) -> Outcome {
        match (self.top(1), self.top(0)) {
            (Some(a), Some(b)) => match (self.text_of(a), self.text_of(b)) {
                (Some(left), Some(right)) => {
                    let joined = left + right;
                    VmState { heap: self.heap.with_text(joined), ..self }.result(
                        2,
                        Value::Obj(self.heap.text_object(joined)),
                        1,
                    )
                },
                _ => match (self.items_of(a), self.items_of(b)) {
                    (Some(left), Some(right)) => self.allocated(
                        Content::List(left + right),
                    ).result(2, Value::Obj(self.heap.next()), 1),
                    _ => if a is Number && b is Number {
                        self.result(2, Value::Number(number), 1)
                    } else {
                        fails("Operands must be two numbers or two strings.")
                    },
                },
            },
            _ => malformed(),
        }
    }

    /// Repeats a list, or multiplies two numbers, whose product is given.
    pub open spec fn multiply(self, number: u64) -> Outcome {
        match (self.top(1), self.top(0)) {
            (Some(list), Some(Value::Number(bits))) => match self.items_of(list) {
                Some(items) => if items.len() * repetitions(bits) > usize::MAX {
                    fails("List is too long.")
                } else {
                    self.allocated(Content::List(repeat(items, repetitions(bits)))).result(
                        2,
                        Value::Obj(self.heap.next()),
                        1,
                    )
                },
                None => self.arithmetic(number),
            },
            _ => self.arithmetic(number),
        }
    }

    pub open spec fn not(self) -> Outcome {
        match self.top(0) {
            Some(value) => self.result(1, Value::Bool(value.falsy()), 1),
            None => malformed(),
        }
    }

    pub open spec fn negate(self) -> Outcome {
        match self.top(0) {
            Some(Value::Number(bits)) => self.result(1, Value::Number(negated(bits)), 1),
            Some(_) => fails("Operand must be a number."),
            None => malformed(),
        }
    }

    pub open spec fn print(self, texts: NumberTexts) -> Outcome {
        match self.top(0) {
            Some(value) => Outcome::Printed(
                self.dropped(1).skipped(1),
                shown(self.heap, texts, value),
            ),
            None => malformed(),
        }
    }

    pub open spec fn pop(self) -> Outcome {
        if self.stack.len() == 0 {
            malformed()
        } else {
            Outcome::Next(self.dropped(1).skipped(1))
        }
    }

    pub open spec fn jump(self, taken: bool) -> Outcome {
        match self.short_arg(1) {
            Some(distance) => Outcome::Next(
                self.skipped(
                    if taken {
                        3 + distance
                    } else {
                        3
                    },
                ),
            ),
            None => malformed(),
        }
    }

    pub open spec fn jump_if_false(self) -> Outcome {
        match self.top(0) {
            Some(value) => self.jump(value.falsy()),
            None => malformed(),
        }
    }

    pub open spec fn jump_back(self) -> Outcome {
        match self.short_arg(1) {
            Some(distance) => if distance <= self.frame().ip + 3 {
                Outcome::Next(self.at_ip((self.frame().ip + 3 - distance) as usize))
            } else {
                malformed()
            },
            None => malformed(),
        }
    }

    /// The span of the instruction that is being executed.
    pub open spec fn current_span(self) -> Option<SourceSpan> {
        match self.running() {
            Some(f) => if self.frame().ip < f.chunk.spans@.len() {
                Some(f.chunk.spans@[self.frame().ip as int])
            } else {
                None
            },
            None => None,
        }
    }

    /// Calls a closure with the top `count` values; the instruction that
    /// calls is `len` bytes long.
    pub open spec fn call(self, closure: usize, count: int, len: int) -> Outcome {
        match (self.function_of(closure), self.current_span()) {
            (Some(f), Some(span)) => if count != f.arity {
                Outcome::Fails(Fault::WrongArity { expected: f.arity, got: count as usize })
            } else if self.frames.len() >= FRAMES_MAX {
                fails("Stack overflow.")
            } else if count + 1 > self.stack.len() {
                malformed()
            } else {
                let called = CallFrame {
                    closure,
                    ip: 0,
                    base: (self.stack.len() - count - 1) as usize,
                    activation_id: ActivationId(self.next_activation),
                    call_site: Some(span),
                    call_site_offset: Some(self.frame().ip),
                };
                let caller = self.skipped(len);
                Outcome::Next(
                    VmState {
                        frames: caller.frames.push(called),
                        next_activation: crate::parser::next_id(self.next_activation),
                        ..caller
                    },
                )
            },
            _ => malformed(),
        }
    }

    /// Puts a value in the place below the top `count` values.
    pub open spec fn with_receiver(self, count: int, value: Value) -> VmState {
        self.with_stack(self.stack.update(self.stack.len() - 1 - count, value))
    }

    /// Calls whatever the callee is. The time is given, for the clock.
    pub open spec fn call_value(self, callee: Value, count: int, len: int, number: u64) -> Outcome {
        if count + 1 > self.stack.len() {
            malformed()
        } else {
            match callee {
                Value::Obj(object) => match self.heap.get(object) {
                    Content::BoundMethod { receiver, method } => self.with_receiver(
                        count,
                        receiver,
                    ).call(method, count, len),
                    Content::Class { name, methods } => {
                        let made = self.allocated(
                            Content::Instance { class: object, fields: Map::empty() },
                        ).with_receiver(count, Value::Obj(self.heap.next()));
                        match self.heap.key(self.init) {
                            Some(key) => if methods.contains_key(key) {
                                made.call_method(methods[key], count, len)
                            } else if count != 0 {
                                Outcome::Fails(
                                    Fault::WrongArity { expected: 0, got: count as usize },
                                )
                            } else {
                                Outcome::Next(made.skipped(len))
                            },
                            None => malformed(),
                        }
                    },
                    Content::Closure { function, upvalues } => self.call(object, count, len),
                    Content::Native => self.result(count + 1, Value::Number(number), len),
                    _ => fails("Can only call functions and classes."),
                },
                _ => fails("Can only call functions and classes."),
            }
        }
    }

    pub open spec fn call_method(self, method: Value, count: int, len: int) -> Outcome {
        match method {
            Value::Obj(closure) => self.call(closure, count, len),
            _ => malformed(),
        }
    }

    pub open spec fn call_op(self, number: u64) -> Outcome {
        match self.arg(1) {
            Some(count) => match self.top(count as int) {
                Some(callee) => self.call_value(callee, count as int, 2, number),
                None => malformed(),
            },
            None => malformed(),
        }
    }

    /// The stack slot of an open captured variable.
    pub open spec fn open_slot(self, cell: usize) -> int {
        match self.heap.get(cell) {
            Content::Upvalue(UpvalueCell::Open { slot }) => slot as int,
            _ => -1,
        }
    }

    /// The first open captured variable from `i` on that is not above `slot`.
    pub open spec fn open_place(self, slot: int, i: int) -> int
        decreases self.open.len() - i,
    {
        if 0 <= i < self.open.len() && self.open_slot(self.open[i]) > slot {
            self.open_place(slot, i + 1)
        } else {
            i
        }
    }

    /// The state in which a stack slot is captured, and the object of it.
    pub open spec fn captured(self, slot: usize) -> (VmState, usize) {
        let place = self.open_place(slot as int, 0);
        if place < self.open.len() && self.open_slot(self.open[place]) == slot {
            (self, self.open[place])
        } else {
            let made = self.heap.next();
            (
                VmState {
                    heap: self.heap.allocated(Content::Upvalue(UpvalueCell::Open { slot })),
                    open: self.open.insert(place, made),
                    ..self
                },
                made,
            )
        }
    }

    /// Closes the captured variables at or above a stack slot.
    pub open spec fn closed_from(self, last: int) -> VmState
        decreases self.open.len(),
    {
        if self.open.len() > 0 && self.open_slot(self.open[0]) >= last && self.open_slot(
            self.open[0],
        ) < self.stack.len() && self.open_slot(self.open[0]) >= 0 {
            let cell = self.open[0];
            let value = self.stack[self.open_slot(cell)];
            VmState {
                heap: self.heap.replaced(
                    cell,
                    Content::Upvalue(UpvalueCell::Closed { value }),
                ),
                open: self.open.skip(1),
                ..self
            }.closed_from(last)
        } else {
            self
        }
    }

    /// What a closure captures: for each variable whether it is a slot of
    /// the running function, and which slot or captured variable it is. The
    /// bytes start `len` places behind the instruction.
    pub open spec fn captures(self, own: Seq<usize>, count: int, len: int) -> Option<
        Seq<(bool, u8)>,
    > {
        if forall|i: int|
            0 <= i < count ==> (#[trigger] self.arg(len + 2 * i)) is Some && self.capture_fits(
                own,
                i,
                len,
            ) {
            Some(
                Seq::new(
                    count as nat,
                    |i: int| (self.arg(len + 2 * i) == Some(1u8), self.arg(len + 2 * i + 1)->0),
                ),
            )
        } else {
            None
        }
    }

    pub open spec fn capture_fits(self, own: Seq<usize>, i: int, len: int) -> bool {
        match self.arg(len + 2 * i + 1) {
            Some(index) => self.arg(len + 2 * i) == Some(1u8) || index < own.len(),
            None => false,
        }
    }

    /// Captures variables, from the one numbered `i` on. Those that are not
    /// slots are among the running closure's own.
    pub open spec fn capture_all(
        self,
        operands: Seq<(bool, u8)>,
        own: Seq<usize>,
        i: int,
        cells: Seq<usize>,
    ) -> (VmState, Seq<usize>)
        decreases operands.len() - i,
    {
        if i < 0 || i >= operands.len() {
            (self, cells)
        } else if operands[i].0 {
            let (next, cell) = self.captured(plus(self.frame().base, operands[i].1 as int));
            next.capture_all(operands, own, i + 1, cells.push(cell))
        } else {
            self.capture_all(operands, own, i + 1, cells.push(own[operands[i].1 as int]))
        }
    }

    /// The captured variables of the running closure.
    pub open spec fn own_cells(self) -> Seq<usize> {
        match self.heap.get(self.frame().closure) {
            Content::Closure { function, upvalues } => upvalues,
            _ => Seq::empty(),
        }
    }

    pub open spec fn closure(self, constant: Option<int>, len: int) -> Outcome {
        match self.constant_arg(constant) {
            Some(Value::Obj(object)) => match self.heap.get(object) {
                Content::Function(f) => match self.captures(
                    self.own_cells(),
                    f.upvalue_count as int,
                    len,
                ) {
                    Some(operands) => {
                        let (next, cells) = self.capture_all(
                            operands,
                            self.own_cells(),
                            0,
                            Seq::empty(),
                        );
                        next.allocated(
                            Content::Closure { function: object, upvalues: cells },
                        ).result(0, Value::Obj(next.heap.next()), len + 2 * f.upvalue_count)
                    },
                    None => malformed(),
                },
                _ => malformed(),
            },
            _ => malformed(),
        }
    }

    pub open spec fn close_upvalue(self) -> Outcome {
        if self.stack.len() == 0 {
            malformed()
        } else {
            Outcome::Next(self.closed_from(self.stack.len() - 1).dropped(1).skipped(1))
        }
    }

    pub open spec fn return_op(self) -> Outcome {
        match self.top(0) {
            Some(value) => {
                let base = self.frame().base as int;
                let closed = self.dropped(1).closed_from(base);
                let left = VmState { frames: closed.frames.drop_last(), ..closed };
                if base >= self.stack.len() {
                    malformed()
                } else if left.frames.len() == 0 {
                    Outcome::Complete(left.with_stack(closed.stack.take(base)))
                } else {
                    Outcome::Next(left.with_stack(closed.stack.take(base).push(value)))
                }
            },
            None => malformed(),
        }
    }
}

impl VmState {
    /// The class of an instance, and its fields.
    pub open spec fn instance_of(self, value: Value) -> Option<(usize, Map<Key, Value>)> {
        match value {
            Value::Obj(object) => match self.heap.get(object) {
                Content::Instance { class, fields } => Some((class, fields)),
                _ => None,
            },
            _ => None,
        }
    }

    pub open spec fn methods_of(self, class: usize) -> Option<Map<Key, Value>> {
        match self.heap.get(class) {
            Content::Class { name, methods } => Some(methods),
            _ => None,
        }
    }

    /// Binds a method of a class to a receiver, in place of the top `n` values.
    pub open spec fn bind_method(self, class: usize, key: Key, receiver: Value, n: int) -> Outcome {
        match self.methods_of(class) {
            Some(methods) => if methods.contains_key(key) {
                match methods[key] {
                    Value::Obj(method) => self.allocated(
                        Content::BoundMethod { receiver, method },
                    ).result(n, Value::Obj(self.heap.next()), 2),
                    _ => malformed(),
                }
            } else {
                Outcome::Fails(Fault::UndefinedProperty { name: key.object })
            },
            None => malformed(),
        }
    }

    pub open spec fn get_property(self) -> Outcome {
        match (self.top(0), self.name_arg(1)) {
            (Some(value), Some(key)) => match self.instance_of(value) {
                Some((class, fields)) => if fields.contains_key(key) {
                    self.result(1, fields[key], 2)
                } else {
                    self.bind_method(class, key, value, 1)
                },
                None => fails("Only instances have properties."),
            },
            _ => malformed(),
        }
    }

    pub open spec fn set_property(self) -> Outcome {
        match (self.top(1), self.top(0), self.name_arg(1)) {
            (Some(target), Some(value), Some(key)) => match self.instance_of(target) {
                Some((class, fields)) => self.with_content(
                    target->Obj_0,
                    Content::Instance { class, fields: fields.insert(key, value) },
                ).result(2, value, 2),
                None => fails("Only instances have fields."),
            },
            _ => malformed(),
        }
    }

    pub open spec fn get_super(self) -> Outcome {
        match (self.top(1), self.top(0), self.name_arg(1)) {
            (Some(receiver), Some(Value::Obj(class)), Some(key)) => self.bind_method(
                class,
                key,
                receiver,
                2,
            ),
            _ => malformed(),
        }
    }

    pub open spec fn invoke_from_class(self, class: usize, key: Key, count: int) -> Outcome {
        match self.methods_of(class) {
            Some(methods) => if methods.contains_key(key) {
                self.call_method(methods[key], count, 3)
            } else {
                Outcome::Fails(Fault::UndefinedProperty { name: key.object })
            },
            None => malformed(),
        }
    }

    /// Calls a method of what lies below the top `count` values.
    pub open spec fn invoke(self, number: u64) -> Outcome {
        match (self.name_arg(1), self.arg(2)) {
            (Some(key), Some(count)) => match self.top(count as int) {
                Some(receiver) => match self.items_of(receiver) {
                    Some(items) => self.list_method(
                        receiver->Obj_0,
                        items,
                        self.text_of(Value::Obj(key.object))->0,
                        key,
                        count as int,
                    ),
                    None => match self.instance_of(receiver) {
                        Some((class, fields)) => if fields.contains_key(key) {
                            self.with_receiver(count as int, fields[key]).call_value(
                                fields[key],
                                count as int,
                                3,
                                number,
                            )
                        } else {
                            self.invoke_from_class(class, key, count as int)
                        },
                        None => fails("Only instances have methods."),
                    },
                },
                None => malformed(),
            },
            _ => malformed(),
        }
    }

    pub open spec fn super_invoke(self) -> Outcome {
        match (self.name_arg(1), self.arg(2), self.top(0)) {
            (Some(key), Some(count), Some(Value::Obj(class))) => self.dropped(1).invoke_from_class(
                class,
                key,
                count as int,
            ),
            _ => malformed(),
        }
    }

    /// The list with other items, and a result in place of the top `n` values.
    pub open spec fn list_result(
        self,
        list: usize,
        items: Seq<Value>,
        n: int,
        value: Value,
    ) -> Outcome {
        self.with_content(list, Content::List(items)).result(n, value, 3)
    }

    pub open spec fn list_append(self, list: usize, items: Seq<Value>, count: int) -> Outcome {
        if count != 1 {
            fails("append() takes 1 argument.")
        } else {
            self.list_result(list, items.push(self.top(0)->0), 2, Value::Nil)
        }
    }

    pub open spec fn list_pop(self, list: usize, items: Seq<Value>, count: int) -> Outcome {
        if count != 0 {
            fails("pop() takes 0 arguments.")
        } else if items.len() == 0 {
            self.list_result(list, items, 1, Value::Nil)
        } else {
            self.list_result(list, items.drop_last(), 1, items.last())
        }
    }

    pub open spec fn list_len(self, items: Seq<Value>, count: int) -> Outcome {
        if count != 0 {
            fails("len() takes 0 arguments.")
        } else if items.len() >= 0x20_0000_0000_0000 {
            fails("List is too long.")
        } else {
            self.result(1, Value::Number(count_bits(items.len() as int)), 3)
        }
    }

    pub open spec fn list_delete(self, list: usize, items: Seq<Value>, count: int) -> Outcome {
        if count != 1 {
            fails("delete() takes 1 argument.")
        } else {
            match self.top(0) {
                Some(Value::Number(bits)) => {
                    let index = delete_index(items.len() as int, bits);
                    if 0 <= index < items.len() {
                        self.list_result(list, items.remove(index), 2, Value::Nil)
                    } else {
                        fails("List index out of bounds.")
                    }
                },
                _ => fails("delete() index must be a number."),
            }
        }
    }

    pub open spec fn list_method(
        self,
        list: usize,
        items: Seq<Value>,
        name: Seq<char>,
        key: Key,
        count: int,
    ) -> Outcome {
        if name == "append"@ {
            self.list_append(list, items, count)
        } else if name == "pop"@ {
            self.list_pop(list, items, count)
        } else if name == "len"@ {
            self.list_len(items, count)
        } else if name == "delete"@ {
            self.list_delete(list, items, count)
        } else {
            Outcome::Fails(Fault::NoListMethod { name: key.object })
        }
    }

    pub open spec fn class(self) -> Outcome {
        match self.name_arg(1) {
            Some(key) => self.allocated(
                Content::Class { name: key.object, methods: Map::empty() },
            ).result(0, Value::Obj(self.heap.next()), 2),
            None => malformed(),
        }
    }

    pub open spec fn class_at(self, depth: int) -> Option<(usize, usize, Map<Key, Value>)> {
        match self.top(depth) {
            Some(Value::Obj(object)) => match self.heap.get(object) {
                Content::Class { name, methods } => Some((object, name, methods)),
                _ => None,
            },
            _ => None,
        }
    }

    pub open spec fn inherit(self) -> Outcome {
        match (self.top(1), self.class_at(1), self.class_at(0)) {
            (None, _, _) => malformed(),
            (_, None, _) => fails("Superclass must be a class."),
            (_, _, None) => malformed(),
            (_, Some((_, _, inherited)), Some((class, name, methods))) => Outcome::Next(
                self.with_content(
                    class,
                    Content::Class { name, methods: methods.union_prefer_right(inherited) },
                ).dropped(1).skipped(1),
            ),
        }
    }

    pub open spec fn method(self) -> Outcome {
        match (self.name_arg(1), self.top(0), self.class_at(1)) {
            (Some(key), Some(method), Some((class, name, methods))) => Outcome::Next(
                self.with_content(
                    class,
                    Content::Class { name, methods: methods.insert(key, method) },
                ).dropped(1).skipped(2),
            ),
            _ => malformed(),
        }
    }

    pub open spec fn byte_arg(self) -> Option<int> {
        match self.arg(1) {
            Some(byte) => Some(byte as int),
            None => None,
        }
    }

    pub open spec fn constant_arg(self, index: Option<int>) -> Option<Value> {
        match index {
            Some(index) => self.constant(index),
            None => None,
        }
    }

    /// The instruction that comes next.
    pub open spec fn next_op(self) -> Option<OpCode> {
        match self.arg(0) {
            Some(byte) => op_of(byte),
            None => None,
        }
    }

    pub open spec fn is_native(self, value: Value) -> bool {
        value matches Value::Obj(object) && self.heap.get(object) is Native
    }

    pub open spec fn compute(self, op: ArithmeticOp) -> Request {
        match (self.top(1), self.top(0)) {
            (Some(Value::Number(left)), Some(Value::Number(right))) => Request::Compute {
                op,
                left,
                right,
            },
            _ => Request::Nothing,
        }
    }

    /// What is called by an instruction that calls a value.
    pub open spec fn callee(self) -> Option<Value> {
        match (self.next_op(), self.arg(1), self.arg(2)) {
            (Some(OpCode::Call), Some(count), _) => self.top(count as int),
            (Some(OpCode::Invoke), _, Some(count)) => match (
                self.name_arg(1),
                self.top(count as int),
            ) {
                (Some(key), Some(receiver)) => match self.instance_of(receiver) {
                    Some((class, fields)) => if fields.contains_key(key) {
                        Some(fields[key])
                    } else {
                        None
                    },
                    None => None,
                },
                _ => None,
            },
            _ => None,
        }
    }

    /// What the next instruction needs from outside.
    pub open spec fn request(self) -> Request {
        match self.next_op() {
            Some(OpCode::Add) => self.compute(ArithmeticOp::Add),
            Some(OpCode::Subtract) => self.compute(ArithmeticOp::Subtract),
            Some(OpCode::Multiply) => self.compute(ArithmeticOp::Multiply),
            Some(OpCode::Divide) => self.compute(ArithmeticOp::Divide),
            Some(OpCode::IntDivide) => self.compute(ArithmeticOp::IntDivide),
            Some(OpCode::Print) => match self.top(0) {
                Some(value) => Request::Show { value },
                None => Request::Nothing,
            },
            _ => match self.callee() {
                Some(callee) => if self.is_native(callee) {
                    Request::Clock
                } else {
                    Request::Nothing
                },
                None => Request::Nothing,
            },
        }
    }

    /// What the next instruction does. A result that floating-point
    /// arithmetic or the clock gives is `number`; printed numbers have the
    /// given texts.
    #[verifier::opaque]
    pub open spec fn step(self, number: u64, texts: NumberTexts) -> Outcome {
        match self.next_op() {
            None => malformed(),
            Some(OpCode::Constant) => self.load(self.constant_arg(self.byte_arg()), 2),
            Some(OpCode::ConstantLong) => self.load(self.constant_arg(self.long_arg(1)), 4),
            Some(OpCode::Nil) => self.result(0, Value::Nil, 1),
            Some(OpCode::True) => self.result(0, Value::Bool(true), 1),
            Some(OpCode::False) => self.result(0, Value::Bool(false), 1),
            Some(OpCode::Pop) => self.pop(),
            Some(OpCode::Dup) => self.load(self.top(0), 1),
            Some(OpCode::GetLocal) => self.get_local(self.byte_arg(), 2),
            Some(OpCode::SetLocal) => self.set_local(self.byte_arg(), 2),
            Some(OpCode::GetLocalLong) => self.get_local(self.short_arg(1), 3),
            Some(OpCode::SetLocalLong) => self.set_local(self.short_arg(1), 3),
            Some(OpCode::GetGlobal) => self.get_global(),
            Some(OpCode::DefineGlobal) => self.define_global(),
            Some(OpCode::SetGlobal) => self.set_global(),
            Some(OpCode::GetUpvalue) => self.get_upvalue(),
            Some(OpCode::SetUpvalue) => self.set_upvalue(),
            Some(OpCode::BuildList) => self.build_list(self.byte_arg(), 2),
            Some(OpCode::BuildListLong) => self.build_list(self.short_arg(1), 3),
            Some(OpCode::GetIndex) => self.get_index(),
            Some(OpCode::SetIndex) => self.set_index(),
            Some(OpCode::Equal) => self.equal(),
            Some(OpCode::Greater) => self.compare(true),
            Some(OpCode::Less) => self.compare(false),
            Some(OpCode::Add) => self.add(number),
            Some(OpCode::Subtract) => self.arithmetic(number),
            Some(OpCode::Multiply) => self.multiply(number),
            Some(OpCode::Divide) => self.arithmetic(number),
            Some(OpCode::IntDivide) => self.arithmetic(number),
            Some(OpCode::Not) => self.not(),
            Some(OpCode::Negate) => self.negate(),
            Some(OpCode::Print) => self.print(texts),
            Some(OpCode::Jump) => self.jump(true),
            Some(OpCode::JumpIfFalse) => self.jump_if_false(),
            Some(OpCode::Loop) => self.jump_back(),
            Some(OpCode::Call) => self.call_op(number),
            Some(OpCode::Closure) => self.closure(self.byte_arg(), 2),
            Some(OpCode::CloseUpvalue) => self.close_upvalue(),
            Some(OpCode::Return) => self.return_op(),
            Some(OpCode::ClosureLong) => self.closure(self.long_arg(1), 4),
            Some(OpCode::GetProperty) => self.get_property(),
            Some(OpCode::SetProperty) => self.set_property(),
            Some(OpCode::GetSuper) => self.get_super(),
            Some(OpCode::Invoke) => self.invoke(number),
            Some(OpCode::SuperInvoke) => self.super_invoke(),
            Some(OpCode::Class) => self.class(),
            Some(OpCode::Inherit) => self.inherit(),
            Some(OpCode::Method) => self.method(),
        }
    }
}

/// Where `delete` removes an item: the whole part of the number, counted from
/// the end where it is negative.
pub open spec fn delete_index(len: int, bits: u64) -> int {
    let whole = whole_magnitude(bits);
    if bits >= SIGN_BIT && whole > 0 {
        len - whole
    } else {
        whole
    }
}

/// A list over and over.
pub open spec fn repeat(items: Seq<Value>, n: nat) -> Seq<Value>
    decreases n,
{
    if n == 0 {
        Seq::empty()
    } else {
        repeat(items, (n - 1) as nat) + items
    }
}

/// How often a list is repeated: the whole part of a number, none below zero.
pub open spec fn repetitions(bits: u64) -> nat {
    if bits >= SIGN_BIT {
        0
    } else {
        whole_magnitude(bits) as nat
    }
}

/// What comes from outside for one instruction.
pub ghost struct Input {
    pub number: u64,
    pub texts: NumberTexts,
}

/// An execution so far: what the last instruction led to, and what was printed.
pub ghost struct Played {
    pub outcome: Outcome,
    pub output: Seq<Seq<char>>,
}

/// The instructions from a state on, one for each input, as far as they go.
pub open spec fn played(s: VmState, inputs: Seq<Input>) -> Played
    decreases inputs.len(),
{
    if inputs.len() == 0 {
        Played { outcome: Outcome::Next(s), output: Seq::empty() }
    } else {
        let before = played(s, inputs.drop_last());
        match before.outcome {
            Outcome::Next(t) | Outcome::Printed(t, _) => {
                let outcome = t.step(inputs.last().number, inputs.last().texts);
                let output = match outcome {
                    Outcome::Printed(_, text) => before.output.push(text),
                    _ => before.output,
                };
                Played { outcome, output }
            },
            _ => before,
        }
    }
}

/// A program that has ended has no calls under way.
pub proof fn lemma_complete(s: VmState, input: Input)
    ensures
        s.step(input.number, input.texts) matches Outcome::Complete(t) ==> t.frames.len() == 0,
{
    reveal(VmState::step);
}

/// What is asked of the outside does not matter to an instruction that asks
/// for nothing.
pub proof fn law_only_requests_matter(s: VmState, a: Input, b: Input)
    requires
        s.request() is Nothing,
    ensures
        s.step(a.number, a.texts) == s.step(b.number, b.texts),
{
    reveal(VmState::step);
    if s.next_op() matches Some(OpCode::Invoke) {
        if let (Some(key), Some(count)) = (s.name_arg(1), s.arg(2)) {
            if let Some(receiver) = s.top(count as int) {
                if let Some((class, fields)) = s.instance_of(receiver) {
                    if fields.contains_key(key) {
                        assert(!s.is_native(fields[key]));
                        let t = s.with_receiver(count as int, fields[key]);
                        assert(t.heap == s.heap);
                    }
                }
            }
        }
    }
}

} // verus!
