//! The machine: it holds a program's state and carries out its instructions.
use vstd::prelude::*;
use crate::chunk::OpCode;
use crate::format::{format_value, NumberTexts};
use crate::machine::{
    delete_index, plus, repeat, ArithmeticOp, CallFrame, Fault, Outcome, Request, VmState,
    FRAMES_MAX, STACK_MAX,
};
use crate::number::{count_number, negate, numbers_less, stands_for, whole_index, whole_part, SIGN_BIT, lemma_stands_for_one};
use crate::object::{group_keyed, keyed, Content, Function, Heap, Object, UpvalueCell};
use crate::parser::next_id;
use crate::session::ActivationId;
use crate::source::SourceSpan;
use crate::table::{Key, Table};
use crate::text::same_text;
use crate::value::{values_equal, Value};
use vstd::string::*;

verus! {

broadcast use group_keyed;

pub struct VM {
    pub heap: Heap,
    pub stack: Vec<Value>,
    pub frames: Vec<CallFrame>,
    pub globals: Table,
    pub open: Vec<usize>,
    pub next_activation: u64,
    pub init: usize,
}

/// What an instruction that did not fail leads to.
#[derive(Debug)]
pub enum Step {
    Continue,
    Output(String),
    Complete,
}

/// The outcome of an instruction is what the machine did.
pub open spec fn did(before: VmState, after: VmState, r: Result<Step, Fault>, o: Outcome) -> bool {
    match o {
        Outcome::Next(s) => r is Ok && r->Ok_0 is Continue && after == s,
        Outcome::Printed(s, text) => r is Ok && r->Ok_0 is Output && r->Ok_0->Output_0@ == text
            && after == s,
        Outcome::Complete(s) => r is Ok && r->Ok_0 is Complete && after == s,
        Outcome::Fails(fault) => r == Err::<Step, Fault>(fault) && after == before,
    }
}

/// The machine did what the outcome says, unless a table cannot grow any
/// more: then it did nothing.
pub open spec fn done(before: VM, after: VM, r: Result<Step, Fault>, o: Outcome) -> bool {
    did(before@, after@, r, o) || (!after.has_room() && after@ == before@ && r == Err::<
        Step,
        Fault,
    >(Fault::Message("Out of memory.")))
}

fn exhausted() -> (r: Result<Step, Fault>)
    ensures
        r == Err::<Step, Fault>(Fault::Message("Out of memory.")),
{
    Err(Fault::Message("Out of memory."))
}

fn corrupt() -> (r: Result<Step, Fault>)
    ensures
        r == Err::<Step, Fault>(Fault::Message("Malformed bytecode.")),
{
    Err(Fault::Message("Malformed bytecode."))
}

impl VM {
    pub open spec fn view(self) -> VmState {
        VmState {
            heap: self.heap@,
            stack: self.stack@,
            frames: self.frames@,
            globals: self.globals@,
            open: self.open@,
            next_activation: self.next_activation,
            init: self.init,
        }
    }

    pub open spec fn wf(self) -> bool {
        self.heap.wf() && self.globals.wf() && keyed(self.heap@, self.globals@)
    }

    /// Every table can still grow.
    pub open spec fn has_room(self) -> bool {
        self.heap.has_room() && self.heap.tables_have_room() && self.globals.capacity()
            <= usize::MAX / 2
    }

    fn running(&self) -> (function: Option<&Function>)
        requires
            self.wf(),
        ensures
            match function {
                Some(f) => self@.running() == Some(*f),
                None => self@.running() is None,
            },
            function is Some ==> self@.frames.len() > 0,
    {
        if self.frames.len() == 0 {
            return None;
        }
        self.function_of(self.frames[self.frames.len() - 1].closure)
    }

    pub fn function_of(&self, closure: usize) -> (function: Option<&Function>)
        requires
            self.wf(),
        ensures
            match function {
                Some(f) => self@.function_of(closure) == Some(*f),
                None => self@.function_of(closure) is None,
            },
    {
        if closure >= self.heap.len() {
            return None;
        }
        match self.heap.get(closure) {
            Object::Closure { function, upvalues: _ } => {
                if *function >= self.heap.len() {
                    return None;
                }
                match self.heap.get(*function) {
                    Object::Function(f) => Some(f),
                    _ => None,
                }
            },
            _ => None,
        }
    }

    fn arg(&self, k: usize) -> (byte: Option<u8>)
        requires
            self.wf(),
        ensures
            byte == self@.arg(k as int),
            byte is Some ==> self@.frames.len() > 0 && self@.frame().ip + k < usize::MAX,
    {
        match self.running() {
            Some(f) => {
                let ip: usize = self.frames[self.frames.len() - 1].ip;
                if ip < f.chunk.code.len() && k < f.chunk.code.len() - ip {
                    Some(f.chunk.code[ip + k])
                } else {
                    None
                }
            },
            None => None,
        }
    }

    fn byte_arg(&self) -> (operand: Option<usize>)
        requires
            self.wf(),
        ensures
            match operand {
                Some(n) => self@.byte_arg() == Some(n as int),
                None => self@.byte_arg() is None,
            },
            operand is Some ==> self@.frames.len() > 0,
    {
        match self.arg(1) {
            Some(byte) => Some(byte as usize),
            None => None,
        }
    }

    fn short_arg(&self, k: usize) -> (operand: Option<usize>)
        requires
            self.wf(),
            k < 100,
        ensures
            match operand {
                Some(n) => self@.short_arg(k as int) == Some(n as int) && n < 0x1_0000,
                None => self@.short_arg(k as int) is None,
            },
            operand is Some ==> self@.frames.len() > 0 && self@.frame().ip + k + 1 < usize::MAX,
    {
        match (self.arg(k), self.arg(k + 1)) {
            (Some(low), Some(high)) => Some(low as usize + (high as usize) * 256),
            _ => None,
        }
    }

    fn long_arg(&self, k: usize) -> (operand: Option<usize>)
        requires
            self.wf(),
            k < 100,
        ensures
            match operand {
                Some(n) => self@.long_arg(k as int) == Some(n as int),
                None => self@.long_arg(k as int) is None,
            },
            operand is Some ==> self@.frames.len() > 0,
    {
        match (self.arg(k), self.arg(k + 1), self.arg(k + 2)) {
            (Some(low), Some(middle), Some(high)) => Some(
                low as usize + (middle as usize) * 256 + (high as usize) * 65536,
            ),
            _ => None,
        }
    }

    fn constant(&self, index: usize) -> (value: Option<Value>)
        requires
            self.wf(),
        ensures
            value == self@.constant(index as int),
    {
        match self.running() {
            Some(f) => if index < f.chunk.constants.len() {
                Some(f.chunk.constants[index])
            } else {
                None
            },
            None => None,
        }
    }

    pub fn key(&self, object: usize) -> (key: Option<Key>)
        requires
            self.wf(),
        ensures
            key == self@.heap.key(object),
    {
        if object >= self.heap.len() {
            return None;
        }
        match self.heap.get(object) {
            Object::Text { text: _, hash } => Some(Key { object, hash: *hash }),
            _ => None,
        }
    }

    fn name_arg(&self, k: usize) -> (key: Option<Key>)
        requires
            self.wf(),
        ensures
            key == self@.name_arg(k as int),
            key is Some ==> self@.frames.len() > 0,
    {
        match self.arg(k) {
            Some(index) => match self.constant(index as usize) {
                Some(Value::Obj(object)) => self.key(object),
                _ => None,
            },
            None => None,
        }
    }

    /// The value `distance` places below the top of the stack.
    pub fn peek(&self, distance: usize) -> (value: Option<Value>)
        ensures
            value == self@.top(distance as int),
    {
        if distance < self.stack.len() {
            Some(self.stack[self.stack.len() - 1 - distance])
        } else {
            None
        }
    }

    fn set_ip(&mut self, ip: usize)
        requires
            old(self).wf(),
            old(self)@.frames.len() > 0,
        ensures
            final(self).wf(),
            final(self)@ == old(self)@.at_ip(ip),
    {
        let last: usize = self.frames.len() - 1;
        let frame = CallFrame { ip, ..self.frames[last] };
        self.frames.set(last, frame);
    }

    fn skip(&mut self, n: usize)
        requires
            old(self).wf(),
            old(self)@.frames.len() > 0,
        ensures
            final(self).wf(),
            final(self)@ == old(self)@.skipped(n as int),
    {
        let ip: usize = self.frames[self.frames.len() - 1].ip;
        self.set_ip(ip.saturating_add(n));
    }

    fn drop_values(&mut self, n: usize)
        requires
            old(self).wf(),
            n <= old(self)@.stack.len(),
        ensures
            final(self).wf(),
            final(self)@ == old(self)@.dropped(n as int),
    {
        let kept: usize = self.stack.len() - n;
        self.stack.truncate(kept);
        assert(self.stack@ =~= old(self)@.stack.take(kept as int));
    }

    /// What keeps a result from taking the place of the top `n` values.
    fn result_fault(&self, n: usize) -> (fault: Option<Fault>)
        ensures
            forall|value: Value, len: int|
                match fault {
                    Some(fault) => #[trigger] self@.result(n as int, value, len) == Outcome::Fails(
                        fault,
                    ),
                    None => #[trigger] self@.result(n as int, value, len) is Next,
                },
            fault is None ==> n <= self@.stack.len(),
    {
        if n > self.stack.len() {
            Some(Fault::Message("Malformed bytecode."))
        } else if self.stack.len() - n >= STACK_MAX {
            Some(Fault::Message("Stack overflow."))
        } else {
            None
        }
    }

    /// Replaces the top `n` values by one and goes on `len` bytes further.
    fn result(&mut self, n: usize, value: Value, len: usize) -> (r: Result<Step, Fault>)
        requires
            old(self).wf(),
            old(self)@.frames.len() > 0,
        ensures
            final(self).wf(),
            did(old(self)@, final(self)@, r, old(self)@.result(n as int, value, len as int)),
    {
        if let Some(fault) = self.result_fault(n) {
            assert(self@.result(n as int, value, len as int) == Outcome::Fails(fault));
            return Err(fault);
        }
        self.drop_values(n);
        self.stack.push(value);
        self.skip(len);
        assert(self@ =~= old(self)@.with_stack(
            old(self)@.stack.take(old(self)@.stack.len() - n).push(value),
        ).skipped(len as int));
        Ok(Step::Continue)
    }

    fn load(&mut self, value: Option<Value>, len: usize) -> (r: Result<Step, Fault>)
        requires
            old(self).wf(),
            old(self)@.frames.len() > 0,
        ensures
            final(self).wf(),
            did(old(self)@, final(self)@, r, old(self)@.load(value, len as int)),
    {
        match value {
            Some(value) => self.result(0, value, len),
            None => corrupt(),
        }
    }

    fn get_local(&mut self, slot: Option<usize>, len: usize) -> (r: Result<Step, Fault>)
        requires
            old(self).wf(),
            old(self)@.frames.len() > 0,
        ensures
            final(self).wf(),
            did(old(self)@, final(self)@, r, old(self)@.get_local(wide(slot), len as int)),
    {
        match slot {
            Some(slot) => {
                let base: usize = self.frames[self.frames.len() - 1].base;
                if base < self.stack.len() && slot < self.stack.len() - base {
                    let value = self.stack[base + slot];
                    self.result(0, value, len)
                } else {
                    corrupt()
                }
            },
            None => corrupt(),
        }
    }

    fn set_local(&mut self, slot: Option<usize>, len: usize) -> (r: Result<Step, Fault>)
        requires
            old(self).wf(),
            old(self)@.frames.len() > 0,
        ensures
            final(self).wf(),
            did(old(self)@, final(self)@, r, old(self)@.set_local(wide(slot), len as int)),
    {
        match (slot, self.peek(0)) {
            (Some(slot), Some(value)) => {
                let base: usize = self.frames[self.frames.len() - 1].base;
                if base < self.stack.len() && slot < self.stack.len() - base {
                    self.stack.set(base + slot, value);
                    self.skip(len);
                    Ok(Step::Continue)
                } else {
                    corrupt()
                }
            },
            _ => corrupt(),
        }
    }

    fn get_global(&mut self) -> (r: Result<Step, Fault>)
        requires
            old(self).wf(),
        ensures
            final(self).wf(),
            did(old(self)@, final(self)@, r, old(self)@.get_global()),
    {
        match self.name_arg(1) {
            Some(key) => match self.globals.get(key) {
                Some(value) => self.result(0, value, 2),
                None => Err(Fault::UndefinedVariable { name: key.object }),
            },
            None => corrupt(),
        }
    }

    fn define_global(&mut self) -> (r: Result<Step, Fault>)
        requires
            old(self).wf(),
        ensures
            final(self).wf(),
            done(*old(self), *final(self), r, old(self)@.define_global()),
    {
        match (self.name_arg(1), self.peek(0)) {
            (Some(key), Some(value)) => {
                if self.globals.slot_count() > usize::MAX / 2 {
                    return exhausted();
                }
                self.globals.set(key, value);
                self.drop_values(1);
                self.skip(2);
                Ok(Step::Continue)
            },
            _ => corrupt(),
        }
    }

    fn set_global(&mut self) -> (r: Result<Step, Fault>)
        requires
            old(self).wf(),
        ensures
            final(self).wf(),
            done(*old(self), *final(self), r, old(self)@.set_global()),
    {
        match (self.name_arg(1), self.peek(0)) {
            (Some(key), Some(value)) => {
                if self.globals.get(key).is_none() {
                    return Err(Fault::UndefinedVariable { name: key.object });
                }
                if self.globals.slot_count() > usize::MAX / 2 {
                    return exhausted();
                }
                self.globals.set(key, value);
                self.skip(2);
                Ok(Step::Continue)
            },
            _ => corrupt(),
        }
    }

    fn cell_arg(&self) -> (cell: Option<usize>)
        requires
            self.wf(),
        ensures
            cell == self@.cell_arg(),
            cell is Some ==> self@.frames.len() > 0,
    {
        match self.arg(1) {
            Some(index) => {
                let closure: usize = self.frames[self.frames.len() - 1].closure;
                if closure >= self.heap.len() {
                    return None;
                }
                match self.heap.get(closure) {
                    Object::Closure { function: _, upvalues } => if (index as usize)
                        < upvalues.len() {
                        Some(upvalues[index as usize])
                    } else {
                        None
                    },
                    _ => None,
                }
            },
            None => None,
        }
    }

    fn cell(&self, object: usize) -> (cell: Option<UpvalueCell>)
        requires
            self.wf(),
        ensures
            match cell {
                Some(cell) => self@.heap.get(object) == Content::Upvalue(cell) && object
                    < self@.heap.objects.len(),
                None => !(self@.heap.get(object) is Upvalue),
            },
    {
        if object >= self.heap.len() {
            return None;
        }
        match self.heap.get(object) {
            Object::Upvalue(cell) => Some(*cell),
            _ => None,
        }
    }

    fn get_upvalue(&mut self) -> (r: Result<Step, Fault>)
        requires
            old(self).wf(),
        ensures
            final(self).wf(),
            did(old(self)@, final(self)@, r, old(self)@.get_upvalue()),
    {
        match self.cell_arg() {
            Some(object) => match self.cell(object) {
                Some(UpvalueCell::Open { slot }) => if slot < self.stack.len() {
                    let value = self.stack[slot];
                    self.result(0, value, 2)
                } else {
                    corrupt()
                },
                Some(UpvalueCell::Closed { value }) => self.result(0, value, 2),
                None => corrupt(),
            },
            None => corrupt(),
        }
    }

    fn set_upvalue(&mut self) -> (r: Result<Step, Fault>)
        requires
            old(self).wf(),
        ensures
            final(self).wf(),
            did(old(self)@, final(self)@, r, old(self)@.set_upvalue()),
    {
        match (self.cell_arg(), self.peek(0)) {
            (Some(object), Some(value)) => match self.cell(object) {
                Some(UpvalueCell::Open { slot }) => if slot < self.stack.len() {
                    self.stack.set(slot, value);
                    self.skip(2);
                    Ok(Step::Continue)
                } else {
                    corrupt()
                },
                Some(UpvalueCell::Closed { value: _ }) => {
                    self.heap.replace(object, Object::Upvalue(UpvalueCell::Closed { value }));
                    self.skip(2);
                    Ok(Step::Continue)
                },
                None => corrupt(),
            },
            _ => corrupt(),
        }
    }

    /// Puts a new object on the heap and in place of the top `n` values.
    fn result_object(&mut self, n: usize, object: Object, len: usize) -> (r: Result<Step, Fault>)
        requires
            old(self).wf(),
            old(self)@.frames.len() > 0,
            object.wf(),
            !(object is Text),
        ensures
            final(self).wf(),
            did(
                old(self)@,
                final(self)@,
                r,
                old(self)@.allocated(object@).result(
                    n as int,
                    Value::Obj(old(self)@.heap.next()),
                    len as int,
                ),
            ),
    {
        if let Some(fault) = self.result_fault(n) {
            assert(self@.result(n as int, Value::Nil, len as int) == Outcome::Fails(fault));
            return Err(fault);
        }
        assert(self@.result(n as int, Value::Nil, len as int) is Next);
        let place: usize = self.heap.allocate(object);
        self.result(n, Value::Obj(place), len)
    }

    fn build_list(&mut self, count: Option<usize>, len: usize) -> (r: Result<Step, Fault>)
        requires
            old(self).wf(),
            old(self)@.frames.len() > 0,
        ensures
            final(self).wf(),
            did(old(self)@, final(self)@, r, old(self)@.build_list(wide(count), len as int)),
    {
        match count {
            Some(n) => {
                if n > self.stack.len() {
                    return corrupt();
                }
                let first: usize = self.stack.len() - n;
                let mut items: Vec<Value> = Vec::new();
                let mut i: usize = first;
                while i < self.stack.len()
                    invariant
                        first <= i <= self.stack@.len(),
                        items@ == self.stack@.subrange(first as int, i as int),
                    decreases self.stack@.len() - i,
                {
                    items.push(self.stack[i]);
                    i += 1;
                    assert(items@ =~= self.stack@.subrange(first as int, i as int));
                }
                assert(items@ =~= self.stack@.skip(first as int));
                self.result_object(n, Object::List(items), len)
            },
            None => corrupt(),
        }
    }

    fn items(&self, value: Value) -> (items: Option<&Vec<Value>>)
        requires
            self.wf(),
        ensures
            match items {
                Some(items) => self@.items_of(value) == Some(items@) && value is Obj
                    && value->Obj_0 < self@.heap.objects.len(),
                None => self@.items_of(value) is None,
            },
    {
        match value {
            Value::Obj(object) => {
                if object >= self.heap.len() {
                    return None;
                }
                match self.heap.get(object) {
                    Object::List(items) => Some(items),
                    _ => None,
                }
            },
            _ => None,
        }
    }

    /// Where an index points to in a list.
    fn index(&self, list: Value, index: Value) -> (found: Result<usize, Fault>)
        requires
            self.wf(),
        ensures
            match found {
                Ok(n) => self@.index_fault(list, index) is None && self@.index_of(list, index) == n
                    && self@.items_of(list) is Some && n < self@.items_of(list)->0.len(),
                Err(fault) => self@.index_fault(list, index) == Some(fault),
            },
    {
        match self.items(list) {
            None => Err(Fault::Message("Only lists can be subscripted.")),
            Some(items) => match index {
                Value::Number(bits) => match whole_index(bits, items.len()) {
                    Some(n) => {
                        proof {
                            let chosen = self@.index_of(list, index);
                            assert(0 <= n < items@.len() && stands_for(bits, n as int));
                            assert(stands_for(bits, chosen));
                            lemma_stands_for_one(bits, n as int, chosen);
                        }
                        Ok(n)
                    },
                    None => Err(Fault::Message("List index out of bounds.")),
                },
                _ => Err(Fault::Message("List index must be a number.")),
            },
        }
    }

    fn get_index(&mut self) -> (r: Result<Step, Fault>)
        requires
            old(self).wf(),
            old(self)@.frames.len() > 0,
        ensures
            final(self).wf(),
            did(old(self)@, final(self)@, r, old(self)@.get_index()),
    {
        match (self.peek(1), self.peek(0)) {
            (Some(list), Some(index)) => match self.index(list, index) {
                Ok(n) => match self.items(list) {
                    Some(items) => {
                        let value = items[n];
                        self.result(2, value, 1)
                    },
                    None => corrupt(),
                },
                Err(fault) => Err(fault),
            },
            _ => corrupt(),
        }
    }

    fn set_index(&mut self) -> (r: Result<Step, Fault>)
        requires
            old(self).wf(),
            old(self)@.frames.len() > 0,
        ensures
            final(self).wf(),
            did(old(self)@, final(self)@, r, old(self)@.set_index()),
    {
        match (self.peek(2), self.peek(1), self.peek(0)) {
            (Some(list), Some(index), Some(value)) => match self.index(list, index) {
                Ok(n) => {
                    if let Some(fault) = self.result_fault(3) {
                        assert(self@.result(3, value, 1) == Outcome::Fails(fault));
                        return Err(fault);
                    }
                    assert(self@.result(3, value, 1) is Next);
                    let place: usize = list.as_obj();
                    if let Object::List(mut items) = self.heap.take(place) {
                        items.set(n, value);
                        self.heap.replace(place, Object::List(items));
                        assert(self@.heap =~= old(self)@.heap.replaced(
                            place,
                            Content::List(items@),
                        ));
                    }
                    self.result(3, value, 1)
                },
                Err(fault) => Err(fault),
            },
            _ => corrupt(),
        }
    }

    fn equal(&mut self) -> (r: Result<Step, Fault>)
        requires
            old(self).wf(),
            old(self)@.frames.len() > 0,
        ensures
            final(self).wf(),
            did(old(self)@, final(self)@, r, old(self)@.equal()),
    {
        match (self.peek(1), self.peek(0)) {
            (Some(a), Some(b)) => self.result(2, Value::Bool(values_equal(a, b)), 1),
            _ => corrupt(),
        }
    }

    fn compare(&mut self, greater: bool) -> (r: Result<Step, Fault>)
        requires
            old(self).wf(),
            old(self)@.frames.len() > 0,
        ensures
            final(self).wf(),
            did(old(self)@, final(self)@, r, old(self)@.compare(greater)),
    {
        match (self.peek(1), self.peek(0)) {
            (Some(Value::Number(a)), Some(Value::Number(b))) => {
                let less = if greater {
                    numbers_less(b, a)
                } else {
                    numbers_less(a, b)
                };
                self.result(2, Value::Bool(less), 1)
            },
            (Some(_), Some(_)) => Err(Fault::Message("Operands must be numbers.")),
            _ => corrupt(),
        }
    }

    fn arithmetic(&mut self, number: u64) -> (r: Result<Step, Fault>)
        requires
            old(self).wf(),
            old(self)@.frames.len() > 0,
        ensures
            final(self).wf(),
            did(old(self)@, final(self)@, r, old(self)@.arithmetic(number)),
    {
        match (self.peek(1), self.peek(0)) {
            (Some(Value::Number(_)), Some(Value::Number(_))) => self.result(
                2,
                Value::Number(number),
                1,
            ),
            (Some(_), Some(_)) => Err(Fault::Message("Operands must be numbers.")),
            _ => corrupt(),
        }
    }

    fn text(&self, value: Value) -> (text: Option<&String>)
        requires
            self.wf(),
        ensures
            match text {
                Some(text) => self@.text_of(value) == Some(text@),
                None => self@.text_of(value) is None,
            },
    {
        match value {
            Value::Obj(object) => {
                if object >= self.heap.len() {
                    return None;
                }
                match self.heap.get(object) {
                    Object::Text { text, hash: _ } => Some(text),
                    _ => None,
                }
            },
            _ => None,
        }
    }

    /// The two texts on top of the stack, joined.
    fn concatenate(&mut self, joined: String) -> (r: Result<Step, Fault>)
        requires
            old(self).wf(),
            old(self)@.frames.len() > 0,
        ensures
            final(self).wf(),
            done(
                *old(self),
                *final(self),
                r,
                (VmState { heap: old(self)@.heap.with_text(joined@), ..old(self)@ }).result(
                    2,
                    Value::Obj(old(self)@.heap.text_object(joined@)),
                    1,
                ),
            ),
    {
        if let Some(fault) = self.result_fault(2) {
            assert(self@.result(2, Value::Nil, 1) == Outcome::Fails(fault));
            return Err(fault);
        }
        assert(self@.result(2, Value::Nil, 1) is Next);
        if !self.heap.check_room() {
            return exhausted();
        }
        let object: usize = self.heap.intern(joined);
        self.result(2, Value::Obj(object), 1)
    }

    fn add_values(&mut self, number: u64) -> (r: Result<Step, Fault>)
        requires
            old(self).wf(),
            old(self)@.frames.len() > 0,
        ensures
            final(self).wf(),
            done(*old(self), *final(self), r, old(self)@.add(number)),
    {
        match (self.peek(1), self.peek(0)) {
            (Some(a), Some(b)) => {
                if let (Some(left), Some(right)) = (self.text(a), self.text(b)) {
                    let mut joined = left.clone();
                    joined.append(right.as_str());
                    return self.concatenate(joined);
                }
                if let (Some(left), Some(right)) = (self.items(a), self.items(b)) {
                    let mut items: Vec<Value> = Vec::new();
                    let ghost (l, r) = (left@, right@);
                    extend(&mut items, left);
                    extend(&mut items, right);
                    assert(items@ =~= l + r);
                    return self.result_object(2, Object::List(items), 1);
                }
                if a.is_number() && b.is_number() {
                    self.result(2, Value::Number(number), 1)
                } else {
                    Err(Fault::Message("Operands must be two numbers or two strings."))
                }
            },
            _ => corrupt(),
        }
    }

    fn multiply(&mut self, number: u64) -> (r: Result<Step, Fault>)
        requires
            old(self).wf(),
            old(self)@.frames.len() > 0,
        ensures
            final(self).wf(),
            did(old(self)@, final(self)@, r, old(self)@.multiply(number)),
    {
        if let (Some(list), Some(Value::Number(bits))) = (self.peek(1), self.peek(0)) {
            if let Some(items) = self.items(list) {
                let count: u64 = if bits >= SIGN_BIT {
                    0
                } else {
                    whole_part(bits)
                };
                let ghost source = items@;
                if items.len() > 0 && count > usize::MAX as u64 / items.len() as u64 {
                    proof {
                        lemma_product_above(items@.len() as int, count as int);
                    }
                    return Err(Fault::Message("List is too long."));
                }
                proof {
                    if items@.len() > 0 {
                        lemma_product_within(items@.len() as int, count as int);
                    } else {
                        assert(0 * count == 0);
                    }
                }
                if let Some(fault) = self.result_fault(2) {
                    assert(self@.result(2, Value::Nil, 1) == Outcome::Fails(fault));
                    return Err(fault);
                }
                assert(self@.result(2, Value::Nil, 1) is Next);
                let mut repeated: Vec<Value> = Vec::new();
                if items.len() > 0 {
                    let mut i: u64 = 0;
                    while i < count
                        invariant
                            i <= count,
                            items@ == source,
                            repeated@ == repeat(source, i as nat),
                        decreases count - i,
                    {
                        extend(&mut repeated, items);
                        i += 1;
                        assert(repeat(source, i as nat) == repeat(source, (i - 1) as nat) + source);
                    }
                } else {
                    proof {
                        lemma_repeat_nothing(source, count as nat);
                    }
                }
                return self.result_object(2, Object::List(repeated), 1);
            }
        }
        self.arithmetic(number)
    }

    fn not(&mut self) -> (r: Result<Step, Fault>)
        requires
            old(self).wf(),
            old(self)@.frames.len() > 0,
        ensures
            final(self).wf(),
            did(old(self)@, final(self)@, r, old(self)@.not()),
    {
        match self.peek(0) {
            Some(value) => self.result(1, Value::Bool(value.is_falsy()), 1),
            None => corrupt(),
        }
    }

    fn negate(&mut self) -> (r: Result<Step, Fault>)
        requires
            old(self).wf(),
            old(self)@.frames.len() > 0,
        ensures
            final(self).wf(),
            did(old(self)@, final(self)@, r, old(self)@.negate()),
    {
        match self.peek(0) {
            Some(Value::Number(bits)) => self.result(1, Value::Number(negate(bits)), 1),
            Some(_) => Err(Fault::Message("Operand must be a number.")),
            None => corrupt(),
        }
    }

    fn print(&mut self, texts: &NumberTexts) -> (r: Result<Step, Fault>)
        requires
            old(self).wf(),
            old(self)@.frames.len() > 0,
        ensures
            final(self).wf(),
            did(old(self)@, final(self)@, r, old(self)@.print(*texts)),
    {
        match self.peek(0) {
            Some(value) => {
                let text = format_value(&self.heap, texts, value);
                self.drop_values(1);
                self.skip(1);
                Ok(Step::Output(text))
            },
            None => corrupt(),
        }
    }

    fn pop(&mut self) -> (r: Result<Step, Fault>)
        requires
            old(self).wf(),
            old(self)@.frames.len() > 0,
        ensures
            final(self).wf(),
            did(old(self)@, final(self)@, r, old(self)@.pop()),
    {
        if self.stack.len() == 0 {
            return corrupt();
        }
        self.drop_values(1);
        self.skip(1);
        Ok(Step::Continue)
    }

    fn jump(&mut self, taken: bool) -> (r: Result<Step, Fault>)
        requires
            old(self).wf(),
            old(self)@.frames.len() > 0,
        ensures
            final(self).wf(),
            did(old(self)@, final(self)@, r, old(self)@.jump(taken)),
    {
        match self.short_arg(1) {
            Some(distance) => {
                if taken {
                    self.skip(3 + distance);
                } else {
                    self.skip(3);
                }
                Ok(Step::Continue)
            },
            None => corrupt(),
        }
    }

    fn jump_if_false(&mut self) -> (r: Result<Step, Fault>)
        requires
            old(self).wf(),
            old(self)@.frames.len() > 0,
        ensures
            final(self).wf(),
            did(old(self)@, final(self)@, r, old(self)@.jump_if_false()),
    {
        match self.peek(0) {
            Some(value) => self.jump(value.is_falsy()),
            None => corrupt(),
        }
    }

    fn jump_back(&mut self) -> (r: Result<Step, Fault>)
        requires
            old(self).wf(),
            old(self)@.frames.len() > 0,
        ensures
            final(self).wf(),
            did(old(self)@, final(self)@, r, old(self)@.jump_back()),
    {
        match self.short_arg(1) {
            Some(distance) => {
                let ip: usize = self.frames[self.frames.len() - 1].ip;
                if distance <= 3 {
                    self.set_ip(ip + 3 - distance);
                } else {
                    if distance - 3 > ip {
                        return corrupt();
                    }
                    self.set_ip(ip - (distance - 3));
                }
                Ok(Step::Continue)
            },
            None => corrupt(),
        }
    }

    /// What keeps a closure from being called, or the span of the call.
    fn call_check(&self, closure: usize, count: usize, len: usize) -> (check: Result<
        SourceSpan,
        Fault,
    >)
        requires
            self.wf(),
        ensures
            match check {
                Ok(span) => self@.call(closure, count as int, len as int) is Next
                    && self@.current_span() == Some(span) && self@.frames.len() > 0,
                Err(fault) => self@.call(closure, count as int, len as int) == Outcome::Fails(
                    fault,
                ),
            },
    {
        let caller = match self.running() {
            Some(f) => f,
            None => return Err(Fault::Message("Malformed bytecode.")),
        };
        let ip: usize = self.frames[self.frames.len() - 1].ip;
        let f = match self.function_of(closure) {
            Some(f) => f,
            None => return Err(Fault::Message("Malformed bytecode.")),
        };
        if ip >= caller.chunk.spans.len() {
            return Err(Fault::Message("Malformed bytecode."));
        }
        if count != f.arity {
            return Err(Fault::WrongArity { expected: f.arity, got: count });
        }
        if self.frames.len() >= FRAMES_MAX {
            return Err(Fault::Message("Stack overflow."));
        }
        if count >= self.stack.len() {
            return Err(Fault::Message("Malformed bytecode."));
        }
        Ok(caller.chunk.spans[ip])
    }

    /// Calls a closure once nothing keeps it from being called.
    fn enter(&mut self, closure: usize, count: usize, len: usize, span: SourceSpan)
        requires
            old(self).wf(),
            old(self)@.frames.len() > 0,
            old(self)@.current_span() == Some(span),
            old(self)@.call(closure, count as int, len as int) is Next,
        ensures
            final(self).wf(),
            Outcome::Next(final(self)@) == old(self)@.call(closure, count as int, len as int),
    {
        let ip: usize = self.frames[self.frames.len() - 1].ip;
        let called = CallFrame {
            closure,
            ip: 0,
            base: self.stack.len() - count - 1,
            activation_id: ActivationId(self.next_activation),
            call_site: Some(span),
            call_site_offset: Some(ip),
        };
        self.skip(len);
        self.frames.push(called);
        self.next_activation = next_activation(self.next_activation);
    }

    fn call(&mut self, closure: usize, count: usize, len: usize) -> (r: Result<Step, Fault>)
        requires
            old(self).wf(),
        ensures
            final(self).wf(),
            did(old(self)@, final(self)@, r, old(self)@.call(closure, count as int, len as int)),
    {
        match self.call_check(closure, count, len) {
            Ok(span) => {
                self.enter(closure, count, len, span);
                Ok(Step::Continue)
            },
            Err(fault) => Err(fault),
        }
    }

    fn call_method(&mut self, method: Value, count: usize, len: usize) -> (r: Result<Step, Fault>)
        requires
            old(self).wf(),
        ensures
            final(self).wf(),
            did(
                old(self)@,
                final(self)@,
                r,
                old(self)@.call_method(method, count as int, len as int),
            ),
    {
        match method {
            Value::Obj(closure) => self.call(closure, count, len),
            _ => corrupt(),
        }
    }

    fn set_receiver(&mut self, count: usize, value: Value)
        requires
            old(self).wf(),
            count < old(self)@.stack.len(),
        ensures
            final(self).wf(),
            final(self)@ == old(self)@.with_receiver(count as int, value),
    {
        let place: usize = self.stack.len() - 1 - count;
        self.stack.set(place, value);
    }

    /// Makes an instance of a class and calls its initializer, if it has one.
    fn instantiate(&mut self, class: usize, count: usize, len: usize, number: u64) -> (r: Result<
        Step,
        Fault,
    >)
        requires
            old(self).wf(),
            old(self)@.frames.len() > 0,
            count < old(self)@.stack.len(),
            old(self)@.heap.get(class) is Class,
        ensures
            final(self).wf(),
            did(
                old(self)@,
                final(self)@,
                r,
                old(self)@.call_value(Value::Obj(class), count as int, len as int, number),
            ),
    {
        let key = match self.key(self.init) {
            Some(key) => key,
            None => return corrupt(),
        };
        let initializer = match self.heap.get(class) {
            Object::Class { name: _, methods } => methods.get(key),
            _ => return corrupt(),
        };
        let ghost made = old(self)@.allocated(
            Content::Instance { class, fields: Map::empty() },
        ).with_receiver(count as int, Value::Obj(old(self)@.heap.next()));
        match initializer {
            Some(method) => {
                let closure: usize = match method {
                    Value::Obj(closure) => closure,
                    _ => return corrupt(),
                };
                assert(made.function_of(closure) == self@.function_of(closure));
                assert(made.running() == self@.running());
                let span = match self.call_check(closure, count, len) {
                    Ok(span) => span,
                    Err(fault) => {
                        return Err(fault);
                    },
                };
                let place: usize = self.heap.allocate(
                    Object::Instance { class, fields: Table::new() },
                );
                self.set_receiver(count, Value::Obj(place));
                assert(self@ =~= made);
                self.enter(closure, count, len, span);
                Ok(Step::Continue)
            },
            None => {
                if count != 0 {
                    return Err(Fault::WrongArity { expected: 0, got: count });
                }
                let place: usize = self.heap.allocate(
                    Object::Instance { class, fields: Table::new() },
                );
                self.set_receiver(count, Value::Obj(place));
                assert(self@ =~= made);
                self.skip(len);
                Ok(Step::Continue)
            },
        }
    }

    /// Calls a bound method.
    fn call_bound(&mut self, receiver: Value, method: usize, count: usize, len: usize) -> (r: Result<
        Step,
        Fault,
    >)
        requires
            old(self).wf(),
            count < old(self)@.stack.len(),
        ensures
            final(self).wf(),
            did(
                old(self)@,
                final(self)@,
                r,
                old(self)@.with_receiver(count as int, receiver).call(
                    method,
                    count as int,
                    len as int,
                ),
            ),
    {
        let ghost made = self@.with_receiver(count as int, receiver);
        assert(made.function_of(method) == self@.function_of(method));
        assert(made.running() == self@.running());
        match self.call_check(method, count, len) {
            Ok(span) => {
                self.set_receiver(count, receiver);
                self.enter(method, count, len, span);
                Ok(Step::Continue)
            },
            Err(fault) => Err(fault),
        }
    }

    fn call_value(&mut self, callee: Value, count: usize, len: usize, number: u64) -> (r: Result<
        Step,
        Fault,
    >)
        requires
            old(self).wf(),
            old(self)@.frames.len() > 0,
            count < usize::MAX,
        ensures
            final(self).wf(),
            did(
                old(self)@,
                final(self)@,
                r,
                old(self)@.call_value(callee, count as int, len as int, number),
            ),
    {
        if count >= self.stack.len() {
            return corrupt();
        }
        let object: usize = match callee {
            Value::Obj(object) => object,
            _ => return Err(Fault::Message("Can only call functions and classes.")),
        };
        if object >= self.heap.len() {
            return Err(Fault::Message("Can only call functions and classes."));
        }
        match self.heap.get(object) {
            Object::BoundMethod { receiver, method } => {
                let (receiver, method): (Value, usize) = (*receiver, *method);
                self.call_bound(receiver, method, count, len)
            },
            Object::Class { .. } => self.instantiate(object, count, len, number),
            Object::Closure { .. } => self.call(object, count, len),
            Object::Native => self.result(count + 1, Value::Number(number), len),
            _ => Err(Fault::Message("Can only call functions and classes.")),
        }
    }

    fn call_op(&mut self, number: u64) -> (r: Result<Step, Fault>)
        requires
            old(self).wf(),
        ensures
            final(self).wf(),
            did(old(self)@, final(self)@, r, old(self)@.call_op(number)),
    {
        match self.arg(1) {
            Some(count) => match self.peek(count as usize) {
                Some(callee) => self.call_value(callee, count as usize, 2, number),
                None => corrupt(),
            },
            None => corrupt(),
        }
    }

    pub fn open_slot(&self, object: usize) -> (slot: Option<usize>)
        requires
            self.wf(),
        ensures
            match slot {
                Some(slot) => self@.open_slot(object) == slot && object < self@.heap.objects.len()
                    && self@.heap.get(object) is Upvalue,
                None => self@.open_slot(object) == -1,
            },
    {
        match self.cell(object) {
            Some(UpvalueCell::Open { slot }) => Some(slot),
            _ => None,
        }
    }

    /// The captured variable of a stack slot.
    pub fn capture_upvalue(&mut self, slot: usize) -> (cell: usize)
        requires
            old(self).wf(),
        ensures
            final(self).wf(),
            (final(self)@, cell) == old(self)@.captured(slot),
    {
        let mut place: usize = 0;
        loop
            invariant_except_break
                self@.open_place(slot as int, place as int) == self@.open_place(slot as int, 0),
            invariant
                self.wf(),
                place <= self.open@.len(),
            ensures
                place == self@.open_place(slot as int, 0),
            decreases self.open@.len() - place,
        {
            if place >= self.open.len() {
                break;
            }
            match self.open_slot(self.open[place]) {
                Some(other) => {
                    if other <= slot {
                        break;
                    }
                },
                None => {
                    break;
                },
            }
            place += 1;
        }
        if place < self.open.len() {
            if let Some(other) = self.open_slot(self.open[place]) {
                if other == slot {
                    return self.open[place];
                }
            }
        }
        let made: usize = self.heap.allocate(Object::Upvalue(UpvalueCell::Open { slot }));
        self.open.insert(place, made);
        made
    }

    /// Closes the captured variables at or above a stack slot.
    pub fn close_upvalues(&mut self, last: usize)
        requires
            old(self).wf(),
        ensures
            final(self).wf(),
            final(self)@ == old(self)@.closed_from(last as int),
            final(self).has_room() == old(self).has_room(),
    {
        loop
            invariant_except_break
                self@.closed_from(last as int) == old(self)@.closed_from(last as int),
            invariant
                self.wf(),
                self.has_room() == old(self).has_room(),
            ensures
                self@ == old(self)@.closed_from(last as int),
            decreases self.open@.len(),
        {
            if self.open.len() == 0 {
                break;
            }
            let cell: usize = self.open[0];
            match self.open_slot(cell) {
                Some(slot) => {
                    if slot < last || slot >= self.stack.len() {
                        break;
                    }
                    let value = self.stack[slot];
                    let ghost before = self@;
                    self.heap.replace(cell, Object::Upvalue(UpvalueCell::Closed { value }));
                    self.open.remove(0);
                    assert(self@.open =~= before.open.skip(1));
                },
                None => {
                    break;
                },
            }
        }
    }

    /// The captured variables of the running closure.
    fn own_cells(&self) -> (cells: Vec<usize>)
        requires
            self.wf(),
            self@.frames.len() > 0,
        ensures
            cells@ == self@.own_cells(),
    {
        let closure: usize = self.frames[self.frames.len() - 1].closure;
        let mut cells: Vec<usize> = Vec::new();
        if closure < self.heap.len() {
            if let Object::Closure { function: _, upvalues } = self.heap.get(closure) {
                let mut i: usize = 0;
                while i < upvalues.len()
                    invariant
                        i <= upvalues@.len(),
                        cells@ == upvalues@.take(i as int),
                    decreases upvalues@.len() - i,
                {
                    cells.push(upvalues[i]);
                    i += 1;
                    assert(cells@ =~= upvalues@.take(i as int));
                }
                assert(cells@ =~= upvalues@);
            }
        }
        assert(cells@ =~= self@.own_cells());
        cells
    }

    fn captures(&self, own: &Vec<usize>, count: usize, len: usize) -> (operands: Option<
        Vec<(bool, u8)>,
    >)
        requires
            self.wf(),
            len < 100,
        ensures
            match operands {
                Some(operands) => self@.captures(own@, count as int, len as int) == Some(operands@),
                None => self@.captures(own@, count as int, len as int) is None,
            },
            operands is Some ==> len + 2 * count <= usize::MAX,
    {
        let mut operands: Vec<(bool, u8)> = Vec::new();
        let ghost all = Seq::new(
            count as nat,
            |i: int| (self@.arg(len + 2 * i) == Some(1u8), self@.arg(len + 2 * i + 1)->0),
        );
        let mut i: usize = 0;
        let mut at: usize = len;
        assert(operands@ =~= all.take(0));
        while i < count
            invariant
                self.wf(),
                i <= count,
                at == len + 2 * i,
                at <= usize::MAX,
                len < 100,
                all == Seq::new(
                    count as nat,
                    |i: int| (self@.arg(len + 2 * i) == Some(1u8), self@.arg(len + 2 * i + 1)->0),
                ),
                operands@ == all.take(i as int),
                forall|j: int|
                    0 <= j < i ==> (#[trigger] self@.arg(len + 2 * j)) is Some
                        && self@.capture_fits(own@, j, len as int),
            decreases count - i,
        {
            let first = self.arg(at);
            let second = if first.is_some() {
                self.arg(at + 1)
            } else {
                None
            };
            let (first, second) = match (first, second) {
                (Some(first), Some(second)) => (first, second),
                _ => {
                    assert(!(self@.arg(len + 2 * i) is Some && self@.capture_fits(
                        own@,
                        i as int,
                        len as int,
                    )));
                    return None;
                },
            };
            if first != 1 && second as usize >= own.len() {
                assert(!(self@.arg(len + 2 * i) is Some && self@.capture_fits(
                    own@,
                    i as int,
                    len as int,
                )));
                return None;
            }
            operands.push((first == 1, second));
            assert(operands@ =~= all.take(i + 1));
            at += 2;
            i += 1;
        }
        assert(operands@ =~= all);
        Some(operands)
    }

    fn capture_all(&mut self, operands: &Vec<(bool, u8)>, own: &Vec<usize>) -> (cells: Vec<usize>)
        requires
            old(self).wf(),
            old(self)@.frames.len() > 0,
            forall|i: int|
                0 <= i < operands@.len() ==> (#[trigger] operands@[i]).0 || operands@[i].1
                    < own@.len(),
        ensures
            final(self).wf(),
            (final(self)@, cells@) == old(self)@.capture_all(operands@, own@, 0, Seq::empty()),
            final(self)@.frames == old(self)@.frames,
            final(self)@.stack == old(self)@.stack,
    {
        let mut cells: Vec<usize> = Vec::new();
        let mut i: usize = 0;
        let ghost before = self@;
        assert(cells@ =~= Seq::empty());
        while i < operands.len()
            invariant
                self.wf(),
                i <= operands@.len(),
                self@.frames == before.frames,
                self@.stack == before.stack,
                before.frames.len() > 0,
                forall|i: int|
                    0 <= i < operands@.len() ==> (#[trigger] operands@[i]).0 || operands@[i].1
                        < own@.len(),
                self@.capture_all(operands@, own@, i as int, cells@) == before.capture_all(
                    operands@,
                    own@,
                    0,
                    Seq::empty(),
                ),
            decreases operands@.len() - i,
        {
            let (is_local, index): (bool, u8) = operands[i];
            assert(operands@[i as int] == (is_local, index));
            if is_local {
                let base: usize = self.frames[self.frames.len() - 1].base;
                let cell: usize = self.capture_upvalue(base.saturating_add(index as usize));
                cells.push(cell);
            } else {
                cells.push(own[index as usize]);
            }
            i += 1;
        }
        cells
    }

    fn closure(&mut self, constant: Option<usize>, len: usize) -> (r: Result<Step, Fault>)
        requires
            old(self).wf(),
            old(self)@.frames.len() > 0,
            len < 100,
        ensures
            final(self).wf(),
            did(old(self)@, final(self)@, r, old(self)@.closure(wide(constant), len as int)),
    {
        let value = match constant {
            Some(index) => self.constant(index),
            None => None,
        };
        let object: usize = match value {
            Some(Value::Obj(object)) => object,
            _ => return corrupt(),
        };
        if object >= self.heap.len() {
            return corrupt();
        }
        let count: usize = match self.heap.get(object) {
            Object::Function(f) => f.upvalue_count,
            _ => return corrupt(),
        };
        let own = self.own_cells();
        let operands = match self.captures(&own, count, len) {
            Some(operands) => operands,
            None => return corrupt(),
        };
        if let Some(fault) = self.result_fault(0) {
            proof {
                let (next, _) = self@.capture_all(operands@, own@, 0, Seq::empty());
                lemma_capture_keeps(self@, operands@, own@, 0, Seq::empty());
                assert(next.stack == self@.stack);
                assert(self@.result(0, Value::Nil, 1) == Outcome::Fails(fault));
            }
            return Err(fault);
        }
        assert(self@.result(0, Value::Nil, 1) is Next);
        assert forall|i: int| 0 <= i < operands@.len() implies (#[trigger] operands@[i]).0
            || operands@[i].1 < own@.len() by {
            assert(self@.arg(len + 2 * i) is Some && self@.capture_fits(own@, i, len as int));
        }
        let cells = self.capture_all(&operands, &own);
        self.result_object(0, Object::Closure { function: object, upvalues: cells }, len + 2 * count)
    }

    fn close_upvalue(&mut self) -> (r: Result<Step, Fault>)
        requires
            old(self).wf(),
            old(self)@.frames.len() > 0,
        ensures
            final(self).wf(),
            did(old(self)@, final(self)@, r, old(self)@.close_upvalue()),
    {
        if self.stack.len() == 0 {
            return corrupt();
        }
        let last: usize = self.stack.len() - 1;
        proof {
            lemma_close_keeps(self@, last as int);
        }
        self.close_upvalues(last);
        self.drop_values(1);
        self.skip(1);
        Ok(Step::Continue)
    }

    fn return_op(&mut self) -> (r: Result<Step, Fault>)
        requires
            old(self).wf(),
            old(self)@.frames.len() > 0,
        ensures
            final(self).wf(),
            did(old(self)@, final(self)@, r, old(self)@.return_op()),
    {
        let value = match self.peek(0) {
            Some(value) => value,
            None => return corrupt(),
        };
        let base: usize = self.frames[self.frames.len() - 1].base;
        if base >= self.stack.len() {
            return corrupt();
        }
        self.drop_values(1);
        proof {
            lemma_close_keeps(self@, base as int);
        }
        self.close_upvalues(base);
        let ghost closed = self@;
        self.frames.pop();
        self.stack.truncate(base);
        assert(self@.stack =~= closed.stack.take(base as int));
        assert(self@.frames =~= closed.frames.drop_last());
        if self.frames.len() == 0 {
            return Ok(Step::Complete);
        }
        self.stack.push(value);
        Ok(Step::Continue)
    }

    /// The class of an instance.
    fn instance(&self, value: Value) -> (class: Option<usize>)
        requires
            self.wf(),
        ensures
            match class {
                Some(class) => (self@.instance_of(value) matches Some((c, _)) && c == class) && value
                    is Obj && value->Obj_0 < self@.heap.objects.len(),
                None => self@.instance_of(value) is None,
            },
    {
        match value {
            Value::Obj(object) => {
                if object >= self.heap.len() {
                    return None;
                }
                match self.heap.get(object) {
                    Object::Instance { class, fields: _ } => Some(*class),
                    _ => None,
                }
            },
            _ => None,
        }
    }

    fn field(&self, instance: usize, key: Key) -> (value: Option<Value>)
        requires
            self.wf(),
            self@.instance_of(Value::Obj(instance)) is Some,
        ensures
            self@.instance_of(Value::Obj(instance)) matches Some((_, fields)) && match value {
                Some(v) => fields.contains_key(key) && fields[key] == v,
                None => !fields.contains_key(key),
            },
    {
        match self.heap.get(instance) {
            Object::Instance { class: _, fields } => fields.get(key),
            _ => None,
        }
    }

    /// A method of a class, where the class is one.
    fn find_method(&self, class: usize, key: Key) -> (method: Result<Value, Fault>)
        requires
            self.wf(),
        ensures
            match method {
                Ok(method) => self@.methods_of(class) is Some
                    && self@.methods_of(class)->0.contains_key(key)
                    && self@.methods_of(class)->0[key] == method,
                Err(fault) => if self@.methods_of(class) is Some {
                    !self@.methods_of(class)->0.contains_key(key) && fault
                        == (Fault::UndefinedProperty { name: key.object })
                } else {
                    fault == Fault::Message("Malformed bytecode.")
                },
            },
    {
        if class >= self.heap.len() {
            return Err(Fault::Message("Malformed bytecode."));
        }
        match self.heap.get(class) {
            Object::Class { name: _, methods } => match methods.get(key) {
                Some(method) => Ok(method),
                None => Err(Fault::UndefinedProperty { name: key.object }),
            },
            _ => Err(Fault::Message("Malformed bytecode.")),
        }
    }

    pub fn bind_method(&mut self, class: usize, key: Key, receiver: Value, n: usize) -> (r: Result<
        Step,
        Fault,
    >)
        requires
            old(self).wf(),
            old(self)@.frames.len() > 0,
        ensures
            final(self).wf(),
            did(
                old(self)@,
                final(self)@,
                r,
                old(self)@.bind_method(class, key, receiver, n as int),
            ),
    {
        match self.find_method(class, key) {
            Ok(Value::Obj(method)) => self.result_object(
                n,
                Object::BoundMethod { receiver, method },
                2,
            ),
            Ok(_) => corrupt(),
            Err(fault) => Err(fault),
        }
    }

    fn get_property(&mut self) -> (r: Result<Step, Fault>)
        requires
            old(self).wf(),
        ensures
            final(self).wf(),
            did(old(self)@, final(self)@, r, old(self)@.get_property()),
    {
        match (self.peek(0), self.name_arg(1)) {
            (Some(value), Some(key)) => match self.instance(value) {
                Some(class) => match self.field(value.as_obj(), key) {
                    Some(field) => self.result(1, field, 2),
                    None => self.bind_method(class, key, value, 1),
                },
                None => Err(Fault::Message("Only instances have properties.")),
            },
            _ => corrupt(),
        }
    }

    fn set_property(&mut self) -> (r: Result<Step, Fault>)
        requires
            old(self).wf(),
        ensures
            final(self).wf(),
            done(*old(self), *final(self), r, old(self)@.set_property()),
    {
        match (self.peek(1), self.peek(0), self.name_arg(1)) {
            (Some(target), Some(value), Some(key)) => {
                if self.instance(target).is_none() {
                    return Err(Fault::Message("Only instances have fields."));
                }
                let place: usize = target.as_obj();
                if let Some(fault) = self.result_fault(2) {
                    assert(self@.result(2, value, 2) == Outcome::Fails(fault));
                    return Err(fault);
                }
                assert(self@.result(2, value, 2) is Next);
                assert(self@.heap.get(place) is Instance);
                if let Object::Instance { class, mut fields } = self.heap.take(place) {
                    if fields.slot_count() > usize::MAX / 2 {
                        self.heap.replace(place, Object::Instance { class, fields });
                        assert(self@ =~= old(self)@);
                        return exhausted();
                    }
                    fields.set(key, value);
                    self.heap.replace(place, Object::Instance { class, fields });
                    assert(self@.heap =~= old(self)@.heap.replaced(
                        place,
                        Content::Instance { class, fields: fields@ },
                    ));
                }
                self.result(2, value, 2)
            },
            _ => corrupt(),
        }
    }

    fn get_super(&mut self) -> (r: Result<Step, Fault>)
        requires
            old(self).wf(),
        ensures
            final(self).wf(),
            did(old(self)@, final(self)@, r, old(self)@.get_super()),
    {
        match (self.peek(1), self.peek(0), self.name_arg(1)) {
            (Some(receiver), Some(Value::Obj(class)), Some(key)) => self.bind_method(
                class,
                key,
                receiver,
                2,
            ),
            _ => corrupt(),
        }
    }

    fn invoke_from_class(&mut self, class: usize, key: Key, count: usize) -> (r: Result<
        Step,
        Fault,
    >)
        requires
            old(self).wf(),
        ensures
            final(self).wf(),
            did(
                old(self)@,
                final(self)@,
                r,
                old(self)@.invoke_from_class(class, key, count as int),
            ),
    {
        match self.find_method(class, key) {
            Ok(method) => self.call_method(method, count, 3),
            Err(fault) => Err(fault),
        }
    }

    fn super_invoke(&mut self) -> (r: Result<Step, Fault>)
        requires
            old(self).wf(),
        ensures
            final(self).wf(),
            did(old(self)@, final(self)@, r, old(self)@.super_invoke()),
    {
        match (self.name_arg(1), self.arg(2), self.peek(0)) {
            (Some(key), Some(count), Some(Value::Obj(class))) => {
                let superclass = self.stack[self.stack.len() - 1];
                self.drop_values(1);
                let r = self.invoke_from_class(class, key, count as usize);
                if r.is_err() {
                    self.stack.push(superclass);
                    assert(self@ =~= old(self)@);
                }
                r
            },
            _ => corrupt(),
        }
    }

    fn class(&mut self) -> (r: Result<Step, Fault>)
        requires
            old(self).wf(),
        ensures
            final(self).wf(),
            did(old(self)@, final(self)@, r, old(self)@.class()),
    {
        match self.name_arg(1) {
            Some(key) => self.result_object(
                0,
                Object::Class { name: key.object, methods: Table::new() },
                2,
            ),
            None => corrupt(),
        }
    }

    fn class_at(&self, depth: usize) -> (class: Option<usize>)
        requires
            self.wf(),
        ensures
            match class {
                Some(class) => (self@.class_at(depth as int) matches Some((c, _, _)) && c == class)
                    && class < self@.heap.objects.len() && self@.top(depth as int)
                    == Some(Value::Obj(class)),
                None => self@.class_at(depth as int) is None,
            },
    {
        match self.peek(depth) {
            Some(Value::Obj(object)) => {
                if object >= self.heap.len() {
                    return None;
                }
                match self.heap.get(object) {
                    Object::Class { .. } => Some(object),
                    _ => None,
                }
            },
            _ => None,
        }
    }

    /// How many places the table of a class has.
    fn method_slots(&self, class: usize) -> (slots: usize)
        requires
            self.wf(),
            self@.heap.get(class) is Class,
        ensures
            slots > usize::MAX / 16 ==> !self.has_room(),
            self.heap.class_slots(class) == slots,
    {
        match self.heap.get(class) {
            Object::Class { name: _, methods } => methods.slot_count(),
            _ => 0,
        }
    }

    fn inherit(&mut self) -> (r: Result<Step, Fault>)
        requires
            old(self).wf(),
            old(self)@.frames.len() > 0,
        ensures
            final(self).wf(),
            done(*old(self), *final(self), r, old(self)@.inherit()),
    {
        if self.peek(1).is_none() {
            return corrupt();
        }
        let superclass: usize = match self.class_at(1) {
            Some(superclass) => superclass,
            None => return Err(Fault::Message("Superclass must be a class.")),
        };
        let class: usize = match self.class_at(0) {
            Some(class) => class,
            None => return corrupt(),
        };
        if class == superclass {
            self.drop_values(1);
            self.skip(1);
            proof {
                let (_, name, methods) = old(self)@.class_at(0)->0;
                assert(methods.union_prefer_right(methods) =~= methods);
                assert(self@.heap =~= old(self)@.heap.replaced(
                    class,
                    Content::Class { name, methods },
                ));
            }
            return Ok(Step::Continue);
        }
        assert(self@.heap.get(class) is Class);
        if self.method_slots(class) > usize::MAX / 16 || self.method_slots(superclass) > usize::MAX
            / 16 {
            return exhausted();
        }
        if let Object::Class { name, mut methods } = self.heap.take(class) {
            if let Object::Class { name: _, methods: inherited } = self.heap.get(superclass) {
                methods.add_all(inherited);
            }
            self.heap.replace(class, Object::Class { name, methods });
            assert(self@.heap =~= old(self)@.heap.replaced(
                class,
                Content::Class { name, methods: methods@ },
            ));
        }
        self.drop_values(1);
        self.skip(1);
        Ok(Step::Continue)
    }

    fn method(&mut self) -> (r: Result<Step, Fault>)
        requires
            old(self).wf(),
        ensures
            final(self).wf(),
            done(*old(self), *final(self), r, old(self)@.method()),
    {
        match (self.name_arg(1), self.peek(0), self.class_at(1)) {
            (Some(key), Some(method), Some(class)) => {
                assert(self@.heap.get(class) is Class);
                if let Object::Class { name, mut methods } = self.heap.take(class) {
                    if methods.slot_count() > usize::MAX / 2 {
                        self.heap.replace(class, Object::Class { name, methods });
                        assert(self@ =~= old(self)@);
                        return exhausted();
                    }
                    methods.set(key, method);
                    self.heap.replace(class, Object::Class { name, methods });
                    assert(self@.heap =~= old(self)@.heap.replaced(
                        class,
                        Content::Class { name, methods: methods@ },
                    ));
                }
                self.drop_values(1);
                self.skip(2);
                Ok(Step::Continue)
            },
            _ => corrupt(),
        }
    }

    /// The items of a list, out of their place.
    fn take_items(&mut self, list: usize) -> (items: Vec<Value>)
        requires
            old(self).wf(),
            list < old(self)@.heap.objects.len(),
            old(self)@.heap.get(list) is List,
        ensures
            final(self).wf(),
            Content::List(items@) == old(self)@.heap.get(list),
            final(self)@ == old(self)@.with_content(list, Content::Free),
    {
        match self.heap.take(list) {
            Object::List(items) => items,
            _ => Vec::new(),
        }
    }

    fn list_append(&mut self, list: usize, count: usize) -> (r: Result<Step, Fault>)
        requires
            old(self).wf(),
            old(self)@.frames.len() > 0,
            list < old(self)@.heap.objects.len(),
            old(self)@.heap.get(list) is List,
            count < old(self)@.stack.len(),
        ensures
            final(self).wf(),
            did(
                old(self)@,
                final(self)@,
                r,
                old(self)@.list_append(list, old(self)@.heap.get(list)->List_0, count as int),
            ),
    {
        if count != 1 {
            return Err(Fault::Message("append() takes 1 argument."));
        }
        if let Some(fault) = self.result_fault(2) {
            assert(self@.result(2, Value::Nil, 3) == Outcome::Fails(fault));
            return Err(fault);
        }
        assert(self@.result(2, Value::Nil, 3) is Next);
        let value = self.stack[self.stack.len() - 1];
        let mut items = self.take_items(list);
        items.push(value);
        self.heap.replace(list, Object::List(items));
        assert(self@ =~= old(self)@.with_content(list, Content::List(items@)));
        self.result(2, Value::Nil, 3)
    }

    fn list_pop(&mut self, list: usize, count: usize) -> (r: Result<Step, Fault>)
        requires
            old(self).wf(),
            old(self)@.frames.len() > 0,
            list < old(self)@.heap.objects.len(),
            old(self)@.heap.get(list) is List,
            count < old(self)@.stack.len(),
        ensures
            final(self).wf(),
            did(
                old(self)@,
                final(self)@,
                r,
                old(self)@.list_pop(list, old(self)@.heap.get(list)->List_0, count as int),
            ),
    {
        if count != 0 {
            return Err(Fault::Message("pop() takes 0 arguments."));
        }
        if let Some(fault) = self.result_fault(1) {
            assert(self@.result(1, Value::Nil, 3) == Outcome::Fails(fault));
            return Err(fault);
        }
        assert(self@.result(1, Value::Nil, 3) is Next);
        let mut items = self.take_items(list);
        let value = match items.pop() {
            Some(value) => value,
            None => Value::Nil,
        };
        self.heap.replace(list, Object::List(items));
        assert(self@ =~= old(self)@.with_content(list, Content::List(items@)));
        self.result(1, value, 3)
    }

    fn list_len(&mut self, list: usize, count: usize) -> (r: Result<Step, Fault>)
        requires
            old(self).wf(),
            old(self)@.frames.len() > 0,
            list < old(self)@.heap.objects.len(),
            old(self)@.heap.get(list) is List,
        ensures
            final(self).wf(),
            did(
                old(self)@,
                final(self)@,
                r,
                old(self)@.list_len(old(self)@.heap.get(list)->List_0, count as int),
            ),
    {
        if count != 0 {
            return Err(Fault::Message("len() takes 0 arguments."));
        }
        let len: usize = match self.heap.get(list) {
            Object::List(items) => items.len(),
            _ => 0,
        };
        match count_number(len as u64) {
            Some(bits) => self.result(1, Value::Number(bits), 3),
            None => Err(Fault::Message("List is too long.")),
        }
    }

    fn list_delete(&mut self, list: usize, count: usize) -> (r: Result<Step, Fault>)
        requires
            old(self).wf(),
            old(self)@.frames.len() > 0,
            list < old(self)@.heap.objects.len(),
            old(self)@.heap.get(list) is List,
            count < old(self)@.stack.len(),
        ensures
            final(self).wf(),
            did(
                old(self)@,
                final(self)@,
                r,
                old(self)@.list_delete(list, old(self)@.heap.get(list)->List_0, count as int),
            ),
    {
        if count != 1 {
            return Err(Fault::Message("delete() takes 1 argument."));
        }
        let bits: u64 = match self.stack[self.stack.len() - 1] {
            Value::Number(bits) => bits,
            _ => return Err(Fault::Message("delete() index must be a number.")),
        };
        let len: usize = match self.heap.get(list) {
            Object::List(items) => items.len(),
            _ => 0,
        };
        let whole: u64 = whole_part(bits);
        let index: usize = if bits >= SIGN_BIT && whole > 0 {
            if whole > len as u64 {
                return Err(Fault::Message("List index out of bounds."));
            }
            len - whole as usize
        } else {
            if whole >= len as u64 {
                return Err(Fault::Message("List index out of bounds."));
            }
            whole as usize
        };
        assert(index == delete_index(len as int, bits));
        if let Some(fault) = self.result_fault(2) {
            assert(self@.result(2, Value::Nil, 3) == Outcome::Fails(fault));
            return Err(fault);
        }
        assert(self@.result(2, Value::Nil, 3) is Next);
        let mut items = self.take_items(list);
        items.remove(index);
        self.heap.replace(list, Object::List(items));
        assert(self@ =~= old(self)@.with_content(list, Content::List(items@)));
        self.result(2, Value::Nil, 3)
    }

    fn call_list_method(&mut self, list: usize, name: &str, key: Key, count: usize) -> (r: Result<
        Step,
        Fault,
    >)
        requires
            old(self).wf(),
            old(self)@.frames.len() > 0,
            list < old(self)@.heap.objects.len(),
            old(self)@.heap.get(list) is List,
            count < old(self)@.stack.len(),
        ensures
            final(self).wf(),
            did(
                old(self)@,
                final(self)@,
                r,
                old(self)@.list_method(
                    list,
                    old(self)@.heap.get(list)->List_0,
                    name@,
                    key,
                    count as int,
                ),
            ),
    {
        if same_text(name, "append") {
            self.list_append(list, count)
        } else if same_text(name, "pop") {
            self.list_pop(list, count)
        } else if same_text(name, "len") {
            self.list_len(list, count)
        } else if same_text(name, "delete") {
            self.list_delete(list, count)
        } else {
            Err(Fault::NoListMethod { name: key.object })
        }
    }

    /// Calls what a field of an instance holds.
    fn invoke_field(&mut self, field: Value, count: usize, number: u64) -> (r: Result<Step, Fault>)
        requires
            old(self).wf(),
            old(self)@.frames.len() > 0,
            count < old(self)@.stack.len(),
        ensures
            final(self).wf(),
            did(
                old(self)@,
                final(self)@,
                r,
                old(self)@.with_receiver(count as int, field).call_value(
                    field,
                    count as int,
                    3,
                    number,
                ),
            ),
    {
        let place: usize = self.stack.len() - 1 - count;
        let receiver = self.stack[place];
        self.set_receiver(count, field);
        let r = self.call_value(field, count, 3, number);
        if r.is_err() {
            self.set_receiver(count, receiver);
            assert(self@ =~= old(self)@);
        }
        r
    }

    fn invoke(&mut self, number: u64) -> (r: Result<Step, Fault>)
        requires
            old(self).wf(),
        ensures
            final(self).wf(),
            did(old(self)@, final(self)@, r, old(self)@.invoke(number)),
    {
        let (key, count): (Key, usize) = match (self.name_arg(1), self.arg(2)) {
            (Some(key), Some(count)) => (key, count as usize),
            _ => return corrupt(),
        };
        let receiver = match self.peek(count) {
            Some(receiver) => receiver,
            None => return corrupt(),
        };
        if self.items(receiver).is_some() {
            let name = match self.text(Value::Obj(key.object)) {
                Some(name) => name.clone(),
                None => return corrupt(),
            };
            return self.call_list_method(receiver.as_obj(), name.as_str(), key, count);
        }
        match self.instance(receiver) {
            Some(class) => match self.field(receiver.as_obj(), key) {
                Some(field) => self.invoke_field(field, count, number),
                None => self.invoke_from_class(class, key, count),
            },
            None => Err(Fault::Message("Only instances have methods.")),
        }
    }

    /// The instruction that comes next.
    pub fn next_op(&self) -> (op: Option<OpCode>)
        requires
            self.wf(),
        ensures
            op == self@.next_op(),
            op is Some ==> self@.frames.len() > 0,
    {
        match self.arg(0) {
            Some(byte) => OpCode::from_byte(byte),
            None => None,
        }
    }

    fn is_native(&self, value: Value) -> (native: bool)
        requires
            self.wf(),
        ensures
            native == self@.is_native(value),
    {
        match value {
            Value::Obj(object) => object < self.heap.len() && matches!(
                self.heap.get(object),
                Object::Native
            ),
            _ => false,
        }
    }

    fn compute(&self, op: ArithmeticOp) -> (request: Request)
        ensures
            request == self@.compute(op),
    {
        match (self.peek(1), self.peek(0)) {
            (Some(Value::Number(left)), Some(Value::Number(right))) => Request::Compute {
                op,
                left,
                right,
            },
            _ => Request::Nothing,
        }
    }

    fn callee(&self, op: OpCode) -> (callee: Option<Value>)
        requires
            self.wf(),
            self@.next_op() == Some(op),
        ensures
            callee == self@.callee(),
    {
        match op {
            OpCode::Call => match self.arg(1) {
                Some(count) => self.peek(count as usize),
                None => None,
            },
            OpCode::Invoke => match (self.name_arg(1), self.arg(2)) {
                (Some(key), Some(count)) => match self.peek(count as usize) {
                    Some(receiver) => if self.instance(receiver).is_some() {
                        self.field(receiver.as_obj(), key)
                    } else {
                        None
                    },
                    None => None,
                },
                _ => None,
            },
            _ => None,
        }
    }

    /// What the next instruction needs from outside.
    pub fn request(&self) -> (request: Request)
        requires
            self.wf(),
        ensures
            request == self@.request(),
    {
        let op = match self.next_op() {
            Some(op) => op,
            None => return Request::Nothing,
        };
        match op {
            OpCode::Add => self.compute(ArithmeticOp::Add),
            OpCode::Subtract => self.compute(ArithmeticOp::Subtract),
            OpCode::Multiply => self.compute(ArithmeticOp::Multiply),
            OpCode::Divide => self.compute(ArithmeticOp::Divide),
            OpCode::IntDivide => self.compute(ArithmeticOp::IntDivide),
            OpCode::Print => match self.peek(0) {
                Some(value) => Request::Show { value },
                None => Request::Nothing,
            },
            _ => match self.callee(op) {
                Some(callee) => if self.is_native(callee) {
                    Request::Clock
                } else {
                    Request::Nothing
                },
                None => Request::Nothing,
            },
        }
    }

    /// Carries out the next instruction, with the result of the outside
    /// computation that it asks for and the texts of the numbers it prints.
    #[verifier::rlimit(40)]
    pub fn dispatch_one(&mut self, number: u64, texts: &NumberTexts) -> (r: Result<Step, Fault>)
        requires
            old(self).wf(),
        ensures
            final(self).wf(),
            done(*old(self), *final(self), r, old(self)@.step(number, *texts)),
    {
        proof {
            reveal(VmState::step);
        }
        let op = match self.next_op() {
            Some(op) => op,
            None => return corrupt(),
        };
        match op {
            OpCode::Constant => {
                let value = match self.byte_arg() {
                    Some(index) => self.constant(index),
                    None => None,
                };
                self.load(value, 2)
            },
            OpCode::ConstantLong => {
                let value = match self.long_arg(1) {
                    Some(index) => self.constant(index),
                    None => None,
                };
                self.load(value, 4)
            },
            OpCode::Nil => self.result(0, Value::Nil, 1),
            OpCode::True => self.result(0, Value::Bool(true), 1),
            OpCode::False => self.result(0, Value::Bool(false), 1),
            OpCode::Pop => self.pop(),
            OpCode::Dup => self.load(self.peek(0), 1),
            OpCode::GetLocal => self.get_local(self.byte_arg(), 2),
            OpCode::SetLocal => self.set_local(self.byte_arg(), 2),
            OpCode::GetLocalLong => self.get_local(self.short_arg(1), 3),
            OpCode::SetLocalLong => self.set_local(self.short_arg(1), 3),
            OpCode::GetGlobal => self.get_global(),
            OpCode::DefineGlobal => self.define_global(),
            OpCode::SetGlobal => self.set_global(),
            OpCode::GetUpvalue => self.get_upvalue(),
            OpCode::SetUpvalue => self.set_upvalue(),
            OpCode::BuildList => self.build_list(self.byte_arg(), 2),
            OpCode::BuildListLong => self.build_list(self.short_arg(1), 3),
            OpCode::GetIndex => self.get_index(),
            OpCode::SetIndex => self.set_index(),
            OpCode::Equal => self.equal(),
            OpCode::Greater => self.compare(true),
            OpCode::Less => self.compare(false),
            OpCode::Add => self.add_values(number),
            OpCode::Subtract => self.arithmetic(number),
            OpCode::Multiply => self.multiply(number),
            OpCode::Divide => self.arithmetic(number),
            OpCode::IntDivide => self.arithmetic(number),
            OpCode::Not => self.not(),
            OpCode::Negate => self.negate(),
            OpCode::Print => self.print(texts),
            OpCode::Jump => self.jump(true),
            OpCode::JumpIfFalse => self.jump_if_false(),
            OpCode::Loop => self.jump_back(),
            OpCode::Call => self.call_op(number),
            OpCode::Closure => self.closure(self.byte_arg(), 2),
            OpCode::CloseUpvalue => self.close_upvalue(),
            OpCode::Return => self.return_op(),
            OpCode::ClosureLong => self.closure(self.long_arg(1), 4),
            OpCode::GetProperty => self.get_property(),
            OpCode::SetProperty => self.set_property(),
            OpCode::GetSuper => self.get_super(),
            OpCode::Invoke => self.invoke(number),
            OpCode::SuperInvoke => self.super_invoke(),
            OpCode::Class => self.class(),
            OpCode::Inherit => self.inherit(),
            OpCode::Method => self.method(),
        }
    }
}

pub open spec fn wide(operand: Option<usize>) -> Option<int> {
    match operand {
        Some(n) => Some(n as int),
        None => None,
    }
}

pub fn next_activation(id: u64) -> (next: u64)
    ensures
        next == next_id(id),
{
    if id == u64::MAX {
        0
    } else {
        id + 1
    }
}

/// Puts more values behind those that are there.
fn extend(items: &mut Vec<Value>, more: &Vec<Value>)
    ensures
        final(items)@ == old(items)@ + more@,
{
    let mut i: usize = 0;
    while i < more.len()
        invariant
            i <= more@.len(),
            items@ == old(items)@ + more@.take(i as int),
        decreases more@.len() - i,
    {
        items.push(more[i]);
        i += 1;
        assert(items@ =~= old(items)@ + more@.take(i as int));
    }
    assert(more@.take(i as int) =~= more@);
}

proof fn lemma_product_above(a: int, b: int)
    requires
        0 < a,
        b > usize::MAX as int / a,
    ensures
        a * b > usize::MAX,
{
    vstd::arithmetic::div_mod::lemma_fundamental_div_mod(usize::MAX as int, a);
    let q = usize::MAX as int / a;
    assert(a * b >= a * q + a) by (nonlinear_arith)
        requires
            b >= q + 1,
            a > 0,
    ;
    assert(usize::MAX as int % a < a) by {
        vstd::arithmetic::div_mod::lemma_mod_bound(usize::MAX as int, a);
    }
}

proof fn lemma_product_within(a: int, b: int)
    requires
        0 < a,
        0 <= b <= usize::MAX as int / a,
    ensures
        a * b <= usize::MAX,
{
    vstd::arithmetic::div_mod::lemma_fundamental_div_mod(usize::MAX as int, a);
    let q = usize::MAX as int / a;
    assert(a * b <= a * q) by (nonlinear_arith)
        requires
            b <= q,
            a > 0,
    ;
    vstd::arithmetic::div_mod::lemma_mod_bound(usize::MAX as int, a);
}

proof fn lemma_repeat_nothing(items: Seq<Value>, n: nat)
    requires
        items.len() == 0,
    ensures
        repeat(items, n) == Seq::<Value>::empty(),
    decreases n,
{
    if n > 0 {
        lemma_repeat_nothing(items, (n - 1) as nat);
    }
    assert(repeat(items, n) =~= Seq::<Value>::empty());
}

/// Closing captured variables leaves the stack and the frames alone.
pub proof fn lemma_close_keeps(s: VmState, last: int)
    ensures
        s.closed_from(last).stack == s.stack,
        s.closed_from(last).frames == s.frames,
        s.closed_from(last).globals == s.globals,
        s.closed_from(last).heap.objects.len() == s.heap.objects.len(),
        s.closed_from(last).heap.interned == s.heap.interned,
    decreases s.open.len(),
{
    if s.open.len() > 0 && s.open_slot(s.open[0]) >= last && s.open_slot(s.open[0]) < s.stack.len()
        && s.open_slot(s.open[0]) >= 0 {
        let cell = s.open[0];
        let value = s.stack[s.open_slot(cell)];
        let next = VmState {
            heap: s.heap.replaced(cell, Content::Upvalue(UpvalueCell::Closed { value })),
            open: s.open.skip(1),
            ..s
        };
        lemma_close_keeps(next, last);
    }
}

/// Capturing variables leaves the stack and the frames alone.
pub proof fn lemma_capture_keeps(
    s: VmState,
    operands: Seq<(bool, u8)>,
    own: Seq<usize>,
    i: int,
    cells: Seq<usize>,
)
    ensures
        s.capture_all(operands, own, i, cells).0.stack == s.stack,
        s.capture_all(operands, own, i, cells).0.frames == s.frames,
    decreases operands.len() - i,
{
    if 0 <= i < operands.len() {
        if operands[i].0 {
            let (next, cell) = s.captured(plus(s.frame().base, operands[i].1 as int));
            lemma_capture_keeps(next, operands, own, i + 1, cells.push(cell));
        } else {
            lemma_capture_keeps(s, operands, own, i + 1, cells.push(own[operands[i].1 as int]));
        }
    }
}

} // verus!
