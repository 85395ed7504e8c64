//! What every instruction keeps.
use vstd::prelude::*;
use crate::machine::{played, Input, Outcome, VmState, FRAMES_MAX, STACK_MAX};
use crate::object::{Content, UpvalueCell};
use crate::table::Key;
use crate::value::Value;
use crate::vm::{lemma_capture_keeps, lemma_close_keeps};

verus! {

/// The stack and the calls are within their bounds.
pub open spec fn bounded(s: VmState) -> bool {
    s.stack.len() <= STACK_MAX && s.frames.len() <= FRAMES_MAX
}

pub open spec fn outcome_bounded(o: Outcome) -> bool {
    match o {
        Outcome::Next(t) => bounded(t),
        Outcome::Printed(t, _) => bounded(t),
        Outcome::Complete(t) => bounded(t),
        Outcome::Fails(_) => true,
    }
}

/// A call is within the bounds.
proof fn lemma_call_bounded(s: VmState, closure: usize, count: int, len: int)
    requires
        bounded(s),
        s.frames.len() > 0,
        0 <= count,
    ensures
        outcome_bounded(s.call(closure, count, len)),
{
}

proof fn lemma_call_value_bounded(s: VmState, callee: Value, count: int, len: int, number: u64)
    requires
        bounded(s),
        s.frames.len() > 0,
        0 <= count,
    ensures
        outcome_bounded(s.call_value(callee, count, len, number)),
{
    if count + 1 > s.stack.len() {
    } else if let Value::Obj(object) = callee {
        let made = s.allocated(
            Content::Instance { class: object, fields: Map::empty() },
        ).with_receiver(count, Value::Obj(s.heap.next()));
        match s.heap.get(object) {
            Content::BoundMethod { receiver, method } => {
                lemma_call_bounded(s.with_receiver(count, receiver), method, count, len);
            },
            Content::Class { name, methods } => {
                if let Some(key) = s.heap.key(s.init) {
                    if let Value::Obj(closure) = methods[key] {
                        lemma_call_bounded(made, closure, count, len);
                    }
                }
            },
            Content::Closure { function, upvalues } => {
                lemma_call_bounded(s, object, count, len);
            },
            _ => {},
        }
    }
}

proof fn lemma_call_op_bounded(s: VmState, number: u64)
    requires
        bounded(s),
        s.frames.len() > 0,
    ensures
        outcome_bounded(s.call_op(number)),
{
    if let Some(count) = s.arg(1) {
        if let Some(callee) = s.top(count as int) {
            lemma_call_value_bounded(s, callee, count as int, 2, number);
        }
    }
}

proof fn lemma_from_class_bounded(s: VmState, class: usize, key: Key, count: int)
    requires
        bounded(s),
        s.frames.len() > 0,
        0 <= count,
    ensures
        outcome_bounded(s.invoke_from_class(class, key, count)),
{
    if let Some(methods) = s.methods_of(class) {
        if let Value::Obj(closure) = methods[key] {
            lemma_call_bounded(s, closure, count, 3);
        }
    }
}

proof fn lemma_list_method_bounded(
    s: VmState,
    list: usize,
    items: Seq<Value>,
    name: Seq<char>,
    key: Key,
    count: int,
)
    requires
        bounded(s),
        s.frames.len() > 0,
    ensures
        outcome_bounded(s.list_method(list, items, name, key, count)),
{
    assert(outcome_bounded(s.list_append(list, items, count)));
    assert(outcome_bounded(s.list_pop(list, items, count)));
    assert(outcome_bounded(s.list_len(items, count)));
    assert(outcome_bounded(s.list_delete(list, items, count)));
}

proof fn lemma_invoke_bounded(s: VmState, number: u64)
    requires
        bounded(s),
        s.frames.len() > 0,
    ensures
        outcome_bounded(s.invoke(number)),
{
    if let (Some(key), Some(count)) = (s.name_arg(1), s.arg(2)) {
        if let Some(receiver) = s.top(count as int) {
            let n = count as int;
            if let Some(items) = s.items_of(receiver) {
                let name = s.text_of(Value::Obj(key.object))->0;
                lemma_list_method_bounded(s, receiver->Obj_0, items, name, key, n);
            } else if let Some((class, fields)) = s.instance_of(receiver) {
                if fields.contains_key(key) {
                    let t = s.with_receiver(n, fields[key]);
                    lemma_call_value_bounded(t, fields[key], n, 3, number);
                } else {
                    lemma_from_class_bounded(s, class, key, n);
                }
            }
        }
    }
}

proof fn lemma_super_invoke_bounded(s: VmState)
    requires
        bounded(s),
        s.frames.len() > 0,
    ensures
        outcome_bounded(s.super_invoke()),
{
    if let (Some(key), Some(count), Some(Value::Obj(class))) = (s.name_arg(1), s.arg(2), s.top(0)) {
        lemma_from_class_bounded(s.dropped(1), class, key, count as int);
    }
}

/// No instruction lets the stack or the calls grow beyond their bounds.
pub proof fn law_step_keeps_bounds(s: VmState, input: Input)
    requires
        bounded(s),
    ensures
        outcome_bounded(s.step(input.number, input.texts)),
{
    reveal(VmState::step);
    if s.frames.len() > 0 {
        lemma_step_bounded(s, input);
    } else {
        assert(s.arg(0) is None);
    }
}

#[verifier::rlimit(60)]
proof fn lemma_step_bounded(s: VmState, input: Input)
    requires
        bounded(s),
        s.frames.len() > 0,
    ensures
        outcome_bounded(s.step(input.number, input.texts)),
{
    let n = input.number;
    assert(outcome_bounded(s.load(s.constant_arg(s.byte_arg()), 2)));
    assert(outcome_bounded(s.load(s.constant_arg(s.long_arg(1)), 4)));
    assert(outcome_bounded(s.result(0, Value::Nil, 1)));
    assert(outcome_bounded(s.result(0, Value::Bool(true), 1)));
    assert(outcome_bounded(s.result(0, Value::Bool(false), 1)));
    assert(outcome_bounded(s.pop()));
    assert(outcome_bounded(s.load(s.top(0), 1)));
    assert(outcome_bounded(s.get_local(s.byte_arg(), 2)));
    assert(outcome_bounded(s.set_local(s.byte_arg(), 2)));
    assert(outcome_bounded(s.get_local(s.short_arg(1), 3)));
    assert(outcome_bounded(s.set_local(s.short_arg(1), 3)));
    assert(outcome_bounded(s.get_global()));
    assert(outcome_bounded(s.define_global()));
    assert(outcome_bounded(s.set_global()));
    assert(outcome_bounded(s.get_upvalue()));
    assert(outcome_bounded(s.set_upvalue()));
    assert(outcome_bounded(s.build_list(s.byte_arg(), 2)));
    assert(outcome_bounded(s.build_list(s.short_arg(1), 3)));
    assert(outcome_bounded(s.get_index()));
    assert(outcome_bounded(s.set_index()));
    assert(outcome_bounded(s.equal()));
    assert(outcome_bounded(s.compare(true)));
    assert(outcome_bounded(s.compare(false)));
    assert(outcome_bounded(s.add(n)));
    assert(outcome_bounded(s.arithmetic(n)));
    assert(outcome_bounded(s.multiply(n)));
    assert(outcome_bounded(s.not()));
    assert(outcome_bounded(s.negate()));
    assert(outcome_bounded(s.print(input.texts)));
    assert(outcome_bounded(s.jump(true)));
    assert(outcome_bounded(s.jump_if_false()));
    assert(outcome_bounded(s.jump_back()));
    assert(outcome_bounded(s.call_op(n))) by {
        lemma_call_op_bounded(s, n);
    }
    assert(outcome_bounded(s.closure(s.byte_arg(), 2))) by {
        lemma_closure_bounded(s, s.byte_arg(), 2);
    }
    assert(outcome_bounded(s.close_upvalue())) by {
        lemma_close_keeps(s, s.stack.len() - 1);
    }
    assert(outcome_bounded(s.return_op())) by {
        lemma_close_keeps(s.dropped(1), s.frame().base as int);
    }
    assert(outcome_bounded(s.closure(s.long_arg(1), 4))) by {
        lemma_closure_bounded(s, s.long_arg(1), 4);
    }
    assert(outcome_bounded(s.get_property()));
    assert(outcome_bounded(s.set_property()));
    assert(outcome_bounded(s.get_super()));
    assert(outcome_bounded(s.invoke(n))) by {
        lemma_invoke_bounded(s, n);
    }
    assert(outcome_bounded(s.super_invoke())) by {
        lemma_super_invoke_bounded(s);
    }
    assert(outcome_bounded(s.class()));
    assert(outcome_bounded(s.inherit()));
    assert(outcome_bounded(s.method()));
    reveal(VmState::step);
}

proof fn lemma_closure_bounded(s: VmState, constant: Option<int>, len: int)
    requires
        bounded(s),
        s.frames.len() > 0,
    ensures
        outcome_bounded(s.closure(constant, len)),
{
    if let Some(Value::Obj(object)) = s.constant_arg(constant) {
        if let Content::Function(f) = s.heap.get(object) {
            if let Some(operands) = s.captures(s.own_cells(), f.upvalue_count as int, len) {
                lemma_capture_keeps(s, operands, s.own_cells(), 0, Seq::empty());
            }
        }
    }
}

/// A whole execution stays within the bounds.
pub proof fn law_execution_keeps_bounds(s: VmState, inputs: Seq<Input>)
    requires
        bounded(s),
    ensures
        outcome_bounded(played(s, inputs).outcome),
    decreases inputs.len(),
{
    if inputs.len() > 0 {
        law_execution_keeps_bounds(s, inputs.drop_last());
        let before = played(s, inputs.drop_last());
        match before.outcome {
            Outcome::Next(t) => law_step_keeps_bounds(t, inputs.last()),
            Outcome::Printed(t, _) => law_step_keeps_bounds(t, inputs.last()),
            _ => {},
        }
    }
}

/// The open captured variables are on the heap, the highest on the stack first.
pub open spec fn in_order(s: VmState) -> bool {
    &&& forall|i: int|
        0 <= i < s.open.len() ==> (#[trigger] s.open[i]) < s.heap.objects.len() && s.open_slot(
            s.open[i],
        ) >= 0
    &&& forall|i: int, j: int|
        0 <= i < j < s.open.len() ==> s.open_slot(#[trigger] s.open[i]) > s.open_slot(
            #[trigger] s.open[j],
        )
}

proof fn lemma_open_place(s: VmState, slot: int, i: int)
    requires
        in_order(s),
        0 <= i <= s.open.len(),
    ensures
        ({
            let place = s.open_place(slot, i);
            &&& i <= place <= s.open.len()
            &&& forall|j: int| i <= j < place ==> s.open_slot(#[trigger] s.open[j]) > slot
            &&& place < s.open.len() ==> s.open_slot(s.open[place]) <= slot
        }),
    decreases s.open.len() - i,
{
    if i < s.open.len() && s.open_slot(s.open[i]) > slot {
        lemma_open_place(s, slot, i + 1);
    }
}

/// Capturing a stack slot keeps the order of the open captured variables, and
/// capturing it twice gives one object.
pub proof fn law_capturing_is_by_slot(s: VmState, slot: usize)
    requires
        in_order(s),
        s.heap.objects.len() < usize::MAX,
    ensures
        ({
            let (t, cell) = s.captured(slot);
            &&& in_order(t)
            &&& t.open.contains(cell)
            &&& t.open_slot(cell) == slot
            &&& t.captured(slot) == (t, cell)
        }),
{
    let place = s.open_place(slot as int, 0);
    lemma_open_place(s, slot as int, 0);
    let (t, cell) = s.captured(slot);
    if place < s.open.len() && s.open_slot(s.open[place]) == slot {
        assert(t == s);
        assert(s.open[place] == cell);
    } else {
        assert(t.open[place] == cell);
        assert forall|i: int| 0 <= i < t.open.len() implies (#[trigger] t.open[i])
            < t.heap.objects.len() && t.open_slot(t.open[i]) >= 0 by {
            if i < place {
                assert(t.open[i] == s.open[i]);
            } else if i > place {
                assert(t.open[i] == s.open[i - 1]);
            }
        }
        assert forall|i: int, j: int| 0 <= i < j < t.open.len() implies t.open_slot(
            #[trigger] t.open[i],
        ) > t.open_slot(#[trigger] t.open[j]) by {
            let a = if i < place {
                i
            } else {
                i - 1
            };
            let b = if j < place {
                j
            } else {
                j - 1
            };
            if i != place {
                assert(t.open[i] == s.open[a]);
            }
            if j != place {
                assert(t.open[j] == s.open[b]);
            }
            if i == place && b > place {
                assert(s.open_slot(s.open[place]) > s.open_slot(s.open[b]));
            }
        }
        lemma_open_place(t, slot as int, 0);
        let again = t.open_place(slot as int, 0);
        if again < place {
            assert(t.open_slot(t.open[again]) > t.open_slot(t.open[place]));
        } else if again > place {
            assert(t.open_slot(t.open[place]) > slot);
        }
    }
}

/// Closing from a stack slot on leaves no captured variable open there, and
/// each that was keeps its value.
pub proof fn law_closing_leaves_nothing_open_above(s: VmState, last: int)
    requires
        in_order(s),
        forall|i: int|
            0 <= i < s.open.len() ==> s.open_slot(#[trigger] s.open[i]) < s.stack.len(),
    ensures
        ({
            let t = s.closed_from(last);
            &&& in_order(t)
            &&& forall|i: int| 0 <= i < t.open.len() ==> t.open_slot(#[trigger] t.open[i]) < last
            &&& forall|i: int|
                0 <= i < s.open.len() && s.open_slot(#[trigger] s.open[i]) >= last ==> t.heap.get(
                    s.open[i],
                ) == Content::Upvalue(
                    UpvalueCell::Closed { value: s.stack[s.open_slot(s.open[i])] },
                )
        }),
    decreases s.open.len(),
{
    if s.open.len() > 0 && s.open_slot(s.open[0]) >= last {
        let cell = s.open[0];
        let value = s.stack[s.open_slot(cell)];
        let next = VmState {
            heap: s.heap.replaced(cell, Content::Upvalue(UpvalueCell::Closed { value })),
            open: s.open.skip(1),
            ..s
        };
        assert(s.closed_from(last) == next.closed_from(last));
        assert forall|i: int| 0 <= i < next.open.len() implies (#[trigger] next.open[i])
            == s.open[i + 1] && next.open[i] != cell && next.open_slot(next.open[i])
            == s.open_slot(s.open[i + 1]) && next.open[i] < next.heap.objects.len() by {
            assert(s.open_slot(s.open[0]) > s.open_slot(s.open[i + 1]));
        }
        assert forall|i: int, j: int| 0 <= i < j < next.open.len() implies next.open_slot(
            #[trigger] next.open[i],
        ) > next.open_slot(#[trigger] next.open[j]) by {
            assert(s.open_slot(s.open[i + 1]) > s.open_slot(s.open[j + 1]));
        }
        law_closing_leaves_nothing_open_above(next, last);
        let t = next.closed_from(last);
        lemma_closed_untouched(next, last, cell);
        assert forall|i: int|
            0 <= i < s.open.len() && s.open_slot(#[trigger] s.open[i]) >= last implies t.heap.get(
            s.open[i],
        ) == Content::Upvalue(UpvalueCell::Closed { value: s.stack[s.open_slot(s.open[i])] }) by {
            if i > 0 {
                assert(next.open[i - 1] == s.open[i]);
                assert(next.open_slot(next.open[i - 1]) >= last);
            }
        }
    } else {
        assert forall|i: int| 0 <= i < s.open.len() implies s.open_slot(#[trigger] s.open[i])
            < last by {
            if i > 0 {
                assert(s.open_slot(s.open[0]) > s.open_slot(s.open[i]));
            }
        }
    }
}

/// Closing changes open captured variables only.
proof fn lemma_closed_untouched(s: VmState, last: int, object: usize)
    requires
        forall|i: int| 0 <= i < s.open.len() ==> (#[trigger] s.open[i]) != object,
        forall|i: int| 0 <= i < s.open.len() ==> (#[trigger] s.open[i]) < s.heap.objects.len(),
    ensures
        s.closed_from(last).heap.get(object) == s.heap.get(object),
    decreases s.open.len(),
{
    if s.open.len() > 0 && s.open_slot(s.open[0]) >= last && s.open_slot(s.open[0]) < s.stack.len()
        && s.open_slot(s.open[0]) >= 0 {
        let cell = s.open[0];
        let value = s.stack[s.open_slot(cell)];
        let next = VmState {
            heap: s.heap.replaced(cell, Content::Upvalue(UpvalueCell::Closed { value })),
            open: s.open.skip(1),
            ..s
        };
        assert forall|i: int| 0 <= i < next.open.len() implies (#[trigger] next.open[i]) != object
            && next.open[i] < next.heap.objects.len() by {
            assert(next.open[i] == s.open[i + 1]);
        }
        lemma_closed_untouched(next, last, object);
    }
}

} // verus!
