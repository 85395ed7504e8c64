//! What the methods of lists do, and the instructions for classes.
use vstd::prelude::*;
use crate::chunk::OpCode;
use crate::instruction_laws::{
    below, comes_to, goes_on, has_operand, lemma_comes_to, lemma_goes_on, list_in, names_global,
    operand, replacing,
};
use crate::machine::{Fault, Input, Outcome, VmState, STACK_MAX};
use crate::number::stands_for;
use crate::number_laws::{law_counts_are_exact, law_whole_part_of_whole_numbers};
use crate::object::{Content, Function, HeapState};
use crate::table::Key;
use crate::value::Value;

verus! {

/// The machine comes to the call of a method by a name, with `count` arguments.
pub open spec fn invokes(s: VmState, f: Function, key: Key, count: int) -> bool {
    &&& comes_to(s, f, OpCode::Invoke)
    &&& names_global(s, f, key)
    &&& has_operand(s, f, 2)
    &&& operand(s, f, 2) == count
    &&& count < s.stack.len() <= STACK_MAX
}

pub open spec fn is_named(heap: HeapState, key: Key, name: Seq<char>) -> bool {
    heap.get(key.object) matches Content::Text { text, hash: _ } && text == name
}

/// Only one object differs.
pub open spec fn only_changes(a: HeapState, b: HeapState, object: Value) -> bool {
    forall|other: usize| Value::Obj(other) != object ==> b.get(other) == a.get(other)
}

proof fn lemma_invokes(s: VmState, f: Function, input: Input, items: Seq<Value>, key: Key, count: int)
    requires
        invokes(s, f, key, count),
        list_in(s.heap, below(s.stack, count), items),
    ensures
        s.step(input.number, input.texts) == s.list_method(
            below(s.stack, count)->Obj_0,
            items,
            s.heap.get(key.object)->Text_text,
            key,
            count,
        ),
        s.frames.last().ip + 3 <= usize::MAX,
{
    lemma_comes_to(s, f, OpCode::Invoke);
    assert(s.arg(1) == Some(f.chunk.code@[s.frames.last().ip + 1]));
    assert(s.arg(2) == Some(f.chunk.code@[s.frames.last().ip + 2]));
    assert(s.step(input.number, input.texts) == s.invoke(input.number)) by {
        reveal(VmState::step);
    }
    assert(s.items_of(below(s.stack, count)) == Some(items));
}

/// `append` puts its argument at the end of the list, and gives `nil`.
pub proof fn law_append(s: VmState, f: Function, input: Input, items: Seq<Value>, key: Key)
    requires
        invokes(s, f, key, 1),
        list_in(s.heap, below(s.stack, 1), items),
        is_named(s.heap, key, "append"@),
    ensures
        s.step(input.number, input.texts) matches Outcome::Next(t) && {
            &&& t.stack == replacing(s.stack, 2, Value::Nil)
            &&& list_in(t.heap, below(s.stack, 1), items.push(s.stack.last()))
            &&& only_changes(s.heap, t.heap, below(s.stack, 1))
        },
{
    lemma_invokes(s, f, input, items, key, 1);
    let list = below(s.stack, 1)->Obj_0;
    let made = s.with_content(list, Content::List(items.push(s.stack.last())));
    lemma_goes_on(made, replacing(s.stack, 2, Value::Nil), 3);
}

/// `pop` takes the last item off the list and gives it; an empty list gives
/// `nil`.
pub proof fn law_pop(s: VmState, f: Function, input: Input, items: Seq<Value>, key: Key)
    requires
        invokes(s, f, key, 0),
        list_in(s.heap, below(s.stack, 0), items),
        is_named(s.heap, key, "pop"@),
    ensures
        s.step(input.number, input.texts) matches Outcome::Next(t) && {
            &&& items.len() == 0 ==> t.stack == replacing(s.stack, 1, Value::Nil) && list_in(
                t.heap,
                s.stack.last(),
                items,
            )
            &&& items.len() > 0 ==> t.stack == replacing(s.stack, 1, items.last()) && list_in(
                t.heap,
                s.stack.last(),
                items.take(items.len() - 1),
            )
            &&& only_changes(s.heap, t.heap, s.stack.last())
        },
{
    reveal_strlit("pop");
    reveal_strlit("append");
    assert("pop"@.len() != "append"@.len());
    lemma_invokes(s, f, input, items, key, 0);
    let list = below(s.stack, 0)->Obj_0;
    let (left, value) = if items.len() == 0 {
        (items, Value::Nil)
    } else {
        (items.drop_last(), items.last())
    };
    let made = s.with_content(list, Content::List(left));
    lemma_goes_on(made, replacing(s.stack, 1, value), 3);
    assert(items.len() > 0 ==> items.drop_last() =~= items.take(items.len() - 1));
}

/// `len` gives the number of items.
pub proof fn law_len(s: VmState, f: Function, input: Input, items: Seq<Value>, key: Key)
    requires
        invokes(s, f, key, 0),
        list_in(s.heap, below(s.stack, 0), items),
        is_named(s.heap, key, "len"@),
        items.len() < 0x20_0000_0000_0000,
    ensures
        exists|bits: u64|
            stands_for(bits, items.len() as int) && s.step(input.number, input.texts)
                == Outcome::Next(
                #[trigger] goes_on(s, replacing(s.stack, 1, Value::Number(bits)), 3),
            ),
{
    reveal_strlit("len");
    reveal_strlit("pop");
    reveal_strlit("append");
    assert("len"@.len() != "append"@.len());
    assert("len"@[0] != "pop"@[0]);
    lemma_invokes(s, f, input, items, key, 0);
    let bits = crate::number::count_bits(items.len() as int);
    law_counts_are_exact(items.len() as int);
    lemma_goes_on(s, replacing(s.stack, 1, Value::Number(bits)), 3);
}

/// `delete` removes the item at a place, and the items behind it move up.
pub proof fn law_delete(
    s: VmState,
    f: Function,
    input: Input,
    items: Seq<Value>,
    key: Key,
    bits: u64,
    n: int,
)
    requires
        invokes(s, f, key, 1),
        list_in(s.heap, below(s.stack, 1), items),
        is_named(s.heap, key, "delete"@),
        s.stack.last() == Value::Number(bits),
        stands_for(bits, n),
        0 <= n <= u64::MAX,
    ensures
        n < items.len() ==> (s.step(input.number, input.texts) matches Outcome::Next(t) && {
            &&& t.stack == replacing(s.stack, 2, Value::Nil)
            &&& list_in(t.heap, below(s.stack, 1), items.take(n) + items.skip(n + 1))
            &&& only_changes(s.heap, t.heap, below(s.stack, 1))
        }),
        n >= items.len() ==> s.step(input.number, input.texts) == Outcome::Fails(
            Fault::Message("List index out of bounds."),
        ),
{
    reveal_strlit("delete");
    reveal_strlit("len");
    reveal_strlit("pop");
    reveal_strlit("append");
    assert("delete"@.len() != "pop"@.len() && "delete"@.len() != "len"@.len());
    assert("delete"@[0] != "append"@[0]);
    lemma_invokes(s, f, input, items, key, 1);
    law_whole_part_of_whole_numbers(bits, n);
    if n < items.len() {
        assert(items.remove(n) =~= items.take(n) + items.skip(n + 1));
        let list = below(s.stack, 1)->Obj_0;
        let made = s.with_content(list, Content::List(items.remove(n)));
        lemma_goes_on(made, replacing(s.stack, 2, Value::Nil), 3);
    }
}

/// Lists have no other methods, and these take so many arguments.
pub proof fn law_other_list_methods_fail(
    s: VmState,
    f: Function,
    input: Input,
    items: Seq<Value>,
    key: Key,
    count: int,
    name: Seq<char>,
)
    requires
        invokes(s, f, key, count),
        list_in(s.heap, below(s.stack, count), items),
        is_named(s.heap, key, name),
    ensures
        name != "append"@ && name != "pop"@ && name != "len"@ && name != "delete"@ ==> s.step(
            input.number,
            input.texts,
        ) == Outcome::Fails(Fault::NoListMethod { name: key.object }),
        (name == "append"@ || name == "delete"@) && count != 1 ==> s.step(
            input.number,
            input.texts,
        ) is Fails,
        (name == "pop"@ || name == "len"@) && count != 0 ==> s.step(
            input.number,
            input.texts,
        ) is Fails,
{
    reveal_strlit("delete");
    reveal_strlit("len");
    reveal_strlit("pop");
    reveal_strlit("append");
    assert("delete"@.len() != "pop"@.len() && "delete"@.len() != "len"@.len());
    assert("append"@.len() != "pop"@.len() && "append"@.len() != "len"@.len());
    assert("delete"@[0] != "append"@[0] && "len"@[0] != "pop"@[0]);
    lemma_invokes(s, f, input, items, key, count);
}

/// A field of an instance is what it was set to, and no other field or object
/// changes by that; what is set is left on the stack.
pub proof fn law_fields_hold_what_they_are_given(
    s: VmState,
    f: Function,
    op: OpCode,
    input: Input,
    key: Key,
    class: usize,
    fields: Map<Key, Value>,
)
    requires
        op is GetProperty || op is SetProperty,
        comes_to(s, f, op),
        names_global(s, f, key),
        2 <= s.stack.len() <= STACK_MAX,
        below(
            s.stack,
            if op is GetProperty {
                0
            } else {
                1
            },
        ) matches Value::Obj(object) && s.heap.get(object) == (Content::Instance { class, fields }),
    ensures
        op is GetProperty && fields.contains_key(key) ==> s.step(input.number, input.texts)
            == Outcome::Next(goes_on(s, replacing(s.stack, 1, fields[key]), 2)),
        op is SetProperty ==> (s.step(input.number, input.texts) matches Outcome::Next(t) && {
            &&& t.stack == replacing(s.stack, 2, s.stack.last())
            &&& t.heap.get(below(s.stack, 1)->Obj_0) == (Content::Instance {
                class,
                fields: fields.insert(key, s.stack.last()),
            })
            &&& only_changes(s.heap, t.heap, below(s.stack, 1))
        }),
{
    lemma_comes_to(s, f, op);
    assert(s.arg(1) == Some(f.chunk.code@[s.frames.last().ip + 1]));
    assert(op is GetProperty ==> s.step(input.number, input.texts) == s.get_property()) by {
        reveal(VmState::step);
    }
    assert(op is SetProperty ==> s.step(input.number, input.texts) == s.set_property()) by {
        reveal(VmState::step);
    }
    lemma_goes_on(s, replacing(s.stack, 1, fields[key]), 2);
    if op is SetProperty {
        let value = s.stack.last();
        let made = s.with_content(
            below(s.stack, 1)->Obj_0,
            Content::Instance { class, fields: fields.insert(key, value) },
        );
        lemma_goes_on(made, replacing(s.stack, 2, value), 2);
    }
}

/// A name that is no field of an instance is a method of its class, bound to the
/// instance; a name that is neither is unknown.
pub proof fn law_methods_are_bound_to_their_instance(
    s: VmState,
    f: Function,
    input: Input,
    key: Key,
    class: usize,
    fields: Map<Key, Value>,
    name: usize,
    methods: Map<Key, Value>,
)
    requires
        comes_to(s, f, OpCode::GetProperty),
        names_global(s, f, key),
        1 <= s.stack.len() <= STACK_MAX,
        s.heap.objects.len() < usize::MAX,
        s.stack.last() matches Value::Obj(object) && s.heap.get(object) == (Content::Instance {
            class,
            fields,
        }),
        s.heap.get(class) == (Content::Class { name, methods }),
        !fields.contains_key(key),
        methods.contains_key(key) ==> methods[key] is Obj,
    ensures
        methods.contains_key(key) ==> (s.step(input.number, input.texts) matches Outcome::Next(t)
            && {
            &&& t.stack == replacing(s.stack, 1, Value::Obj(s.heap.objects.len() as usize))
            &&& t.heap.get(s.heap.objects.len() as usize) == (Content::BoundMethod {
                receiver: s.stack.last(),
                method: methods[key]->Obj_0,
            })
        }),
        !methods.contains_key(key) ==> s.step(input.number, input.texts) == Outcome::Fails(
            Fault::UndefinedProperty { name: key.object },
        ),
{
    lemma_comes_to(s, f, OpCode::GetProperty);
    assert(s.arg(1) == Some(f.chunk.code@[s.frames.last().ip + 1]));
    assert(s.step(input.number, input.texts) == s.get_property()) by {
        reveal(VmState::step);
    }
    if methods.contains_key(key) {
        let made = s.allocated(
            Content::BoundMethod { receiver: s.stack.last(), method: methods[key]->Obj_0 },
        );
        lemma_goes_on(made, replacing(s.stack, 1, Value::Obj(s.heap.next())), 2);
    }
}

/// A class begins without methods. A method is added to the class below it, and
/// a subclass takes over the methods of its superclass.
pub proof fn law_classes(
    s: VmState,
    f: Function,
    op: OpCode,
    input: Input,
    key: Key,
    class: usize,
    name: usize,
    methods: Map<Key, Value>,
)
    requires
        op is Class || op is Method,
        comes_to(s, f, op),
        names_global(s, f, key),
        s.heap.objects.len() < usize::MAX,
        op is Class ==> s.stack.len() < STACK_MAX,
        op is Method ==> s.stack.len() >= 2 && below(s.stack, 1) == Value::Obj(class)
            && s.heap.get(class) == (Content::Class { name, methods }),
    ensures
        op is Class ==> (s.step(input.number, input.texts) matches Outcome::Next(t) && {
            &&& t.stack == s.stack.push(Value::Obj(s.heap.objects.len() as usize))
            &&& t.heap.get(s.heap.objects.len() as usize) == (Content::Class {
                name: key.object,
                methods: Map::empty(),
            })
        }),
        op is Method ==> (s.step(input.number, input.texts) matches Outcome::Next(t) && {
            &&& t.stack == s.stack.take(s.stack.len() - 1)
            &&& t.heap.get(class) == (Content::Class {
                name,
                methods: methods.insert(key, s.stack.last()),
            })
            &&& only_changes(s.heap, t.heap, Value::Obj(class))
        }),
{
    lemma_comes_to(s, f, op);
    assert(s.arg(1) == Some(f.chunk.code@[s.frames.last().ip + 1]));
    assert(op is Class ==> s.step(input.number, input.texts) == s.class()) by {
        reveal(VmState::step);
    }
    assert(op is Method ==> s.step(input.number, input.texts) == s.method()) by {
        reveal(VmState::step);
    }
    assert(s.stack.take(s.stack.len() as int) =~= s.stack);
    if op is Class {
        let made = s.allocated(Content::Class { name: key.object, methods: Map::empty() });
        lemma_goes_on(made, s.stack.push(Value::Obj(s.heap.next())), 2);
    }
}

/// A subclass takes over the methods of its superclass, which must be a class.
pub proof fn law_subclasses_inherit(
    s: VmState,
    f: Function,
    input: Input,
    above: usize,
    inherited: Map<Key, Value>,
    class: usize,
    name: usize,
    key: Key,
)
    requires
        comes_to(s, f, OpCode::Inherit),
        2 <= s.stack.len(),
        below(s.stack, 1) == Value::Obj(above),
        s.heap.get(above) matches Content::Class { name: _, methods } && methods == inherited,
        below(s.stack, 0) == Value::Obj(class),
        s.heap.get(class) == (Content::Class { name, methods: Map::empty() }),
        inherited.contains_key(key),
    ensures
        s.step(input.number, input.texts) matches Outcome::Next(t) && {
            &&& t.stack == s.stack.take(s.stack.len() - 1)
            &&& t.heap.get(class) matches Content::Class { name: _, methods } && methods.contains_key(
                key,
            ) && methods[key] == inherited[key]
            &&& only_changes(s.heap, t.heap, Value::Obj(class))
        },
{
    lemma_comes_to(s, f, OpCode::Inherit);
    assert(s.step(input.number, input.texts) == s.inherit()) by {
        reveal(VmState::step);
    }
}

/// A call of a class without an initializer leaves a new instance of it, without
/// fields, and takes no arguments.
pub proof fn law_calling_a_class_makes_an_instance(
    s: VmState,
    f: Function,
    input: Input,
    class: usize,
    name: usize,
    methods: Map<Key, Value>,
    init: Key,
)
    requires
        comes_to(s, f, OpCode::Call),
        has_operand(s, f, 1),
        operand(s, f, 1) < s.stack.len() <= STACK_MAX,
        below(s.stack, operand(s, f, 1)) == Value::Obj(class),
        s.heap.get(class) == (Content::Class { name, methods }),
        s.heap.key(s.init) == Some(init),
        !methods.contains_key(init),
        s.heap.objects.len() < usize::MAX,
    ensures
        operand(s, f, 1) == 0 ==> (s.step(input.number, input.texts) matches Outcome::Next(t) && {
            &&& t.stack == replacing(s.stack, 1, Value::Obj(s.heap.objects.len() as usize))
            &&& t.heap.get(s.heap.objects.len() as usize) == (Content::Instance {
                class,
                fields: Map::empty(),
            })
        }),
        operand(s, f, 1) > 0 ==> s.step(input.number, input.texts) == Outcome::Fails(
            Fault::WrongArity { expected: 0, got: operand(s, f, 1) as usize },
        ),
{
    lemma_comes_to(s, f, OpCode::Call);
    assert(s.step(input.number, input.texts) == s.call_op(input.number)) by {
        reveal(VmState::step);
    }
    assert(s.arg(1) == Some(f.chunk.code@[s.frames.last().ip + 1]));
    if operand(s, f, 1) == 0 {
        let value = Value::Obj(s.heap.next());
        assert(s.stack.update(s.stack.len() - 1, value) =~= replacing(s.stack, 1, value));
    }
}

/// A method that is called by its name runs with its instance in its first slot,
/// and the arguments behind it.
pub proof fn law_methods_are_called_on_their_instance(
    s: VmState,
    f: Function,
    input: Input,
    key: Key,
    count: int,
    class: usize,
    fields: Map<Key, Value>,
    name: usize,
    methods: Map<Key, Value>,
    method: usize,
    callee: Function,
)
    requires
        invokes(s, f, key, count),
        below(s.stack, count) matches Value::Obj(object) && s.heap.get(object) == (
        Content::Instance { class, fields }),
        !fields.contains_key(key),
        s.heap.get(class) == (Content::Class { name, methods }),
        methods.contains_key(key),
        methods[key] == Value::Obj(method),
        s.heap.get(method) matches Content::Closure { function, upvalues: _ } && s.heap.get(
            function,
        ) == Content::Function(callee),
        s.frames.last().ip < f.chunk.spans@.len(),
        callee.arity == count,
        s.frames.len() < crate::machine::FRAMES_MAX,
    ensures
        s.step(input.number, input.texts) matches Outcome::Next(t) && {
            &&& t.stack == s.stack
            &&& t.frames.len() == s.frames.len() + 1
            &&& t.frames.last().closure == method
            &&& t.frames.last().ip == 0
            &&& t.frames.last().base == s.stack.len() - 1 - count
            &&& t.stack[t.frames.last().base as int] == below(s.stack, count)
            &&& t.frames[s.frames.len() - 1].ip == s.frames.last().ip + 3
        },
{
    lemma_comes_to(s, f, OpCode::Invoke);
    assert(s.step(input.number, input.texts) == s.invoke(input.number)) by {
        reveal(VmState::step);
    }
    assert(s.arg(1) == Some(f.chunk.code@[s.frames.last().ip + 1]));
    assert(s.arg(2) == Some(f.chunk.code@[s.frames.last().ip + 2]));
}

} // verus!
