//! Dropping the objects that a program can no longer reach.
use vstd::prelude::*;
use crate::machine::VmState;
use crate::object::{keyed, Content, Heap, Object, UpvalueCell};
use crate::table::{Key, Slot, Table};
use crate::value::Value;
use crate::vm::VM;

verus! {

/// A table names an object, as a key or as a value.
pub open spec fn table_holds(table: Map<Key, Value>, object: usize) -> bool {
    exists|key: Key| #[trigger]
        table.contains_key(key) && (key.object == object || table[key] == Value::Obj(object))
}

/// One object names another.
pub open spec fn points_to(content: Content, object: usize) -> bool {
    match content {
        Content::Free | Content::Text { .. } | Content::Native => false,
        Content::Function(f) => f.name == Some(object) || f.chunk.constants@.contains(
            Value::Obj(object),
        ),
        Content::Closure { function, upvalues } => function == object || upvalues.contains(object),
        Content::Upvalue(UpvalueCell::Open { slot: _ }) => false,
        Content::Upvalue(UpvalueCell::Closed { value }) => value == Value::Obj(object),
        Content::List(items) => items.contains(Value::Obj(object)),
        Content::Class { name, methods } => name == object || table_holds(methods, object),
        Content::Instance { class, fields } => class == object || table_holds(fields, object),
        Content::BoundMethod { receiver, method } => receiver == Value::Obj(object) || method
            == object,
    }
}

/// The machine itself names an object.
pub open spec fn is_root(s: VmState, object: usize) -> bool {
    ||| s.stack.contains(Value::Obj(object))
    ||| exists|i: int| 0 <= i < s.frames.len() && (#[trigger] s.frames[i]).closure == object
    ||| s.open.contains(object)
    ||| table_holds(s.globals, object)
    ||| s.init == object
}

/// A chain of objects, each named by the one before it.
pub open spec fn is_path(s: VmState, path: Seq<usize>) -> bool {
    &&& path.len() > 0
    &&& is_root(s, path[0])
    &&& forall|i: int|
        0 <= i < path.len() - 1 ==> #[trigger] points_to(s.heap.get(path[i]), path[i + 1])
}

/// The program can reach an object.
pub open spec fn reachable(s: VmState, object: usize) -> bool {
    exists|path: Seq<usize>| #[trigger] is_path(s, path) && path.last() == object
}

pub proof fn lemma_root_reachable(s: VmState, object: usize)
    requires
        is_root(s, object),
    ensures
        reachable(s, object),
{
    let path = seq![object];
    assert(is_path(s, path));
    assert(path.last() == object);
}

pub proof fn lemma_step_reachable(s: VmState, from: usize, object: usize)
    requires
        reachable(s, from),
        points_to(s.heap.get(from), object),
    ensures
        reachable(s, object),
{
    let path = choose|path: Seq<usize>| #[trigger] is_path(s, path) && path.last() == from;
    let longer = path.push(object);
    assert forall|i: int| 0 <= i < longer.len() - 1 implies #[trigger] points_to(
        s.heap.get(longer[i]),
        longer[i + 1],
    ) by {
        if i < path.len() - 1 {
            assert(points_to(s.heap.get(path[i]), path[i + 1]));
        }
    }
    assert(is_path(s, longer));
    assert(longer.last() == object);
}

/// Which objects have been found, and which of them are still to be looked into.
pub struct Marker {
    pub marked: Vec<bool>,
    pub gray: Vec<usize>,
}

impl Marker {
    pub open spec fn has(self, object: usize) -> bool {
        object < self.marked@.len() && self.marked@[object as int]
    }

    /// What is found can be reached, and what is to be looked into is found.
    pub open spec fn sound(self, s: VmState) -> bool {
        &&& self.marked@.len() == s.heap.objects.len()
        &&& forall|object: usize| #[trigger] self.has(object) ==> reachable(s, object)
        &&& forall|i: int| 0 <= i < self.gray@.len() ==> self.has(#[trigger] self.gray@[i])
    }

    /// All that is named by what has been looked into is found.
    pub open spec fn complete(self, s: VmState) -> bool {
        forall|from: usize, object: usize|
            self.has(from) && !self.gray@.contains(from) && #[trigger] points_to(
                s.heap.get(from),
                object,
            ) && object < self.marked@.len() ==> self.has(object)
    }

    /// More is found, and all of that is to be looked into.
    pub open spec fn grew(self, to: Marker) -> bool {
        &&& to.marked@.len() == self.marked@.len()
        &&& self.gray@.len() <= to.gray@.len()
        &&& forall|i: int|
            0 <= i < to.gray@.len() ==> if i < self.gray@.len() {
                #[trigger] to.gray@[i] == self.gray@[i]
            } else {
                to.has(to.gray@[i]) && !self.has(to.gray@[i])
            }
        &&& forall|object: usize| #[trigger] self.has(object) ==> to.has(object)
        &&& forall|object: usize| #[trigger]
            to.has(object) && !self.has(object) ==> to.gray@.contains(object)
    }

    /// An object that is there is found.
    pub open spec fn covers(self, object: usize) -> bool {
        object < self.marked@.len() ==> self.has(object)
    }

    pub open spec fn covers_value(self, value: Value) -> bool {
        value matches Value::Obj(object) ==> self.covers(object)
    }

    proof fn lemma_grew(self, middle: Marker, to: Marker)
        requires
            self.grew(middle),
            middle.grew(to),
        ensures
            self.grew(to),
    {
        assert forall|i: int| 0 <= i < to.gray@.len() implies if i < self.gray@.len() {
            #[trigger] to.gray@[i] == self.gray@[i]
        } else {
            to.has(to.gray@[i]) && !self.has(to.gray@[i])
        } by {
            if i < middle.gray@.len() {
                assert(to.gray@[i] == middle.gray@[i]);
                if i < self.gray@.len() {
                    assert(middle.gray@[i] == self.gray@[i]);
                } else {
                    assert(middle.has(middle.gray@[i]) && !self.has(middle.gray@[i]));
                }
            }
        }
        assert forall|object: usize| #[trigger] to.has(object) && !self.has(
            object,
        ) implies to.gray@.contains(object) by {
            if middle.has(object) {
                let i = choose|i: int| 0 <= i < middle.gray@.len() && middle.gray@[i] == object;
                assert(to.gray@[i] == object);
            }
        }
    }

    proof fn lemma_complete(self, to: Marker, s: VmState)
        requires
            self.complete(s),
            self.grew(to),
        ensures
            to.complete(s),
    {
        assert forall|from: usize, object: usize|
            to.has(from) && !to.gray@.contains(from) && #[trigger] points_to(
                s.heap.get(from),
                object,
            ) && object < to.marked@.len() implies to.has(object) by {
            assert(self.has(from));
            if self.gray@.contains(from) {
                let i = choose|i: int| 0 <= i < self.gray@.len() && self.gray@[i] == from;
                assert(to.gray@[i] == from);
            }
        }
    }

    pub fn mark_object(&mut self, Ghost(s): Ghost<VmState>, object: usize)
        requires
            old(self).sound(s),
            reachable(s, object),
        ensures
            final(self).sound(s),
            old(self).grew(*final(self)),
            final(self).covers(object),
    {
        if object < self.marked.len() && !self.marked[object] {
            let ghost before = *self;
            self.marked.set(object, true);
            self.gray.push(object);
            proof {
                assert(self.gray@[before.gray@.len() as int] == object);
                assert forall|i: int| 0 <= i < self.gray@.len() implies self.has(
                    #[trigger] self.gray@[i],
                ) by {
                    if i < before.gray@.len() {
                        assert(before.has(before.gray@[i]));
                    }
                }
                assert forall|o: usize| #[trigger] self.has(o) implies reachable(s, o) by {
                    if o != object {
                        assert(before.has(o));
                    }
                }
                assert forall|o: usize| #[trigger] self.has(o) && !before.has(
                    o,
                ) implies self.gray@.contains(o) by {
                    assert(o == object);
                }
            }
        }
    }

    pub fn mark_value(&mut self, Ghost(s): Ghost<VmState>, value: Value)
        requires
            old(self).sound(s),
            value matches Value::Obj(object) ==> reachable(s, object),
        ensures
            final(self).sound(s),
            old(self).grew(*final(self)),
            value matches Value::Obj(object) ==> final(self).covers(object),
    {
        if let Value::Obj(object) = value {
            self.mark_object(Ghost(s), object);
        }
    }

    fn mark_values(&mut self, Ghost(s): Ghost<VmState>, values: &Vec<Value>)
        requires
            old(self).sound(s),
            forall|object: usize| #[trigger]
                values@.contains(Value::Obj(object)) ==> reachable(s, object),
        ensures
            final(self).sound(s),
            old(self).grew(*final(self)),
            forall|object: usize| #[trigger]
                values@.contains(Value::Obj(object)) ==> final(self).covers(object),
    {
        let mut i: usize = 0;
        while i < values.len()
            invariant
                i <= values@.len(),
                self.sound(s),
                old(self).grew(*self),
                forall|object: usize| #[trigger]
                    values@.contains(Value::Obj(object)) ==> reachable(s, object),
                forall|j: int| 0 <= j < i ==> self.covers_value(#[trigger] values@[j]),
            decreases values@.len() - i,
        {
            let ghost before = *self;
            let value = values[i];
            proof {
                if let Value::Obj(object) = value {
                    assert(values@[i as int] == Value::Obj(object));
                    assert(values@.contains(Value::Obj(object)));
                }
            }
            self.mark_value(Ghost(s), value);
            proof {
                old(self).lemma_grew(before, *self);
                assert forall|j: int| 0 <= j < i + 1 implies self.covers_value(
                    #[trigger] values@[j],
                ) by {
                    if j < i {
                        assert(before.covers_value(values@[j]));
                    }
                }
            }
            i += 1;
        }
        assert forall|object: usize| #[trigger] values@.contains(
            Value::Obj(object),
        ) implies self.covers(object) by {
            let j = choose|j: int| 0 <= j < values@.len() && values@[j] == Value::Obj(object);
            assert(values@[j] == Value::Obj(object));
        }
    }

    fn mark_objects(&mut self, Ghost(s): Ghost<VmState>, objects: &Vec<usize>)
        requires
            old(self).sound(s),
            forall|object: usize| #[trigger] objects@.contains(object) ==> reachable(s, object),
        ensures
            final(self).sound(s),
            old(self).grew(*final(self)),
            forall|object: usize| #[trigger]
                objects@.contains(object) ==> final(self).covers(object),
    {
        let mut i: usize = 0;
        while i < objects.len()
            invariant
                i <= objects@.len(),
                self.sound(s),
                old(self).grew(*self),
                forall|object: usize| #[trigger]
                    objects@.contains(object) ==> reachable(s, object),
                forall|j: int| 0 <= j < i ==> self.covers(#[trigger] objects@[j]),
            decreases objects@.len() - i,
        {
            let ghost before = *self;
            assert(objects@.contains(objects@[i as int]));
            self.mark_object(Ghost(s), objects[i]);
            proof {
                old(self).lemma_grew(before, *self);
                assert forall|j: int| 0 <= j < i + 1 implies self.covers(#[trigger] objects@[j]) by {
                    if j < i {
                        assert(before.covers(objects@[j]));
                    }
                }
            }
            i += 1;
        }
    }

    fn mark_table(&mut self, Ghost(s): Ghost<VmState>, table: &Table)
        requires
            table.wf(),
            old(self).sound(s),
            forall|object: usize| #[trigger] table_holds(table@, object) ==> reachable(s, object),
        ensures
            final(self).sound(s),
            old(self).grew(*final(self)),
            forall|object: usize| #[trigger]
                table_holds(table@, object) ==> final(self).covers(object),
    {
        let mut i: usize = 0;
        while i < table.slot_count()
            invariant
                table.wf(),
                i <= table.capacity(),
                self.sound(s),
                old(self).grew(*self),
                forall|object: usize| #[trigger]
                    table_holds(table@, object) ==> reachable(s, object),
                forall|j: int|
                    0 <= j < i && #[trigger] table.slot_view(j) is Full ==> self.covers(
                        table.slot_view(j)->key.object,
                    ) && (table.slot_view(j)->value matches Value::Obj(object) ==> self.covers(
                        object,
                    )),
            decreases table.capacity() - i,
        {
            let ghost before = *self;
            if let Slot::Full { key, value } = table.slot(i) {
                assert(table@.contains_key(key) && table@[key] == value);
                assert(table_holds(table@, key.object));
                self.mark_object(Ghost(s), key.object);
                let ghost middle = *self;
                proof {
                    if let Value::Obj(object) = value {
                        assert(table_holds(table@, object));
                    }
                }
                self.mark_value(Ghost(s), value);
                proof {
                    before.lemma_grew(middle, *self);
                    old(self).lemma_grew(before, *self);
                    assert(middle.covers(key.object));
                }
            }
            proof {
                assert forall|j: int|
                    0 <= j < i + 1 && #[trigger] table.slot_view(j) is Full implies self.covers(
                    table.slot_view(j)->key.object,
                ) && (table.slot_view(j)->value matches Value::Obj(object) ==> self.covers(object)) by {
                    if j < i {
                        assert(before.covers(table.slot_view(j)->key.object));
                        if let Value::Obj(object) = table.slot_view(j)->value {
                            assert(before.covers(object));
                        }
                    }
                }
            }
            i += 1;
        }
        proof {
            table.lemma_walk();
            assert forall|object: usize| #[trigger] table_holds(table@, object) implies self.covers(
                object,
            ) by {
                let key = choose|key: Key| #[trigger]
                    table@.contains_key(key) && (key.object == object || table@[key]
                        == Value::Obj(object));
                let j = choose|j: int|
                    0 <= j < table.capacity() && #[trigger] table.slot_view(j) == (Slot::Full {
                        key,
                        value: table@[key],
                    });
                assert(table.slot_view(j) is Full);
            }
        }
    }

    /// Marks what an object names.
    fn blacken_object(&mut self, Ghost(s): Ghost<VmState>, heap: &Heap, object: usize)
        requires
            heap.wf(),
            heap@ == s.heap,
            old(self).sound(s),
            reachable(s, object),
            object < heap@.objects.len(),
        ensures
            final(self).sound(s),
            old(self).grew(*final(self)),
            forall|other: usize| #[trigger]
                points_to(s.heap.get(object), other) ==> final(self).covers(other),
    {
        let ghost content = s.heap.get(object);
        assert forall|other: usize| #[trigger] points_to(content, other) implies reachable(
            s,
            other,
        ) by {
            lemma_step_reachable(s, object, other);
        }
        match heap.get(object) {
            Object::Free | Object::Native | Object::Text { .. } => {},
            Object::Function(f) => {
                if let Some(name) = f.name {
                    assert(points_to(content, name));
                    self.mark_object(Ghost(s), name);
                }
                let ghost middle = *self;
                assert forall|other: usize| #[trigger]
                    f.chunk.constants@.contains(Value::Obj(other)) implies reachable(s, other) by {
                    assert(points_to(content, other));
                }
                self.mark_values(Ghost(s), &f.chunk.constants);
                proof {
                    old(self).lemma_grew(middle, *self);
                }
            },
            Object::Closure { function, upvalues } => {
                assert(points_to(content, *function));
                self.mark_object(Ghost(s), *function);
                let ghost middle = *self;
                assert forall|other: usize| #[trigger]
                    upvalues@.contains(other) implies reachable(s, other) by {
                    assert(points_to(content, other));
                }
                self.mark_objects(Ghost(s), upvalues);
                proof {
                    old(self).lemma_grew(middle, *self);
                    assert(middle.covers(*function));
                }
            },
            Object::Upvalue(cell) => match cell {
                UpvalueCell::Open { .. } => {},
                UpvalueCell::Closed { value } => {
                    proof {
                        if let Value::Obj(other) = *value {
                            assert(points_to(content, other));
                        }
                    }
                    self.mark_value(Ghost(s), *value);
                },
            },
            Object::List(items) => {
                assert forall|other: usize| #[trigger]
                    items@.contains(Value::Obj(other)) implies reachable(s, other) by {
                    assert(points_to(content, other));
                }
                self.mark_values(Ghost(s), items);
            },
            Object::Class { name, methods } => {
                assert(points_to(content, *name));
                self.mark_object(Ghost(s), *name);
                let ghost middle = *self;
                assert forall|other: usize| #[trigger]
                    table_holds(methods@, other) implies reachable(s, other) by {
                    assert(points_to(content, other));
                }
                self.mark_table(Ghost(s), methods);
                proof {
                    old(self).lemma_grew(middle, *self);
                    assert(middle.covers(*name));
                }
            },
            Object::Instance { class, fields } => {
                assert(points_to(content, *class));
                self.mark_object(Ghost(s), *class);
                let ghost middle = *self;
                assert forall|other: usize| #[trigger]
                    table_holds(fields@, other) implies reachable(s, other) by {
                    assert(points_to(content, other));
                }
                self.mark_table(Ghost(s), fields);
                proof {
                    old(self).lemma_grew(middle, *self);
                    assert(middle.covers(*class));
                }
            },
            Object::BoundMethod { receiver, method } => {
                proof {
                    if let Value::Obj(other) = *receiver {
                        assert(points_to(content, other));
                    }
                    assert(points_to(content, *method));
                }
                self.mark_value(Ghost(s), *receiver);
                let ghost middle = *self;
                self.mark_object(Ghost(s), *method);
                proof {
                    old(self).lemma_grew(middle, *self);
                    if let Value::Obj(other) = *receiver {
                        assert(middle.covers(other));
                    }
                }
            },
        }
    }
}

/// How many objects are not marked.
pub open spec fn unmarked(marked: Seq<bool>, n: int) -> nat
    decreases n,
{
    if n <= 0 {
        0
    } else {
        unmarked(marked, n - 1) + (if marked[n - 1] {
            0nat
        } else {
            1nat
        })
    }
}

proof fn lemma_unmarked(a: Marker, b: Marker, n: int)
    requires
        a.grew(b),
        0 <= n <= a.marked@.len(),
        a.marked@.len() <= usize::MAX,
    ensures
        unmarked(b.marked@, n) <= unmarked(a.marked@, n),
        (exists|i: int| 0 <= i < n && !a.marked@[i] && b.marked@[i]) ==> unmarked(b.marked@, n)
            < unmarked(a.marked@, n),
    decreases n,
{
    if n > 0 {
        lemma_unmarked(a, b, n - 1);
        if a.marked@[n - 1] {
            assert(a.has((n - 1) as usize));
            assert(b.has((n - 1) as usize));
        }
    }
}

/// What is found, once nothing is left to be looked into, is what can be reached.
proof fn lemma_found(m: Marker, s: VmState, path: Seq<usize>, n: int)
    requires
        m.sound(s),
        m.complete(s),
        m.gray@.len() == 0,
        forall|object: usize| #[trigger] is_root(s, object) ==> m.covers(object),
        is_path(s, path),
        0 <= n < path.len(),
    ensures
        m.covers(path[n]),
    decreases n,
{
    if n > 0 {
        lemma_found(m, s, path, n - 1);
        assert(points_to(s.heap.get(path[n - 1]), path[n - 1 + 1]));
        if path[n - 1] >= m.marked@.len() {
            assert(s.heap.get(path[n - 1]) is Free);
        }
    }
}

impl VM {
    fn mark_roots(&self, marker: &mut Marker)
        requires
            self.wf(),
            old(marker).sound(self@),
        ensures
            final(marker).sound(self@),
            old(marker).grew(*final(marker)),
            forall|object: usize| #[trigger]
                is_root(self@, object) ==> final(marker).covers(object),
    {
        let ghost s = self@;
        assert forall|object: usize| #[trigger] is_root(s, object) implies reachable(s, object) by {
            lemma_root_reachable(s, object);
        }
        assert forall|object: usize| #[trigger] self.stack@.contains(
            Value::Obj(object),
        ) implies reachable(s, object) by {
            assert(is_root(s, object));
        }
        marker.mark_values(Ghost(s), &self.stack);
        let ghost stacked = *marker;
        let mut i: usize = 0;
        while i < self.frames.len()
            invariant
                s == self@,
                i <= self.frames@.len(),
                marker.sound(s),
                stacked.grew(*marker),
                forall|object: usize| #[trigger] is_root(s, object) ==> reachable(s, object),
                forall|j: int|
                    0 <= j < i ==> marker.covers((#[trigger] self.frames@[j]).closure),
            decreases self.frames@.len() - i,
        {
            let ghost before = *marker;
            assert(s.frames[i as int].closure == self.frames@[i as int].closure);
            assert(is_root(s, self.frames@[i as int].closure));
            marker.mark_object(Ghost(s), self.frames[i].closure);
            proof {
                stacked.lemma_grew(before, *marker);
                assert forall|j: int| 0 <= j < i + 1 implies marker.covers(
                    (#[trigger] self.frames@[j]).closure,
                ) by {
                    if j < i {
                        assert(before.covers(self.frames@[j].closure));
                    }
                }
            }
            i += 1;
        }
        let ghost framed = *marker;
        assert forall|object: usize| #[trigger] self.open@.contains(object) implies reachable(
            s,
            object,
        ) by {
            assert(is_root(s, object));
        }
        marker.mark_objects(Ghost(s), &self.open);
        let ghost opened = *marker;
        assert forall|object: usize| #[trigger] table_holds(
            self.globals@,
            object,
        ) implies reachable(s, object) by {
            assert(is_root(s, object));
        }
        marker.mark_table(Ghost(s), &self.globals);
        let ghost tabled = *marker;
        assert(is_root(s, self.init));
        marker.mark_object(Ghost(s), self.init);
        proof {
            tabled.lemma_rest(*marker, opened);
            opened.lemma_rest(*marker, framed);
            framed.lemma_rest(*marker, stacked);
            stacked.lemma_rest(*marker, *old(marker));
            assert forall|object: usize| #[trigger] is_root(s, object) implies marker.covers(
                object,
            ) by {
                if s.stack.contains(Value::Obj(object)) {
                    assert(self.stack@.contains(Value::Obj(object)));
                    assert(stacked.covers(object));
                } else if exists|i: int|
                    0 <= i < s.frames.len() && (#[trigger] s.frames[i]).closure == object {
                    let j = choose|i: int|
                        0 <= i < s.frames.len() && (#[trigger] s.frames[i]).closure == object;
                    assert(framed.covers(self.frames@[j].closure));
                } else if s.open.contains(object) {
                    assert(self.open@.contains(object));
                    assert(opened.covers(object));
                } else if table_holds(s.globals, object) {
                    assert(table_holds(self.globals@, object));
                    assert(tabled.covers(object));
                }
            }
        }
    }

    /// Looks into all that was found, and into what is found there.
    fn trace_references(&self, marker: &mut Marker)
        requires
            self.wf(),
            old(marker).sound(self@),
            old(marker).complete(self@),
        ensures
            final(marker).sound(self@),
            final(marker).complete(self@),
            final(marker).gray@.len() == 0,
            forall|object: usize| #[trigger] old(marker).has(object) ==> final(marker).has(object),
            final(marker).marked@.len() == old(marker).marked@.len(),
    {
        let ghost s = self@;
        while marker.gray.len() > 0
            invariant
                self.wf(),
                s == self@,
                marker.sound(s),
                marker.complete(s),
                forall|object: usize| #[trigger] old(marker).has(object) ==> marker.has(object),
                marker.marked@.len() == old(marker).marked@.len(),
            decreases unmarked(marker.marked@, marker.marked@.len() as int), marker.gray@.len(),
        {
            let ghost before = *marker;
            let count: usize = marker.marked.len();
            if let Some(object) = marker.gray.pop() {
                let ghost popped = *marker;
                assert(before.gray@[before.gray@.len() - 1] == object);
                assert(before.has(object));
                proof {
                    assert forall|i: int| 0 <= i < popped.gray@.len() implies popped.has(
                        #[trigger] popped.gray@[i],
                    ) by {
                        assert(before.has(before.gray@[i]));
                    }
                    assert forall|o: usize| #[trigger] popped.has(o) implies reachable(s, o) by {
                        assert(before.has(o));
                    }
                }
                marker.blacken_object(Ghost(s), &self.heap, object);
                proof {
                    assert forall|from: usize, other: usize|
                        marker.has(from) && !marker.gray@.contains(from) && #[trigger] points_to(
                            s.heap.get(from),
                            other,
                        ) && other < marker.marked@.len() implies marker.has(other) by {
                        if from == object {
                            assert(marker.covers(other));
                        } else {
                            assert(popped.has(from));
                            assert(before.has(from));
                            if before.gray@.contains(from) {
                                let i = choose|i: int|
                                    0 <= i < before.gray@.len() && before.gray@[i] == from;
                                assert(popped.gray@[i] == from);
                                assert(marker.gray@[i] == from);
                            }
                            assert(before.has(other));
                            assert(popped.has(other));
                        }
                    }
                    assert forall|o: usize| #[trigger] old(marker).has(o) implies marker.has(o) by {
                        assert(before.has(o));
                        assert(popped.has(o));
                    }
                    lemma_unmarked(popped, *marker, count as int);
                    if marker.gray@.len() > popped.gray@.len() {
                        marker.lemma_new_mark(popped);
                    }
                }
            }
        }
    }

    /// Drops every object that the program cannot reach.
    pub fn collect_garbage(&mut self)
        requires
            old(self).wf(),
        ensures
            final(self).wf(),
            exists|kept: Seq<bool>|
                #![trigger old(self)@.heap.swept(kept)]
                {
                    &&& kept.len() == old(self)@.heap.objects.len()
                    &&& forall|object: usize|
                        object < kept.len() ==> (#[trigger] kept[object as int] <==> reachable(
                            old(self)@,
                            object,
                        ))
                    &&& final(self)@ == (VmState {
                        heap: old(self)@.heap.swept(kept),
                        ..old(self)@
                    })
                },
    {
        let ghost s = self@;
        let mut marker = Marker { marked: Vec::new(), gray: Vec::new() };
        while marker.marked.len() < self.heap.len()
            invariant
                marker.gray@.len() == 0,
                marker.marked@.len() <= self@.heap.objects.len(),
                forall|i: int| 0 <= i < marker.marked@.len() ==> !marker.marked@[i],
            decreases self@.heap.objects.len() - marker.marked@.len(),
        {
            marker.marked.push(false);
        }
        assert(marker.sound(s));
        assert(marker.complete(s));
        let ghost start = marker;
        self.mark_roots(&mut marker);
        let ghost rooted = marker;
        proof {
            start.lemma_complete(marker, s);
        }
        self.trace_references(&mut marker);
        proof {
            assert forall|object: usize| #[trigger] is_root(s, object) implies marker.covers(
                object,
            ) by {
                assert(rooted.covers(object));
            }
            assert forall|object: usize| object < marker.marked@.len() implies (
            #[trigger] marker.marked@[object as int] <==> reachable(s, object)) by {
                if marker.marked@[object as int] {
                    assert(marker.has(object));
                }
                if reachable(s, object) {
                    let path = choose|path: Seq<usize>| #[trigger]
                        is_path(s, path) && path.last() == object;
                    lemma_found(marker, s, path, path.len() - 1);
                }
            }
        }
        self.heap.sweep(&marker.marked);
        assert(self@ =~= VmState { heap: s.heap.swept(marker.marked@), ..s });
        proof {
            reveal(keyed);
            assert forall|key: Key| #[trigger] s.globals.contains_key(key) implies self@.heap.key(
                key.object,
            ) == Some(key) by {
                assert(s.heap.key(key.object) == Some(key));
                assert(is_root(s, key.object));
                assert(marker.covers(key.object));
                assert(marker.has(key.object));
            }
        }
    }
}

impl Marker {
    proof fn lemma_rest(self, to: Marker, from: Marker)
        requires
            from.grew(self),
            self.grew(to),
        ensures
            from.grew(to),
            forall|object: usize| #[trigger] self.covers(object) ==> to.covers(object),
    {
        from.lemma_grew(self, to);
    }

    /// Something new is to be looked into only where something new was found.
    proof fn lemma_new_mark(self, before: Marker)
        requires
            before.grew(self),
            before.gray@.len() < self.gray@.len(),
        ensures
            exists|i: int|
                0 <= i < before.marked@.len() && !before.marked@[i] && self.marked@[i],
    {
        let i = before.gray@.len() as int;
        assert(self.has(self.gray@[i]) && !before.has(self.gray@[i]));
        let found = self.gray@[i] as int;
        assert(!before.marked@[found] && self.marked@[found]);
    }
}

/// A program goes on as before when its garbage is collected: what it can
/// reach stays, and stays reachable.
pub proof fn law_collection_keeps_what_is_reachable(s: VmState, kept: Seq<bool>, object: usize)
    requires
        kept.len() == s.heap.objects.len(),
        forall|o: usize|
            o < kept.len() ==> (#[trigger] kept[o as int] <==> reachable(s, o)),
        reachable(s, object),
    ensures
        ({
            let after = VmState { heap: s.heap.swept(kept), ..s };
            after.heap.get(object) == s.heap.get(object) && reachable(after, object)
        }),
{
    let after = VmState { heap: s.heap.swept(kept), ..s };
    let path = choose|path: Seq<usize>| #[trigger] is_path(s, path) && path.last() == object;
    assert forall|i: int| 0 <= i < path.len() - 1 implies #[trigger] points_to(
        after.heap.get(path[i]),
        path[i + 1],
    ) by {
        lemma_on_path(s, path, i);
        assert(points_to(s.heap.get(path[i]), path[i + 1]));
        if path[i] < kept.len() {
            assert(kept[path[i] as int]);
        }
    }
    assert(is_root(after, path[0])) by {
        if exists|i: int| 0 <= i < s.frames.len() && (#[trigger] s.frames[i]).closure == path[0] {
            let j = choose|i: int|
                0 <= i < s.frames.len() && (#[trigger] s.frames[i]).closure == path[0];
            assert(after.frames[j].closure == path[0]);
        }
    }
    assert(is_path(after, path));
    if object < kept.len() {
        assert(kept[object as int]);
    }
}

proof fn lemma_on_path(s: VmState, path: Seq<usize>, i: int)
    requires
        is_path(s, path),
        0 <= i < path.len(),
    ensures
        reachable(s, path[i]),
{
    let part = path.take(i + 1);
    assert forall|j: int| 0 <= j < part.len() - 1 implies #[trigger] points_to(
        s.heap.get(part[j]),
        part[j + 1],
    ) by {
        assert(points_to(s.heap.get(path[j]), path[j + 1]));
    }
    assert(is_path(s, part));
    assert(part.last() == path[i]);
}

} // verus!
