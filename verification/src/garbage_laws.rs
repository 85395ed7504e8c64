//! What is kept when objects are dropped: all that a program can come to.
use vstd::prelude::*;
use crate::garbage::{lemma_root_reachable, lemma_step_reachable, points_to, reachable};
use crate::machine::VmState;
use crate::object::{Content, UpvalueCell};
use crate::table::Key;
use crate::value::Value;

verus! {

/// Whatever is on the stack can be reached, and so can the closures of the calls
/// under way, the captured variables that are in use, and the globals.
pub proof fn law_what_is_in_use_is_reachable(s: VmState, object: usize, i: int, key: Key)
    ensures
        0 <= i < s.stack.len() && s.stack[i] == Value::Obj(object) ==> reachable(s, object),
        0 <= i < s.frames.len() && s.frames[i].closure == object ==> reachable(s, object),
        0 <= i < s.open.len() && s.open[i] == object ==> reachable(s, object),
        s.globals.contains_key(key) && key.object == object ==> reachable(s, object),
        s.globals.contains_key(key) && s.globals[key] == Value::Obj(object) ==> reachable(
            s,
            object,
        ),
        s.init == object ==> reachable(s, object),
{
    if crate::garbage::is_root(s, object) {
        lemma_root_reachable(s, object);
    }
}

/// What an object is made of can be reached wherever the object can: the items
/// of a list, the function and the captured variables of a closure, the value
/// of a captured variable, the constants and the name of a function, the class
/// and the fields of an instance, the methods and the name of a class, and what
/// a bound method is made of.
pub proof fn law_parts_of_reachable_objects_are_reachable(
    s: VmState,
    whole: usize,
    part: usize,
    i: int,
    key: Key,
)
    requires
        reachable(s, whole),
        match s.heap.get(whole) {
            Content::List(items) => 0 <= i < items.len() && items[i] == Value::Obj(part),
            Content::Closure { function, upvalues } => function == part || 0 <= i < upvalues.len()
                && upvalues[i] == part,
            Content::Upvalue(UpvalueCell::Closed { value }) => value == Value::Obj(part),
            Content::Function(f) => f.name == Some(part) || 0 <= i < f.chunk.constants@.len()
                && f.chunk.constants@[i] == Value::Obj(part),
            Content::Instance { class, fields } => class == part || fields.contains_key(key) && (
            key.object == part || fields[key] == Value::Obj(part)),
            Content::Class { name, methods } => name == part || methods.contains_key(key) && (
            key.object == part || methods[key] == Value::Obj(part)),
            Content::BoundMethod { receiver, method } => receiver == Value::Obj(part) || method
                == part,
            _ => false,
        },
    ensures
        reachable(s, part),
{
    assert(points_to(s.heap.get(whole), part));
    lemma_step_reachable(s, whole, part);
}

} // verus!
