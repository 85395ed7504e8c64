//! Which variable a name stands for, and what becomes of variables whose scope
//! ends.
use vstd::prelude::*;
use crate::chunk::{byte_of, law_constant_is_found_at_its_index, OpCode};
use crate::debug_info::BindingKind;
use crate::grammar::{is_global, is_local, lemma_local_place};
use crate::parser::{
    local_place, FState, FunctionType, Lexed, Local, PState, Sight, SymbolKind, Upvalue, LOCALS_MAX,
};
use crate::scopes::{captured, upvalue_place};
use crate::statements::with_captures;
use crate::value::Value;

verus! {

/// A name stands for the last local variable of that name, if there is one.
pub proof fn law_names_stand_for_the_last_local(locals: Seq<Local>, name: usize)
    ensures
        local_place(locals, name) > 0 ==> is_local(locals, name, local_place(locals, name)),
        local_place(locals, name) <= 0 ==> is_global(locals, name),
{
    lemma_local_place(locals, name);
}

/// The instruction that takes a local variable off the stack. A captured one
/// keeps its value elsewhere.
pub open spec fn dropping(local: Local) -> u8 {
    if local.is_captured {
        byte_of(OpCode::CloseUpvalue)
    } else {
        byte_of(OpCode::Pop)
    }
}

/// At the end of a scope its variables are taken off the stack, the last one
/// first, and those of the scopes around it stay.
pub proof fn law_scopes_end(s: PState, n: int)
    requires
        s.function.scope_depth > i32::MIN,
        0 <= n <= s.function.locals.len(),
        n > 0 ==> s.function.locals[n - 1].depth < s.function.scope_depth,
        forall|i: int|
            n <= i < s.function.locals.len() ==> (#[trigger] s.function.locals[i]).depth
                >= s.function.scope_depth,
    ensures
        ({
            let t = s.end_scope();
            let dropped = s.function.locals.len() - n;
            &&& t.function.scope_depth == s.function.scope_depth - 1
            &&& t.function.locals == s.function.locals.take(n)
            &&& t.function.code == s.function.code + Seq::new(
                dropped as nat,
                |k: int| dropping(s.function.locals[s.function.locals.len() - 1 - k]),
            )
            &&& t.notes == s.notes
        }),
{
    reveal(PState::end_scope);
    let t = s.with_function(
        FState { scope_depth: (s.function.scope_depth - 1) as i32, ..s.function },
    );
    lemma_drop(t, n);
}

proof fn lemma_drop(s: PState, n: int)
    requires
        0 <= n <= s.function.locals.len(),
        n > 0 ==> s.function.locals[n - 1].depth <= s.function.scope_depth,
        forall|i: int|
            n <= i < s.function.locals.len() ==> (#[trigger] s.function.locals[i]).depth
                > s.function.scope_depth,
    ensures
        ({
            let t = s.drop_locals();
            let dropped = s.function.locals.len() - n;
            &&& t.function.scope_depth == s.function.scope_depth
            &&& t.function.locals == s.function.locals.take(n)
            &&& t.function.code == s.function.code + Seq::new(
                dropped as nat,
                |k: int| dropping(s.function.locals[s.function.locals.len() - 1 - k]),
            )
            &&& t.notes == s.notes
        }),
    decreases s.function.locals.len(),
{
    let locals = s.function.locals;
    let dropped = locals.len() - n;
    let all = Seq::new(dropped as nat, |k: int| dropping(locals[locals.len() - 1 - k]));
    if locals.len() > n {
        reveal(FState::with_op);
        assert(locals.last() == locals[locals.len() - 1]);
        let local = locals.last();
        let op = if local.is_captured {
            OpCode::CloseUpvalue
        } else {
            OpCode::Pop
        };
        let t = s.with_function(
            FState {
                locals: locals.drop_last(),
                bindings: crate::parser::with_live_end(
                    s.function.bindings,
                    local.metadata,
                    s.function.code.len() as usize,
                ),
                ..s.function
            },
        ).op(op);
        assert(t.function.locals == locals.drop_last());
        assert(s.drop_locals() == t.drop_locals());
        lemma_drop(t, n);
        let rest = Seq::new(
            (dropped - 1) as nat,
            |k: int| dropping(t.function.locals[t.function.locals.len() - 1 - k]),
        );
        assert(all =~= seq![byte_of(op)] + rest);
        assert(t.function.code =~= s.function.code + seq![byte_of(op)]);
        assert(s.function.code + seq![byte_of(op)] + rest =~= s.function.code + all);
        assert(t.function.locals.take(n) =~= locals.take(n));
    } else {
        assert(s.drop_locals() == s);
        assert(locals.take(n) =~= locals);
        assert(s.function.code + all =~= s.function.code);
    }
}

/// A new local variable takes the next slot; it cannot be read until it is
/// initialized, and what is recorded of it names its slot.
pub proof fn law_locals_take_the_next_slot(s: PState, name: Lexed)
    requires
        s.function.locals.len() < LOCALS_MAX,
    ensures
        ({
            let t = s.add_local(name);
            let n = s.function.locals.len() as int;
            &&& t.function.locals.len() == n + 1
            &&& t.function.locals.take(n) == s.function.locals
            &&& t.function.locals[n].name == name.text
            &&& t.function.locals[n].depth < 0
            &&& !t.function.locals[n].is_captured
            &&& t.function.code == s.function.code
            &&& t.function.bindings.len() == s.function.bindings.len() + 1
            &&& t.function.bindings.last().slot == n
            &&& t.function.bindings.last().name == name.text
            &&& t.function.bindings.last().id == t.function.locals[n].binding_id
            &&& t.function.bindings.last().declaration == s.span_of(name)
        }),
{
    reveal(PState::add_local);
    let t = s.add_local(name);
    assert(t.function.locals.take(s.function.locals.len() as int) =~= s.function.locals);
}

/// A function has room for so many locals, and one more is reported.
pub proof fn law_locals_are_limited(s: PState, name: Lexed)
    requires
        s.function.locals.len() == LOCALS_MAX,
    ensures
        s.add_local(name).function == s.function,
        s.panic_mode || s.add_local(name).had_error,
{
    reveal(PState::add_local);
}

/// A second variable of one name in one scope is reported; one of an outer
/// scope is hidden.
pub proof fn law_one_variable_for_a_name(s: PState, kind: BindingKind)
    requires
        s.function.scope_depth > 0,
        0 < s.function.locals.len() < LOCALS_MAX,
        !s.panic_mode,
        !s.had_error,
    ensures
        s.declare_variable(kind).had_error <==> exists|place: int| #[trigger]
            is_local(s.function.locals, s.previous.text, place) && (
            s.function.locals[place].depth == -1 || s.function.locals[place].depth
                == s.function.scope_depth),
        s.declare_variable(kind).function.locals.len() == s.function.locals.len() + 1,
        s.declare_variable(kind).function.locals.last().name == s.previous.text,
{
    reveal(PState::declare_variable);
    reveal(PState::add_local);
    let name = s.previous.text;
    lemma_local_place(s.function.locals, name);
    let place = local_place(s.function.locals, name);
    assert forall|p: int| #[trigger] is_local(s.function.locals, name, p) implies place == p by {
        if place > 0 {
            assert(is_local(s.function.locals, name, place));
            if p < place {
                assert(s.function.locals[place].name != name);
            }
            if place < p {
                assert(s.function.locals[p].name != name);
            }
        } else {
            assert(s.function.locals[p].name != name);
        }
    }
    if s.declare_variable(kind).had_error {
        assert(is_local(s.function.locals, name, place));
    }
}

/// A local variable cannot be read in its own initializer.
pub proof fn law_no_variable_is_read_before_its_value(s: PState, name: Lexed, place: int)
    requires
        is_local(s.function.locals, name.text, place),
        !s.panic_mode,
        !s.had_error,
    ensures
        s.resolve_local(name).had_error <==> s.function.locals[place].depth == -1,
{
    lemma_local_place(s.function.locals, name.text);
    let found = local_place(s.function.locals, name.text);
    if found > 0 && found < place {
        assert(s.function.locals[place].name != name.text);
    }
    if place < found {
        assert(s.function.locals[found].name != name.text);
    }
}

/// A variable that is defined in a scope stays where its value is, and can be
/// read from there on; outside of all scopes it becomes a global of its name.
pub proof fn law_definitions(s: PState, name: Lexed)
    requires
        s.function.locals.len() > 0,
    ensures
        s.function.scope_depth > 0 ==> {
            let t = s.define_variable(0);
            &&& t.function.code == s.function.code
            &&& t.function.locals.last().depth == s.function.scope_depth
            &&& t.function.locals.drop_last() == s.function.locals.drop_last()
            &&& t.function.locals.last().name == s.function.locals.last().name
        },
        s.function.scope_depth == 0 && s.function.constants.len() < 256 ==> {
            let m = s.identifier_constant(name);
            let t = m.define_variable(s.identifier_operand(name));
            let n = s.function.code.len() as int;
            &&& t.function.code.len() == n + 2
            &&& t.function.code.take(n) == s.function.code
            &&& t.function.code[n] == byte_of(OpCode::DefineGlobal)
            &&& t.function.constants[t.function.code[n + 1] as int] == Value::Obj(name.text)
        },
{
    reveal(PState::define_variable);
    reveal(PState::mark_initialized);
    reveal(PState::identifier_constant);
    reveal(FState::with_op);
    reveal(FState::with_byte);
    law_constant_is_found_at_its_index(s.function.constants, Value::Obj(name.text));
    if s.function.scope_depth > 0 {
        let t = s.define_variable(0);
        assert(t.function.locals.drop_last() =~= s.function.locals.drop_last());
    }
    if s.function.scope_depth == 0 && s.function.constants.len() < 256 {
        let m = s.identifier_constant(name);
        let t = m.define_variable(s.identifier_operand(name));
        assert(t.function.code.take(s.function.code.len() as int) =~= s.function.code);
    }
}

/// What a function captures is a local variable of that name of the function
/// around it, which is marked, or what that function captures under the name in
/// turn.
pub open spec fn leads_to(upvalue: Upvalue, enclosing: Seq<FState>, name: usize) -> bool
    decreases enclosing.len(),
{
    enclosing.len() > 0 && {
        let outer = enclosing.last();
        if upvalue.is_local {
            &&& is_local(outer.locals, name, upvalue.index as int)
            &&& outer.locals[upvalue.index as int].is_captured
            &&& outer.locals[upvalue.index as int].depth != -1
        } else {
            &&& upvalue.index < outer.upvalues.len()
            &&& leads_to(outer.upvalues[upvalue.index as int], enclosing.drop_last(), name)
        }
    }
}

/// No local variable of a function can be read under a name.
pub open spec fn no_local(f: FState, name: usize) -> bool {
    forall|place: int| #[trigger] is_local(f.locals, name, place) ==> f.locals[place].depth == -1
}

proof fn lemma_upvalue(f: FState, index: u8, is_local: bool)
    ensures
        ({
            let place = upvalue_place(f.upvalues, index, is_local, 0);
            place < f.upvalues.len() ==> 0 <= place && f.upvalues[place].index == index
                && f.upvalues[place].is_local == is_local
        }),
{
    lemma_upvalue_from(f.upvalues, index, is_local, 0);
}

proof fn lemma_upvalue_from(upvalues: Seq<Upvalue>, index: u8, is_local: bool, i: int)
    requires
        0 <= i,
    ensures
        ({
            let place = upvalue_place(upvalues, index, is_local, i);
            i <= place && (place < upvalues.len() ==> upvalues[place].index == index
                && upvalues[place].is_local == is_local)
        }),
    decreases upvalues.len() - i,
{
    if i < upvalues.len() && !(upvalues[i].index == index && upvalues[i].is_local == is_local) {
        lemma_upvalue_from(upvalues, index, is_local, i + 1);
    }
}

/// A name that stands for a variable of a function around is captured by way of
/// the functions in between; a name that is not found is that of no variable
/// around.
pub proof fn law_captures_lead_to_the_variable(enclosing: Seq<FState>, inner: FState, name: usize)
    ensures
        ({
            let (outer, after, capture) = captured(enclosing, inner, name);
            &&& outer.len() == enclosing.len()
            &&& capture matches Ok(Some(place)) ==> place < after.upvalues.len() && leads_to(
                after.upvalues[place as int],
                outer,
                name,
            )
            &&& capture == Ok::<Option<usize>, ()>(None) ==> forall|i: int|
                0 <= i < enclosing.len() ==> no_local(#[trigger] enclosing[i], name)
        }),
    decreases enclosing.len(),
{
    if enclosing.len() > 0 {
        let outer = enclosing.last();
        let rest = enclosing.drop_last();
        let place = local_place(outer.locals, name);
        lemma_local_place(outer.locals, name);
        if place > 0 && outer.locals[place].depth != -1 {
            lemma_upvalue(inner, place as u8, true);
            let marked = captured(enclosing, inner, name).0.last();
            assert(is_local(marked.locals, name, place)) by {
                assert forall|i: int| place < i < marked.locals.len() implies (
                #[trigger] marked.locals[i]).name != name by {
                    assert(outer.locals[i].name != name);
                }
            }
        } else {
            law_captures_lead_to_the_variable(rest, outer, name);
            let (far, next, capture) = captured(rest, outer, name);
            if let Ok(Some(at)) = capture {
                lemma_upvalue(inner, at as u8, false);
                assert(captured(enclosing, inner, name).0.drop_last() =~= far);
            }
            assert(no_local(outer, name)) by {
                assert forall|p: int| #[trigger] is_local(outer.locals, name, p) implies outer.locals[p].depth
                    == -1 by {
                    if place > 0 {
                        assert(is_local(outer.locals, name, place));
                        if p < place {
                            assert(outer.locals[place].name != name);
                        }
                        if place < p {
                            assert(outer.locals[p].name != name);
                        }
                    } else {
                        assert(outer.locals[p].name != name);
                    }
                }
            }
            if capture == Ok::<Option<usize>, ()>(None) {
                assert forall|i: int| 0 <= i < enclosing.len() implies no_local(
                    #[trigger] enclosing[i],
                    name,
                ) by {
                    if i < rest.len() {
                        assert(rest[i] == enclosing[i]);
                    }
                }
            }
        }
    }
}

/// Behind the instruction that makes a closure stand two bytes for each variable
/// that it captures: whether that is a local of the function that makes it, and
/// its place.
pub proof fn law_closures_tell_what_they_capture(s: PState, function: FState, k: int)
    requires
        0 <= k < function.upvalues.len(),
    ensures
        ({
            let code = with_captures(s, function, 0).function.code;
            let n = s.function.code.len() as int;
            &&& code.len() == n + 2 * function.upvalues.len()
            &&& code.take(n) == s.function.code
            &&& code[n + 2 * k] == if function.upvalues[k].is_local {
                1u8
            } else {
                0u8
            }
            &&& code[n + 2 * k + 1] == function.upvalues[k].index
        }),
{
    lemma_captures(s, function, 0);
    let code = with_captures(s, function, 0).function.code;
    assert(code.take(s.function.code.len() as int) =~= s.function.code);
}

pub proof fn lemma_captures(s: PState, function: FState, i: int)
    requires
        0 <= i <= function.upvalues.len(),
    ensures
        ({
            let code = with_captures(s, function, i).function.code;
            let n = s.function.code.len() as int;
            &&& code.len() == n + 2 * (function.upvalues.len() - i)
            &&& forall|j: int| 0 <= j < n ==> #[trigger] code[j] == s.function.code[j]
            &&& forall|k: int|
                i <= k < function.upvalues.len() ==> code[n + 2 * (k - i)] == (
                if (#[trigger] function.upvalues[k]).is_local {
                    1u8
                } else {
                    0u8
                }) && code[n + 2 * (k - i) + 1] == function.upvalues[k].index
        }),
    decreases function.upvalues.len() - i,
{
    if i < function.upvalues.len() {
        reveal(FState::with_byte);
        let upvalue = function.upvalues[i];
        let local = if upvalue.is_local {
            1u8
        } else {
            0u8
        };
        let t = s.byte(local).byte(upvalue.index);
        lemma_captures(t, function, i + 1);
        let code = with_captures(s, function, i).function.code;
        let n = s.function.code.len() as int;
        assert(code[n] == t.function.code[n]);
        assert(code[n + 1] == t.function.code[n + 1]);
        assert forall|j: int| 0 <= j < n implies #[trigger] code[j] == s.function.code[j] by {
            assert(code[j] == t.function.code[j]);
        }
    }
}

/// A function that is begun is empty but for its own slot, and the one around
/// it waits; the name read last is its name. A finished one returns `nil` at
/// its end, and the one around it goes on as it was.
pub proof fn law_functions_begin_and_end(s: PState)
    ensures
        ({
            let t = s.open_function(FunctionType::Function);
            &&& t.enclosing.len() == s.enclosing.len() + 1
            &&& t.enclosing.last() == s.function
            &&& t.function.name == Some(s.previous.text)
            &&& t.function.arity == 0
            &&& t.function.code.len() == 0
            &&& t.function.constants.len() == 0
            &&& t.function.upvalues.len() == 0
            &&& t.function.locals.len() == 1
            &&& t.leave_function().function == s.function
            &&& t.leave_function().enclosing == s.enclosing
            &&& t.leave_function().finished == s.finished.push(t.function)
        }),
        s.close_function().function.code == s.function.code + seq![
            byte_of(OpCode::Nil),
            byte_of(OpCode::Return),
        ],
{
    reveal(PState::open_function);
    reveal(PState::leave_function);
    reveal(PState::close_function);
    reveal(FState::with_op);
    let t = s.open_function(FunctionType::Function);
    assert(t.leave_function().enclosing =~= s.enclosing);
    assert(s.close_function().function.code =~= s.function.code + seq![
        byte_of(OpCode::Nil),
        byte_of(OpCode::Return),
    ]);
}

/// What is recorded of a variable says from which instruction on it can be read,
/// and up to which.
pub proof fn law_variables_live_from_definition_to_the_end_of_scope(s: PState, m: usize)
    requires
        s.function.scope_depth > 0,
        s.function.locals.len() > 0,
        s.function.locals.last().metadata == Some(m),
        m < s.function.bindings.len(),
        s.function.code.len() <= usize::MAX,
    ensures
        s.define_variable(0).function.bindings[m as int].live_start == s.function.code.len(),
        s.function.locals.last().depth == s.function.scope_depth && (s.function.locals.len() > 1
            ==> s.function.locals[s.function.locals.len() - 2].depth < s.function.scope_depth)
            ==> s.end_scope().function.bindings[m as int].live_end == s.function.code.len(),
{
    reveal(PState::define_variable);
    reveal(PState::mark_initialized);
    reveal(PState::end_scope);
    reveal(FState::with_op);
    reveal_with_fuel(PState::drop_locals, 3);
    let locals = s.function.locals;
    if locals.last().depth == s.function.scope_depth && (locals.len() > 1 ==> locals[locals.len()
        - 2].depth < s.function.scope_depth) {
        let t = s.with_function(
            FState { scope_depth: (s.function.scope_depth - 1) as i32, ..s.function },
        );
        assert(t.function.locals.last().depth > t.function.scope_depth);
        assert(locals.len() > 1 ==> locals.drop_last().last() == locals[locals.len() - 2]);
    }
}

/// A name that is declared or used is noted with its place, and with what is
/// done: a local variable is one that is declared in a scope, and a use of one
/// means its declaration.
pub proof fn law_names_are_noted(s: PState, symbol: SymbolKind, name: Lexed, place: int, write: bool)
    requires
        0 < place < s.function.locals.len(),
    ensures
        s.declares(symbol).sightings.drop_last() == s.sightings,
        s.declares(symbol).sightings.last().name == s.previous.text,
        s.declares(symbol).sightings.last().span == s.span_of(s.previous),
        s.declares(symbol).sightings.last().sight == (Sight::Declares {
            symbol,
            local: s.function.scope_depth > 0,
        }),
        s.uses(name, OpCode::GetLocal, place, write).sightings.drop_last() == s.sightings,
        s.uses(name, OpCode::GetLocal, place, write).sightings.last().name == name.text,
        s.uses(name, OpCode::GetLocal, place, write).sightings.last().span == s.span_of(name),
        s.uses(name, OpCode::GetLocal, place, write).sightings.last().sight == (Sight::Uses {
            write,
            captured: false,
            target: Some(s.function.locals[place].declaration),
        }),
        s.uses(name, OpCode::GetGlobal, place, write).sightings.last().sight == (Sight::Uses {
            write,
            captured: false,
            target: None,
        }),
        place < s.function.upvalues.len() ==> s.uses(
            name,
            OpCode::GetUpvalue,
            place,
            write,
        ).sightings.last().sight == (Sight::Uses {
            write,
            captured: true,
            target: Some(s.function.upvalues[place].declaration),
        }),
{
    reveal(PState::declares);
    reveal(PState::uses);
    assert(s.declares(symbol).sightings.drop_last() =~= s.sightings);
    assert(s.uses(name, OpCode::GetLocal, place, write).sightings.drop_last() =~= s.sightings);
}

} // verus!
