//! What a snapshot says of the machine that it was taken of.
use vstd::prelude::*;
use crate::debug_info::{BindingDebugInfo, BindingId, BindingKind, UpvalueDebugInfo};
use crate::interpreter_session::{
    is_plan, looked_at, request_at, resumed, snapshot_shows, SessionView,
};
use crate::machine::{Input, VmState};
use crate::object::{Content, Function, UpvalueCell};
use crate::picture::{shows_binding, shows_bindings, BindingPicture, Build, Scene};
use crate::picture_laws::{
    depicts, goes_on, in_hand, is_kind_of, is_name_of, law_values_are_shown_as_they_are,
    lemma_depicts_on, lemma_follows, lemma_pictured, look_of, numbered, follows, Look,
};
use crate::runtime_host::{Arithmetic, RuntimeHost};
use crate::session::{PauseReason, ResumeMode, RunOutcome, StepPlan};
use crate::snapshot::{
    shows_nothing, BindingSnapshot, FrameSnapshot, SnapshotBuildError, SnapshotLimits,
    SnapshotReason, VmSnapshot,
};
use crate::snapshot_budget::schema;
use crate::snapshot_builder::{
    any_wanted, cell_value, frame_picture, frame_upvalues, kind_name, locals_from, shows_frame,
    upvalues_from, wanted, FramePicture, SnapshotRequest, ValidatedFrame,
};
use crate::snapshot_globals::{
    composition, globals_from, is_selection, leaves_out, named, snapshot_picture, taken,
};
use crate::snapshot_machine::{frame_fault, frames_from, standing, validated};
use crate::source::SourceSpan;
use crate::table::Key;
use crate::text::utf8_len;
use crate::value::Value;

verus! {

/// A name is shown as it is, or left out where it is too long.
pub open spec fn names(look: Look, name: Seq<char>, shown: Seq<char>, truncated: bool) -> bool {
    if truncated {
        shown.len() == 0 && utf8_len(name) > look.limits.max_string_bytes
    } else {
        shown == name
    }
}

/// A binding shows a variable: its own identity, name and kind, and its value.
pub open spec fn binds(
    look: Look,
    id: Option<BindingId>,
    name: Seq<char>,
    kind: Seq<char>,
    value: Value,
    d: BindingSnapshot,
) -> bool {
    &&& d.binding_id == id
    &&& names(look, name, d.name@, d.name_truncated)
    &&& d.binding_kind@ == kind
    &&& depicts(look, Seq::empty(), value, d.value)
    &&& is_kind_of(d.value_kind, d.value)
}

/// What shows a picture shows a variable.
spec fn tells(
    look: Look,
    id: Option<BindingId>,
    name: Seq<char>,
    kind: Seq<char>,
    value: Value,
    p: BindingPicture,
) -> bool {
    forall|d: BindingSnapshot| #[trigger]
        shows_binding(d, p) ==> binds(look, id, name, kind, value, d)
}

proof fn lemma_tells_on(
    a: Look,
    b: Look,
    id: Option<BindingId>,
    name: Seq<char>,
    kind: Seq<char>,
    value: Value,
    p: BindingPicture,
)
    requires
        follows(a, b),
        tells(a, id, name, kind, value, p),
    ensures
        tells(b, id, name, kind, value, p),
{
    assert forall|d: BindingSnapshot| #[trigger] shows_binding(d, p) implies binds(
        b,
        id,
        name,
        kind,
        value,
        d,
    ) by {
        lemma_depicts_on(a, b, Seq::empty(), value, d.value);
    }
}

proof fn lemma_binding(
    scene: Scene,
    b: Build,
    id: Option<BindingId>,
    name: Seq<char>,
    kind: Seq<char>,
    value: Result<Value, SnapshotBuildError>,
)
    requires
        in_hand(scene, b),
        b.active.len() == 0,
    ensures
        match b.binding(scene, id, name, kind, value) {
            (after, Ok(None)) => goes_on(scene, b, after),
            (after, Ok(Some(p))) => goes_on(scene, b, after) && value is Ok && tells(
                look_of(scene, after),
                id,
                name,
                kind,
                value->Ok_0,
                p,
            ),
            _ => true,
        },
{
    let (after, result) = b.binding(scene, id, name, kind, value);
    let (budget, first) = b.budget.on_binding();
    let (budget, second) = budget.on_owned_string(kind);
    let c = b.with_budget(budget);
    let (d, owned) = c.owned_name(name);
    let e = d.with_budget(d.budget.on_value().0);
    if let Ok(Some(p)) = result {
        assert(goes_on(scene, b, e));
        let value = value->Ok_0;
        assert(b.active =~= Seq::empty());
        assert forall|shown: BindingSnapshot| #[trigger] shows_binding(shown, p) implies binds(
            look_of(scene, after),
            id,
            name,
            kind,
            value,
            shown,
        ) by {
            law_values_are_shown_as_they_are(scene, value, 0, e, shown.value);
        }
        lemma_pictured(scene, value, 0, e);
        assert(goes_on(scene, e, after));
        lemma_follows(
            look_of(scene, b),
            look_of(scene, e),
            look_of(scene, after),
        );
    }
}

/// A variable lives at a place in the code. The slot of the callee is none.
pub open spec fn is_live(binding: BindingDebugInfo, parameters: bool, offset: usize) -> bool {
    &&& binding.kind is Parameter <==> parameters
    &&& binding.slot > 0
    &&& binding.live_start <= offset
    &&& offset < binding.live_end
}

/// The parameters, or the other variables, that live at a place, in order.
pub open spec fn live(bindings: Seq<BindingDebugInfo>, parameters: bool, offset: usize) -> Seq<
    BindingDebugInfo,
>
    decreases bindings.len(),
{
    if bindings.len() == 0 {
        Seq::empty()
    } else {
        let before = live(bindings.drop_last(), parameters, offset);
        if is_live(bindings.last(), parameters, offset) {
            before.push(bindings.last())
        } else {
            before
        }
    }
}

proof fn lemma_live_step(
    bindings: Seq<BindingDebugInfo>,
    parameters: bool,
    offset: usize,
    i: int,
)
    requires
        0 <= i < bindings.len(),
    ensures
        live(bindings.take(i + 1), parameters, offset) == if is_live(
            bindings[i],
            parameters,
            offset,
        ) {
            live(bindings.take(i), parameters, offset).push(bindings[i])
        } else {
            live(bindings.take(i), parameters, offset)
        },
        is_live(bindings[i], parameters, offset) == wanted(bindings[i], parameters, offset),
{
    assert(bindings.take(i + 1).drop_last() =~= bindings.take(i));
    assert(bindings.take(i + 1).last() == bindings[i]);
}

proof fn lemma_live_from(
    bindings: Seq<BindingDebugInfo>,
    parameters: bool,
    offset: usize,
    i: int,
)
    requires
        0 <= i <= bindings.len(),
    ensures
        live(bindings.take(i), parameters, offset).is_prefix_of(
            live(bindings, parameters, offset),
        ),
        any_wanted(bindings, i, parameters, offset) <==> live(
            bindings.take(i),
            parameters,
            offset,
        ).len() < live(bindings, parameters, offset).len(),
    decreases bindings.len() - i,
{
    if i < bindings.len() {
        lemma_live_from(bindings, parameters, offset, i + 1);
        lemma_live_step(bindings, parameters, offset, i);
        if wanted(bindings[i], parameters, offset) {
            assert(any_wanted(bindings, i, parameters, offset));
        }
        if any_wanted(bindings, i, parameters, offset) {
            let j = choose|j: int|
                i <= j < bindings.len() && wanted(#[trigger] bindings[j], parameters, offset);
            if j > i {
                assert(any_wanted(bindings, i + 1, parameters, offset));
            }
        }
        if any_wanted(bindings, i + 1, parameters, offset) {
            let j = choose|j: int|
                i + 1 <= j < bindings.len() && wanted(#[trigger] bindings[j], parameters, offset);
            assert(any_wanted(bindings, i, parameters, offset));
        }
    } else {
        assert(bindings.take(i) =~= bindings);
    }
}

/// The word for a kind of variable.
pub open spec fn is_word_for(kind: BindingKind, word: Seq<char>) -> bool {
    &&& kind is Parameter ==> word == "parameter"@
    &&& kind is Local ==> word == "local"@
    &&& kind is Implicit ==> word == "implicit"@
}

/// A binding shows a variable of a call whose part of the stack begins at
/// `base`.
pub open spec fn binds_local(
    look: Look,
    s: VmState,
    base: usize,
    info: BindingDebugInfo,
    d: BindingSnapshot,
) -> bool {
    &&& base + info.slot < s.stack.len()
    &&& is_word_for(info.kind, d.binding_kind@)
    &&& binds(look, Some(info.id), info.name@, d.binding_kind@, s.stack[base + info.slot], d)
}

/// Bindings show the first of some variables, and whether there are more.
pub open spec fn binds_locals(
    look: Look,
    s: VmState,
    base: usize,
    infos: Seq<BindingDebugInfo>,
    ds: Seq<BindingSnapshot>,
    truncated: bool,
) -> bool {
    &&& ds.len() <= infos.len()
    &&& truncated <==> ds.len() < infos.len()
    &&& forall|j: int| 0 <= j < ds.len() ==> binds_local(look, s, base, infos[j], #[trigger] ds[j])
}

spec fn tells_local(look: Look, s: VmState, base: usize, info: BindingDebugInfo, p: BindingPicture) -> bool {
    &&& base + info.slot < s.stack.len()
    &&& tells(
        look,
        Some(info.id),
        info.name@,
        kind_name(info.kind),
        s.stack[base + info.slot],
        p,
    )
}

spec fn tells_locals(
    look: Look,
    s: VmState,
    base: usize,
    infos: Seq<BindingDebugInfo>,
    ps: Seq<BindingPicture>,
) -> bool {
    &&& ps.len() <= infos.len()
    &&& forall|j: int| 0 <= j < ps.len() ==> tells_local(look, s, base, infos[j], #[trigger] ps[j])
}

proof fn lemma_tells_locals_on(
    a: Look,
    b: Look,
    s: VmState,
    base: usize,
    infos: Seq<BindingDebugInfo>,
    ps: Seq<BindingPicture>,
)
    requires
        follows(a, b),
        tells_locals(a, s, base, infos, ps),
    ensures
        tells_locals(b, s, base, infos, ps),
{
    assert forall|j: int| 0 <= j < ps.len() implies tells_local(
        b,
        s,
        base,
        infos[j],
        #[trigger] ps[j],
    ) by {
        lemma_tells_on(
            a,
            b,
            Some(infos[j].id),
            infos[j].name@,
            kind_name(infos[j].kind),
            s.stack[base + infos[j].slot],
            ps[j],
        );
    }
}

proof fn lemma_binds_locals(
    look: Look,
    s: VmState,
    base: usize,
    infos: Seq<BindingDebugInfo>,
    ps: Seq<BindingPicture>,
    ds: Seq<BindingSnapshot>,
)
    requires
        tells_locals(look, s, base, infos, ps),
        shows_bindings(ds, ps),
    ensures
        binds_locals(look, s, base, infos, ds, ps.len() < infos.len()),
{
    assert forall|j: int| 0 <= j < ds.len() implies binds_local(
        look,
        s,
        base,
        infos[j],
        #[trigger] ds[j],
    ) by {
        assert(shows_binding(ds[j], ps[j]));
        assert(tells_local(look, s, base, infos[j], ps[j]));
    }
}

proof fn lemma_locals_from(
    s: VmState,
    scene: Scene,
    frame: ValidatedFrame,
    bindings: Seq<BindingDebugInfo>,
    parameters: bool,
    i: int,
    b: Build,
    done: Seq<BindingPicture>,
    emitted: int,
)
    requires
        in_hand(scene, b),
        b.active.len() == 0,
        0 <= i <= bindings.len(),
        done.len() == live(bindings.take(i), parameters, frame.liveness_offset).len(),
        tells_locals(
            look_of(scene, b),
            s,
            frame.base,
            live(bindings, parameters, frame.liveness_offset),
            done,
        ),
        emitted <= scene.limits.max_bindings_per_frame,
    ensures
        match locals_from(s, scene, frame, bindings, parameters, i, b, done, emitted) {
            (after, Ok((ps, truncated, e))) => {
                let infos = live(bindings, parameters, frame.liveness_offset);
                &&& goes_on(scene, b, after)
                &&& tells_locals(look_of(scene, after), s, frame.base, infos, ps)
                &&& truncated <==> ps.len() < infos.len()
                &&& e - emitted == ps.len() - done.len()
                &&& e <= scene.limits.max_bindings_per_frame
            },
            _ => true,
        },
    decreases bindings.len() - i,
{
    let infos = live(bindings, parameters, frame.liveness_offset);
    lemma_live_from(bindings, parameters, frame.liveness_offset, i);
    if i < bindings.len() {
        lemma_live_step(bindings, parameters, frame.liveness_offset, i);
        lemma_live_from(bindings, parameters, frame.liveness_offset, i + 1);
        if !wanted(bindings[i], parameters, frame.liveness_offset) {
            lemma_locals_from(s, scene, frame, bindings, parameters, i + 1, b, done, emitted);
        } else {
            assert(any_wanted(bindings, i, parameters, frame.liveness_offset));
            let slot = frame.base + bindings[i].slot;
            if !b.exhausted() && emitted < scene.limits.max_bindings_per_frame && slot < frame.end
                && slot < s.stack.len() {
                let id = Some(bindings[i].id);
                let kind = kind_name(bindings[i].kind);
                lemma_binding(scene, b, id, bindings[i].name@, kind, Ok(s.stack[slot]));
                let (after, result) = b.binding(
                    scene,
                    id,
                    bindings[i].name@,
                    kind,
                    Ok(s.stack[slot]),
                );
                if result is Ok {
                    lemma_tells_locals_on(
                        look_of(scene, b),
                        look_of(scene, after),
                        s,
                        frame.base,
                        infos,
                        done,
                    );
                }
                if let Ok(Some(p)) = result {
                    let more = done.push(p);
                    let met = live(bindings.take(i + 1), parameters, frame.liveness_offset);
                    assert(met[done.len() as int] == bindings[i]);
                    assert(infos[done.len() as int] == bindings[i]);
                    assert forall|j: int| 0 <= j < more.len() implies tells_local(
                        look_of(scene, after),
                        s,
                        frame.base,
                        infos[j],
                        #[trigger] more[j],
                    ) by {
                        if j < done.len() {
                            assert(more[j] == done[j]);
                        }
                    }
                    if !after.exhausted() {
                        lemma_locals_from(
                            s,
                            scene,
                            frame,
                            bindings,
                            parameters,
                            i + 1,
                            after,
                            more,
                            emitted + 1,
                        );
                        let last = locals_from(
                            s,
                            scene,
                            frame,
                            bindings,
                            parameters,
                            i + 1,
                            after,
                            more,
                            emitted + 1,
                        );
                        if last.1 is Ok {
                            lemma_follows(
                                look_of(scene, b),
                                look_of(scene, after),
                                look_of(scene, last.0),
                            );
                        }
                    }
                }
            }
        }
    }
}

/// The value of a captured variable: its own, or that of the stack slot that it
/// shares while that is in use.
pub open spec fn holds(s: VmState, cell: usize, value: Value) -> bool {
    match s.heap.get(cell) {
        Content::Upvalue(UpvalueCell::Closed { value: own }) => value == own,
        Content::Upvalue(UpvalueCell::Open { slot }) => slot < s.stack.len() && value
            == s.stack[slot as int],
        _ => false,
    }
}

/// A binding shows a captured variable.
pub open spec fn binds_captured(
    look: Look,
    s: VmState,
    cells: Seq<usize>,
    info: UpvalueDebugInfo,
    d: BindingSnapshot,
) -> bool {
    info.index < cells.len() && exists|value: Value| #[trigger]
        holds(s, cells[info.index as int], value) && binds(
            look,
            Some(info.binding_id),
            info.name@,
            "upvalue"@,
            value,
            d,
        )
}

pub open spec fn binds_all_captured(
    look: Look,
    s: VmState,
    cells: Seq<usize>,
    infos: Seq<UpvalueDebugInfo>,
    ds: Seq<BindingSnapshot>,
    truncated: bool,
) -> bool {
    &&& ds.len() <= infos.len()
    &&& truncated <==> ds.len() < infos.len()
    &&& forall|j: int|
        0 <= j < ds.len() ==> binds_captured(look, s, cells, infos[j], #[trigger] ds[j])
}

spec fn tells_captured(
    look: Look,
    s: VmState,
    cells: Seq<usize>,
    info: UpvalueDebugInfo,
    p: BindingPicture,
) -> bool {
    &&& info.index < cells.len()
    &&& cell_value(s, cells[info.index as int]) matches Ok(value) && tells(
        look,
        Some(info.binding_id),
        info.name@,
        "upvalue"@,
        value,
        p,
    )
}

spec fn tells_all_captured(
    look: Look,
    s: VmState,
    cells: Seq<usize>,
    infos: Seq<UpvalueDebugInfo>,
    ps: Seq<BindingPicture>,
) -> bool {
    &&& ps.len() <= infos.len()
    &&& forall|j: int|
        0 <= j < ps.len() ==> tells_captured(look, s, cells, infos[j], #[trigger] ps[j])
}

proof fn lemma_tells_all_captured_on(
    a: Look,
    b: Look,
    s: VmState,
    cells: Seq<usize>,
    infos: Seq<UpvalueDebugInfo>,
    ps: Seq<BindingPicture>,
)
    requires
        follows(a, b),
        tells_all_captured(a, s, cells, infos, ps),
    ensures
        tells_all_captured(b, s, cells, infos, ps),
{
    assert forall|j: int| 0 <= j < ps.len() implies tells_captured(
        b,
        s,
        cells,
        infos[j],
        #[trigger] ps[j],
    ) by {
        lemma_tells_on(
            a,
            b,
            Some(infos[j].binding_id),
            infos[j].name@,
            "upvalue"@,
            cell_value(s, cells[infos[j].index as int])->Ok_0,
            ps[j],
        );
    }
}

proof fn lemma_binds_all_captured(
    look: Look,
    s: VmState,
    cells: Seq<usize>,
    infos: Seq<UpvalueDebugInfo>,
    ps: Seq<BindingPicture>,
    ds: Seq<BindingSnapshot>,
)
    requires
        tells_all_captured(look, s, cells, infos, ps),
        shows_bindings(ds, ps),
    ensures
        binds_all_captured(look, s, cells, infos, ds, ps.len() < infos.len()),
{
    assert forall|j: int| 0 <= j < ds.len() implies binds_captured(
        look,
        s,
        cells,
        infos[j],
        #[trigger] ds[j],
    ) by {
        assert(shows_binding(ds[j], ps[j]));
        assert(tells_captured(look, s, cells, infos[j], ps[j]));
        let value = cell_value(s, cells[infos[j].index as int])->Ok_0;
        assert(holds(s, cells[infos[j].index as int], value));
    }
}

proof fn lemma_upvalues_from(
    s: VmState,
    scene: Scene,
    cells: Seq<usize>,
    infos: Seq<UpvalueDebugInfo>,
    i: int,
    b: Build,
    done: Seq<BindingPicture>,
    emitted: int,
)
    requires
        in_hand(scene, b),
        b.active.len() == 0,
        0 <= i <= infos.len(),
        done.len() == i,
        tells_all_captured(look_of(scene, b), s, cells, infos, done),
        emitted <= scene.limits.max_bindings_per_frame,
    ensures
        match upvalues_from(s, scene, cells, infos, i, b, done, emitted) {
            (after, Ok((ps, truncated, e))) => {
                &&& goes_on(scene, b, after)
                &&& tells_all_captured(look_of(scene, after), s, cells, infos, ps)
                &&& truncated <==> ps.len() < infos.len()
                &&& e - emitted == ps.len() - done.len()
                &&& e <= scene.limits.max_bindings_per_frame
            },
            _ => true,
        },
    decreases infos.len() - i,
{
    if i < infos.len() && !b.exhausted() && infos[i].index < cells.len() && emitted
        < scene.limits.max_bindings_per_frame {
        let id = Some(infos[i].binding_id);
        let value = cell_value(s, cells[infos[i].index as int]);
        lemma_binding(scene, b, id, infos[i].name@, "upvalue"@, value);
        let (after, result) = b.binding(scene, id, infos[i].name@, "upvalue"@, value);
        if result is Ok {
            lemma_tells_all_captured_on(
                look_of(scene, b),
                look_of(scene, after),
                s,
                cells,
                infos,
                done,
            );
        }
        if let Ok(Some(p)) = result {
            let more = done.push(p);
            assert forall|j: int| 0 <= j < more.len() implies tells_captured(
                look_of(scene, after),
                s,
                cells,
                infos[j],
                #[trigger] more[j],
            ) by {
                if j < done.len() {
                    assert(more[j] == done[j]);
                }
            }
            if !after.exhausted() {
                lemma_upvalues_from(s, scene, cells, infos, i + 1, after, more, emitted + 1);
                let last = upvalues_from(s, scene, cells, infos, i + 1, after, more, emitted + 1);
                if last.1 is Ok {
                    lemma_follows(
                        look_of(scene, b),
                        look_of(scene, after),
                        look_of(scene, last.0),
                    );
                }
            }
        }
    }
}

/// A shown call is the call `i` of a machine: its function, the place that it
/// has come to, where it was called from, and the variables that live there.
pub open spec fn shows_call(
    look: Look,
    s: VmState,
    request: SnapshotRequest,
    i: int,
    d: FrameSnapshot,
) -> bool {
    let frame = s.frames[i];
    let last = i == s.frames.len() - 1;
    &&& d.activation_id == frame.activation_id
    &&& d.call_site == frame.call_site
    &&& last ==> d.current_span == request.current_span
    &&& !last ==> s.frames[i + 1].call_site == Some(d.current_span)
    &&& s.heap.get(frame.closure) matches Content::Closure { function, upvalues: cells }
        && s.heap.get(function) matches Content::Function(f) && {
        let offset = if last {
            request.active_offset->0
        } else {
            s.frames[i + 1].call_site_offset->0
        };
        let variables = f.debug_info.bindings@;
        &&& exists|name: Seq<char>| #[trigger]
            is_name_of(s.heap, f, name) && names(look, name, d.function@, d.function_truncated)
        &&& binds_locals(
            look,
            s,
            frame.base,
            live(variables, true, offset),
            d.parameters@,
            d.parameters_truncated,
        )
        &&& binds_locals(
            look,
            s,
            frame.base,
            live(variables, false, offset),
            d.locals@,
            d.locals_truncated,
        )
        &&& binds_all_captured(
            look,
            s,
            cells,
            f.debug_info.upvalues@,
            d.upvalues@,
            d.upvalues_truncated,
        )
        &&& d.parameters@.len() + d.locals@.len() + d.upvalues@.len()
            <= look.limits.max_bindings_per_frame
    }
}

/// What a picture of a call has to say.
spec fn tells_call(
    look: Look,
    s: VmState,
    place: ValidatedFrame,
    cells: Seq<usize>,
    f: Function,
    p: FramePicture,
) -> bool {
    let variables = f.debug_info.bindings@;
    let parameters = live(variables, true, place.liveness_offset);
    let locals = live(variables, false, place.liveness_offset);
    let upvalues = f.debug_info.upvalues@;
    &&& p.frame == place
    &&& exists|name: Seq<char>| #[trigger]
        is_name_of(s.heap, f, name) && names(look, name, p.function, p.function_truncated)
    &&& tells_locals(look, s, place.base, parameters, p.parameters)
    &&& p.parameters_truncated <==> p.parameters.len() < parameters.len()
    &&& tells_locals(look, s, place.base, locals, p.locals)
    &&& p.locals_truncated <==> p.locals.len() < locals.len()
    &&& tells_all_captured(look, s, cells, upvalues, p.upvalues)
    &&& p.upvalues_truncated <==> p.upvalues.len() < upvalues.len()
    &&& p.parameters.len() + p.locals.len() + p.upvalues.len()
        <= look.limits.max_bindings_per_frame
}

proof fn lemma_tells_call_on(
    a: Look,
    b: Look,
    s: VmState,
    place: ValidatedFrame,
    cells: Seq<usize>,
    f: Function,
    p: FramePicture,
)
    requires
        follows(a, b),
        tells_call(a, s, place, cells, f, p),
    ensures
        tells_call(b, s, place, cells, f, p),
{
    let variables = f.debug_info.bindings@;
    let parameters = live(variables, true, place.liveness_offset);
    let locals = live(variables, false, place.liveness_offset);
    lemma_tells_locals_on(a, b, s, place.base, parameters, p.parameters);
    lemma_tells_locals_on(a, b, s, place.base, locals, p.locals);
    lemma_tells_all_captured_on(a, b, s, cells, f.debug_info.upvalues@, p.upvalues);
    let name = choose|name: Seq<char>| #[trigger]
        is_name_of(s.heap, f, name) && names(a, name, p.function, p.function_truncated);
    assert(is_name_of(s.heap, f, name) && names(b, name, p.function, p.function_truncated));
}

proof fn lemma_shows_call(
    look: Look,
    s: VmState,
    request: SnapshotRequest,
    i: int,
    cells: Seq<usize>,
    f: Function,
    p: FramePicture,
    d: FrameSnapshot,
)
    requires
        0 <= i < s.frames.len(),
        i < s.frames.len() - 1 ==> s.frames[i + 1].call_site is Some,
        s.heap.get(s.frames[i].closure) matches Content::Closure { function, upvalues }
            && upvalues == cells && s.heap.get(function) == Content::Function(f),
        tells_call(look, s, standing(s, request, i), cells, f, p),
        shows_frame(d, p),
    ensures
        shows_call(look, s, request, i, d),
{
    let place = standing(s, request, i);
    let variables = f.debug_info.bindings@;
    let parameters = live(variables, true, place.liveness_offset);
    let locals = live(variables, false, place.liveness_offset);
    lemma_binds_locals(look, s, place.base, parameters, p.parameters, d.parameters@);
    lemma_binds_locals(look, s, place.base, locals, p.locals, d.locals@);
    lemma_binds_all_captured(look, s, cells, f.debug_info.upvalues@, p.upvalues, d.upvalues@);
}

proof fn lemma_frame_picture(
    s: VmState,
    scene: Scene,
    place: ValidatedFrame,
    cells: Seq<usize>,
    f: Function,
    b: Build,
)
    requires
        in_hand(scene, b),
        b.active.len() == 0,
        s.heap.get(place.function) == Content::Function(f),
    ensures
        match frame_picture(s, scene, place, cells, f, b) {
            (after, Ok(None)) => goes_on(scene, b, after),
            (after, Ok(Some(p))) => goes_on(scene, b, after) && tells_call(
                look_of(scene, after),
                s,
                place,
                cells,
                f,
                p,
            ),
            _ => true,
        },
{
    if let Ok(name) = crate::picture::checked_name(s.heap, place.function) {
        let (c, owned) = b.owned_name(name);
        assert(goes_on(scene, b, c));
        assert(is_name_of(s.heap, f, name));
        let all = f.debug_info.bindings@;
        let offset = place.liveness_offset;
        assert(all.take(0) =~= Seq::empty());
        lemma_locals_from(s, scene, place, all, true, 0, c, Seq::empty(), 0);
        let first = locals_from(s, scene, place, all, true, 0, c, Seq::empty(), 0);
        if owned is Some && first.1 is Ok {
            let d = first.0;
            let n = first.1->Ok_0.2;
            lemma_locals_from(s, scene, place, all, false, 0, d, Seq::empty(), n);
            let second = locals_from(s, scene, place, all, false, 0, d, Seq::empty(), n);
            if second.1 is Ok {
                let e = second.0;
                let m = second.1->Ok_0.2;
                let upvalues = f.debug_info.upvalues@;
                lemma_upvalues_from(s, scene, cells, upvalues, 0, e, Seq::empty(), m);
                let third = frame_upvalues(s, scene, cells, f, e, m);
                if third.1 is Ok {
                    let after = third.0;
                    assert(goes_on(scene, e, after));
                    let (ps, qs) = (first.1->Ok_0.0, second.1->Ok_0.0);
                    let (x, y, z) = (look_of(scene, c), look_of(scene, d), look_of(scene, e));
                    let look = look_of(scene, after);
                    lemma_follows(look_of(scene, b), x, y);
                    lemma_follows(look_of(scene, b), y, z);
                    lemma_follows(look_of(scene, b), z, look);
                    lemma_follows(y, z, look);
                    lemma_tells_locals_on(y, look, s, place.base, live(all, true, offset), ps);
                    lemma_tells_locals_on(z, look, s, place.base, live(all, false, offset), qs);
                    let (function, truncated) = owned->0;
                    assert(is_name_of(s.heap, f, name) && names(look, name, function, truncated));
                }
            }
        }
    }
}

/// The pictures of calls, the innermost first.
spec fn tells_calls(
    look: Look,
    s: VmState,
    places: Seq<ValidatedFrame>,
    ps: Seq<FramePicture>,
) -> bool {
    &&& ps.len() <= places.len()
    &&& forall|k: int|
        0 <= k < ps.len() ==> {
            let place = places[places.len() - 1 - k];
            tells_call(
                look,
                s,
                place,
                s.heap.get(place.closure)->Closure_upvalues,
                s.function_of(place.closure)->0,
                #[trigger] ps[k],
            )
        }
}

proof fn lemma_tells_calls_on(
    a: Look,
    b: Look,
    s: VmState,
    places: Seq<ValidatedFrame>,
    ps: Seq<FramePicture>,
)
    requires
        follows(a, b),
        tells_calls(a, s, places, ps),
    ensures
        tells_calls(b, s, places, ps),
{
    assert forall|k: int| 0 <= k < ps.len() implies {
        let place = places[places.len() - 1 - k];
        tells_call(
            b,
            s,
            place,
            s.heap.get(place.closure)->Closure_upvalues,
            s.function_of(place.closure)->0,
            #[trigger] ps[k],
        )
    } by {
        let place = places[places.len() - 1 - k];
        lemma_tells_call_on(
            a,
            b,
            s,
            place,
            s.heap.get(place.closure)->Closure_upvalues,
            s.function_of(place.closure)->0,
            ps[k],
        );
    }
}

/// The places of calls are those of closures.
spec fn well_set(s: VmState, places: Seq<ValidatedFrame>) -> bool {
    forall|i: int|
        0 <= i < places.len() ==> s.function_of((#[trigger] places[i]).closure) is Some
            && s.heap.get(places[i].closure)->Closure_function == places[i].function
}

proof fn lemma_frames_from(
    s: VmState,
    scene: Scene,
    places: Seq<ValidatedFrame>,
    k: int,
    b: Build,
    done: Seq<FramePicture>,
)
    requires
        in_hand(scene, b),
        b.active.len() == 0,
        well_set(s, places),
        0 <= k <= places.len(),
        k <= scene.limits.max_frames,
        done.len() == k,
        tells_calls(look_of(scene, b), s, places, done),
    ensures
        match frames_from(s, scene, places, k, b, done) {
            (after, Ok((ps, truncated))) => {
                &&& goes_on(scene, b, after)
                &&& tells_calls(look_of(scene, after), s, places, ps)
                &&& truncated <==> ps.len() < places.len()
                &&& ps.len() <= scene.limits.max_frames
                &&& after.budget.exhausted is None ==> ps.len() == places.len() || ps.len()
                    == scene.limits.max_frames
            },
            _ => true,
        },
    decreases places.len() - k,
{
    if k < places.len() && k < scene.limits.max_frames {
        let (budget, answer) = b.budget.on_estimate(schema().frame as nat);
        let reserved = b.with_budget(budget);
        let place = places[places.len() - 1 - k];
        let cells = s.heap.get(place.closure)->Closure_upvalues;
        let f = s.function_of(place.closure)->0;
        let look = look_of(scene, b);
        assert(goes_on(scene, b, reserved));
        assert(goes_on(scene, b, reserved.back_to(b)));
        if answer is Err {
            lemma_tells_calls_on(look, look_of(scene, reserved.back_to(b)), s, places, done);
        } else {
            lemma_frame_picture(s, scene, place, cells, f, reserved);
            let (after, result) = frame_picture(s, scene, place, cells, f, reserved);
            if result is Ok {
                lemma_follows(
                    look,
                    look_of(scene, reserved),
                    look_of(scene, after),
                );
                lemma_tells_calls_on(look, look_of(scene, after), s, places, done);
            }
            match result {
                Ok(None) => {
                    let last = after.back_to(b);
                    assert(goes_on(scene, b, last));
                    lemma_tells_calls_on(look, look_of(scene, last), s, places, done);
                    assert(last.budget.exhausted is Some);
                },
                Ok(Some(p)) => {
                    let more = done.push(p);
                    assert forall|j: int| 0 <= j < more.len() implies {
                        let place = places[places.len() - 1 - j];
                        tells_call(
                            look_of(scene, after),
                            s,
                            place,
                            s.heap.get(place.closure)->Closure_upvalues,
                            s.function_of(place.closure)->0,
                            #[trigger] more[j],
                        )
                    } by {
                        if j < k {
                            assert(more[j] == done[j]);
                        }
                    }
                    if !after.exhausted() {
                        lemma_frames_from(s, scene, places, k + 1, after, more);
                        let last = frames_from(s, scene, places, k + 1, after, more);
                        if last.1 is Ok {
                            lemma_follows(
                                look,
                                look_of(scene, after),
                                look_of(scene, last.0),
                            );
                        }
                    }
                },
                _ => {},
            }
        }
    }
}

/// A binding shows a global.
pub open spec fn binds_global(look: Look, s: VmState, key: Key, d: BindingSnapshot) -> bool {
    s.heap.get(key.object) matches Content::Text { text, hash: _ } && binds(
        look,
        None,
        text,
        "global"@,
        s.globals[key],
        d,
    )
}

spec fn tells_globals(look: Look, s: VmState, keys: Seq<Key>, ps: Seq<BindingPicture>) -> bool {
    &&& ps.len() <= keys.len()
    &&& forall|i: int|
        0 <= i < ps.len() ==> tells(
            look,
            None,
            s.heap.get(keys[i].object)->Text_text,
            "global"@,
            s.globals[keys[i]],
            #[trigger] ps[i],
        )
}

proof fn lemma_tells_globals_on(
    a: Look,
    b: Look,
    s: VmState,
    keys: Seq<Key>,
    ps: Seq<BindingPicture>,
)
    requires
        follows(a, b),
        tells_globals(a, s, keys, ps),
    ensures
        tells_globals(b, s, keys, ps),
{
    assert forall|i: int| 0 <= i < ps.len() implies tells(
        b,
        None,
        s.heap.get(keys[i].object)->Text_text,
        "global"@,
        s.globals[keys[i]],
        #[trigger] ps[i],
    ) by {
        let name = s.heap.get(keys[i].object)->Text_text;
        lemma_tells_on(a, b, None, name, "global"@, s.globals[keys[i]], ps[i]);
    }
}

proof fn lemma_globals_from(
    s: VmState,
    scene: Scene,
    keys: Seq<Key>,
    i: int,
    b: Build,
    done: Seq<BindingPicture>,
)
    requires
        in_hand(scene, b),
        b.active.len() == 0,
        0 <= i <= keys.len(),
        done.len() == i,
        tells_globals(look_of(scene, b), s, keys, done),
    ensures
        match globals_from(s, scene, keys, i, b, done) {
            (after, Ok((ps, truncated))) => {
                &&& goes_on(scene, b, after)
                &&& tells_globals(look_of(scene, after), s, keys, ps)
                &&& truncated <==> ps.len() < keys.len() || leaves_out(s, keys)
                &&& after.budget.exhausted is None ==> ps.len() == keys.len()
            },
            _ => true,
        },
    decreases keys.len() - i,
{
    if i < keys.len() && !b.exhausted() {
        let name = s.heap.get(keys[i].object)->Text_text;
        let value = s.globals[keys[i]];
        lemma_binding(scene, b, None, name, "global"@, Ok(value));
        let (after, result) = b.binding(scene, None, name, "global"@, Ok(value));
        if result is Ok {
            lemma_tells_globals_on(look_of(scene, b), look_of(scene, after), s, keys, done);
        }
        match result {
            Ok(None) => {
                lemma_no_binding(scene, b, None, name, "global"@, Ok(value));
            },
            Ok(Some(p)) => {
                let more = done.push(p);
                assert forall|j: int| 0 <= j < more.len() implies tells(
                    look_of(scene, after),
                    None,
                    s.heap.get(keys[j].object)->Text_text,
                    "global"@,
                    s.globals[keys[j]],
                    #[trigger] more[j],
                ) by {
                    if j < i {
                        assert(more[j] == done[j]);
                    }
                }
                if !after.exhausted() {
                    lemma_globals_from(s, scene, keys, i + 1, after, more);
                    let last = globals_from(s, scene, keys, i + 1, after, more);
                    if last.1 is Ok {
                        lemma_follows(
                            look_of(scene, b),
                            look_of(scene, after),
                            look_of(scene, last.0),
                        );
                    }
                }
            },
            _ => {},
        }
    }
}

/// A binding is left out only where a budget has run out.
proof fn lemma_no_binding(
    scene: Scene,
    b: Build,
    id: Option<BindingId>,
    name: Seq<char>,
    kind: Seq<char>,
    value: Result<Value, SnapshotBuildError>,
)
    requires
        b.binding(scene, id, name, kind, value).1 == Ok::<_, SnapshotBuildError>(
            None::<BindingPicture>,
        ),
    ensures
        b.binding(scene, id, name, kind, value).0.budget.exhausted is Some,
{
    let (budget, first) = b.budget.on_binding();
    let (budget, second) = budget.on_owned_string(kind);
    let c = b.with_budget(budget);
    if first is Ok && second is Ok {
        let (d, owned) = c.owned_name(name);
        assert(utf8_len(Seq::<char>::empty()) == 0);
    }
}

/// A snapshot shows the calls of a machine, the innermost first, and globals,
/// and tells whether that is all.
pub open spec fn shows_machine(
    look: Look,
    s: VmState,
    request: SnapshotRequest,
    selected: Seq<Key>,
    snapshot: VmSnapshot,
) -> bool {
    &&& look.heap == s.heap
    &&& numbered(look.ids)
    &&& snapshot.reason == request.reason
    &&& snapshot.current_span == request.current_span
    &&& snapshot.frames@.len() <= s.frames.len()
    &&& snapshot.frames@.len() <= look.limits.max_frames
    &&& snapshot.frames_truncated <==> snapshot.frames@.len() < s.frames.len()
    &&& forall|k: int|
        0 <= k < snapshot.frames@.len() ==> shows_call(
            look,
            s,
            request,
            s.frames.len() - 1 - k,
            #[trigger] snapshot.frames@[k],
        )
    &&& snapshot.globals@.len() <= selected.len()
    &&& forall|i: int|
        0 <= i < snapshot.globals@.len() ==> binds_global(
            look,
            s,
            selected[i],
            #[trigger] snapshot.globals@[i],
        )
    &&& !look.spent ==> snapshot.globals@.len() == selected.len() && (snapshot.frames@.len()
        == s.frames.len() || snapshot.frames@.len() == look.limits.max_frames)
    &&& snapshot.globals_truncated <==> exists|key: Key| #[trigger]
        s.globals.contains_key(key) && !selected.take(
            snapshot.globals@.len() as int,
        ).contains(key)
}

/// A snapshot shows the machine that it was taken of: its calls with their
/// variables and captured variables, and its globals, each value as it is.
pub proof fn law_a_snapshot_shows_its_machine(
    snapshot: VmSnapshot,
    s: VmState,
    request: SnapshotRequest,
    scene: Scene,
    selected: Seq<Key>,
)
    requires
        scene.heap == s.heap,
        is_selection(s, scene.limits.max_globals, selected),
        taken(Ok(snapshot), s, request, scene, selected),
    ensures
        exists|look: Look|
            look.texts == scene.texts && look.limits == scene.limits && #[trigger] shows_machine(
                look,
                s,
                request,
                selected,
                snapshot,
            ),
{
    reveal(composition);
    let start = Build::start(scene.limits, s.heap.objects.len());
    let p = snapshot_picture(s, request, scene, selected)->Ok_0;
    let places = validated(s, request)->Ok_0;
    assert forall|i: int| 0 <= i < s.frames.len() implies frame_fault(s, i) is None by {
        crate::snapshot_globals::lemma_no_fault(s, 0, i);
    }
    assert(well_set(s, places)) by {
        assert forall|i: int| 0 <= i < places.len() implies s.function_of(
            (#[trigger] places[i]).closure,
        ) is Some && s.heap.get(places[i].closure)->Closure_function == places[i].function by {
            assert(places[i] == standing(s, request, i));
            assert(frame_fault(s, i) is None);
        }
    }
    assert(in_hand(scene, start));
    lemma_frames_from(s, scene, places, 0, start, Seq::empty());
    let (b, frames) = frames_from(s, scene, places, 0, start, Seq::empty());
    lemma_globals_from(s, scene, selected, 0, b, Seq::empty());
    let look = look_of(scene, p.build);
    lemma_tells_calls_on(look_of(scene, b), look, s, places, p.frames);
    assert forall|k: int| 0 <= k < snapshot.frames@.len() implies shows_call(
        look,
        s,
        request,
        s.frames.len() - 1 - k,
        #[trigger] snapshot.frames@[k],
    ) by {
        let i = s.frames.len() - 1 - k;
        assert(places[i] == standing(s, request, i));
        assert(frame_fault(s, i) is None);
        if k > 0 {
            assert(frame_fault(s, i + 1) is None);
        }
        assert(tells_call(
            look,
            s,
            places[i],
            s.heap.get(places[i].closure)->Closure_upvalues,
            s.function_of(places[i].closure)->0,
            p.frames[k],
        ));
        assert(shows_frame(snapshot.frames@[k], p.frames[k]));
        lemma_shows_call(
            look,
            s,
            request,
            i,
            s.heap.get(places[i].closure)->Closure_upvalues,
            s.function_of(places[i].closure)->0,
            p.frames[k],
            snapshot.frames@[k],
        );
    }
    assert forall|i: int| 0 <= i < snapshot.globals@.len() implies binds_global(
        look,
        s,
        selected[i],
        #[trigger] snapshot.globals@[i],
    ) by {
        assert(shows_binding(snapshot.globals@[i], p.globals[i]));
        assert(s.globals.contains_key(selected[i]));
    }
    let n = snapshot.globals@.len() as int;
    lemma_left_out(s, selected, n);
    assert(shows_machine(look, s, request, selected, snapshot));
}

/// Some global is not among the first ones, where some of these are left.
proof fn lemma_left_out(s: VmState, selected: Seq<Key>, n: int)
    requires
        0 <= n <= selected.len(),
        forall|i: int| 0 <= i < selected.len() ==> s.globals.contains_key(#[trigger] selected[i]),
        forall|i: int, j: int|
            0 <= i < j < selected.len() ==> #[trigger] selected[i] != #[trigger] selected[j],
    ensures
        n < selected.len() || leaves_out(s, selected) <==> exists|key: Key| #[trigger]
            s.globals.contains_key(key) && !selected.take(n).contains(key),
{
    let first = selected.take(n);
    if n < selected.len() {
        let key = selected[n];
        if first.contains(key) {
            let i = first.index_of(key);
            assert(first[i] == key);
            assert(selected[i] == selected[n]);
        }
        assert(s.globals.contains_key(key) && !first.contains(key));
    } else {
        assert(first =~= selected);
        if leaves_out(s, selected) {
            let key = choose|key: Key| #[trigger]
                s.globals.contains_key(key) && !selected.contains(key);
            assert(s.globals.contains_key(key) && !first.contains(key));
        }
        if exists|key: Key| #[trigger] s.globals.contains_key(key) && !first.contains(key) {
            let key = choose|key: Key| #[trigger]
                s.globals.contains_key(key) && !first.contains(key);
            assert(s.globals.contains_key(key) && !selected.contains(key));
        }
    }
}

/// What a session shows of its machine is how the machine is, with the first
/// globals by name and the texts that its arithmetic gives to the numbers; or
/// it shows nothing.
pub proof fn law_a_session_shows_its_machine<A: Arithmetic>(
    arithmetic: A,
    snapshot: VmSnapshot,
    s: VmState,
    limits: SnapshotLimits,
    reason: SnapshotReason,
    current_span: SourceSpan,
    request: SnapshotRequest,
)
    requires
        request.reason == reason,
        request.current_span == current_span,
        s.frames.len() == 0 ==> request.active_offset is None,
        s.frames.len() > 0 ==> request.active_offset == Some(s.frames.last().ip),
        snapshot_shows(arithmetic, snapshot, s, limits, reason, current_span),
    ensures
        shows_nothing(snapshot, reason, current_span) || exists|look: Look, selected: Seq<Key>|
            look.limits == limits && crate::interpreter::tells(arithmetic, look.texts)
                && is_selection(s, limits.max_globals, selected) && #[trigger] shows_machine(
                look,
                s,
                request,
                selected,
                snapshot,
            ),
{
    assert(request == request_at(s, reason, current_span));
    let (result, scene, selected) = choose|
        result: Result<VmSnapshot, SnapshotBuildError>,
        scene: Scene,
        selected: Seq<Key>,
    |
        scene.heap == s.heap && scene.limits == limits && #[trigger] looked_at(
            arithmetic,
            result,
            s,
            request,
            scene,
            selected,
        ) && match result {
            Ok(shown) => snapshot == shown,
            Err(_) => shows_nothing(snapshot, reason, current_span),
        };
    if result is Ok {
        assert(named(s)) by {
            reveal(composition);
        }
        law_a_snapshot_shows_its_machine(snapshot, s, request, scene, selected);
        let look = choose|look: Look|
            look.texts == scene.texts && look.limits == scene.limits && #[trigger] shows_machine(
                look,
                s,
                request,
                selected,
                snapshot,
            );
        assert(shows_machine(look, s, request, selected, snapshot));
    }
}

/// What a session shows when it pauses again is the machine as it stands there,
/// at the place where it has paused.
pub proof fn law_a_pause_shows_the_machine<H: RuntimeHost, A: Arithmetic>(
    before: SessionView<H, A>,
    mode: ResumeMode,
    reason: PauseReason,
    after: SessionView<H, A>,
    has_room: bool,
    request: SnapshotRequest,
)
    requires
        before.settled(),
        before.state is Paused,
        resumed(before, mode, RunOutcome::Paused(reason), after, has_room),
        after.pause_location matches Some(place) && request.current_span == place.span,
        request.reason == SnapshotReason::Paused(reason),
        after.vm.frames.len() > 0 && request.active_offset == Some(after.vm.frames.last().ip),
    ensures
        after.snapshot matches Some(snapshot) && (shows_nothing(
            snapshot,
            request.reason,
            request.current_span,
        ) || exists|look: Look, selected: Seq<Key>|
            look.limits == before.snapshot_limits && #[trigger] shows_machine(
                look,
                after.vm,
                request,
                selected,
                snapshot,
            )),
{
    let plan = choose|plan: Option<StepPlan>| #[trigger]
        is_plan(
            plan,
            mode,
            before.pause_location->0.activation_id,
            before.vm.activations(),
            before.opcode_epoch,
        ) && (SessionView { step_plan: plan, ..before }).runs(
            RunOutcome::Paused(reason),
            after,
            has_room,
        );
    let from = SessionView { step_plan: plan, ..before };
    let (inputs, requested) = choose|inputs: Seq<Input>, requested: bool| #[trigger]
        from.pauses(inputs, requested, reason, after);
    law_a_session_shows_its_machine(
        after.arithmetic,
        after.snapshot->0,
        after.vm,
        after.snapshot_limits,
        SnapshotReason::Paused(reason),
        after.vm.point_reached().span,
        request,
    );
    let snapshot = after.snapshot->0;
    if !shows_nothing(snapshot, request.reason, request.current_span) {
        let (look, selected) = choose|look: Look, selected: Seq<Key>|
            look.limits == after.snapshot_limits && crate::interpreter::tells(
                after.arithmetic,
                look.texts,
            ) && is_selection(after.vm, after.snapshot_limits.max_globals, selected) && #[trigger] shows_machine(
                look,
                after.vm,
                request,
                selected,
                snapshot,
            );
        assert(shows_machine(look, after.vm, request, selected, snapshot));
    }
}

} // verus!
