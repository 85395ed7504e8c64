//! Taking a snapshot of a machine.
use vstd::prelude::*;
use crate::debug_info::{BindingDebugInfo, BindingId, BindingKind, UpvalueDebugInfo};
use crate::machine::VmState;
use crate::object::{Content, Function, Object, UpvalueCell};
use crate::picture::{
    checked_name, shows_binding, shows_bindings, BindingPicture, Build, Painter, Scene,
};
use crate::session::ActivationId;
use crate::snapshot::{BindingSnapshot, FrameSnapshot, SnapshotBuildError, SnapshotReason};
use crate::snapshot_budget::DynamicStringAdmission;
use crate::source::SourceSpan;
use crate::value::Value;
use vstd::string::*;

verus! {

/// What a snapshot is taken for. The offset is that of the instruction at
/// which the innermost call stands; there is none where nothing runs.
#[derive(Debug, Clone, Copy, PartialEq, Eq, Structural)]
pub struct SnapshotRequest {
    pub reason: SnapshotReason,
    pub current_span: SourceSpan,
    pub active_offset: Option<usize>,
}

/// A call that a snapshot shows: the part of the stack that is its own, and
/// the instruction at which it stands.
#[derive(Debug, Clone, Copy, PartialEq, Eq, Structural)]
pub struct ValidatedFrame {
    pub closure: usize,
    pub function: usize,
    pub base: usize,
    pub end: usize,
    pub liveness_offset: usize,
    pub activation_id: ActivationId,
    pub current_span: SourceSpan,
    pub call_site: Option<SourceSpan>,
}

/// What is built, or why it is not.
pub open spec fn built<T>(b: Build, value: T) -> (Build, Result<T, SnapshotBuildError>) {
    (b, Ok(value))
}

pub open spec fn failed<T>(b: Build, error: SnapshotBuildError) -> (
    Build,
    Result<T, SnapshotBuildError>,
) {
    (b, Err(error))
}

/// A binding is of a category, and it lives at an offset.
pub open spec fn wanted(binding: BindingDebugInfo, parameters: bool, offset: usize) -> bool {
    &&& (binding.kind == BindingKind::Parameter) == parameters
    &&& binding.slot != 0
    &&& binding.live_start <= offset < binding.live_end
}

pub open spec fn any_wanted(
    bindings: Seq<BindingDebugInfo>,
    from: int,
    parameters: bool,
    offset: usize,
) -> bool {
    exists|i: int| from <= i < bindings.len() && wanted(#[trigger] bindings[i], parameters, offset)
}

pub open spec fn kind_name(kind: BindingKind) -> Seq<char> {
    match kind {
        BindingKind::Parameter => "parameter"@,
        BindingKind::Local => "local"@,
        BindingKind::Implicit => "implicit"@,
    }
}

/// Some bindings of a call: those pictured, whether some are left out, and
/// how many have been pictured in the call.
pub type Bindings = (Seq<BindingPicture>, bool, int);

/// The variables of a category from `i` on, behind those that are done.
pub open spec fn locals_from(
    s: VmState,
    scene: Scene,
    frame: ValidatedFrame,
    bindings: Seq<BindingDebugInfo>,
    parameters: bool,
    i: int,
    b: Build,
    done: Seq<BindingPicture>,
    emitted: int,
) -> (Build, Result<Bindings, SnapshotBuildError>)
    decreases bindings.len() - i,
{
    if i < 0 || i >= bindings.len() {
        built(b, (done, false, emitted))
    } else if !wanted(bindings[i], parameters, frame.liveness_offset) {
        locals_from(s, scene, frame, bindings, parameters, i + 1, b, done, emitted)
    } else if b.exhausted() || emitted >= scene.limits.max_bindings_per_frame {
        built(b, (done, true, emitted))
    } else {
        let slot = frame.base + bindings[i].slot;
        if slot >= frame.end || slot >= s.stack.len() {
            failed(b, SnapshotBuildError::BindingMetadata)
        } else {
            match b.binding(
                scene,
                Some(bindings[i].id),
                bindings[i].name@,
                kind_name(bindings[i].kind),
                Ok(s.stack[slot]),
            ) {
                (b, Err(error)) => failed(b, error),
                (b, Ok(None)) => built(b, (done, true, emitted)),
                (b, Ok(Some(p))) => if b.exhausted() {
                    let left = any_wanted(bindings, i + 1, parameters, frame.liveness_offset);
                    built(b, (done.push(p), left, emitted + 1))
                } else {
                    locals_from(
                        s,
                        scene,
                        frame,
                        bindings,
                        parameters,
                        i + 1,
                        b,
                        done.push(p),
                        emitted + 1,
                    )
                },
            }
        }
    }
}

/// The value of a captured variable.
pub open spec fn cell_value(s: VmState, cell: usize) -> Result<Value, SnapshotBuildError> {
    match s.heap.get(cell) {
        Content::Upvalue(UpvalueCell::Closed { value }) => Ok(value),
        Content::Upvalue(UpvalueCell::Open { slot }) => if slot < s.stack.len() && s.open.contains(
            cell,
        ) {
            Ok(s.stack[slot as int])
        } else {
            Err(SnapshotBuildError::UpvalueState)
        },
        _ => Err(SnapshotBuildError::UpvalueState),
    }
}

/// The index was seen in an earlier entry.
pub open spec fn seen_before(infos: Seq<UpvalueDebugInfo>, i: int) -> bool {
    exists|j: int| 0 <= j < i && (#[trigger] infos[j]).index == infos[i].index
}

/// The captured variables from `i` on, behind those that are done.
pub open spec fn upvalues_from(
    s: VmState,
    scene: Scene,
    cells: Seq<usize>,
    infos: Seq<UpvalueDebugInfo>,
    i: int,
    b: Build,
    done: Seq<BindingPicture>,
    emitted: int,
) -> (Build, Result<Bindings, SnapshotBuildError>)
    decreases infos.len() - i,
{
    if i < 0 || i >= infos.len() {
        built(b, (done, false, emitted))
    } else if b.exhausted() {
        built(b, (done, true, emitted))
    } else if infos[i].index >= cells.len() || seen_before(infos, i) {
        failed(b, SnapshotBuildError::UpvalueState)
    } else if emitted >= scene.limits.max_bindings_per_frame {
        built(b, (done, true, emitted))
    } else {
        match b.binding(
            scene,
            Some(infos[i].binding_id),
            infos[i].name@,
            "upvalue"@,
            cell_value(s, cells[infos[i].index as int]),
        ) {
            (b, Err(error)) => failed(b, error),
            (b, Ok(None)) => built(b, (done, true, emitted)),
            (b, Ok(Some(p))) => if b.exhausted() {
                built(b, (done.push(p), i + 1 < infos.len(), emitted + 1))
            } else {
                upvalues_from(s, scene, cells, infos, i + 1, b, done.push(p), emitted + 1)
            },
        }
    }
}

/// A variable's lifetime lies within the code.
pub open spec fn lives_within(binding: BindingDebugInfo, code: nat) -> bool {
    binding.live_start != usize::MAX && binding.live_end != usize::MAX && binding.live_start
        <= binding.live_end && binding.live_end <= code
}

pub ghost struct FramePicture {
    pub frame: ValidatedFrame,
    pub function: Seq<char>,
    pub function_truncated: bool,
    pub parameters: Seq<BindingPicture>,
    pub parameters_truncated: bool,
    pub locals: Seq<BindingPicture>,
    pub locals_truncated: bool,
    pub upvalues: Seq<BindingPicture>,
    pub upvalues_truncated: bool,
}

pub open spec fn shows_frame(f: FrameSnapshot, p: FramePicture) -> bool {
    &&& f.activation_id == p.frame.activation_id
    &&& f.current_span == p.frame.current_span
    &&& f.call_site == p.frame.call_site
    &&& f.function@ == p.function
    &&& f.function_truncated == p.function_truncated
    &&& shows_bindings(f.parameters@, p.parameters)
    &&& f.parameters_truncated == p.parameters_truncated
    &&& shows_bindings(f.locals@, p.locals)
    &&& f.locals_truncated == p.locals_truncated
    &&& shows_bindings(f.upvalues@, p.upvalues)
    &&& f.upvalues_truncated == p.upvalues_truncated
}

/// The captured variables of a call.
pub open spec fn frame_upvalues(
    s: VmState,
    scene: Scene,
    cells: Seq<usize>,
    f: Function,
    b: Build,
    emitted: int,
) -> (Build, Result<Bindings, SnapshotBuildError>) {
    if cells.len() != f.upvalue_count || f.upvalue_count != f.debug_info.upvalues@.len() {
        failed(b, SnapshotBuildError::UpvalueState)
    } else if b.exhausted() {
        built(b, (Seq::empty(), f.debug_info.upvalues@.len() > 0, emitted))
    } else {
        upvalues_from(s, scene, cells, f.debug_info.upvalues@, 0, b, Seq::empty(), emitted)
    }
}

/// One call, unless there is no room for its name.
pub open spec fn frame_picture(
    s: VmState,
    scene: Scene,
    frame: ValidatedFrame,
    cells: Seq<usize>,
    f: Function,
    b: Build,
) -> (Build, Result<Option<FramePicture>, SnapshotBuildError>) {
    match checked_name(s.heap, frame.function) {
        Err(error) => failed(b, error),
        Ok(name) => match b.owned_name(name) {
            (b, None) => built(b, None),
            (b, Some((function, function_truncated))) => {
                if exists|i: int|
                    0 <= i < f.debug_info.bindings@.len() && !lives_within(
                        #[trigger] f.debug_info.bindings@[i],
                        f.chunk.code@.len(),
                    ) {
                    failed(b, SnapshotBuildError::BindingMetadata)
                } else {
                    let all = f.debug_info.bindings@;
                    match locals_from(s, scene, frame, all, true, 0, b, Seq::empty(), 0) {
                        (b, Err(error)) => failed(b, error),
                        (b, Ok((parameters, parameters_truncated, emitted))) => {
                            match locals_from(
                                s,
                                scene,
                                frame,
                                all,
                                false,
                                0,
                                b,
                                Seq::empty(),
                                emitted,
                            ) {
                                (b, Err(error)) => failed(b, error),
                                (b, Ok((locals, locals_truncated, emitted))) => {
                                    match frame_upvalues(s, scene, cells, f, b, emitted) {
                                        (b, Err(error)) => failed(b, error),
                                        (b, Ok((upvalues, upvalues_truncated, _))) => built(
                                            b,
                                            Some(
                                                FramePicture {
                                                    frame,
                                                    function,
                                                    function_truncated,
                                                    parameters,
                                                    parameters_truncated,
                                                    locals,
                                                    locals_truncated,
                                                    upvalues,
                                                    upvalues_truncated,
                                                },
                                            ),
                                        ),
                                    }
                                },
                            }
                        },
                    }
                }
            },
        },
    }
}

impl<'a> Painter<'a> {
    /// A name that the picture may own.
    fn owned_name(&mut self, name: &str) -> (owned: Option<(String, bool)>)
        requires
            old(self).wf(),
        ensures
            final(self).wf(),
            final(self).same(*old(self)),
            final(self)@ == old(self)@.owned_name(name@).0,
            match (owned, old(self)@.owned_name(name@).1) {
                (Some((text, cut)), Some((t, c))) => text@ == t && cut == c,
                (None, None) => true,
                _ => false,
            },
    {
        match self.budget.reserve_dynamic_string(name) {
            DynamicStringAdmission::Admitted => {
                return Some((name.to_owned(), false));
            },
            DynamicStringAdmission::Exhausted(_) => {
                return None;
            },
            DynamicStringAdmission::PerStringLimit => {},
        }
        let empty = String::new();
        assert(empty@ =~= Seq::<char>::empty());
        match self.budget.reserve_dynamic_string(empty.as_str()) {
            DynamicStringAdmission::Admitted => Some((empty, true)),
            _ => None,
        }
    }

    pub fn build_binding(
        &mut self,
        binding_id: Option<BindingId>,
        name: &str,
        kind: &str,
        value: Result<Value, SnapshotBuildError>,
    ) -> (binding: Result<Option<BindingSnapshot>, SnapshotBuildError>)
        requires
            old(self).wf(),
            old(self).limits.max_depth < 100,
        ensures
            final(self).wf(),
            final(self).same(*old(self)),
            painted_binding(
                binding,
                final(self)@,
                old(self)@.binding(old(self).scene(), binding_id, name@, kind@, value),
            ),
    {
        let ghost before = self@;
        let checkpoint = self.budget.checkpoint();
        if self.budget.reserve_binding().is_err() {
            self.budget.restore(checkpoint);
            return Ok(None);
        }
        if self.budget.reserve_fixed_string(kind).is_err() {
            self.budget.restore(checkpoint);
            return Ok(None);
        }
        let (name, name_truncated) = match self.owned_name(name) {
            Some(owned) => owned,
            None => {
                self.budget.restore(checkpoint);
                return Ok(None);
            },
        };
        if self.budget.reserve_value().is_err() {
            self.budget.restore(checkpoint);
            return Ok(None);
        }
        let value = match value {
            Ok(value) => value,
            Err(error) => return Err(error),
        };
        match self.build_value(value, 0) {
            Ok((value_kind, value)) => Ok(
                Some(
                    BindingSnapshot {
                        binding_id,
                        name,
                        name_truncated,
                        binding_kind: kind.to_owned(),
                        value_kind,
                        value,
                    },
                ),
            ),
            Err(error) => Err(error),
        }
    }
}

pub open spec fn painted_binding(
    binding: Result<Option<BindingSnapshot>, SnapshotBuildError>,
    after: Build,
    goal: (Build, Result<Option<BindingPicture>, SnapshotBuildError>),
) -> bool {
    match (binding, goal.1) {
        (Ok(Some(binding)), Ok(Some(p))) => shows_binding(binding, p) && after == goal.0,
        (Ok(None), Ok(None)) => after == goal.0,
        (Err(a), Err(b)) => a == b,
        _ => false,
    }
}

/// What was painted of some bindings is what the pictures say.
pub open spec fn painted_bindings(
    result: Result<(Vec<BindingSnapshot>, bool), SnapshotBuildError>,
    emitted: usize,
    after: Build,
    goal: (Build, Result<Bindings, SnapshotBuildError>),
) -> bool {
    match (result, goal.1) {
        (Ok((bindings, truncated)), Ok((ps, t, e))) => shows_bindings(bindings@, ps) && truncated
            == t && emitted == e && after == goal.0,
        (Err(a), Err(b)) => a == b,
        _ => false,
    }
}

fn is_wanted(binding: &BindingDebugInfo, parameters: bool, offset: usize) -> (yes: bool)
    ensures
        yes == wanted(*binding, parameters, offset),
{
    matches!(binding.kind, BindingKind::Parameter) == parameters && binding.slot != 0
        && binding.live_start <= offset && offset < binding.live_end
}

fn has_wanted(bindings: &Vec<BindingDebugInfo>, from: usize, parameters: bool, offset: usize) -> (found:
    bool)
    ensures
        found == any_wanted(bindings@, from as int, parameters, offset),
{
    let mut i: usize = from;
    while i < bindings.len()
        invariant
            from <= i,
            forall|j: int|
                from <= j < i && j < bindings@.len() ==> !wanted(
                    #[trigger] bindings@[j],
                    parameters,
                    offset,
                ),
        decreases bindings@.len() - i,
    {
        if is_wanted(&bindings[i], parameters, offset) {
            assert(wanted(bindings@[i as int], parameters, offset));
            return true;
        }
        i += 1;
    }
    false
}

fn binding_kind_name(kind: BindingKind) -> (name: &'static str)
    ensures
        name@ == kind_name(kind),
{
    match kind {
        BindingKind::Parameter => "parameter",
        BindingKind::Local => "local",
        BindingKind::Implicit => "implicit",
    }
}

impl<'a> Painter<'a> {
    fn build_local_category(
        &mut self,
        frame: ValidatedFrame,
        bindings: &Vec<BindingDebugInfo>,
        parameters: bool,
        emitted: &mut usize,
    ) -> (result: Result<(Vec<BindingSnapshot>, bool), SnapshotBuildError>)
        requires
            old(self).wf(),
            old(self).limits.max_depth < 100,
        ensures
            final(self).wf(),
            final(self).same(*old(self)),
            painted_bindings(
                result,
                *final(emitted),
                final(self)@,
                locals_from(
                    old(self).vm@,
                    old(self).scene(),
                    frame,
                    bindings@,
                    parameters,
                    0,
                    old(self)@,
                    Seq::empty(),
                    *old(emitted) as int,
                ),
            ),
    {
        let vm = self.vm;
        let ghost s = vm@;
        let ghost scene = self.scene();
        let ghost goal = locals_from(
            s,
            scene,
            frame,
            bindings@,
            parameters,
            0,
            self@,
            Seq::empty(),
            *emitted as int,
        );
        let mut values: Vec<BindingSnapshot> = Vec::new();
        let ghost mut done: Seq<BindingPicture> = Seq::empty();
        let mut i: usize = 0;
        while i < bindings.len()
            invariant
                self.wf(),
                self.same(*old(self)),
                vm == self.vm,
                s == vm@,
                scene == self.scene(),
                self.limits.max_depth < 100,
                i <= bindings@.len(),
                shows_bindings(values@, done),
                goal == locals_from(
                    s,
                    scene,
                    frame,
                    bindings@,
                    parameters,
                    0,
                    old(self)@,
                    Seq::empty(),
                    *old(emitted) as int,
                ),
                goal == locals_from(
                    s,
                    scene,
                    frame,
                    bindings@,
                    parameters,
                    i as int,
                    self@,
                    done,
                    *emitted as int,
                ),
            decreases bindings@.len() - i,
        {
            let binding = &bindings[i];
            if !is_wanted(binding, parameters, frame.liveness_offset) {
                i += 1;
                continue;
            }
            if self.budget.is_exhausted() || *emitted >= self.limits.max_bindings_per_frame {
                return Ok((values, true));
            }
            let slot: usize = match frame.base.checked_add(binding.slot as usize) {
                Some(slot) => slot,
                None => return Err(SnapshotBuildError::BindingMetadata),
            };
            if slot >= frame.end || slot >= vm.stack.len() {
                return Err(SnapshotBuildError::BindingMetadata);
            }
            let ghost one = self@.binding(
                scene,
                Some(binding.id),
                binding.name@,
                kind_name(binding.kind),
                Ok(s.stack[slot as int]),
            );
            match self.build_binding(
                Some(binding.id),
                binding.name.as_str(),
                binding_kind_name(binding.kind),
                Ok(vm.stack[slot]),
            ) {
                Err(error) => {
                    return Err(error);
                },
                Ok(None) => {
                    return Ok((values, true));
                },
                Ok(Some(value)) => {
                    values.push(value);
                    proof {
                        done = done.push(picture_in(one));
                    }
                    *emitted += 1;
                    if self.budget.is_exhausted() {
                        let left = has_wanted(bindings, i + 1, parameters, frame.liveness_offset);
                        return Ok((values, left));
                    }
                },
            }
            i += 1;
        }
        Ok((values, false))
    }

    fn read_upvalue(&self, cell: usize) -> (value: Result<Value, SnapshotBuildError>)
        requires
            self.wf(),
        ensures
            value == cell_value(self.vm@, cell),
    {
        let vm = self.vm;
        if cell >= vm.heap.len() {
            return Err(SnapshotBuildError::UpvalueState);
        }
        match vm.heap.get(cell) {
            Object::Upvalue(UpvalueCell::Closed { value }) => Ok(*value),
            Object::Upvalue(UpvalueCell::Open { slot }) => {
                if *slot >= vm.stack.len() {
                    return Err(SnapshotBuildError::UpvalueState);
                }
                let mut i: usize = 0;
                while i < vm.open.len()
                    invariant
                        i <= vm.open@.len(),
                        forall|j: int| 0 <= j < i ==> vm.open@[j] != cell,
                        vm@.heap.get(cell) == Content::Upvalue(UpvalueCell::Open { slot: *slot }),
                        *slot < vm.stack@.len(),
                        vm == self.vm,
                    decreases vm.open@.len() - i,
                {
                    if vm.open[i] == cell {
                        return Ok(vm.stack[*slot]);
                    }
                    i += 1;
                }
                Err(SnapshotBuildError::UpvalueState)
            },
            _ => Err(SnapshotBuildError::UpvalueState),
        }
    }

    fn build_upvalues(&mut self, cells: &Vec<usize>, f: &Function, emitted: &mut usize) -> (result:
        Result<(Vec<BindingSnapshot>, bool), SnapshotBuildError>)
        requires
            old(self).wf(),
            old(self).limits.max_depth < 100,
        ensures
            final(self).wf(),
            final(self).same(*old(self)),
            painted_bindings(
                result,
                *final(emitted),
                final(self)@,
                frame_upvalues(
                    old(self).vm@,
                    old(self).scene(),
                    cells@,
                    *f,
                    old(self)@,
                    *old(emitted) as int,
                ),
            ),
    {
        let infos = &f.debug_info.upvalues;
        if cells.len() != f.upvalue_count || f.upvalue_count != infos.len() {
            return Err(SnapshotBuildError::UpvalueState);
        }
        let mut values: Vec<BindingSnapshot> = Vec::new();
        if self.budget.is_exhausted() {
            return Ok((values, infos.len() > 0));
        }
        let ghost s = self.vm@;
        let ghost scene = self.scene();
        let ghost goal = upvalues_from(
            s,
            scene,
            cells@,
            infos@,
            0,
            self@,
            Seq::empty(),
            *emitted as int,
        );
        let ghost mut done: Seq<BindingPicture> = Seq::empty();
        let mut i: usize = 0;
        while i < infos.len()
            invariant
                self.wf(),
                self.same(*old(self)),
                s == self.vm@,
                scene == self.scene(),
                self.limits.max_depth < 100,
                i <= infos@.len(),
                infos@ == f.debug_info.upvalues@,
                shows_bindings(values@, done),
                goal == frame_upvalues(
                    old(self).vm@,
                    old(self).scene(),
                    cells@,
                    *f,
                    old(self)@,
                    *old(emitted) as int,
                ),
                goal == upvalues_from(
                    s,
                    scene,
                    cells@,
                    infos@,
                    i as int,
                    self@,
                    done,
                    *emitted as int,
                ),
            decreases infos@.len() - i,
        {
            if self.budget.is_exhausted() {
                return Ok((values, true));
            }
            let info = &infos[i];
            let index: usize = info.index as usize;
            if index >= cells.len() || index_seen(infos, i) {
                return Err(SnapshotBuildError::UpvalueState);
            }
            if *emitted >= self.limits.max_bindings_per_frame {
                return Ok((values, true));
            }
            let value = self.read_upvalue(cells[index]);
            let ghost one = self@.binding(
                scene,
                Some(info.binding_id),
                info.name@,
                "upvalue"@,
                value,
            );
            match self.build_binding(
                Some(info.binding_id),
                info.name.as_str(),
                "upvalue",
                value,
            ) {
                Err(error) => {
                    return Err(error);
                },
                Ok(None) => {
                    return Ok((values, true));
                },
                Ok(Some(value)) => {
                    values.push(value);
                    proof {
                        done = done.push(picture_in(one));
                    }
                    *emitted += 1;
                    if self.budget.is_exhausted() {
                        return Ok((values, i + 1 < infos.len()));
                    }
                },
            }
            i += 1;
        }
        Ok((values, false))
    }

    pub fn build_frame(&mut self, frame: ValidatedFrame, cells: &Vec<usize>, f: &Function) -> (result:
        Result<Option<FrameSnapshot>, SnapshotBuildError>)
        requires
            old(self).wf(),
            old(self).limits.max_depth < 100,
        ensures
            final(self).wf(),
            final(self).same(*old(self)),
            painted_frame(
                result,
                final(self)@,
                frame_picture(old(self).vm@, old(self).scene(), frame, cells@, *f, old(self)@),
            ),
    {
        let name = match self.function_name(frame.function) {
            Ok(name) => name,
            Err(error) => return Err(error),
        };
        let (function, function_truncated) = match self.owned_name(name) {
            Some(owned) => owned,
            None => return Ok(None),
        };
        let bindings = &f.debug_info.bindings;
        if !lifetimes_fit(bindings, f.chunk.code.len()) {
            return Err(SnapshotBuildError::BindingMetadata);
        }
        let mut emitted: usize = 0;
        let (parameters, parameters_truncated) = match self.build_local_category(
            frame,
            bindings,
            true,
            &mut emitted,
        ) {
            Ok(result) => result,
            Err(error) => return Err(error),
        };
        let (locals, locals_truncated) = match self.build_local_category(
            frame,
            bindings,
            false,
            &mut emitted,
        ) {
            Ok(result) => result,
            Err(error) => return Err(error),
        };
        let (upvalues, upvalues_truncated) = match self.build_upvalues(cells, f, &mut emitted) {
            Ok(result) => result,
            Err(error) => return Err(error),
        };
        Ok(
            Some(
                FrameSnapshot {
                    activation_id: frame.activation_id,
                    function,
                    function_truncated,
                    current_span: frame.current_span,
                    call_site: frame.call_site,
                    parameters,
                    parameters_truncated,
                    locals,
                    locals_truncated,
                    upvalues,
                    upvalues_truncated,
                },
            ),
        )
    }
}

spec fn picture_in(
    goal: (Build, Result<Option<BindingPicture>, SnapshotBuildError>),
) -> BindingPicture {
    goal.1->Ok_0->Some_0
}

fn index_seen(infos: &Vec<UpvalueDebugInfo>, i: usize) -> (seen: bool)
    requires
        i < infos@.len(),
    ensures
        seen == seen_before(infos@, i as int),
{
    let mut j: usize = 0;
    while j < i
        invariant
            j <= i < infos@.len(),
            forall|k: int| 0 <= k < j ==> (#[trigger] infos@[k]).index != infos@[i as int].index,
        decreases i - j,
    {
        if infos[j].index == infos[i].index {
            assert(infos@[j as int].index == infos@[i as int].index);
            return true;
        }
        j += 1;
    }
    false
}

fn lifetimes_fit(bindings: &Vec<BindingDebugInfo>, code: usize) -> (fit: bool)
    ensures
        fit == !(exists|i: int|
            0 <= i < bindings@.len() && !lives_within(#[trigger] bindings@[i], code as nat)),
{
    let mut i: usize = 0;
    while i < bindings.len()
        invariant
            i <= bindings@.len(),
            forall|j: int| 0 <= j < i ==> lives_within(#[trigger] bindings@[j], code as nat),
        decreases bindings@.len() - i,
    {
        let binding = &bindings[i];
        if binding.live_start == usize::MAX || binding.live_end == usize::MAX || binding.live_start
            > binding.live_end || binding.live_end > code {
            assert(!lives_within(bindings@[i as int], code as nat));
            return false;
        }
        i += 1;
    }
    true
}

pub open spec fn painted_frame(
    result: Result<Option<FrameSnapshot>, SnapshotBuildError>,
    after: Build,
    goal: (Build, Result<Option<FramePicture>, SnapshotBuildError>),
) -> bool {
    match (result, goal.1) {
        (Ok(Some(frame)), Ok(Some(p))) => shows_frame(frame, p) && after == goal.0,
        (Ok(None), Ok(None)) => after == goal.0,
        (Err(a), Err(b)) => a == b,
        _ => false,
    }
}

} // verus!
