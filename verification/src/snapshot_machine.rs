//! A snapshot of a whole machine: its calls, checked, and its globals, sorted.
use vstd::prelude::*;
use crate::chunk::{byte_of, OpCode};
use crate::disassembly::{begins_at, is_opcode_start};
use crate::machine::VmState;
use crate::object::Object;
use crate::picture::{Build, Painter, Scene};
use crate::snapshot::{FrameSnapshot, SnapshotBuildError};
use crate::snapshot_budget::{schema, schema_estimates};
use crate::snapshot_builder::{
    built, failed, frame_picture, shows_frame, FramePicture, SnapshotRequest, ValidatedFrame,
};
use crate::vm::VM;
use vstd::string::*;

verus! {

/// What is wrong with the frame `i` by itself.
pub open spec fn frame_fault(s: VmState, i: int) -> Option<SnapshotBuildError> {
    let frame = s.frames[i];
    match s.function_of(frame.closure) {
        None => Some(SnapshotBuildError::FrameState),
        Some(f) => if frame.base >= s.stack.len() {
            Some(SnapshotBuildError::StackState)
        } else if (i > 0 && frame.base <= s.frames[i - 1].base) || s.stack[frame.base as int]
            != crate::value::Value::Obj(frame.closure) || f.chunk.code@.len()
            != f.chunk.spans@.len() || f.chunk.code@.len() == 0 || (i == 0) != (frame.call_site
            is None) || (i == 0) != (frame.call_site_offset is None) {
            Some(SnapshotBuildError::FrameState)
        } else {
            None
        },
    }
}

/// The first fault of the frames from `i` on.
pub open spec fn first_frame_fault(s: VmState, i: int) -> Option<SnapshotBuildError>
    decreases s.frames.len() - i,
{
    if i < 0 || i >= s.frames.len() {
        None
    } else if frame_fault(s, i) is Some {
        frame_fault(s, i)
    } else {
        first_frame_fault(s, i + 1)
    }
}

/// Where the frame `i` stands: at the instruction that is asked for, or at
/// the call that it waits for.
pub open spec fn standing(s: VmState, request: SnapshotRequest, i: int) -> ValidatedFrame {
    let frame = s.frames[i];
    let last = i == s.frames.len() - 1;
    ValidatedFrame {
        closure: frame.closure,
        function: s.heap.get(frame.closure)->Closure_function,
        base: frame.base,
        end: if last {
            s.stack.len() as usize
        } else {
            s.frames[i + 1].base
        },
        liveness_offset: if last {
            request.active_offset->0
        } else {
            s.frames[i + 1].call_site_offset->0
        },
        activation_id: frame.activation_id,
        current_span: if last {
            request.current_span
        } else {
            s.frames[i + 1].call_site->0
        },
        call_site: frame.call_site,
    }
}

/// The frame `i` stands at an instruction, and at a call if it waits for one.
pub open spec fn stands_well(s: VmState, request: SnapshotRequest, i: int) -> bool {
    let place = standing(s, request, i);
    let f = s.function_of(s.frames[i].closure)->0;
    &&& i < s.frames.len() - 1 ==> {
        &&& place.liveness_offset < f.chunk.code@.len()
        &&& f.chunk.code@[place.liveness_offset as int] == byte_of(OpCode::Call)
        &&& f.chunk.spans@[place.liveness_offset as int] == place.current_span
    }
    &&& place.liveness_offset < f.chunk.code@.len()
    &&& begins_at(s.heap, f.chunk.code@, f.chunk.constants@, 0, place.liveness_offset as int)
}

/// The calls that a snapshot shows, the outermost first.
pub open spec fn validated(s: VmState, request: SnapshotRequest) -> Result<
    Seq<ValidatedFrame>,
    SnapshotBuildError,
> {
    if (request.active_offset is None) != (s.frames.len() == 0) {
        Err(SnapshotBuildError::FrameState)
    } else if first_frame_fault(s, 0) is Some {
        Err(first_frame_fault(s, 0)->0)
    } else if exists|i: int| 0 <= i < s.frames.len() && !#[trigger] stands_well(s, request, i) {
        Err(SnapshotBuildError::FrameState)
    } else {
        Ok(Seq::new(s.frames.len(), |i: int| standing(s, request, i)))
    }
}

impl VM {
    fn frame_check(&self, i: usize) -> (fault: Option<SnapshotBuildError>)
        requires
            self.wf(),
            i < self@.frames.len(),
        ensures
            fault == frame_fault(self@, i as int),
    {
        let frame = self.frames[i];
        let f = match self.function_of(frame.closure) {
            Some(f) => f,
            None => return Some(SnapshotBuildError::FrameState),
        };
        if frame.base >= self.stack.len() {
            return Some(SnapshotBuildError::StackState);
        }
        if i > 0 && frame.base <= self.frames[i - 1].base {
            return Some(SnapshotBuildError::FrameState);
        }
        if self.stack[frame.base] != crate::value::Value::Obj(frame.closure) {
            return Some(SnapshotBuildError::FrameState);
        }
        if f.chunk.code.len() != f.chunk.spans.len() || f.chunk.code.len() == 0 {
            return Some(SnapshotBuildError::FrameState);
        }
        if (i == 0) != frame.call_site.is_none() || (i == 0) != frame.call_site_offset.is_none() {
            return Some(SnapshotBuildError::FrameState);
        }
        None
    }

    /// Checks the frame `i` and tells where it stands.
    fn stand(&self, request: SnapshotRequest, i: usize) -> (place: Option<ValidatedFrame>)
        requires
            self.wf(),
            i < self@.frames.len(),
            request.active_offset is Some,
            forall|j: int| 0 <= j < self@.frames.len() ==> #[trigger] frame_fault(self@, j) is None,
        ensures
            match place {
                Some(place) => stands_well(self@, request, i as int) && place == standing(
                    self@,
                    request,
                    i as int,
                ),
                None => !stands_well(self@, request, i as int),
            },
    {
        let frame = self.frames[i];
        assert(frame_fault(self@, i as int) is None);
        let function: usize = match self.heap.get(frame.closure) {
            Object::Closure { function, upvalues: _ } => *function,
            _ => return None,
        };
        let f = match self.function_of(frame.closure) {
            Some(f) => f,
            None => return None,
        };
        let last = i == self.frames.len() - 1;
        assert(!last ==> frame_fault(self@, i + 1) is None);
        let (liveness_offset, current_span, end) = if last {
            (request.active_offset, Some(request.current_span), self.stack.len())
        } else {
            let child = self.frames[i + 1];
            (child.call_site_offset, child.call_site, child.base)
        };
        let (liveness_offset, current_span) = match (liveness_offset, current_span) {
            (Some(offset), Some(span)) => (offset, span),
            _ => return None,
        };
        if liveness_offset >= f.chunk.code.len() {
            return None;
        }
        if !last {
            if f.chunk.code[liveness_offset] != OpCode::Call.byte() || f.chunk.spans[liveness_offset]
                != current_span {
                return None;
            }
        }
        if !is_opcode_start(&self.heap, &f.chunk, liveness_offset) {
            return None;
        }
        Some(
            ValidatedFrame {
                closure: frame.closure,
                function,
                base: frame.base,
                end,
                liveness_offset,
                activation_id: frame.activation_id,
                current_span,
                call_site: frame.call_site,
            },
        )
    }

    /// Checks the calls that a snapshot is to show.
    pub fn validate_frames(&self, request: SnapshotRequest) -> (frames: Result<
        Vec<ValidatedFrame>,
        SnapshotBuildError,
    >)
        requires
            self.wf(),
        ensures
            match frames {
                Ok(frames) => validated(self@, request) == Ok::<
                    Seq<ValidatedFrame>,
                    SnapshotBuildError,
                >(frames@),
                Err(error) => validated(self@, request) == Err::<
                    Seq<ValidatedFrame>,
                    SnapshotBuildError,
                >(error),
            },
    {
        let mut frames: Vec<ValidatedFrame> = Vec::new();
        if request.active_offset.is_none() != (self.frames.len() == 0) {
            return Err(SnapshotBuildError::FrameState);
        }
        let mut i: usize = 0;
        while i < self.frames.len()
            invariant
                self.wf(),
                i <= self.frames@.len(),
                (request.active_offset is None) == (self@.frames.len() == 0),
                first_frame_fault(self@, i as int) == first_frame_fault(self@, 0),
                forall|j: int| 0 <= j < i ==> #[trigger] frame_fault(self@, j) is None,
            decreases self.frames@.len() - i,
        {
            if let Some(error) = self.frame_check(i) {
                return Err(error);
            }
            i += 1;
        }
        let ghost all = Seq::new(self@.frames.len(), |i: int| standing(self@, request, i));
        let mut i: usize = 0;
        assert(frames@ =~= all.take(0));
        while i < self.frames.len()
            invariant
                self.wf(),
                i <= self.frames@.len(),
                (request.active_offset is None) == (self@.frames.len() == 0),
                first_frame_fault(self@, 0) is None,
                forall|j: int| 0 <= j < self@.frames.len() ==> #[trigger] frame_fault(self@, j) is None,
                forall|j: int| 0 <= j < i ==> #[trigger] stands_well(self@, request, j),
                all == Seq::new(self@.frames.len(), |i: int| standing(self@, request, i)),
                frames@ == all.take(i as int),
            decreases self.frames@.len() - i,
        {
            match self.stand(request, i) {
                Some(place) => {
                    frames.push(place);
                    assert(frames@ =~= all.take(i + 1));
                },
                None => {
                    assert(!stands_well(self@, request, i as int));
                    return Err(SnapshotBuildError::FrameState);
                },
            }
            i += 1;
        }
        assert(frames@ =~= all);
        Ok(frames)
    }
}

/// What the frames of a snapshot show, from the `k`-th one on, counted from
/// the innermost, behind those that are done.
pub open spec fn frames_from(
    s: VmState,
    scene: Scene,
    places: Seq<ValidatedFrame>,
    k: int,
    b: Build,
    done: Seq<FramePicture>,
) -> (Build, Result<(Seq<FramePicture>, bool), SnapshotBuildError>)
    decreases places.len() - k,
{
    let cut = places.len() > scene.limits.max_frames;
    if k < 0 || k >= places.len() || k >= scene.limits.max_frames {
        built(b, (done, cut))
    } else {
        let (budget, answer) = b.budget.on_estimate(schema().frame as nat);
        let reserved = b.with_budget(budget);
        if answer is Err {
            built(reserved.back_to(b), (done, true))
        } else {
            let place = places[places.len() - 1 - k];
            match frame_picture(
                s,
                scene,
                place,
                s.heap.get(place.closure)->Closure_upvalues,
                s.function_of(place.closure)->0,
                reserved,
            ) {
                (_, Err(error)) => failed(b, error),
                (after, Ok(None)) => built(after.back_to(b), (done, true)),
                (after, Ok(Some(p))) => if after.exhausted() {
                    let more = k + 1 < places.len() && k + 1 < scene.limits.max_frames;
                    built(after, (done.push(p), cut || more))
                } else {
                    frames_from(s, scene, places, k + 1, after, done.push(p))
                },
            }
        }
    }
}

pub open spec fn shows_frames(frames: Seq<FrameSnapshot>, ps: Seq<FramePicture>) -> bool {
    &&& frames.len() == ps.len()
    &&& forall|i: int| 0 <= i < ps.len() ==> shows_frame(#[trigger] frames[i], ps[i])
}

pub open spec fn painted_frames(
    result: Result<(Vec<FrameSnapshot>, bool), SnapshotBuildError>,
    after: Build,
    goal: (Build, Result<(Seq<FramePicture>, bool), SnapshotBuildError>),
) -> bool {
    match (result, goal.1) {
        (Ok((frames, truncated)), Ok((ps, t))) => shows_frames(frames@, ps) && truncated == t
            && after == goal.0,
        (Err(a), Err(b)) => a == b,
        _ => false,
    }
}

spec fn frame_in(goal: (Build, Result<Option<FramePicture>, SnapshotBuildError>)) -> FramePicture {
    goal.1->Ok_0->Some_0
}

/// The calls have a closure and a function.
pub open spec fn well_placed(s: VmState, places: Seq<ValidatedFrame>) -> bool {
    forall|i: int|
        0 <= i < places.len() ==> s.function_of((#[trigger] places[i]).closure) is Some
}

impl<'a> Painter<'a> {
    pub fn build_frames(&mut self, places: &Vec<ValidatedFrame>) -> (result: Result<
        (Vec<FrameSnapshot>, bool),
        SnapshotBuildError,
    >)
        requires
            old(self).wf(),
            old(self).limits.max_depth < 100,
            well_placed(old(self).vm@, places@),
        ensures
            final(self).wf(),
            final(self).same(*old(self)),
            painted_frames(
                result,
                final(self)@,
                frames_from(
                    old(self).vm@,
                    old(self).scene(),
                    places@,
                    0,
                    old(self)@,
                    Seq::empty(),
                ),
            ),
    {
        let vm = self.vm;
        let ghost s = vm@;
        let ghost scene = self.scene();
        let ghost goal = frames_from(s, scene, places@, 0, self@, Seq::empty());
        let mut frames: Vec<FrameSnapshot> = Vec::new();
        let ghost mut done: Seq<FramePicture> = Seq::empty();
        let cut = places.len() > self.limits.max_frames;
        let mut k: usize = 0;
        while k < places.len() && k < self.limits.max_frames
            invariant
                self.wf(),
                self.same(*old(self)),
                vm == self.vm,
                s == vm@,
                scene == self.scene(),
                self.limits.max_depth < 100,
                well_placed(s, places@),
                k <= places@.len(),
                cut == (places@.len() > self.limits.max_frames),
                shows_frames(frames@, done),
                goal == frames_from(
                    old(self).vm@,
                    old(self).scene(),
                    places@,
                    0,
                    old(self)@,
                    Seq::empty(),
                ),
                goal == frames_from(s, scene, places@, k as int, self@, done),
            decreases places@.len() - k,
        {
            let checkpoint = self.budget.checkpoint();
            if self.budget.reserve_estimate(schema_estimates().frame).is_err() {
                self.budget.restore(checkpoint);
                return Ok((frames, true));
            }
            let place = places[places.len() - 1 - k];
            assert(s.function_of(places@[places@.len() - 1 - k].closure) is Some);
            let f = match vm.function_of(place.closure) {
                Some(f) => f,
                None => return Err(SnapshotBuildError::FrameState),
            };
            let cells = match vm.heap.get(place.closure) {
                Object::Closure { function: _, upvalues } => upvalues,
                _ => return Err(SnapshotBuildError::FrameState),
            };
            let ghost one = frame_picture(s, scene, place, cells@, *f, self@);
            match self.build_frame(place, cells, f) {
                Err(error) => {
                    return Err(error);
                },
                Ok(None) => {
                    self.budget.restore(checkpoint);
                    return Ok((frames, true));
                },
                Ok(Some(frame)) => {
                    frames.push(frame);
                    proof {
                        done = done.push(frame_in(one));
                    }
                    if self.budget.is_exhausted() {
                        let more = k + 1 < places.len() && k + 1 < self.limits.max_frames;
                        return Ok((frames, cut || more));
                    }
                },
            }
            k += 1;
        }
        Ok((frames, cut))
    }
}

} // verus!
