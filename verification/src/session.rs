//! Running a program step by step under a debugger's control.
use vstd::prelude::*;
use crate::debug_info::{DebugPoint, DebugPointId, DebugPointKind};
use crate::diagnostic::Diagnostic;
use crate::machine::VmState;
use crate::source::{RevisionId, SourceId, SourceSpan};
use crate::vm::VM;
use std::sync::atomic::{AtomicBool, Ordering};
use std::sync::Arc;

verus! {

#[derive(Debug, Clone, Copy, PartialEq, Eq, Structural)]
pub enum ResumeMode {
    Continue,
    StepInto,
    StepOver,
    StepOut,
}

#[derive(Debug, Clone, Copy, PartialEq, Eq, Structural)]
pub enum ExecutionState {
    Ready,
    Running,
    Paused,
    Completed,
    Faulted,
    Cancelled,
}

#[derive(Debug, Clone, Copy, PartialEq, Eq, Structural)]
pub enum PauseReason {
    DebugPoint,
    Step,
    Explicit,
}

/// One call of a function, among all calls of a session.
#[derive(Debug, Clone, Copy, PartialEq, Eq, Hash, Structural)]
pub struct ActivationId(pub u64);

#[derive(Debug, Clone, Copy, PartialEq, Eq, Structural)]
pub struct PauseLocation {
    pub source_id: SourceId,
    pub revision: RevisionId,
    pub span: SourceSpan,
    pub debug_point_id: DebugPointId,
    pub activation_id: ActivationId,
    pub dynamic_event: u64,
}

#[derive(Debug, Clone, Copy, PartialEq, Eq, Structural)]
pub enum SessionOperation {
    StartDebugging,
    RunAll,
    Resume(ResumeMode),
}

#[derive(Debug, Clone, Copy, PartialEq, Eq, Structural)]
pub struct SessionError {
    pub operation: SessionOperation,
    pub state: ExecutionState,
}

#[derive(Debug, Clone, PartialEq, Eq)]
pub enum RunOutcome {
    Paused(PauseReason),
    Completed,
    Faulted(Diagnostic),
    Cancelled,
    Rejected(SessionError),
}

#[derive(Debug)]
struct ControlState {
    pause: AtomicBool,
    cancel: AtomicBool,
}

/// Asks a session, from any thread, to pause or to stop. What a session finds
/// of such a request depends on when it was made.
#[derive(Debug)]
pub struct ExecutionControl {
    inner: Arc<ControlState>,
}

impl Default for ExecutionControl {
    fn default() -> Self {
        ExecutionControl {
            inner: Arc::new(
                ControlState { pause: AtomicBool::new(false), cancel: AtomicBool::new(false) },
            ),
        }
    }
}

impl Clone for ExecutionControl {
    /// Another handle on the same requests.
    fn clone(&self) -> (handle: Self)
        ensures
            handle == *self,
    {
        ExecutionControl { inner: self.inner.clone() }
    }
}

impl ExecutionControl {
    /// Asks for a pause at the next place where the program can be paused.
    pub fn request_pause(&self) {
        self.inner.pause.store(true, Ordering::Release);
    }

    /// Asks for an end of the program. It cannot be taken back.
    pub fn request_cancel(&self) {
        self.inner.cancel.store(true, Ordering::Release);
    }

    pub fn cancel(&self) {
        self.request_cancel();
    }

    pub fn is_cancelled(&self) -> bool {
        self.inner.cancel.load(Ordering::Acquire)
    }

    /// Takes a request for a pause, if there is one.
    pub fn acknowledge_pause(&self) -> bool {
        self.inner.pause.swap(false, Ordering::AcqRel)
    }
}

/// A session's own handle. It keeps what was found each time the session asked.
pub struct Watch {
    control: ExecutionControl,
    cancels: Ghost<Seq<bool>>,
    requests: Ghost<Seq<bool>>,
}

impl Watch {
    pub closed spec fn control(self) -> ExecutionControl {
        self.control
    }

    /// What was found each time the session asked whether it is cancelled.
    pub closed spec fn cancels(self) -> Seq<bool> {
        self.cancels@
    }

    /// What was found each time the session asked for a request for a pause.
    pub closed spec fn requests(self) -> Seq<bool> {
        self.requests@
    }

    pub fn new(control: ExecutionControl) -> (watch: Self)
        ensures
            watch.control() == control,
            watch.cancels() == Seq::<bool>::empty(),
            watch.requests() == Seq::<bool>::empty(),
    {
        Watch { control, cancels: Ghost(Seq::empty()), requests: Ghost(Seq::empty()) }
    }

    /// Another handle on the same requests.
    pub fn handle(&self) -> (handle: ExecutionControl)
        ensures
            handle == self.control(),
    {
        self.control.clone()
    }

    /// Asks whether the session is cancelled.
    pub fn ask_cancelled(&mut self) -> (cancelled: bool)
        ensures
            call_ensures(ExecutionControl::is_cancelled, (&old(self).control(),), cancelled),
            final(self).control() == old(self).control(),
            final(self).cancels() == old(self).cancels().push(cancelled),
            final(self).requests() == old(self).requests(),
    {
        let cancelled = self.control.is_cancelled();
        self.cancels = Ghost(self.cancels@.push(cancelled));
        cancelled
    }

    /// Takes a request for a pause, if there is one.
    pub fn ask_request(&mut self) -> (requested: bool)
        ensures
            call_ensures(ExecutionControl::acknowledge_pause, (&old(self).control(),), requested),
            final(self).control() == old(self).control(),
            final(self).cancels() == old(self).cancels(),
            final(self).requests() == old(self).requests().push(requested),
    {
        let requested = self.control.acknowledge_pause();
        self.requests = Ghost(self.requests@.push(requested));
        requested
    }
}

/// What a resumed program is to run up to.
#[derive(Debug)]
pub struct StepPlan {
    pub mode: ResumeMode,
    pub start_activation: ActivationId,
    /// The calls that the step started under, the outermost first.
    pub ancestors: Vec<ActivationId>,
    /// The number of instructions after which the step can be over.
    pub minimum_epoch: u64,
}

/// A step is over in a call, while `chain` are the calls under way.
pub open spec fn step_done(
    plan: StepPlan,
    epoch: u64,
    chain: Seq<ActivationId>,
    current: ActivationId,
) -> bool {
    let installed = chain.contains(plan.start_activation);
    epoch >= plan.minimum_epoch && match plan.mode {
        ResumeMode::Continue => false,
        ResumeMode::StepInto => true,
        ResumeMode::StepOver => if installed {
            current == plan.start_activation
        } else {
            plan.ancestors@.contains(current)
        },
        ResumeMode::StepOut => !installed && plan.ancestors@.contains(current),
    }
}

/// Why a program pauses at a place that it has come to, if it does. A request
/// goes before the first stop, and that before a step.
pub open spec fn reason_to_pause(requested: bool, first: bool, stepped: bool) -> Option<PauseReason> {
    if requested {
        Some(PauseReason::Explicit)
    } else if first {
        Some(PauseReason::DebugPoint)
    } else if stepped {
        Some(PauseReason::Step)
    } else {
        None
    }
}

pub fn pause_reason(requested: bool, first: bool, stepped: bool) -> (reason: Option<PauseReason>)
    ensures
        reason == reason_to_pause(requested, first, stepped),
{
    if requested {
        Some(PauseReason::Explicit)
    } else if first {
        Some(PauseReason::DebugPoint)
    } else if stepped {
        Some(PauseReason::Step)
    } else {
        None
    }
}

/// What a session does before an instruction.
#[derive(Debug, Clone, Copy, PartialEq, Eq, Structural)]
pub enum Turn {
    Cancel,
    Pause(PauseReason),
    GoOn,
}

/// A cancelled program is not paused, and it is paused only where it has come
/// to a new place.
pub open spec fn turn_of(
    cancelled: bool,
    arrived: bool,
    requested: bool,
    first: bool,
    stepped: bool,
) -> Turn {
    if cancelled {
        Turn::Cancel
    } else if arrived {
        match reason_to_pause(requested, first, stepped) {
            Some(reason) => Turn::Pause(reason),
            None => Turn::GoOn,
        }
    } else {
        Turn::GoOn
    }
}

/// Decides what a session does before an instruction.
pub fn next_turn(
    cancelled: bool,
    arrived: bool,
    requested: bool,
    first: bool,
    stepped: bool,
) -> (turn: Turn)
    ensures
        turn == turn_of(cancelled, arrived, requested, first, stepped),
{
    if cancelled {
        return Turn::Cancel;
    }
    if !arrived {
        return Turn::GoOn;
    }
    match pause_reason(requested, first, stepped) {
        Some(reason) => Turn::Pause(reason),
        None => Turn::GoOn,
    }
}

fn contains(chain: &Vec<ActivationId>, id: ActivationId) -> (found: bool)
    ensures
        found == chain@.contains(id),
{
    let mut i: usize = 0;
    while i < chain.len()
        invariant
            i <= chain@.len(),
            forall|j: int| 0 <= j < i ==> chain@[j] != id,
        decreases chain@.len() - i,
    {
        if chain[i] == id {
            return true;
        }
        i += 1;
    }
    false
}

impl StepPlan {
    pub fn is_complete(&self, epoch: u64, chain: &Vec<ActivationId>, current: ActivationId) -> (done:
        bool)
        ensures
            done == step_done(*self, epoch, chain@, current),
    {
        if epoch < self.minimum_epoch {
            return false;
        }
        match self.mode {
            ResumeMode::Continue => false,
            ResumeMode::StepInto => true,
            ResumeMode::StepOver => if contains(chain, self.start_activation) {
                current == self.start_activation
            } else {
                contains(&self.ancestors, current)
            },
            ResumeMode::StepOut => !contains(chain, self.start_activation) && contains(
                &self.ancestors,
                current,
            ),
        }
    }
}

/// The point of some points that stands at an offset: the first that is not
/// the entry of a function, or the first.
pub open spec fn is_point_at(points: Seq<DebugPoint>, offset: usize, i: int) -> bool {
    &&& 0 <= i < points.len()
    &&& points[i].offset == offset
    &&& forall|j: int|
        0 <= j < points.len() && j != i && (#[trigger] points[j]).offset == offset ==> (
        points[i].kind is FunctionEntry ==> points[j].kind is FunctionEntry && i < j) && (!(
        points[i].kind is FunctionEntry) ==> points[j].kind is FunctionEntry || i < j)
}

pub fn semantic_point(points: &Vec<DebugPoint>, offset: usize) -> (point: Option<DebugPoint>)
    ensures
        match point {
            Some(point) => exists|i: int| #[trigger]
                is_point_at(points@, offset, i) && points@[i] == point,
            None => forall|i: int|
                0 <= i < points@.len() ==> (#[trigger] points@[i]).offset != offset,
        },
{
    let mut entry: Option<usize> = None;
    let mut i: usize = 0;
    while i < points.len()
        invariant
            i <= points@.len(),
            forall|j: int|
                0 <= j < i && (#[trigger] points@[j]).offset == offset ==> points@[j].kind
                    is FunctionEntry && entry is Some && entry->0 <= j,
            entry matches Some(k) ==> k < i && points@[k as int].offset == offset
                && points@[k as int].kind is FunctionEntry,
        decreases points@.len() - i,
    {
        if points[i].offset == offset {
            if !matches!(points[i].kind, DebugPointKind::FunctionEntry) {
                assert(is_point_at(points@, offset, i as int));
                return Some(points[i]);
            }
            if entry.is_none() {
                entry = Some(i);
            }
        }
        i += 1;
    }
    match entry {
        Some(k) => {
            assert(is_point_at(points@, offset, k as int));
            Some(points[k])
        },
        None => None,
    }
}

impl VmState {
    /// The calls under way, the outermost first.
    pub open spec fn activations(self) -> Seq<ActivationId> {
        self.frames.map_values(|frame: crate::machine::CallFrame| frame.activation_id)
    }

    /// The running call has come to a point where the program can be paused.
    pub open spec fn is_at(self, activation: ActivationId, point: DebugPoint) -> bool {
        &&& self.frames.len() > 0
        &&& activation == self.frame().activation_id
        &&& self.running() matches Some(f) && exists|i: int| #[trigger]
            is_point_at(f.debug_info.points@, self.frame().ip, i) && f.debug_info.points@[i]
                == point
    }

    /// The point that the running call has come to, with the call.
    pub open spec fn semantic_point(self) -> Option<(ActivationId, DebugPoint)> {
        if exists|activation: ActivationId, point: DebugPoint| #[trigger]
            self.is_at(activation, point) {
            Some(choose|at: (ActivationId, DebugPoint)| #[trigger] self.is_at(at.0, at.1))
        } else {
            None
        }
    }

    /// The call that has come to a point, if one has.
    pub open spec fn call_at_point(self) -> ActivationId {
        match self.semantic_point() {
            Some((activation, _)) => activation,
            None => arbitrary(),
        }
    }

    /// The point that a call has come to, if one has.
    pub open spec fn point_reached(self) -> DebugPoint {
        match self.semantic_point() {
            Some((_, point)) => point,
            None => arbitrary(),
        }
    }

    /// A machine is at one point at most.
    pub proof fn lemma_point_is_one(self, activation: ActivationId, point: DebugPoint)
        requires
            self.is_at(activation, point),
        ensures
            self.semantic_point() == Some((activation, point)),
    {
        let points = self.running()->0.debug_info.points@;
        let ip = self.frame().ip;
        let i = choose|i: int| #[trigger] is_point_at(points, ip, i) && points[i] == point;
        assert(self.is_at((activation, point).0, (activation, point).1));
        let at = choose|at: (ActivationId, DebugPoint)| #[trigger] self.is_at(at.0, at.1);
        let j = choose|j: int| #[trigger] is_point_at(points, ip, j) && points[j] == at.1;
        if i != j {
            assert(points[i].offset == ip && points[j].offset == ip);
        }
    }
}

impl VM {
    pub fn activation_chain(&self) -> (chain: Vec<ActivationId>)
        ensures
            chain@ == self@.activations(),
    {
        let mut chain: Vec<ActivationId> = Vec::new();
        let mut i: usize = 0;
        while i < self.frames.len()
            invariant
                i <= self.frames@.len(),
                chain@ == self@.activations().take(i as int),
            decreases self.frames@.len() - i,
        {
            chain.push(self.frames[i].activation_id);
            i += 1;
            assert(chain@ =~= self@.activations().take(i as int));
        }
        assert(chain@ =~= self@.activations());
        chain
    }

    /// The point that the running call has come to.
    pub fn current_semantic_point(&self) -> (arrival: Option<(ActivationId, DebugPoint)>)
        requires
            self.wf(),
        ensures
            arrival == self@.semantic_point(),
            arrival matches Some((activation, point)) ==> self@.is_at(activation, point),
    {
        if self.frames.len() == 0 {
            return None;
        }
        let frame = self.frames[self.frames.len() - 1];
        match self.function_of(frame.closure) {
            Some(f) => match semantic_point(&f.debug_info.points, frame.ip) {
                Some(point) => {
                    proof {
                        self@.lemma_point_is_one(frame.activation_id, point);
                    }
                    Some((frame.activation_id, point))
                },
                None => None,
            },
            None => None,
        }
    }

    /// The offset of the next instruction.
    pub fn current_offset(&self) -> (offset: Option<usize>)
        ensures
            offset == (if self@.frames.len() > 0 {
                Some(self@.frame().ip)
            } else {
                None
            }),
    {
        if self.frames.len() == 0 {
            None
        } else {
            Some(self.frames[self.frames.len() - 1].ip)
        }
    }
}

/// A step out is not over while the call that it started in is under way, and
/// a step over not in a call that came after it.
pub proof fn law_steps_stay_out_of_later_calls(
    plan: StepPlan,
    epoch: u64,
    chain: Seq<ActivationId>,
    current: ActivationId,
)
    requires
        step_done(plan, epoch, chain, current),
    ensures
        plan.mode is StepOut ==> !chain.contains(plan.start_activation),
        plan.mode is StepOver || plan.mode is StepOut ==> current == plan.start_activation
            || plan.ancestors@.contains(current),
        !(plan.mode is Continue),
{
}

} // verus!
