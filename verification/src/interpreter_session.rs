//! A session: one program, run under a debugger's control.
use vstd::prelude::*;
use crate::debug_info::{DebugPoint, DebugPointId};
use crate::compiler::{report_of, reports};
use crate::compiling_laws::{law_errors_are_noted, no_bounds};
use crate::diagnostic::Report;
use crate::format::NumberTexts;
use crate::interpreter::{
    add_texts, advance, answered, answers, cannot_hold, compile_reports, compiled_state, covers,
    failed, lemma_answered, lemma_played, lemma_texts_are_few, parses, prepare, prepared,
    reaches, report_all, starved, state_after, tells, texts_differ, StartError,
};
use crate::machine::{lemma_complete, played, Fault, Input, Outcome, VmState};
use crate::picture::Scene;
use crate::runtime_host::{record_of, Arithmetic, RuntimeHost};
use crate::session::{
    next_turn, reason_to_pause, step_done, turn_of, ActivationId, ExecutionControl,
    ExecutionState, PauseLocation, PauseReason, ResumeMode, RunOutcome, SessionError,
    SessionOperation, StepPlan, Turn, Watch,
};
use crate::snapshot::{
    default_limits, shows_nothing, unavailable_snapshot, SnapshotBuildError, SnapshotLimitError, SnapshotLimits,
    SnapshotReason, VmSnapshot,
};
use crate::snapshot_builder::SnapshotRequest;
use crate::snapshot_globals::{is_selection, named, numbers_met, taken};
use crate::source::{SourceDocument, SourceSpan};
use crate::table::Key;
use crate::vm::{lemma_close_keeps, Step, VM};

verus! {

/// A point that the program came to, and after how many instructions.
#[derive(Debug, Clone, Copy, PartialEq, Eq, Structural)]
pub struct Arrival {
    pub activation_id: ActivationId,
    pub point: DebugPointId,
    pub offset: usize,
    pub epoch: u64,
}

pub struct InterpreterSession<H: RuntimeHost, A: Arithmetic> {
    document: SourceDocument,
    host: H,
    arithmetic: A,
    vm: VM,
    state: ExecutionState,
    watch: Watch,
    pause_location: Option<PauseLocation>,
    last_arrival: Option<Arrival>,
    dynamic_event: u64,
    opcode_epoch: u64,
    step_plan: Option<StepPlan>,
    initial_debug_pause: bool,
    snapshot: Option<VmSnapshot>,
    snapshot_limits: SnapshotLimits,
}

/// So many times no.
pub open spec fn noes(n: nat) -> Seq<bool> {
    Seq::new(n, |i: int| false)
}

/// What can be known of a session.
pub ghost struct SessionView<H, A> {
    pub document: SourceDocument,
    pub host: H,
    pub arithmetic: A,
    pub control: ExecutionControl,
    /// What the session found each time it asked whether it is cancelled.
    pub cancels: Seq<bool>,
    /// What it found each time it asked for a request for a pause.
    pub requests: Seq<bool>,
    pub vm: VmState,
    pub state: ExecutionState,
    pub pause_location: Option<PauseLocation>,
    pub dynamic_event: u64,
    pub opcode_epoch: u64,
    pub step_plan: Option<StepPlan>,
    pub initial_debug_pause: bool,
    pub last_arrival: Option<Arrival>,
    pub snapshot: Option<VmSnapshot>,
    pub snapshot_limits: SnapshotLimits,
}

pub open spec fn arrival_at(activation: ActivationId, point: DebugPoint, epoch: u64) -> Arrival {
    Arrival { activation_id: activation, point: point.id, offset: point.offset, epoch }
}

pub open spec fn location_at(activation: ActivationId, point: DebugPoint, event: u64) -> PauseLocation {
    PauseLocation {
        source_id: point.span.source_id,
        revision: point.span.revision,
        span: point.span,
        debug_point_id: point.id,
        activation_id: activation,
        dynamic_event: event,
    }
}

impl<H: RuntimeHost, A: Arithmetic> SessionView<H, A> {
    /// The state of a session says what is there of it.
    pub open spec fn settled(self) -> bool {
        match self.state {
            ExecutionState::Ready => self.is_new(),
            ExecutionState::Running => true,
            ExecutionState::Paused => self.snapshot is Some && self.is_parked(),
            ExecutionState::Completed => self.pause_location is None && self.snapshot is None
                && self.vm.frames.len() == 0,
            ExecutionState::Faulted | ExecutionState::Cancelled => self.pause_location is None
                && self.snapshot is Some && self.vm.frames.len() == 0 && self.vm.stack.len() == 0,
        }
    }

    /// Nothing has happened in the session.
    pub open spec fn is_new(self) -> bool {
        &&& self.vm == VmState::fresh()
        &&& self.pause_location is None
        &&& self.dynamic_event == 0
        &&& self.opcode_epoch == 0
        &&& self.step_plan is None
        &&& !self.initial_debug_pause
        &&& self.last_arrival is None
        &&& self.snapshot is None
        &&& self.cancels.len() == 0
        &&& self.requests.len() == 0
    }

    /// The session stands at the point that it came to last.
    pub open spec fn is_parked(self) -> bool {
        &&& self.vm.semantic_point() matches Some((activation, point)) && self.pause_location
            == Some(location_at(activation, point, self.dynamic_event)) && self.last_arrival
            == Some(arrival_at(activation, point, self.opcode_epoch))
            && self.vm.activations().contains(activation)
        &&& self.step_plan is None
        &&& !self.initial_debug_pause
    }
}

/// The outcome of a run is the state that it leaves.
pub open spec fn agrees(outcome: RunOutcome, state: ExecutionState) -> bool {
    match outcome {
        RunOutcome::Paused(_) => state is Paused,
        RunOutcome::Completed => state is Completed,
        RunOutcome::Faulted(_) => state is Faulted,
        RunOutcome::Cancelled => state is Cancelled,
        RunOutcome::Rejected(error) => error.state == state,
    }
}

pub open spec fn request_at(s: VmState, reason: SnapshotReason, current_span: SourceSpan) -> SnapshotRequest {
    SnapshotRequest {
        reason,
        current_span,
        active_offset: if s.frames.len() > 0 {
            Some(s.frame().ip)
        } else {
            None
        },
    }
}

/// What looking at a machine gives, with the texts of all numbers that are
/// met, as `arithmetic` gives them.
pub open spec fn looked_at<A: Arithmetic>(
    arithmetic: A,
    result: Result<VmSnapshot, SnapshotBuildError>,
    s: VmState,
    request: SnapshotRequest,
    scene: Scene,
    selected: Seq<Key>,
) -> bool {
    &&& named(s) ==> is_selection(s, scene.limits.max_globals, selected)
    &&& taken(result, s, request, scene, selected)
    &&& covers(scene.texts, numbers_met(s, request, scene, selected))
    &&& tells(arithmetic, scene.texts)
}

/// A snapshot shows a machine, or nothing where it cannot be looked into.
pub open spec fn snapshot_shows<A: Arithmetic>(
    arithmetic: A,
    snapshot: VmSnapshot,
    s: VmState,
    limits: SnapshotLimits,
    reason: SnapshotReason,
    current_span: SourceSpan,
) -> bool {
    exists|result: Result<VmSnapshot, SnapshotBuildError>, scene: Scene, selected: Seq<Key>|
        scene.heap == s.heap && scene.limits == limits && #[trigger] looked_at(
            arithmetic,
            result,
            s,
            request_at(s, reason, current_span),
            scene,
            selected,
        ) && match result {
            Ok(shown) => snapshot == shown,
            Err(_) => shows_nothing(snapshot, reason, current_span),
        }
}

impl<H: RuntimeHost, A: Arithmetic> SessionView<H, A> {
    /// The session has a snapshot of a machine.
    pub open spec fn pictures(self, s: VmState, reason: SnapshotReason, current_span: SourceSpan) -> bool {
        self.snapshot matches Some(snapshot) && snapshot_shows(
            self.arithmetic,
            snapshot,
            s,
            self.snapshot_limits,
            reason,
            current_span,
        )
    }

    /// What never changes in a session.
    pub open spec fn is_same(self, after: SessionView<H, A>) -> bool {
        &&& after.document == self.document
        &&& after.arithmetic == self.arithmetic
        &&& after.control == self.control
        &&& after.snapshot_limits == self.snapshot_limits
    }

    /// What was asked since, and what was found: whether the session is
    /// cancelled, and whether there is a request for a pause.
    pub open spec fn asked(
        self,
        cancels: Seq<bool>,
        requests: Seq<bool>,
        after: SessionView<H, A>,
    ) -> bool {
        after.cancels == self.cancels + cancels && after.requests == self.requests + requests
    }

    /// The session was found to be cancelled.
    pub open spec fn found_cancelled(self) -> bool {
        call_ensures(ExecutionControl::is_cancelled, (&self.control,), true)
    }

    /// The session was asked whether it is cancelled, and found not to be.
    pub open spec fn found_clear(self) -> bool {
        call_ensures(ExecutionControl::is_cancelled, (&self.control,), false)
    }

    /// A request for a pause was taken, or none was found.
    pub open spec fn found_request(self, requested: bool) -> bool {
        call_ensures(ExecutionControl::acknowledge_pause, (&self.control,), requested)
    }

    /// The step that was asked for is over in a call, `k` instructions on.
    pub open spec fn steps_to(self, k: int, s: VmState, activation: ActivationId) -> bool {
        self.step_plan matches Some(plan) && self.opcode_epoch + k <= u64::MAX && step_done(
            plan,
            (self.opcode_epoch + k) as u64,
            s.activations(),
            activation,
        )
    }

    /// `k` instructions on, the machine has come to a point that it was not
    /// at when the session came to a point last.
    pub open spec fn arrives(self, k: int, s: VmState) -> bool {
        s.semantic_point() matches Some((activation, point)) && (k > 0 || self.last_arrival != Some(
            arrival_at(activation, point, self.opcode_epoch),
        ))
    }

    /// To how many points the session has come before the first `n` of some
    /// instructions, each before that instruction.
    pub open spec fn events(self, inputs: Seq<Input>, n: nat) -> nat
        decreases n,
    {
        if n == 0 {
            0
        } else {
            let k = (n - 1) as nat;
            self.events(inputs, k) + (if self.arrives(
                k as int,
                state_after(self.vm, inputs.take(k as int)),
            ) {
                1nat
            } else {
                0nat
            })
        }
    }

    /// `k` instructions on, the machine has come to a point at which the
    /// session pauses, whatever is asked of it meanwhile.
    pub open spec fn due(self, k: int, s: VmState) -> bool {
        self.arrives(k, s) && (self.initial_debug_pause || self.steps_to(
            k,
            s,
            s.call_at_point(),
        ))
    }

    /// No instruction was carried out where the session should have paused,
    /// nor without asking whether the session is cancelled, and each got what
    /// it asked for.
    pub open spec fn passes(self, inputs: Seq<Input>) -> bool {
        &&& answered(self.arithmetic, self.vm, inputs)
        &&& inputs.len() > 0 ==> self.found_clear()
        &&& forall|k: int, s: VmState|
            0 <= k < inputs.len() && #[trigger] reaches(self.vm, inputs.take(k), s) ==> !self.due(
                k,
                s,
            )
    }

    /// The host was given what the instructions printed, and these reports.
    pub open spec fn tells(
        self,
        inputs: Seq<Input>,
        reports: Seq<Report>,
        after: SessionView<H, A>,
    ) -> bool {
        record_of(after.host) == record_of(self.host).with(
            played(self.vm, inputs).output,
            reports,
        )
    }

    /// What is left of a session that pauses at the point that its machine
    /// is at, after so many instructions and so many points, besides the
    /// machine, the host and the snapshot.
    pub open spec fn parked_after(self, count: int, events: nat, after: SessionView<H, A>) -> bool {
        &&& after.vm.semantic_point() is Some
        &&& after == (SessionView {
            vm: after.vm,
            host: after.host,
            state: ExecutionState::Paused,
            pause_location: Some(
                location_at(
                    after.vm.call_at_point(),
                    after.vm.point_reached(),
                    after.dynamic_event,
                ),
            ),
            cancels: after.cancels,
            requests: after.requests,
            dynamic_event: after.dynamic_event,
            opcode_epoch: after.opcode_epoch,
            step_plan: None,
            initial_debug_pause: false,
            last_arrival: Some(
                arrival_at(
                    after.vm.call_at_point(),
                    after.vm.point_reached(),
                    after.opcode_epoch,
                ),
            ),
            snapshot: after.snapshot,
            ..self
        })
        &&& after.opcode_epoch == self.opcode_epoch + count
        &&& after.dynamic_event == self.dynamic_event + events
    }

    /// The session pauses at a point that it has come to. Before each
    /// instruction it was asked twice whether it is cancelled, at the point
    /// once, and at each point for a request for a pause.
    pub open spec fn pauses(
        self,
        inputs: Seq<Input>,
        requested: bool,
        reason: PauseReason,
        after: SessionView<H, A>,
    ) -> bool {
        let k = inputs.len() as int;
        &&& reaches(self.vm, inputs, after.vm)
        &&& self.passes(inputs)
        &&& self.arrives(k, after.vm)
        &&& self.found_clear()
        &&& self.found_request(requested)
        &&& self.asked(
            noes((2 * k + 1) as nat),
            noes(self.events(inputs, inputs.len())).push(requested),
            after,
        )
        &&& Some(reason) == reason_to_pause(
            requested,
            self.initial_debug_pause,
            self.steps_to(k, after.vm, after.vm.call_at_point()),
        )
        &&& self.parked_after(k, self.events(inputs, inputs.len() + 1), after)
        &&& self.tells(inputs, Seq::empty(), after)
        &&& after.pictures(
            after.vm,
            SnapshotReason::Paused(reason),
            after.vm.point_reached().span,
        )
    }

    /// The program has come to its end.
    pub open spec fn completes(self, inputs: Seq<Input>, after: SessionView<H, A>) -> bool {
        &&& self.is_same(after)
        &&& self.found_clear()
        &&& self.passes(inputs)
        &&& played(self.vm, inputs).outcome == Outcome::Complete(after.vm)
        &&& self.asked(
            noes(2 * inputs.len()),
            noes(self.events(inputs, inputs.len())),
            after,
        )
        &&& self.tells(inputs, Seq::empty(), after)
    }

    /// What is left of a session that a fault has ended in a state.
    pub open spec fn ends_by(self, s: VmState, fault: Fault, after: SessionView<H, A>) -> bool {
        &&& self.is_same(after)
        &&& after.vm == s.cleaned()
        &&& after.pictures(
            s,
            SnapshotReason::Faulted,
            s.fault_report(fault, self.document.end_span()).span,
        )
    }

    /// The session fails in a state: by an instruction, or because something
    /// cannot be counted or kept any more. The fault is reported once.
    pub open spec fn fails(
        self,
        inputs: Seq<Input>,
        s: VmState,
        fault: Fault,
        after: SessionView<H, A>,
        has_room: bool,
    ) -> bool {
        let k = inputs.len();
        &&& self.found_clear()
        &&& self.passes(inputs)
        &&& {
            ||| failed(self.vm, inputs, s, fault) && self.asked(
                noes(2 * k),
                noes(self.events(inputs, k)),
                after,
            )
            ||| fault == Fault::Message("Instruction counter exhausted.") && reaches(
                self.vm,
                inputs,
                s,
            ) && self.opcode_epoch + k > u64::MAX && self.asked(
                noes(2 * k),
                noes(self.events(inputs, k)),
                after,
            )
            ||| fault == Fault::Message("Debug event counter exhausted.") && reaches(
                self.vm,
                inputs,
                s,
            ) && self.arrives(k as int, s) && self.dynamic_event + self.events(inputs, k)
                == u64::MAX && self.asked(
                noes(2 * k + 1),
                noes(self.events(inputs, k)),
                after,
            )
            ||| starved(self.vm, inputs, s, fault, has_room) && self.asked(
                noes(2 * k + 2),
                noes(self.events(inputs, k + 1)),
                after,
            )
        }
        &&& self.ends_by(s, fault, after)
        &&& self.tells(
            inputs,
            seq![s.fault_report(fault, self.document.end_span())],
            after,
        )
    }

    /// What is left of a session that was cancelled in a state.
    pub open spec fn dropped_at(self, s: VmState, after: SessionView<H, A>) -> bool {
        &&& self.is_same(after)
        &&& after.vm == s.cleaned()
        &&& after.pictures(
            s,
            SnapshotReason::Cancelled,
            match s.current_span() {
                Some(span) => span,
                None => self.document.end_span(),
            },
        )
    }

    /// The session was found to be cancelled, in a state.
    pub open spec fn is_cancelled_at(
        self,
        inputs: Seq<Input>,
        s: VmState,
        after: SessionView<H, A>,
    ) -> bool {
        let k = inputs.len();
        &&& self.found_cancelled()
        &&& self.asked(noes(2 * k).push(true), noes(self.events(inputs, k)), after) || self.asked(
            noes(2 * k + 1).push(true),
            noes(self.events(inputs, k + 1)),
            after,
        )
        &&& reaches(self.vm, inputs, s)
        &&& self.passes(inputs)
        &&& self.dropped_at(s, after)
        &&& self.tells(inputs, Seq::empty(), after)
    }

    /// What running the machine from here does, by its outcome.
    pub open spec fn runs(self, outcome: RunOutcome, after: SessionView<H, A>, has_room: bool) -> bool {
        match outcome {
            RunOutcome::Paused(reason) => exists|inputs: Seq<Input>, requested: bool| #[trigger]
                self.pauses(inputs, requested, reason, after),
            RunOutcome::Completed => exists|inputs: Seq<Input>| #[trigger]
                self.completes(inputs, after),
            RunOutcome::Faulted(diagnostic) => exists|inputs: Seq<Input>, s: VmState, fault: Fault|
             #[trigger]
                self.fails(inputs, s, fault, after, has_room) && diagnostic@ == s.fault_report(
                    fault,
                    self.document.end_span(),
                ),
            RunOutcome::Cancelled => exists|inputs: Seq<Input>, s: VmState| #[trigger]
                self.is_cancelled_at(inputs, s, after),
            RunOutcome::Rejected(_) => false,
        }
    }

    /// What a session does before an instruction, by what was asked of it.
    pub open spec fn turns(
        self,
        cancelled: bool,
        requested: bool,
        outcome: Option<RunOutcome>,
        after: SessionView<H, A>,
    ) -> bool {
        let arrives = self.arrives(0, self.vm);
        let first = self.initial_debug_pause;
        let stepped = self.steps_to(0, self.vm, self.vm.call_at_point());
        &&& after.cancels == self.cancels && after.requests == self.requests
        &&& if cancelled {
            &&& outcome == Some(RunOutcome::Cancelled)
            &&& self.dropped_at(self.vm, after)
            &&& after.host == self.host
        } else if !arrives {
            outcome is None && after == self
        } else if self.dynamic_event == u64::MAX {
            let fault = Fault::Message("Debug event counter exhausted.");
            let report = self.vm.fault_report(fault, self.document.end_span());
            &&& outcome matches Some(RunOutcome::Faulted(diagnostic)) && diagnostic@ == report
            &&& self.ends_by(self.vm, fault, after)
            &&& record_of(after.host) == record_of(self.host).with(Seq::empty(), seq![report])
        } else {
            match turn_of(cancelled, arrives, requested, first, stepped) {
                Turn::Pause(reason) => {
                    &&& outcome == Some(RunOutcome::Paused(reason))
                    &&& self.parked_after(0, 1, after)
                    &&& after.vm == self.vm
                    &&& after.host == self.host
                    &&& after.pictures(
                        self.vm,
                        SnapshotReason::Paused(reason),
                        self.vm.point_reached().span,
                    )
                },
                _ => {
                    &&& outcome is None
                    &&& after == (SessionView {
                        dynamic_event: (self.dynamic_event + 1) as u64,
                        initial_debug_pause: false,
                        last_arrival: Some(
                            arrival_at(
                                self.vm.call_at_point(),
                                self.vm.point_reached(),
                                self.opcode_epoch,
                            ),
                        ),
                        ..self
                    })
                },
            }
        }
    }

    /// What a session does by an instruction, with what came from outside
    /// for it, unless it is cancelled.
    pub open spec fn works(
        self,
        cancelled: bool,
        input: Input,
        outcome: Option<RunOutcome>,
        after: SessionView<H, A>,
        has_room: bool,
    ) -> bool {
        let end = self.document.end_span();
        let o = self.vm.step(input.number, input.texts);
        let lines = match o {
            Outcome::Printed(_, text) => seq![text],
            _ => Seq::empty(),
        };
        &&& after.cancels == self.cancels && after.requests == self.requests
        &&& if cancelled {
            &&& outcome == Some(RunOutcome::Cancelled)
            &&& self.dropped_at(self.vm, after)
            &&& after.host == self.host
        } else {
            &&& answers(self.arithmetic, self.vm, input)
            &&& match outcome {
                None => {
                    &&& self.opcode_epoch < u64::MAX
                    &&& o == Outcome::Next(after.vm) || (o matches Outcome::Printed(s, _) && s
                        == after.vm)
                    &&& record_of(after.host) == record_of(self.host).with(lines, Seq::empty())
                    &&& after == (SessionView {
                        vm: after.vm,
                        host: after.host,
                        opcode_epoch: (self.opcode_epoch + 1) as u64,
                        ..self
                    })
                },
                Some(RunOutcome::Completed) => {
                    &&& o == Outcome::Complete(after.vm)
                    &&& self.is_same(after)
                    &&& after.host == self.host
                },
                Some(RunOutcome::Faulted(diagnostic)) => exists|s: VmState, fault: Fault| #[trigger]
                    self.ends_by(s, fault, after) && diagnostic@ == s.fault_report(fault, end)
                        && {
                        ||| o == Outcome::Fails(fault) && s == self.vm && record_of(after.host)
                            == record_of(self.host).with(Seq::empty(), seq![diagnostic@])
                        ||| fault == Fault::Message("Out of memory.") && s == self.vm && !has_room
                            && record_of(after.host) == record_of(self.host).with(Seq::empty(), seq![diagnostic@])
                        ||| fault == Fault::Message("Instruction counter exhausted.")
                            && self.opcode_epoch == u64::MAX && (o == Outcome::Next(s) || (
                        o matches Outcome::Printed(t, _) && t == s)) && record_of(after.host)
                            == record_of(self.host).with(lines, seq![diagnostic@])
                    },
                _ => false,
            }
        }
    }
}

/// What resuming a paused session does.
pub open spec fn resumed<H: RuntimeHost, A: Arithmetic>(
    before: SessionView<H, A>,
    mode: ResumeMode,
    outcome: RunOutcome,
    after: SessionView<H, A>,
    has_room: bool,
) -> bool {
    exists|plan: Option<StepPlan>| #[trigger]
        is_plan(
            plan,
            mode,
            before.pause_location->0.activation_id,
            before.vm.activations(),
            before.opcode_epoch,
        ) && (SessionView { step_plan: plan, ..before }).runs(outcome, after, has_room)
}

/// A session that is resumed and pauses again gets on: it has carried out an
/// instruction, and the new pause has a later event.
pub proof fn law_resuming_makes_progress<H: RuntimeHost, A: Arithmetic>(
    before: SessionView<H, A>,
    mode: ResumeMode,
    reason: PauseReason,
    after: SessionView<H, A>,
    has_room: bool,
)
    requires
        before.settled(),
        before.state is Paused,
        resumed(before, mode, RunOutcome::Paused(reason), after, has_room),
    ensures
        after.settled(),
        after.state is Paused,
        after.opcode_epoch > before.opcode_epoch,
        after.pause_location->0.dynamic_event > before.pause_location->0.dynamic_event,
{
    let plan = choose|plan: Option<StepPlan>| #[trigger]
        is_plan(
            plan,
            mode,
            before.pause_location->0.activation_id,
            before.vm.activations(),
            before.opcode_epoch,
        ) && (SessionView { step_plan: plan, ..before }).runs(
            RunOutcome::Paused(reason),
            after,
            has_room,
        );
    let start = SessionView { step_plan: plan, ..before };
    let (inputs, requested) = choose|inputs: Seq<Input>, requested: bool| #[trigger]
        start.pauses(inputs, requested, reason, after);
    if inputs.len() == 0 {
        assert(after.vm == before.vm);
    }
    assert(inputs.take(inputs.len() as int) =~= inputs);
    lemma_parked(after.vm);
}

/// A paused session was resumed and has paused again. Its host may have been
/// changed meanwhile.
#[verifier::opaque]
pub open spec fn pauses_again<H: RuntimeHost, A: Arithmetic>(
    before: SessionView<H, A>,
    after: SessionView<H, A>,
) -> bool {
    exists|host: H, mode: ResumeMode, reason: PauseReason, has_room: bool| #[trigger]
        resumed(
            SessionView { host, ..before },
            mode,
            RunOutcome::Paused(reason),
            after,
            has_room,
        )
}

proof fn lemma_pauses_again<H: RuntimeHost, A: Arithmetic>(
    before: SessionView<H, A>,
    after: SessionView<H, A>,
)
    requires
        before.settled(),
        before.state is Paused,
        pauses_again(before, after),
    ensures
        after.settled(),
        after.state is Paused,
        after.opcode_epoch > before.opcode_epoch,
        after.pause_location->0.dynamic_event > before.pause_location->0.dynamic_event,
{
    reveal(pauses_again);
    let (host, mode, reason, has_room) = choose|
        host: H,
        mode: ResumeMode,
        reason: PauseReason,
        has_room: bool,
    | #[trigger]
        resumed(
            SessionView { host, ..before },
            mode,
            RunOutcome::Paused(reason),
            after,
            has_room,
        );
    law_resuming_makes_progress(SessionView { host, ..before }, mode, reason, after, has_room);
}

/// However often a session is resumed, each pause has a later event than
/// every pause before it, and instructions were carried out in between.
pub proof fn law_events_grow<H: RuntimeHost, A: Arithmetic>(
    pauses: Seq<SessionView<H, A>>,
    i: int,
    j: int,
)
    requires
        0 <= i < j < pauses.len(),
        pauses[i].settled(),
        pauses[i].state is Paused,
        forall|k: int| i <= k < j ==> pauses_again(#[trigger] pauses[k], pauses[k + 1]),
    ensures
        pauses[j].settled(),
        pauses[j].state is Paused,
        pauses[j].opcode_epoch > pauses[i].opcode_epoch,
        pauses[j].pause_location->0.dynamic_event > pauses[i].pause_location->0.dynamic_event,
    decreases j - i,
{
    if i < j - 1 {
        law_events_grow(pauses, i, j - 1);
    }
    assert(pauses_again(pauses[j - 1], pauses[j - 1 + 1]));
    lemma_pauses_again(pauses[j - 1], pauses[j]);
}

/// The call that has come to a point is under way.
pub proof fn lemma_parked(s: VmState)
    ensures
        s.semantic_point() matches Some((activation, point)) ==> s.activations().contains(
            activation,
        ),
{
    if s.semantic_point() is Some {
        let (activation, point) = s.semantic_point()->0;
        let (a, p) = choose|a: ActivationId, p: DebugPoint| #[trigger] s.is_at(a, p);
        s.lemma_point_is_one(a, p);
        assert(s.activations()[s.frames.len() - 1] == activation);
    }
}

/// What starting a session does, with the numbers that its number tokens
/// spell: what is wrong with the document is reported, or the machine is set
/// up and run.
pub open spec fn launched<H: RuntimeHost, A: Arithmetic>(
    before: SessionView<H, A>,
    debugging: bool,
    numbers: Seq<u64>,
    outcome: RunOutcome,
    after: SessionView<H, A>,
    has_room: bool,
) -> bool {
    let s = compiled_state(before.document, numbers);
    let end = before.document.end_span();
    let out = Fault::Message("Out of memory.");
    &&& parses(before.arithmetic, before.document, numbers)
    &&& if s.had_error {
        &&& before.is_same(after)
        &&& before.asked(Seq::empty(), Seq::empty(), after)
        &&& after.vm == before.vm.cleaned()
        &&& s.notes.len() > 0
        &&& outcome matches RunOutcome::Faulted(diagnostic) && diagnostic@ == report_of(s.notes[0])
            && after.pictures(before.vm, SnapshotReason::Faulted, diagnostic.span)
        &&& record_of(after.host) == record_of(before.host).with(
            Seq::empty(),
            compile_reports(before.document, numbers),
        )
    } else {
        ||| outcome matches RunOutcome::Faulted(diagnostic) && exists|t: VmState| #[trigger]
            before.ends_by(t, out, after) && cannot_hold(
                before.vm,
                before.document,
                numbers,
                has_room,
                t,
            ) && before.asked(Seq::empty(), Seq::empty(), after) && diagnostic@
                == t.fault_report(out, end) && record_of(after.host) == record_of(
                before.host,
            ).with(Seq::empty(), seq![diagnostic@])
        ||| exists|start: VmState| #[trigger]
            prepared(before.vm, before.document, numbers, start) && (SessionView {
                vm: start,
                initial_debug_pause: debugging,
                ..before
            }).runs(outcome, after, has_room)
    }
}

/// The plan of a step from a call, while `chain` are the calls under way.
pub open spec fn is_plan(
    plan: Option<StepPlan>,
    mode: ResumeMode,
    start: ActivationId,
    chain: Seq<ActivationId>,
    epoch: u64,
) -> bool {
    match plan {
        Some(plan) => !(mode is Continue) && plan.mode == mode && plan.start_activation == start
            && plan.ancestors@ == chain.take(chain.index_of_first(start)->0) && plan.minimum_epoch
            == (if epoch < u64::MAX {
            epoch + 1
        } else {
            epoch as int
        }),
        None => mode is Continue,
    }
}

impl<H: RuntimeHost, A: Arithmetic> InterpreterSession<H, A> {
    pub closed spec fn view(self) -> SessionView<H, A> {
        SessionView {
            document: self.document,
            host: self.host,
            arithmetic: self.arithmetic,
            control: self.watch.control(),
            cancels: self.watch.cancels(),
            requests: self.watch.requests(),
            vm: self.vm@,
            state: self.state,
            pause_location: self.pause_location,
            dynamic_event: self.dynamic_event,
            opcode_epoch: self.opcode_epoch,
            step_plan: self.step_plan,
            initial_debug_pause: self.initial_debug_pause,
            last_arrival: self.last_arrival,
            snapshot: self.snapshot,
            snapshot_limits: self.snapshot_limits,
        }
    }

    pub closed spec fn sound(self) -> bool {
        &&& self.vm.wf()
        &&& self.document.wf()
        &&& self.last_arrival matches Some(arrival) ==> arrival.epoch <= self.opcode_epoch
    }

    /// Every table of the machine can still grow.
    pub closed spec fn has_room(self) -> bool {
        self.vm.has_room()
    }

    pub open spec fn wf(self) -> bool {
        self.sound() && self@.settled()
    }

    pub fn new(document: SourceDocument, host: H, arithmetic: A) -> (session: Self)
        requires
            document.wf(),
        ensures
            session.wf(),
            session@.document == document,
            session@.host == host,
            session@.arithmetic == arithmetic,
            session@.state is Ready,
            session@.is_new(),
            session@.snapshot_limits == default_limits(),
    {
        InterpreterSession {
            document,
            host,
            arithmetic,
            vm: VM::new(),
            state: ExecutionState::Ready,
            watch: Watch::new(ExecutionControl::default()),
            pause_location: None,
            last_arrival: None,
            dynamic_event: 0,
            opcode_epoch: 0,
            step_plan: None,
            initial_debug_pause: false,
            snapshot: None,
            snapshot_limits: SnapshotLimits::default(),
        }
    }

    /// A session whose snapshots keep to limits, unless the limits are at fault.
    pub fn with_snapshot_limits(
        document: SourceDocument,
        host: H,
        arithmetic: A,
        limits: SnapshotLimits,
    ) -> (session: Result<Self, SnapshotLimitError>)
        requires
            document.wf(),
        ensures
            match session {
                Ok(session) => limits.fault() is None && session.wf() && session@.document
                    == document && session@.host == host && session@.arithmetic == arithmetic
                    && session@.state is Ready && session@.is_new() && session@.snapshot_limits
                    == limits,
                Err(error) => limits.fault() == Some(error),
            },
    {
        match limits.validate() {
            Ok(_) => {
                let mut session = InterpreterSession::new(document, host, arithmetic);
                session.snapshot_limits = limits;
                Ok(session)
            },
            Err(error) => Err(error),
        }
    }

    pub fn host(&self) -> (host: &H)
        ensures
            *host == self@.host,
    {
        &self.host
    }

    pub fn host_mut(&mut self) -> (host: &mut H)
        ensures
            *host == old(self)@.host,
            final(self)@ == (SessionView { host: *final(host), ..old(self)@ }),
            final(self).sound() == old(self).sound(),
    {
        &mut self.host
    }

    /// A handle to pause or to stop the session from elsewhere.
    pub fn control(&self) -> (handle: ExecutionControl)
        ensures
            handle == self@.control,
    {
        self.watch.handle()
    }

    pub fn execution_state(&self) -> (state: ExecutionState)
        ensures
            state == self@.state,
    {
        self.state
    }

    /// Where the program is paused.
    pub fn pause_location(&self) -> (location: Option<&PauseLocation>)
        ensures
            match location {
                Some(location) => self@.pause_location == Some(*location),
                None => self@.pause_location is None,
            },
    {
        self.pause_location.as_ref()
    }

    /// The picture of the program where it was paused or put to an end.
    pub fn snapshot(&self) -> (snapshot: Option<&VmSnapshot>)
        ensures
            match snapshot {
                Some(snapshot) => self@.snapshot == Some(*snapshot),
                None => self@.snapshot is None,
            },
    {
        self.snapshot.as_ref()
    }

    fn rejected(&self, operation: SessionOperation) -> (outcome: RunOutcome)
        ensures
            outcome == RunOutcome::Rejected(SessionError { operation, state: self@.state }),
    {
        RunOutcome::Rejected(SessionError { operation, state: self.state })
    }

    /// Takes a snapshot. Where the machine cannot be pictured, it is empty.
    fn take_snapshot(&mut self, reason: SnapshotReason, current_span: SourceSpan)
        requires
            old(self).sound(),
        ensures
            final(self).sound(),
            final(self)@ == (SessionView { snapshot: final(self)@.snapshot, ..old(self)@ }),
            final(self)@.pictures(old(self)@.vm, reason, current_span),
            final(self).has_room() == old(self).has_room(),
    {
        let request = SnapshotRequest {
            reason,
            current_span,
            active_offset: self.vm.current_offset(),
        };
        let mut texts = NumberTexts::new();
        let ghost s = self@.vm;
        let ghost limits = self@.snapshot_limits;
        loop
            invariant
                *self == *old(self),
                old(self).sound(),
                s == old(self)@.vm,
                limits == old(self)@.snapshot_limits,
                request == request_at(s, reason, current_span),
                texts_differ(texts),
                tells(old(self)@.arithmetic, texts),
            decreases 0x1_0000_0000_0000_0000 - texts.entries@.len(),
        {
            proof {
                lemma_texts_are_few(texts);
            }
            let ghost scene = Scene { heap: s.heap, texts, limits };
            let (result, numbers) = self.vm.build_snapshot(request, &self.snapshot_limits, &texts);
            if !add_texts(&mut texts, &numbers, &self.arithmetic) {
                let ghost selected = choose|selected: Seq<Key>|
                    (named(s) ==> is_selection(s, limits.max_globals, selected))
                        && #[trigger] taken(result, s, request, scene, selected) && numbers@
                        == numbers_met(s, request, scene, selected);
                assert(looked_at(self@.arithmetic, result, s, request, scene, selected));
                self.snapshot = Some(
                    match result {
                        Ok(snapshot) => snapshot,
                        Err(_) => unavailable_snapshot(reason, current_span),
                    },
                );
                assert(snapshot_shows(
                    self@.arithmetic,
                    self@.snapshot->0,
                    s,
                    limits,
                    reason,
                    current_span,
                ));
                return ;
            }
            proof {
                lemma_texts_are_few(texts);
            }
        }
    }

    fn pause(&mut self, reason: PauseReason, activation_id: ActivationId, point: DebugPoint) -> (outcome:
        RunOutcome)
        requires
            old(self).sound(),
            old(self)@.vm.semantic_point() == Some((activation_id, point)),
        ensures
            final(self).sound(),
            outcome == RunOutcome::Paused(reason),
            final(self)@ == (SessionView {
                state: ExecutionState::Paused,
                step_plan: None,
                pause_location: Some(
                    location_at(activation_id, point, old(self)@.dynamic_event),
                ),
                snapshot: final(self)@.snapshot,
                ..old(self)@
            }),
            final(self)@.pictures(old(self)@.vm, SnapshotReason::Paused(reason), point.span),
            final(self).has_room() == old(self).has_room(),
    {
        self.take_snapshot(SnapshotReason::Paused(reason), point.span);
        self.state = ExecutionState::Paused;
        self.step_plan = None;
        self.pause_location = Some(
            PauseLocation {
                source_id: point.span.source_id,
                revision: point.span.revision,
                span: point.span,
                debug_point_id: point.id,
                activation_id,
                dynamic_event: self.dynamic_event,
            },
        );
        RunOutcome::Paused(reason)
    }

    fn finish_fault(&mut self, fault: Fault) -> (outcome: RunOutcome)
        requires
            old(self).sound(),
        ensures
            final(self).wf(),
            final(self)@.state is Faulted,
            old(self)@.ends_by(old(self)@.vm, fault, final(self)@),
            outcome matches RunOutcome::Faulted(diagnostic) && diagnostic@
                == old(self)@.vm.fault_report(fault, old(self)@.document.end_span()) && record_of(
                final(self)@.host,
            ) == record_of(old(self)@.host).with(Seq::empty(), seq![diagnostic@]),
            final(self)@.cancels == old(self)@.cancels,
            final(self)@.requests == old(self)@.requests,
            final(self).has_room() == old(self).has_room(),
    {
        let ghost given = record_of(self.host);
        let diagnostic = self.vm.diagnostic_for_fault(fault, self.document.eof_span());
        self.take_snapshot(SnapshotReason::Faulted, diagnostic.span);
        self.host.diagnostic(diagnostic.duplicate());
        self.vm.cleanup_execution();
        self.pause_location = None;
        self.step_plan = None;
        self.state = ExecutionState::Faulted;
        proof {
            assert(given.printed + Seq::<Seq<char>>::empty() =~= given.printed);
            assert(given.reported + seq![diagnostic@] =~= given.reported.push(diagnostic@));
        }
        RunOutcome::Faulted(diagnostic)
    }

    fn finish_cancelled(&mut self) -> (outcome: RunOutcome)
        requires
            old(self).sound(),
        ensures
            final(self).wf(),
            final(self)@.state is Cancelled,
            outcome == RunOutcome::Cancelled,
            old(self)@.dropped_at(old(self)@.vm, final(self)@),
            final(self)@.host == old(self)@.host,
            final(self)@.cancels == old(self)@.cancels,
            final(self)@.requests == old(self)@.requests,
            final(self).has_room() == old(self).has_room(),
    {
        let span = match self.vm.current_span() {
            Some(span) => span,
            None => self.document.eof_span(),
        };
        self.take_snapshot(SnapshotReason::Cancelled, span);
        self.vm.cleanup_execution();
        self.pause_location = None;
        self.step_plan = None;
        self.state = ExecutionState::Cancelled;
        RunOutcome::Cancelled
    }

    /// Whether the program has come to a point, and was not at it when it
    /// came to a point last.
    fn arrives(&self) -> (yes: bool)
        requires
            self.sound(),
        ensures
            yes == self@.arrives(0, self@.vm),
    {
        match self.vm.current_semantic_point() {
            Some((activation_id, point)) => self.last_arrival != Some(
                Arrival {
                    activation_id,
                    point: point.id,
                    offset: point.offset,
                    epoch: self.opcode_epoch,
                },
            ),
            None => false,
        }
    }

    /// Whether the step that was asked for is over in a call.
    fn has_stepped(&self, activation_id: ActivationId) -> (yes: bool)
        ensures
            yes == self@.steps_to(0, self@.vm, activation_id),
    {
        match &self.step_plan {
            Some(plan) => plan.is_complete(
                self.opcode_epoch,
                &self.vm.activation_chain(),
                activation_id,
            ),
            None => false,
        }
    }

    /// What the session does before an instruction. It ends if it is
    /// cancelled, and it may pause where it has come to a new point. The
    /// first stop is made once, and any pause before it takes its place.
    fn turn(&mut self, cancelled: bool, requested: bool) -> (outcome: Option<RunOutcome>)
        requires
            old(self).sound(),
            old(self)@.state is Running,
        ensures
            final(self).sound(),
            outcome matches Some(outcome) ==> final(self).wf() && agrees(
                outcome,
                final(self)@.state,
            ),
            outcome == Some(RunOutcome::Cancelled) <==> cancelled,
            old(self)@.turns(cancelled, requested, outcome, final(self)@),
            final(self).has_room() == old(self).has_room(),
    {
        if cancelled {
            return Some(self.finish_cancelled());
        }
        if !self.arrives() {
            return None;
        }
        let (activation_id, point) = match self.vm.current_semantic_point() {
            Some(at) => at,
            None => return None,
        };
        proof {
            lemma_parked(self@.vm);
        }
        self.last_arrival = Some(
            Arrival {
                activation_id,
                point: point.id,
                offset: point.offset,
                epoch: self.opcode_epoch,
            },
        );
        match self.dynamic_event.checked_add(1) {
            Some(event) => {
                self.dynamic_event = event;
            },
            None => {
                return Some(self.finish_fault(Fault::Message("Debug event counter exhausted.")));
            },
        }
        let first = self.initial_debug_pause;
        let stepped = self.has_stepped(activation_id);
        self.initial_debug_pause = false;
        match next_turn(cancelled, true, requested, first, stepped) {
            Turn::Pause(reason) => Some(self.pause(reason, activation_id, point)),
            _ => None,
        }
    }

    /// Carries out an instruction, unless the session is cancelled. The second
    /// result is what came from outside for it.
    fn work(&mut self, cancelled: bool) -> (r: (Option<RunOutcome>, Ghost<Input>))
        requires
            old(self).sound(),
            old(self)@.state is Running,
        ensures
            final(self).sound(),
            r.0 matches Some(outcome) ==> final(self).wf() && agrees(outcome, final(self)@.state),
            r.0 == Some(RunOutcome::Cancelled) <==> cancelled,
            old(self)@.works(cancelled, r.1@, r.0, final(self)@, final(self).has_room()),
    {
        if cancelled {
            let outcome = self.finish_cancelled();
            return (Some(outcome), Ghost(arbitrary()));
        }
        let ghost s = self@.vm;
        let ghost given = record_of(self.host);
        let ghost mut lines: Seq<Seq<char>> = Seq::empty();
        let (r, input) = advance(&mut self.vm, &self.arithmetic);
        proof {
            lemma_complete(s, input@);
            given.lemma_with_nothing();
        }
        match r {
            Ok(Step::Complete) => {
                self.state = ExecutionState::Completed;
                self.pause_location = None;
                self.step_plan = None;
                self.snapshot = None;
                return (Some(RunOutcome::Completed), input);
            },
            Ok(Step::Output(text)) => {
                proof {
                    lines = seq![text@];
                    assert(given.printed + lines =~= given.printed.push(text@));
                    assert(given.reported + Seq::<Report>::empty() =~= given.reported);
                }
                self.host.output(text);
            },
            Ok(Step::Continue) => {},
            Err(fault) => {
                let ghost t = self@.vm;
                let outcome = self.finish_fault(fault);
                assert(old(self)@.ends_by(t, fault, self@));
                return (Some(outcome), input);
            },
        }
        assert(record_of(self.host) == given.with(lines, Seq::empty()));
        match self.opcode_epoch.checked_add(1) {
            Some(epoch) => {
                self.opcode_epoch = epoch;
                (None, input)
            },
            None => {
                let ghost t = self@.vm;
                let fault = Fault::Message("Instruction counter exhausted.");
                let outcome = self.finish_fault(fault);
                proof {
                    let reports = seq![outcome->Faulted_0@];
                    given.lemma_with_twice(lines, Seq::empty(), Seq::empty(), reports);
                    assert(lines + Seq::empty() =~= lines);
                    assert(Seq::<Report>::empty() + reports =~= reports);
                    assert(old(self)@.ends_by(t, fault, self@));
                }
                (Some(outcome), input)
            },
        }
    }

    /// Runs until the program pauses or ends.
    fn drive(&mut self) -> (outcome: RunOutcome)
        requires
            old(self).sound(),
            old(self)@.state is Running,
        ensures
            final(self).wf(),
            agrees(outcome, final(self)@.state),
            !(outcome is Rejected),
            old(self)@.runs(outcome, final(self)@, final(self).has_room()),
    {
        let ghost b = self@;
        let ghost mut inputs: Seq<Input> = Seq::empty();
        proof {
            record_of(b.host).lemma_with_nothing();
        }
        loop
            invariant
                self.sound(),
                b == old(self)@,
                self@.state is Running,
                reaches(b.vm, inputs, self@.vm),
                b.passes(inputs),
                b.tells(inputs, Seq::empty(), self@),
                b.goes_on(inputs, self@),
            decreases u64::MAX - self.opcode_epoch,
        {
            let ghost c = self@;
            let cancelled = self.watch.ask_cancelled();
            let mut requested = false;
            if !cancelled && self.arrives() && self.dynamic_event < u64::MAX {
                requested = self.watch.ask_request();
            }
            if let Some(outcome) = self.turn(cancelled, requested) {
                proof {
                    b.lemma_turn(inputs, c, cancelled, requested, outcome, self@, self.has_room());
                }
                return outcome;
            }
            let ghost d = self@;
            proof {
                b.lemma_no_turn(inputs, c, requested, d);
            }
            let stop = self.watch.ask_cancelled();
            let (worked, input) = self.work(stop);
            if let Some(outcome) = worked {
                proof {
                    b.lemma_last(inputs, d, stop, input@, outcome, self@, self.has_room());
                }
                return outcome;
            }
            proof {
                b.lemma_work(inputs, d, input@, self@, self.has_room());
                inputs = inputs.push(input@);
            }
        }
    }

    /// Starts a program that has not been started.
    fn start(&mut self, operation: SessionOperation, debugging: bool) -> (outcome: RunOutcome)
        requires
            old(self).wf(),
        ensures
            final(self).wf(),
            agrees(outcome, final(self)@.state),
            old(self)@.is_same(final(self)@),
            outcome is Rejected == !(old(self)@.state is Ready),
            outcome is Rejected ==> *final(self) == *old(self) && outcome == RunOutcome::Rejected(
                SessionError { operation, state: old(self)@.state },
            ),
            old(self)@.state is Ready ==> exists|numbers: Seq<u64>| #[trigger]
                launched(
                    old(self)@,
                    debugging,
                    numbers,
                    outcome,
                    final(self)@,
                    final(self).has_room(),
                ),
    {
        if self.state != ExecutionState::Ready {
            return self.rejected(operation);
        }
        self.state = ExecutionState::Running;
        let ghost before = self@;
        let ghost mut parsed: Seq<u64> = Seq::empty();
        match prepare(&mut self.vm, &self.document, &self.arithmetic) {
            (Ok(_), numbers) => {
                proof {
                    parsed = numbers@;
                }
            },
            (Err(StartError::Compile(diagnostics)), numbers) => {
                proof {
                    let s = compiled_state(self@.document, numbers@);
                    law_errors_are_noted(self@.document, numbers@, no_bounds());
                    assert(reports(diagnostics@).len() == s.notes.len());
                    assert(compile_reports(self@.document, numbers@)[0] == report_of(s.notes[0]));
                    assert(reports(diagnostics@)[0] == diagnostics@[0]@);
                }
                report_all(&mut self.host, &diagnostics);
                let diagnostic = diagnostics[0].duplicate();
                self.take_snapshot(SnapshotReason::Faulted, diagnostic.span);
                self.vm.cleanup_execution();
                self.state = ExecutionState::Faulted;
                let outcome = RunOutcome::Faulted(diagnostic);
                assert(launched(
                    old(self)@,
                    debugging,
                    numbers@,
                    outcome,
                    self@,
                    self.has_room(),
                ));
                return outcome;
            },
            (Err(StartError::Runtime(fault)), numbers) => {
                let ghost at = self@.vm;
                let outcome = self.finish_fault(fault);
                proof {
                    lemma_close_keeps(at, 0);
                    assert(old(self)@.ends_by(at, fault, self@));
                    assert(launched(
                        old(self)@,
                        debugging,
                        numbers@,
                        outcome,
                        self@,
                        self.has_room(),
                    ));
                }
                return outcome;
            },
        }
        self.initial_debug_pause = debugging;
        let ghost ready = self@.vm;
        assert(prepared(before.vm, before.document, parsed, ready));
        let ghost running = self@;
        let outcome = self.drive();
        proof {
            let start = SessionView { vm: ready, initial_debug_pause: debugging, ..old(self)@ };
            running.lemma_runs_alike(start, outcome, self@, self.has_room());
            assert(launched(
                old(self)@,
                debugging,
                parsed,
                outcome,
                self@,
                self.has_room(),
            ));
        }
        outcome
    }

    /// Starts the program and pauses it before its first statement.
    pub fn start_debugging(&mut self) -> (outcome: RunOutcome)
        requires
            old(self).wf(),
        ensures
            final(self).wf(),
            agrees(outcome, final(self)@.state),
            old(self)@.is_same(final(self)@),
            outcome is Rejected == !(old(self)@.state is Ready),
            outcome is Rejected ==> *final(self) == *old(self) && outcome == RunOutcome::Rejected(
                SessionError {
                    operation: SessionOperation::StartDebugging,
                    state: old(self)@.state,
                },
            ),
            old(self)@.state is Ready ==> exists|numbers: Seq<u64>| #[trigger]
                launched(
                    old(self)@,
                    true,
                    numbers,
                    outcome,
                    final(self)@,
                    final(self).has_room(),
                ),
    {
        self.start(SessionOperation::StartDebugging, true)
    }

    /// Starts the program and runs it.
    pub fn run_all(&mut self) -> (outcome: RunOutcome)
        requires
            old(self).wf(),
        ensures
            final(self).wf(),
            agrees(outcome, final(self)@.state),
            old(self)@.is_same(final(self)@),
            outcome is Rejected == !(old(self)@.state is Ready),
            outcome is Rejected ==> *final(self) == *old(self) && outcome == RunOutcome::Rejected(
                SessionError { operation: SessionOperation::RunAll, state: old(self)@.state },
            ),
            old(self)@.state is Ready ==> exists|numbers: Seq<u64>| #[trigger]
                launched(
                    old(self)@,
                    false,
                    numbers,
                    outcome,
                    final(self)@,
                    final(self).has_room(),
                ),
    {
        self.start(SessionOperation::RunAll, false)
    }

    /// Goes on with a paused program.
    pub fn resume(&mut self, mode: ResumeMode) -> (outcome: RunOutcome)
        requires
            old(self).wf(),
        ensures
            final(self).wf(),
            agrees(outcome, final(self)@.state),
            old(self)@.is_same(final(self)@),
            outcome is Rejected == !(old(self)@.state is Paused),
            outcome is Rejected ==> *final(self) == *old(self) && outcome == RunOutcome::Rejected(
                SessionError {
                    operation: SessionOperation::Resume(mode),
                    state: old(self)@.state,
                },
            ),
            old(self)@.state is Paused ==> resumed(
                old(self)@,
                mode,
                outcome,
                final(self)@,
                final(self).has_room(),
            ),
    {
        if self.state != ExecutionState::Paused {
            return self.rejected(SessionOperation::Resume(mode));
        }
        if let Some(location) = self.pause_location {
            self.step_plan = plan_step(
                mode,
                location.activation_id,
                self.vm.activation_chain(),
                self.opcode_epoch,
            );
        }
        self.pause_location = None;
        self.state = ExecutionState::Running;
        let ghost running = self@;
        let outcome = self.drive();
        proof {
            let plan = running.step_plan;
            let start = SessionView { step_plan: plan, ..old(self)@ };
            running.lemma_runs_alike(start, outcome, self@, self.has_room());
            assert(is_plan(
                plan,
                mode,
                old(self)@.pause_location->0.activation_id,
                old(self)@.vm.activations(),
                old(self)@.opcode_epoch,
            ));
        }
        outcome
    }
}

impl<H: RuntimeHost, A: Arithmetic> SessionView<H, A> {
    /// The session is under way, after these instructions.
    spec fn goes_on(self, inputs: Seq<Input>, after: SessionView<H, A>) -> bool {
        &&& after == (SessionView {
            vm: after.vm,
            host: after.host,
            cancels: after.cancels,
            requests: after.requests,
            dynamic_event: after.dynamic_event,
            opcode_epoch: after.opcode_epoch,
            last_arrival: after.last_arrival,
            ..self
        })
        &&& after.opcode_epoch == self.opcode_epoch + inputs.len()
        &&& after.dynamic_event == self.dynamic_event + self.events(inputs, inputs.len())
        &&& self.asked(
            noes(2 * inputs.len()),
            noes(self.events(inputs, inputs.len())),
            after,
        )
        &&& inputs.len() == 0 ==> after.last_arrival == self.last_arrival
        &&& inputs.len() > 0 ==> (after.last_arrival matches Some(arrival) ==> arrival.epoch
            < after.opcode_epoch)
    }

    /// The session is under way, and there is nothing to pause for.
    spec fn goes_past(self, inputs: Seq<Input>, after: SessionView<H, A>) -> bool {
        &&& after == (SessionView {
            vm: after.vm,
            host: after.host,
            cancels: after.cancels,
            requests: after.requests,
            dynamic_event: after.dynamic_event,
            opcode_epoch: after.opcode_epoch,
            last_arrival: after.last_arrival,
            ..self
        })
        &&& after.opcode_epoch == self.opcode_epoch + inputs.len()
        &&& after.dynamic_event == self.dynamic_event + self.events(inputs, inputs.len() + 1)
        &&& self.asked(
            noes(2 * inputs.len() + 1),
            noes(self.events(inputs, inputs.len() + 1)),
            after,
        )
        &&& after.last_arrival matches Some(arrival) ==> arrival.epoch <= after.opcode_epoch
        &&& !self.due(inputs.len() as int, after.vm)
    }

    /// The same session, asked once more whether it is cancelled.
    spec fn with_cancel(self, cancelled: bool) -> SessionView<H, A> {
        SessionView { cancels: self.cancels.push(cancelled), ..self }
    }

    /// The same session, asked once more for a request for a pause.
    spec fn with_request(self, requested: bool) -> SessionView<H, A> {
        SessionView { requests: self.requests.push(requested), ..self }
    }

    /// What is asked before a turn.
    spec fn questioned(self, cancelled: bool, requested: bool) -> SessionView<H, A> {
        let s = self.with_cancel(cancelled);
        if !cancelled && self.arrives(0, self.vm) && self.dynamic_event < u64::MAX {
            s.with_request(requested)
        } else {
            s
        }
    }

    proof fn lemma_asked(
        self,
        c: SessionView<H, A>,
        cancels: nat,
        requests: nat,
        cancelled: bool,
        requested: bool,
    )
        requires
            self.asked(noes(cancels), noes(requests), c),
        ensures
            self.asked(noes(cancels).push(cancelled), noes(requests), c.with_cancel(cancelled)),
            self.asked(
                noes(cancels).push(cancelled),
                noes(requests).push(requested),
                c.with_cancel(cancelled).with_request(requested),
            ),
            noes(cancels).push(false) == noes(cancels + 1),
            noes(requests).push(false) == noes(requests + 1),
    {
        assert(self.cancels + noes(cancels).push(cancelled) =~= c.cancels.push(cancelled));
        assert(self.requests + noes(requests).push(requested) =~= c.requests.push(requested));
        assert(noes(cancels).push(false) =~= noes(cancels + 1));
        assert(noes(requests).push(false) =~= noes(requests + 1));
    }

    /// What comes behind some instructions does not change what was counted
    /// before them.
    proof fn lemma_events(self, inputs: Seq<Input>, more: Seq<Input>, n: nat)
        requires
            n <= inputs.len() + 1,
        ensures
            self.events(inputs + more, n) == self.events(inputs, n),
        decreases n,
    {
        if n > 0 {
            self.lemma_events(inputs, more, (n - 1) as nat);
            assert((inputs + more).take(n - 1) =~= inputs.take(n - 1));
        }
    }

    /// A turn that ends a run ends it as a run may end.
    proof fn lemma_turn(
        self,
        inputs: Seq<Input>,
        c: SessionView<H, A>,
        cancelled: bool,
        requested: bool,
        outcome: RunOutcome,
        after: SessionView<H, A>,
        has_room: bool,
    )
        requires
            reaches(self.vm, inputs, c.vm),
            self.passes(inputs),
            self.tells(inputs, Seq::empty(), c),
            self.goes_on(inputs, c),
            cancelled ==> self.found_cancelled(),
            !cancelled ==> self.found_clear(),
            !cancelled && c.arrives(0, c.vm) && c.dynamic_event < u64::MAX ==> self.found_request(
                requested,
            ),
            c.questioned(cancelled, requested).turns(cancelled, requested, Some(outcome), after),
        ensures
            self.runs(outcome, after, has_room),
    {
        let k = inputs.len() as int;
        assert(c.arrives(0, c.vm) == self.arrives(k, c.vm));
        assert(inputs.take(k) =~= inputs);
        assert(self.events(inputs, inputs.len() + 1) == self.events(inputs, inputs.len()) + (
        if self.arrives(k, c.vm) {
            1nat
        } else {
            0nat
        }));
        self.lemma_asked(c, 2 * inputs.len(), self.events(inputs, inputs.len()), cancelled, requested);
        let q = c.questioned(cancelled, requested);
        assert(q.arrives(0, q.vm) == c.arrives(0, c.vm));
        if cancelled {
            assert(self.is_cancelled_at(inputs, c.vm, after));
        } else if c.dynamic_event == u64::MAX {
            let fault = Fault::Message("Debug event counter exhausted.");
            let report = c.vm.fault_report(fault, self.document.end_span());
            let lines = played(self.vm, inputs).output;
            record_of(self.host).lemma_with_twice(
                lines,
                Seq::empty(),
                Seq::empty(),
                seq![report],
            );
            assert(lines + Seq::empty() =~= lines);
            assert(Seq::<Report>::empty() + seq![report] =~= seq![report]);
            assert(self.fails(inputs, c.vm, fault, after, has_room));
        } else {
            let activation = c.vm.call_at_point();
            assert(c.steps_to(0, c.vm, activation) == self.steps_to(k, c.vm, activation));
            assert(self.pauses(inputs, requested, outcome->Paused_0, after));
        }
    }

    /// A turn that ends nothing leaves nothing that is due.
    proof fn lemma_no_turn(
        self,
        inputs: Seq<Input>,
        c: SessionView<H, A>,
        requested: bool,
        after: SessionView<H, A>,
    )
        requires
            reaches(self.vm, inputs, c.vm),
            self.goes_on(inputs, c),
            c.last_arrival matches Some(arrival) ==> arrival.epoch <= c.opcode_epoch,
            c.questioned(false, requested).turns(false, requested, None, after),
        ensures
            self.goes_past(inputs, after),
            after.vm == c.vm,
            after.host == c.host,
            after.state == c.state,
    {
        let k = inputs.len() as int;
        assert(c.arrives(0, c.vm) == self.arrives(k, c.vm));
        assert(inputs.take(k) =~= inputs);
        assert(self.events(inputs, inputs.len() + 1) == self.events(inputs, inputs.len()) + (
        if self.arrives(k, c.vm) {
            1nat
        } else {
            0nat
        }));
        self.lemma_asked(c, 2 * inputs.len(), self.events(inputs, inputs.len()), false, requested);
        let q = c.questioned(false, requested);
        assert(q.arrives(0, q.vm) == c.arrives(0, c.vm));
        if c.arrives(0, c.vm) {
            let activation = c.vm.call_at_point();
            assert(c.steps_to(0, c.vm, activation) == self.steps_to(k, c.vm, activation));
        }
    }

    /// One more instruction, where the session does not pause.
    proof fn lemma_passes(self, inputs: Seq<Input>, s: VmState, input: Input)
        requires
            self.passes(inputs),
            reaches(self.vm, inputs, s),
            !self.due(inputs.len() as int, s),
            answers(self.arithmetic, s, input),
            self.found_clear(),
        ensures
            self.passes(inputs.push(input)),
    {
        lemma_answered(self.arithmetic, self.vm, inputs, s, input);
        let longer = inputs.push(input);
        assert forall|k: int, t: VmState|
            0 <= k < longer.len() && #[trigger] reaches(
                self.vm,
                longer.take(k),
                t,
            ) implies !self.due(k, t) by {
            assert(longer.take(k) =~= inputs.take(k));
            if k == inputs.len() {
                assert(inputs.take(k) =~= inputs);
            }
        }
    }

    /// What is printed by one more instruction.
    proof fn lemma_tells(
        self,
        inputs: Seq<Input>,
        d: SessionView<H, A>,
        input: Input,
        reports: Seq<Report>,
        after: SessionView<H, A>,
    )
        requires
            reaches(self.vm, inputs, d.vm),
            self.tells(inputs, Seq::empty(), d),
            record_of(after.host) == record_of(d.host).with(
                match d.vm.step(input.number, input.texts) {
                    Outcome::Printed(_, text) => seq![text],
                    _ => Seq::empty(),
                },
                reports,
            ),
        ensures
            self.tells(inputs.push(input), reports, after),
    {
        lemma_played(self.vm, inputs, d.vm, input);
        let lines = match d.vm.step(input.number, input.texts) {
            Outcome::Printed(_, text) => seq![text],
            _ => Seq::empty(),
        };
        let before = played(self.vm, inputs).output;
        record_of(self.host).lemma_with_twice(before, Seq::empty(), lines, reports);
        assert(before + lines =~= played(self.vm, inputs.push(input)).output);
        assert(Seq::<Report>::empty() + reports =~= reports);
    }

    /// An instruction that ends a run ends it as a run may end.
    proof fn lemma_last(
        self,
        inputs: Seq<Input>,
        d: SessionView<H, A>,
        cancelled: bool,
        input: Input,
        outcome: RunOutcome,
        after: SessionView<H, A>,
        has_room: bool,
    )
        requires
            reaches(self.vm, inputs, d.vm),
            self.passes(inputs),
            self.tells(inputs, Seq::empty(), d),
            self.goes_past(inputs, d),
            cancelled ==> self.found_cancelled(),
            !cancelled ==> self.found_clear(),
            d.with_cancel(cancelled).works(cancelled, input, Some(outcome), after, has_room),
        ensures
            self.runs(outcome, after, has_room),
    {
        let q = d.with_cancel(cancelled);
        self.lemma_asked(
            d,
            2 * inputs.len() + 1,
            self.events(inputs, inputs.len() + 1),
            cancelled,
            false,
        );
        self.lemma_events(inputs, seq![input], inputs.len() + 1);
        assert(inputs + seq![input] =~= inputs.push(input));
        if cancelled {
            assert(self.is_cancelled_at(inputs, d.vm, after));
        } else {
            let longer = inputs.push(input);
            assert(longer.drop_last() =~= inputs);
            lemma_played(self.vm, inputs, d.vm, input);
            self.lemma_passes(inputs, d.vm, input);
            record_of(d.host).lemma_with_nothing();
            match outcome {
                RunOutcome::Completed => {
                    self.lemma_tells(inputs, d, input, Seq::empty(), after);
                    assert(self.completes(longer, after));
                },
                RunOutcome::Faulted(diagnostic) => {
                    let end = self.document.end_span();
                    let o = d.vm.step(input.number, input.texts);
                    let reports = seq![diagnostic@];
                    let lines = match o {
                        Outcome::Printed(_, text) => seq![text],
                        _ => Seq::empty(),
                    };
                    let (s, fault) = choose|s: VmState, fault: Fault| #[trigger]
                        q.ends_by(s, fault, after) && diagnostic@ == s.fault_report(fault, end)
                            && {
                            ||| o == Outcome::Fails(fault) && s == d.vm && record_of(after.host)
                                == record_of(d.host).with(Seq::empty(), reports)
                            ||| fault == Fault::Message("Out of memory.") && s == d.vm && !has_room
                                && record_of(after.host) == record_of(d.host).with(Seq::empty(), reports)
                            ||| fault == Fault::Message("Instruction counter exhausted.")
                                && d.opcode_epoch == u64::MAX && (o == Outcome::Next(s) || (
                            o matches Outcome::Printed(t, _) && t == s)) && record_of(after.host)
                                == record_of(d.host).with(lines, reports)
                        };
                    if o == Outcome::Fails(fault) && s == d.vm {
                        self.lemma_tells(inputs, d, input, reports, after);
                        assert(self.fails(longer, s, fault, after, has_room));
                    } else if fault == Fault::Message("Instruction counter exhausted.") && (o
                        == Outcome::Next(s) || (o matches Outcome::Printed(t, _) && t == s)) {
                        self.lemma_tells(inputs, d, input, reports, after);
                        assert(self.fails(longer, s, fault, after, has_room));
                    } else {
                        let before = played(self.vm, inputs).output;
                        record_of(self.host).lemma_with_twice(
                            before,
                            Seq::empty(),
                            Seq::empty(),
                            reports,
                        );
                        assert(before + Seq::empty() =~= before);
                        assert(Seq::<Report>::empty() + reports =~= reports);
                        assert(starved(self.vm, inputs, s, fault, has_room));
                        assert(self.fails(inputs, s, fault, after, has_room));
                    }
                },
                _ => {},
            }
        }
    }

    /// An instruction behind which the session is under way.
    proof fn lemma_work(
        self,
        inputs: Seq<Input>,
        d: SessionView<H, A>,
        input: Input,
        after: SessionView<H, A>,
        has_room: bool,
    )
        requires
            reaches(self.vm, inputs, d.vm),
            self.passes(inputs),
            self.tells(inputs, Seq::empty(), d),
            self.goes_past(inputs, d),
            self.found_clear(),
            d.with_cancel(false).works(false, input, None, after, has_room),
        ensures
            reaches(self.vm, inputs.push(input), after.vm),
            self.passes(inputs.push(input)),
            self.tells(inputs.push(input), Seq::empty(), after),
            self.goes_on(inputs.push(input), after),
    {
        self.lemma_asked(
            d,
            2 * inputs.len() + 1,
            self.events(inputs, inputs.len() + 1),
            false,
            false,
        );
        lemma_played(self.vm, inputs, d.vm, input);
        self.lemma_passes(inputs, d.vm, input);
        self.lemma_tells(inputs, d, input, Seq::empty(), after);
        self.lemma_events(inputs, seq![input], inputs.len() + 1);
        assert(inputs + seq![input] =~= inputs.push(input));
    }

    proof fn lemma_events_alike(self, b: SessionView<H, A>, inputs: Seq<Input>, n: nat)
        requires
            self.vm == b.vm,
            self.last_arrival == b.last_arrival,
            self.opcode_epoch == b.opcode_epoch,
        ensures
            b.events(inputs, n) == self.events(inputs, n),
        decreases n,
    {
        if n > 0 {
            self.lemma_events_alike(b, inputs, (n - 1) as nat);
        }
    }

    /// What a session does depends on its machine, its document, its host,
    /// and its plans.
    proof fn lemma_runs_alike(
        self,
        b: SessionView<H, A>,
        outcome: RunOutcome,
        after: SessionView<H, A>,
        has_room: bool,
    )
        requires
            self.runs(outcome, after, has_room),
            b == (SessionView {
                state: b.state,
                pause_location: b.pause_location,
                snapshot: b.snapshot,
                ..self
            }),
        ensures
            b.runs(outcome, after, has_room),
    {
        assert forall|inputs: Seq<Input>, n: nat| #[trigger]
            b.events(inputs, n) == self.events(inputs, n) by {
            self.lemma_events_alike(b, inputs, n);
        }
        assert forall|inputs: Seq<Input>| self.passes(inputs) implies #[trigger] b.passes(inputs) by {
            assert forall|k: int, s: VmState|
                0 <= k < inputs.len() && #[trigger] reaches(
                    b.vm,
                    inputs.take(k),
                    s,
                ) implies !b.due(k, s) by {
                assert(!self.due(k, s));
            }
        }
        match outcome {
            RunOutcome::Paused(reason) => {
                let (inputs, requested) = choose|inputs: Seq<Input>, requested: bool| #[trigger]
                    self.pauses(inputs, requested, reason, after);
                assert(b.passes(inputs));
                assert(b.pauses(inputs, requested, reason, after));
            },
            RunOutcome::Completed => {
                let inputs = choose|inputs: Seq<Input>| #[trigger] self.completes(inputs, after);
                assert(b.passes(inputs));
                assert(b.completes(inputs, after));
            },
            RunOutcome::Faulted(diagnostic) => {
                let (inputs, s, fault) = choose|inputs: Seq<Input>, s: VmState, fault: Fault|
                 #[trigger]
                    self.fails(inputs, s, fault, after, has_room) && diagnostic@ == s.fault_report(
                        fault,
                        self.document.end_span(),
                    );
                assert(b.passes(inputs));
                assert(b.fails(inputs, s, fault, after, has_room));
            },
            RunOutcome::Cancelled => {
                let (inputs, s) = choose|inputs: Seq<Input>, s: VmState| #[trigger]
                    self.is_cancelled_at(inputs, s, after);
                assert(b.passes(inputs));
                assert(b.is_cancelled_at(inputs, s, after));
            },
            RunOutcome::Rejected(_) => {},
        }
    }
}

/// The plan of a step from a call, while `chain` are the calls under way.
pub fn plan_step(mode: ResumeMode, start: ActivationId, chain: Vec<ActivationId>, epoch: u64) -> (plan:
    Option<StepPlan>)
    requires
        chain@.contains(start),
    ensures
        is_plan(plan, mode, start, chain@, epoch),
{
    let mut chain = chain;
    let mut i: usize = 0;
    proof {
        chain@.index_of_first_ensures(start);
    }
    let ghost first = chain@.index_of_first(start)->0;
    while i < chain.len() && chain[i] != start
        invariant
            i <= first < chain@.len(),
            chain@[first] == start,
            forall|j: int| 0 <= j < first ==> chain@[j] != start,
        decreases chain@.len() - i,
    {
        i += 1;
    }
    chain.truncate(i);
    match mode {
        ResumeMode::Continue => None,
        _ => Some(
            StepPlan {
                mode,
                start_activation: start,
                ancestors: chain,
                minimum_epoch: epoch.saturating_add(1),
            },
        ),
    }
}

} // verus!
