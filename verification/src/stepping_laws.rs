//! Where the steps of a debugger end, in terms of the calls under way.
use vstd::prelude::*;
use crate::debug_info::DebugPoint;
use crate::diagnostic::Report;
use crate::interpreter::{prepared, reaches};
use crate::interpreter_session::{is_plan, launched, resumed, SessionView};
use crate::machine::{played, Fault, Input, Outcome, VmState};
use crate::runtime_host::{record_of, Arithmetic, RuntimeHost};
use crate::session::{
    is_point_at, step_done, turn_of, ActivationId, PauseLocation, PauseReason, ResumeMode,
    RunOutcome, StepPlan, Turn,
};

verus! {

/// No step is over before the instruction that it starts at is carried out.
pub proof fn law_no_step_is_over_early(
    plan: StepPlan,
    epoch: u64,
    chain: Seq<ActivationId>,
    current: ActivationId,
)
    requires
        epoch < plan.minimum_epoch,
    ensures
        !step_done(plan, epoch, chain, current),
{
}

/// A step into is over at the next point, in whatever call that is.
pub proof fn law_a_step_into_is_over_anywhere(
    plan: StepPlan,
    epoch: u64,
    chain: Seq<ActivationId>,
    current: ActivationId,
)
    requires
        plan.mode is StepInto,
        plan.minimum_epoch <= epoch,
    ensures
        step_done(plan, epoch, chain, current),
{
}

/// While the call that a step over started in is under way, the step is over
/// in that call and in no other.
pub proof fn law_a_step_over_is_over_in_its_call(
    plan: StepPlan,
    epoch: u64,
    chain: Seq<ActivationId>,
    current: ActivationId,
)
    requires
        plan.mode is StepOver,
        plan.minimum_epoch <= epoch,
        chain.contains(plan.start_activation),
    ensures
        step_done(plan, epoch, chain, current) <==> current == plan.start_activation,
{
}

/// Once the call that a step over or a step out started in has ended, the step
/// is over in every call that it was made under, and in no other.
pub proof fn law_a_step_is_over_under_its_call(
    plan: StepPlan,
    epoch: u64,
    chain: Seq<ActivationId>,
    current: ActivationId,
)
    requires
        plan.mode is StepOver || plan.mode is StepOut,
        plan.minimum_epoch <= epoch,
        !chain.contains(plan.start_activation),
    ensures
        step_done(plan, epoch, chain, current) <==> plan.ancestors@.contains(current),
{
}

/// A step out is never over while its call is under way, and a continued
/// program is not on a step.
pub proof fn law_a_step_out_leaves_its_call(
    plan: StepPlan,
    epoch: u64,
    chain: Seq<ActivationId>,
    current: ActivationId,
)
    ensures
        plan.mode is StepOut && chain.contains(plan.start_activation) ==> !step_done(
            plan,
            epoch,
            chain,
            current,
        ),
        plan.mode is Continue ==> !step_done(plan, epoch, chain, current),
{
}

/// `call` is one of the calls in `chain` that the call `start` was made under.
pub open spec fn is_under(chain: Seq<ActivationId>, start: ActivationId, call: ActivationId) -> bool {
    exists|i: int|
        0 <= i < chain.len() && #[trigger] chain[i] == call && forall|j: int|
            0 <= j <= i ==> #[trigger] chain[j] != start
}

/// The plan of a step knows the calls that its own was made under, and is not
/// over where it starts. A continued program has none.
pub proof fn law_plans(
    plan: Option<StepPlan>,
    mode: ResumeMode,
    start: ActivationId,
    chain: Seq<ActivationId>,
    epoch: u64,
)
    requires
        chain.contains(start),
        is_plan(plan, mode, start, chain, epoch),
    ensures
        plan is None <==> mode is Continue,
        plan matches Some(plan) ==> {
            &&& plan.mode == mode
            &&& plan.start_activation == start
            &&& forall|call: ActivationId| #[trigger]
                plan.ancestors@.contains(call) <==> is_under(chain, start, call)
            &&& epoch < u64::MAX ==> plan.minimum_epoch == epoch + 1
        },
{
    chain.index_of_first_ensures(start);
    let first = chain.index_of_first(start)->0;
    if let Some(plan) = plan {
        assert forall|call: ActivationId| #[trigger] plan.ancestors@.contains(call) <==> is_under(
            chain,
            start,
            call,
        ) by {
            if plan.ancestors@.contains(call) {
                let i = plan.ancestors@.index_of(call);
                assert(plan.ancestors@[i] == call);
                assert(chain[i] == call);
            }
            if is_under(chain, start, call) {
                let i = choose|i: int|
                    0 <= i < chain.len() && #[trigger] chain[i] == call && forall|j: int|
                        0 <= j <= i ==> #[trigger] chain[j] != start;
                assert(i < first);
                assert(plan.ancestors@[i] == call);
            }
        }
    }
}

/// A program that was resumed in the call `start`, while `chain` were the calls
/// under way, has come to a point at which the step ends.
pub open spec fn ends_step(
    mode: ResumeMode,
    start: ActivationId,
    chain: Seq<ActivationId>,
    s: VmState,
) -> bool {
    s.semantic_point() matches Some((call, _)) && match mode {
        ResumeMode::Continue => false,
        ResumeMode::StepInto => true,
        ResumeMode::StepOver => call == start || !s.activations().contains(start) && is_under(
            chain,
            start,
            call,
        ),
        ResumeMode::StepOut => !s.activations().contains(start) && is_under(chain, start, call),
    }
}

/// None of the states that the program has gone through since ended the step.
pub open spec fn goes_by<H, A>(
    before: SessionView<H, A>,
    mode: ResumeMode,
    inputs: Seq<Input>,
) -> bool {
    let start = before.pause_location->0.activation_id;
    forall|k: int, s: VmState|
        0 < k < inputs.len() && before.opcode_epoch + k <= u64::MAX && #[trigger] reaches(
            before.vm,
            inputs.take(k),
            s,
        ) ==> !ends_step(mode, start, before.vm.activations(), s)
}

proof fn lemma_due<H: RuntimeHost, A: Arithmetic>(
    before: SessionView<H, A>,
    mode: ResumeMode,
    plan: Option<StepPlan>,
    k: int,
    s: VmState,
)
    requires
        before.settled(),
        before.state is Paused,
        is_plan(
            plan,
            mode,
            before.pause_location->0.activation_id,
            before.vm.activations(),
            before.opcode_epoch,
        ),
        k > 0,
        before.opcode_epoch + k <= u64::MAX,
        s.semantic_point() is Some,
    ensures
        (SessionView { step_plan: plan, ..before }).steps_to(k, s, s.call_at_point())
            <==> ends_step(
            mode,
            before.pause_location->0.activation_id,
            before.vm.activations(),
            s,
        ),
{
    let start = before.pause_location->0.activation_id;
    let chain = before.vm.activations();
    let call = s.call_at_point();
    law_plans(plan, mode, start, chain, before.opcode_epoch);
    crate::interpreter_session::lemma_parked(s);
    if let Some(plan) = plan {
        let epoch = (before.opcode_epoch + k) as u64;
        let now = s.activations();
        assert(plan.ancestors@.contains(call) <==> is_under(chain, start, call));
        if now.contains(start) {
            if mode is StepOver {
                law_a_step_over_is_over_in_its_call(plan, epoch, now, call);
            }
        } else if mode is StepOver || mode is StepOut {
            law_a_step_is_over_under_its_call(plan, epoch, now, call);
        }
    }
}

/// A paused program that is resumed pauses at the first point that ends the
/// step, unless it is asked to pause before: it has gone by no such point, and
/// a pause at one that ends nothing was asked for.
pub proof fn law_steps_end_where_they_should<H: RuntimeHost, A: Arithmetic>(
    before: SessionView<H, A>,
    mode: ResumeMode,
    reason: PauseReason,
    after: SessionView<H, A>,
    has_room: bool,
)
    requires
        before.settled(),
        before.state is Paused,
        resumed(before, mode, RunOutcome::Paused(reason), after, has_room),
    ensures
        ({
            let start = before.pause_location->0.activation_id;
            &&& exists|inputs: Seq<Input>|
                inputs.len() > 0 && #[trigger] reaches(before.vm, inputs, after.vm) && goes_by(
                    before,
                    mode,
                    inputs,
                )
            &&& reason is Step || reason is Explicit
            &&& reason is Step ==> ends_step(mode, start, before.vm.activations(), after.vm)
        }),
{
    let chain = before.vm.activations();
    let start = before.pause_location->0.activation_id;
    let plan = choose|plan: Option<StepPlan>| #[trigger]
        is_plan(plan, mode, start, chain, before.opcode_epoch) && (SessionView {
            step_plan: plan,
            ..before
        }).runs(RunOutcome::Paused(reason), after, has_room);
    let from = SessionView { step_plan: plan, ..before };
    let (inputs, requested) = choose|inputs: Seq<Input>, requested: bool| #[trigger]
        from.pauses(inputs, requested, reason, after);
    if inputs.len() == 0 {
        assert(after.vm == before.vm);
    }
    assert(inputs.len() > 0);
    lemma_due(before, mode, plan, inputs.len() as int, after.vm);
    assert forall|k: int, s: VmState|
        0 < k < inputs.len() && before.opcode_epoch + k <= u64::MAX && #[trigger] reaches(
            before.vm,
            inputs.take(k),
            s,
        ) implies !ends_step(mode, start, chain, s) by {
        assert(!from.due(k, s));
        if s.semantic_point() is Some {
            lemma_due(before, mode, plan, k, s);
        }
    }
    assert(reaches(before.vm, inputs, after.vm) && goes_by(before, mode, inputs));
}

/// A resumed program that comes to its end has gone by no point that ends the
/// step.
pub proof fn law_no_step_is_passed_on_the_way_to_the_end<H: RuntimeHost, A: Arithmetic>(
    before: SessionView<H, A>,
    mode: ResumeMode,
    after: SessionView<H, A>,
    has_room: bool,
)
    requires
        before.settled(),
        before.state is Paused,
        resumed(before, mode, RunOutcome::Completed, after, has_room),
    ensures
        exists|inputs: Seq<Input>| #[trigger]
            played(before.vm, inputs).outcome == Outcome::Complete(after.vm) && goes_by(
                before,
                mode,
                inputs,
            ),
{
    let chain = before.vm.activations();
    let start = before.pause_location->0.activation_id;
    let plan = choose|plan: Option<StepPlan>| #[trigger]
        is_plan(plan, mode, start, chain, before.opcode_epoch) && (SessionView {
            step_plan: plan,
            ..before
        }).runs(RunOutcome::Completed, after, has_room);
    let from = SessionView { step_plan: plan, ..before };
    let inputs = choose|inputs: Seq<Input>| #[trigger] from.completes(inputs, after);
    assert forall|k: int, s: VmState|
        0 < k < inputs.len() && before.opcode_epoch + k <= u64::MAX && #[trigger] reaches(
            before.vm,
            inputs.take(k),
            s,
        ) implies !ends_step(mode, start, chain, s) by {
        assert(!from.due(k, s));
        if s.semantic_point() is Some {
            lemma_due(before, mode, plan, k, s);
        }
    }
    assert(played(before.vm, inputs).outcome == Outcome::Complete(after.vm) && goes_by(
        before,
        mode,
        inputs,
    ));
}

/// A program that is started under the debugger pauses at the first point that
/// it comes to.
pub proof fn law_debugging_starts_at_the_first_point<H: RuntimeHost, A: Arithmetic>(
    before: SessionView<H, A>,
    numbers: Seq<u64>,
    reason: PauseReason,
    after: SessionView<H, A>,
    has_room: bool,
)
    requires
        before.settled(),
        before.state is Ready,
        launched(before, true, numbers, RunOutcome::Paused(reason), after, has_room),
    ensures
        reason is DebugPoint || reason is Explicit,
        exists|start: VmState, inputs: Seq<Input>|
            #![trigger reaches(start, inputs, after.vm)]
            prepared(before.vm, before.document, numbers, start) && reaches(
                start,
                inputs,
                after.vm,
            ) && forall|k: int, s: VmState|
                0 <= k < inputs.len() && #[trigger] reaches(start, inputs.take(k), s)
                    ==> s.semantic_point() is None,
{
    let start = choose|start: VmState| #[trigger]
        prepared(before.vm, before.document, numbers, start) && (SessionView {
            vm: start,
            initial_debug_pause: true,
            ..before
        }).runs(RunOutcome::Paused(reason), after, has_room);
    let from = SessionView { vm: start, initial_debug_pause: true, ..before };
    let (inputs, requested) = choose|inputs: Seq<Input>, requested: bool| #[trigger]
        from.pauses(inputs, requested, reason, after);
    assert forall|k: int, s: VmState|
        0 <= k < inputs.len() && #[trigger] reaches(start, inputs.take(k), s) implies s.semantic_point()
        is None by {
        assert(reaches(from.vm, inputs.take(k), s));
        assert(!from.due(k, s));
    }
    assert(reaches(start, inputs, after.vm));
}

/// A program that is run without the debugger pauses only where it is asked to.
pub proof fn law_running_pauses_on_request<H: RuntimeHost, A: Arithmetic>(
    before: SessionView<H, A>,
    numbers: Seq<u64>,
    reason: PauseReason,
    after: SessionView<H, A>,
    has_room: bool,
)
    requires
        before.settled(),
        before.state is Ready,
        launched(before, false, numbers, RunOutcome::Paused(reason), after, has_room),
    ensures
        reason is Explicit,
        after.requests.len() > 0 && after.requests.last(),
{
    let start = choose|start: VmState| #[trigger]
        prepared(before.vm, before.document, numbers, start) && (SessionView {
            vm: start,
            initial_debug_pause: false,
            ..before
        }).runs(RunOutcome::Paused(reason), after, has_room);
    let from = SessionView { vm: start, initial_debug_pause: false, ..before };
    let (inputs, requested) = choose|inputs: Seq<Input>, requested: bool| #[trigger]
        from.pauses(inputs, requested, reason, after);
    assert(after.requests.last() == requested);
}

/// A place is that of a point, which stands at an offset.
pub open spec fn is_place_of(
    place: PauseLocation,
    points: Seq<DebugPoint>,
    offset: usize,
    i: int,
) -> bool {
    &&& 0 <= i < points.len()
    &&& points[i].offset == offset
    &&& place.debug_point_id == points[i].id
    &&& place.span == points[i].span
    &&& place.source_id == points[i].span.source_id
    &&& place.revision == points[i].span.revision
}

/// The pause of a resumed program is located at the point that its running
/// call has come to.
pub proof fn law_a_pause_is_where_the_program_is<H: RuntimeHost, A: Arithmetic>(
    before: SessionView<H, A>,
    mode: ResumeMode,
    reason: PauseReason,
    after: SessionView<H, A>,
    has_room: bool,
)
    requires
        before.settled(),
        before.state is Paused,
        resumed(before, mode, RunOutcome::Paused(reason), after, has_room),
    ensures
        after.vm.frames.len() > 0,
        after.vm.running() is Some,
        after.state is Paused,
        after.pause_location matches Some(place) && {
            &&& place.activation_id == after.vm.frames.last().activation_id
            &&& place.dynamic_event == after.dynamic_event
            &&& exists|i: int| #[trigger]
                is_place_of(place, after.vm.running()->0.debug_info.points@, after.vm.frames.last().ip, i)
        },
{
    let plan = choose|plan: Option<StepPlan>| #[trigger]
        is_plan(
            plan,
            mode,
            before.pause_location->0.activation_id,
            before.vm.activations(),
            before.opcode_epoch,
        ) && (SessionView { step_plan: plan, ..before }).runs(
            RunOutcome::Paused(reason),
            after,
            has_room,
        );
    let from = SessionView { step_plan: plan, ..before };
    let (inputs, requested) = choose|inputs: Seq<Input>, requested: bool| #[trigger]
        from.pauses(inputs, requested, reason, after);
    let s = after.vm;
    let (a, p) = choose|a: ActivationId, p: DebugPoint| #[trigger] s.is_at(a, p);
    s.lemma_point_is_one(a, p);
    let points = s.running()->0.debug_info.points@;
    let i = choose|i: int| #[trigger] is_point_at(points, s.frame().ip, i) && points[i] == p;
    assert(is_place_of(after.pause_location->0, points, s.frames.last().ip, i));
}

/// Where several points share a place, the entry of a function gives way.
pub proof fn law_entries_give_way(points: Seq<DebugPoint>, offset: usize, i: int, j: int)
    requires
        is_point_at(points, offset, i),
        0 <= j < points.len(),
        points[j].offset == offset,
    ensures
        points[i].offset == offset,
        points[i].kind is FunctionEntry ==> points[j].kind is FunctionEntry && i <= j,
        !(points[i].kind is FunctionEntry) && !(points[j].kind is FunctionEntry) ==> i <= j,
{
}

/// Before an instruction a session is cancelled if that was asked for, else it
/// pauses at a new place if that was asked for, at the first such place, or
/// where a step is over.
pub proof fn law_turns(cancelled: bool, arrived: bool, requested: bool, first: bool, stepped: bool)
    ensures
        ({
            let turn = turn_of(cancelled, arrived, requested, first, stepped);
            &&& turn is Cancel <==> cancelled
            &&& turn is Pause <==> !cancelled && arrived && (requested || first || stepped)
            &&& turn matches Turn::Pause(reason) ==> {
                &&& reason is Explicit <==> requested
                &&& reason is DebugPoint <==> !requested && first
                &&& reason is Step <==> !requested && !first
            }
        }),
{
}

/// What a resumed program prints goes to the host, and a fault is reported there
/// once, as it is given back. Nothing else is reported.
pub proof fn law_outcomes_are_told_to_the_host<H: RuntimeHost, A: Arithmetic>(
    before: SessionView<H, A>,
    mode: ResumeMode,
    outcome: RunOutcome,
    after: SessionView<H, A>,
    has_room: bool,
)
    requires
        resumed(before, mode, outcome, after, has_room),
    ensures
        exists|output: Seq<Seq<char>>, reports: Seq<Report>|
            record_of(after.host) == #[trigger] record_of(before.host).with(output, reports) && (
            match outcome {
                RunOutcome::Faulted(diagnostic) => reports.len() == 1 && reports[0]
                    == diagnostic@,
                _ => reports.len() == 0,
            }),
        outcome is Cancelled ==> after.cancels.len() > before.cancels.len() && after.cancels.last(),
        outcome is Faulted || outcome is Cancelled ==> after.vm.frames.len() == 0
            && after.vm.stack.len() == 0,
{
    let plan = choose|plan: Option<StepPlan>| #[trigger]
        is_plan(
            plan,
            mode,
            before.pause_location->0.activation_id,
            before.vm.activations(),
            before.opcode_epoch,
        ) && (SessionView { step_plan: plan, ..before }).runs(outcome, after, has_room);
    let from = SessionView { step_plan: plan, ..before };
    match outcome {
        RunOutcome::Paused(reason) => {
            let (inputs, requested) = choose|inputs: Seq<Input>, requested: bool| #[trigger]
                from.pauses(inputs, requested, reason, after);
            assert(record_of(after.host) == record_of(before.host).with(
                played(from.vm, inputs).output,
                Seq::empty(),
            ));
        },
        RunOutcome::Completed => {
            let inputs = choose|inputs: Seq<Input>| #[trigger] from.completes(inputs, after);
            assert(record_of(after.host) == record_of(before.host).with(
                played(from.vm, inputs).output,
                Seq::empty(),
            ));
        },
        RunOutcome::Faulted(diagnostic) => {
            let (inputs, s, fault) = choose|inputs: Seq<Input>, s: VmState, fault: Fault|
             #[trigger]
                from.fails(inputs, s, fault, after, has_room) && diagnostic@ == s.fault_report(
                    fault,
                    from.document.end_span(),
                );
            assert(record_of(after.host) == record_of(before.host).with(
                played(from.vm, inputs).output,
                seq![diagnostic@],
            ));
        },
        RunOutcome::Cancelled => {
            let (inputs, s) = choose|inputs: Seq<Input>, s: VmState| #[trigger]
                from.is_cancelled_at(inputs, s, after);
            assert(record_of(after.host) == record_of(before.host).with(
                played(from.vm, inputs).output,
                Seq::empty(),
            ));
        },
        RunOutcome::Rejected(_) => {},
    }
}

} // verus!
