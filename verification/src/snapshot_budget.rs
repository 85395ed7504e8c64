//! What building a snapshot may still spend.
use vstd::prelude::*;
use crate::debug_info::{empty_span, BindingId};
use crate::session::{ActivationId, PauseReason};
use crate::snapshot::{BindingSnapshot, DebugValue, Estimate, FrameSnapshot, JsonSize};
use crate::snapshot::{SnapshotBuildError, SnapshotLimits, SnapshotReason, ValueKind, VmSnapshot};
use crate::snapshot::{escaped_len, grown, snapshot_estimate, with_binding_parts, with_frame_parts};
use crate::snapshot::{with_literal, with_span, with_string, with_tagged, with_unsigned, with_value};
use crate::source::{RevisionId, SourceId};
use crate::text::{byte_len, lemma_utf8_len_bounds, utf8_len};

verus! {

/// The sizes of empty records, each but the whole snapshot with its comma.
#[derive(Clone, Copy, Debug, PartialEq, Eq, Structural)]
pub struct SchemaEstimates {
    pub snapshot: usize,
    pub frame: usize,
    pub binding: usize,
    pub value: usize,
}

#[verifier::opaque]
pub open spec fn snapshot_schema() -> Estimate {
    snapshot_estimate(
        SnapshotReason::Paused(PauseReason::DebugPoint),
        Seq::empty(),
        Seq::empty(),
    )
}

#[verifier::opaque]
pub open spec fn frame_schema() -> Estimate {
    with_frame_parts(Ok(0), Seq::empty(), true, Seq::empty(), Seq::empty(), Seq::empty())
}

#[verifier::opaque]
pub open spec fn binding_schema() -> Estimate {
    with_binding_parts(
        Ok(0),
        true,
        Seq::empty(),
        Seq::empty(),
        ValueKind::Truncated,
        DebugValue::Nil,
    )
}

/// A value of each kind, with nothing in it.
#[verifier::opaque]
pub open spec fn value_schemas() -> Seq<Estimate> {
    let none = Seq::<char>::empty();
    let list = with_literal(Ok(0), "{\"kind\":\"list\",\"payload\":{\"object_id\":");
    let list = with_literal(with_unsigned(list), ", \"items\":");
    let list = with_literal(with_literal(list, "["), "]");
    let cycle = with_literal(Ok(0), "{\"kind\":\"cycle\",\"payload\":{\"object_id\":");
    seq![
        with_literal(Ok(0), "{\"kind\":\"nil\"}"),
        with_literal(Ok(0), "{\"kind\":\"bool\",\"payload\":false}"),
        with_tagged(Ok(0), "number", none),
        with_tagged(Ok(0), "string", none),
        with_tagged(Ok(0), "function", none),
        with_tagged(Ok(0), "closure", none),
        with_tagged(Ok(0), "native", none),
        with_literal(list, ", \"truncated\":false}}"),
        with_literal(with_unsigned(cycle), "}}"),
        with_literal(Ok(0), "{\"kind\":\"truncated\"}"),
    ]
}

/// The greatest of some sizes.
pub open spec fn is_greatest(size: nat, sizes: Seq<Estimate>) -> bool {
    &&& exists|i: int| 0 <= i < sizes.len() && #[trigger] sizes[i] == Estimate::Ok(size)
    &&& forall|i: int|
        0 <= i < sizes.len() ==> ((#[trigger] sizes[i]) matches Ok(other) && other <= size)
}

impl SchemaEstimates {
    pub open spec fn wf(self) -> bool {
        &&& snapshot_schema() == Estimate::Ok(self.snapshot as nat)
        &&& frame_schema() == Estimate::Ok((self.frame - 1) as nat)
        &&& binding_schema() == Estimate::Ok((self.binding - 1) as nat)
        &&& is_greatest((self.value - 1) as nat, value_schemas())
        &&& 0 < self.frame && 0 < self.binding && 0 < self.value
    }
}

/// The sizes of the empty records.
pub open spec fn schema() -> SchemaEstimates {
    choose|sizes: SchemaEstimates| sizes.wf()
}

pub proof fn lemma_schema(sizes: SchemaEstimates)
    requires
        sizes.wf(),
    ensures
        sizes == schema(),
{
    let other = schema();
    let shapes = value_schemas();
    let i = choose|i: int| 0 <= i < shapes.len() && #[trigger] shapes[i] == Estimate::Ok((sizes.value - 1) as nat);
    let j = choose|i: int| 0 <= i < shapes.len() && #[trigger] shapes[i] == Estimate::Ok((other.value - 1) as nat);
    assert(shapes[i] matches Ok(n) && n <= other.value - 1);
    assert(shapes[j] matches Ok(n) && n <= sizes.value - 1);
}

/// A size within a bound.
#[verifier::opaque]
spec fn fits(e: Estimate, bound: int) -> bool {
    bound <= 60_000 && (e matches Ok(size) && size <= bound)
}

broadcast proof fn fits_literal(e: Estimate, text: &str, bound: int)
    requires
        fits(e, bound - 400),
        utf8_len(text@) <= 400,
        bound <= 60_000,
    ensures
        #[trigger] fits(with_literal(e, text), bound),
{
    reveal(fits);
    reveal(grown);
}

broadcast proof fn fits_unsigned(e: Estimate, bound: int)
    requires
        fits(e, bound - 20),
        bound <= 60_000,
    ensures
        #[trigger] fits(with_unsigned(e), bound),
{
    reveal(fits);
    reveal(grown);
}

broadcast proof fn fits_string(e: Estimate, text: Seq<char>, bound: int)
    requires
        fits(e, bound - 202),
        escaped_len(text) <= 200,
        bound <= 60_000,
    ensures
        #[trigger] fits(with_string(e, text), bound),
{
    reveal(fits);
    reveal(grown);
}

broadcast proof fn fits_span(e: Estimate, bound: int)
    requires
        fits(e, bound - 4_000),
        bound <= 60_000,
    ensures
        #[trigger] fits(with_span(e), bound),
{
    broadcast use {fits_literal, fits_unsigned};

    lemma_fixed_texts();
    assert(fits(e, bound - 4_000 + 240)) by {
        reveal(fits);
    }
}

broadcast group group_fits {
    fits_literal,
    fits_unsigned,
    fits_string,
    fits_span,
}

/// No empty record is long.
proof fn lemma_schemas_fit()
    ensures
        fits(snapshot_schema(), 40_000),
        fits(frame_schema(), 40_000),
        fits(binding_schema(), 40_000),
{
    broadcast use group_fits;

    lemma_fixed_texts();
    assert forall|b: int| 0 <= b <= 60_000 implies #[trigger] fits(Ok(0), b) by {
        reveal(fits);
    }
    assert(escaped_len(Seq::<char>::empty()) == 0);
    assert(escaped_len("debug_point"@) <= 200) by {
        reveal_strlit("debug_point");
        lemma_escaped_bound("debug_point"@);
    }
    assert(escaped_len("truncated"@) <= 200) by {
        reveal_strlit("truncated");
        lemma_escaped_bound("truncated"@);
    }
    assert(fits(snapshot_schema(), 40_000)) by {
        reveal(snapshot_schema);
    }
    assert(fits(frame_schema(), 40_000)) by {
        reveal(frame_schema);
    }
    assert(fits(binding_schema(), 40_000)) by {
        reveal(binding_schema);
    }
}

proof fn lemma_value_schemas_fit()
    ensures
        value_schemas().len() == 10,
        forall|i: int| 0 <= i < 10 ==> fits(#[trigger] value_schemas()[i], 40_000),
{
    broadcast use group_fits;

    reveal(value_schemas);
    lemma_fixed_texts();
    assert forall|b: int| 0 <= b <= 60_000 implies #[trigger] fits(Ok(0), b) by {
        reveal(fits);
    }
    assert(escaped_len(Seq::<char>::empty()) == 0);
}

/// Every empty record has a size, and no great one.
pub proof fn lemma_schemas_are_short()
    ensures
        snapshot_schema() matches Ok(size) && size <= 40_000,
        frame_schema() matches Ok(size) && size <= 40_000,
        binding_schema() matches Ok(size) && size <= 40_000,
        value_schemas().len() == 10,
        forall|i: int|
            0 <= i < 10 ==> ((#[trigger] value_schemas()[i]) matches Ok(size) && size <= 40_000),
{
    lemma_schemas_fit();
    lemma_value_schemas_fit();
    reveal(fits);
}

proof fn lemma_escaped_bound(s: Seq<char>)
    ensures
        escaped_len(s) <= 12 * s.len(),
    decreases s.len(),
{
    if s.len() > 0 {
        lemma_escaped_bound(s.drop_last());
    }
}

proof fn lemma_short(text: &str)
    requires
        text@.len() <= 100,
    ensures
        utf8_len(text@) <= 400,
{
    lemma_utf8_len_bounds(text@);
}

/// The fixed texts of the JSON form are short.
proof fn lemma_fixed_texts()
    ensures
        utf8_len(", \"call_site\":"@) <= 400,
        utf8_len(", \"column\":"@) <= 400,
        utf8_len(", \"current_span\":"@) <= 400,
        utf8_len(", \"frames\":"@) <= 400,
        utf8_len(", \"frames_truncated\":false,"@) <= 400,
        utf8_len(", \"function\":"@) <= 400,
        utf8_len(", \"function_truncated\":false,\"current_span\":"@) <= 400,
        utf8_len(", \"globals_truncated\":false}"@) <= 400,
        utf8_len(", \"items\":"@) <= 400,
        utf8_len(", \"line\":"@) <= 400,
        utf8_len(", \"locals_truncated\":false,\"upvalues\":"@) <= 400,
        utf8_len(", \"name\":"@) <= 400,
        utf8_len(", \"name_truncated\":false,\"binding_kind\":"@) <= 400,
        utf8_len(", \"parameters\":"@) <= 400,
        utf8_len(", \"parameters_truncated\":false,\"locals\":"@) <= 400,
        utf8_len(", \"revision\":"@) <= 400,
        utf8_len(", \"start\":{\"byte_offset\":"@) <= 400,
        utf8_len(", \"truncated\":false}}"@) <= 400,
        utf8_len(", \"upvalues_truncated\":false}"@) <= 400,
        utf8_len(", \"value\":"@) <= 400,
        utf8_len(", \"value_kind\":"@) <= 400,
        utf8_len(","@) <= 400,
        utf8_len("["@) <= 400,
        utf8_len("\",\"payload\":"@) <= 400,
        utf8_len("\"globals\":"@) <= 400,
        utf8_len("]"@) <= 400,
        utf8_len("closure"@) <= 400,
        utf8_len("function"@) <= 400,
        utf8_len("native"@) <= 400,
        utf8_len("null"@) <= 400,
        utf8_len("number"@) <= 400,
        utf8_len("string"@) <= 400,
        utf8_len("{\"activation_id\":"@) <= 400,
        utf8_len("{\"binding_id\":"@) <= 400,
        utf8_len("{\"kind\":\""@) <= 400,
        utf8_len("{\"kind\":\"bool\",\"payload\":false}"@) <= 400,
        utf8_len("{\"kind\":\"cancelled\"}"@) <= 400,
        utf8_len("{\"kind\":\"cycle\",\"payload\":{\"object_id\":"@) <= 400,
        utf8_len("{\"kind\":\"faulted\"}"@) <= 400,
        utf8_len("{\"kind\":\"list\",\"payload\":{\"object_id\":"@) <= 400,
        utf8_len("{\"kind\":\"nil\"}"@) <= 400,
        utf8_len("{\"kind\":\"paused\",\"payload\":"@) <= 400,
        utf8_len("{\"kind\":\"truncated\"}"@) <= 400,
        utf8_len("{\"reason\":"@) <= 400,
        utf8_len("{\"source_id\":"@) <= 400,
        utf8_len("}"@) <= 400,
        utf8_len("},\"end\":{\"byte_offset\":"@) <= 400,
        utf8_len("}}"@) <= 400,
{
    reveal_strlit(", \"call_site\":");
    lemma_short(", \"call_site\":");
    reveal_strlit(", \"column\":");
    lemma_short(", \"column\":");
    reveal_strlit(", \"current_span\":");
    lemma_short(", \"current_span\":");
    reveal_strlit(", \"frames\":");
    lemma_short(", \"frames\":");
    reveal_strlit(", \"frames_truncated\":false,");
    lemma_short(", \"frames_truncated\":false,");
    reveal_strlit(", \"function\":");
    lemma_short(", \"function\":");
    reveal_strlit(", \"function_truncated\":false,\"current_span\":");
    lemma_short(", \"function_truncated\":false,\"current_span\":");
    reveal_strlit(", \"globals_truncated\":false}");
    lemma_short(", \"globals_truncated\":false}");
    reveal_strlit(", \"items\":");
    lemma_short(", \"items\":");
    reveal_strlit(", \"line\":");
    lemma_short(", \"line\":");
    reveal_strlit(", \"locals_truncated\":false,\"upvalues\":");
    lemma_short(", \"locals_truncated\":false,\"upvalues\":");
    reveal_strlit(", \"name\":");
    lemma_short(", \"name\":");
    reveal_strlit(", \"name_truncated\":false,\"binding_kind\":");
    lemma_short(", \"name_truncated\":false,\"binding_kind\":");
    reveal_strlit(", \"parameters\":");
    lemma_short(", \"parameters\":");
    reveal_strlit(", \"parameters_truncated\":false,\"locals\":");
    lemma_short(", \"parameters_truncated\":false,\"locals\":");
    reveal_strlit(", \"revision\":");
    lemma_short(", \"revision\":");
    reveal_strlit(", \"start\":{\"byte_offset\":");
    lemma_short(", \"start\":{\"byte_offset\":");
    reveal_strlit(", \"truncated\":false}}");
    lemma_short(", \"truncated\":false}}");
    reveal_strlit(", \"upvalues_truncated\":false}");
    lemma_short(", \"upvalues_truncated\":false}");
    reveal_strlit(", \"value\":");
    lemma_short(", \"value\":");
    reveal_strlit(", \"value_kind\":");
    lemma_short(", \"value_kind\":");
    reveal_strlit(",");
    lemma_short(",");
    reveal_strlit("[");
    lemma_short("[");
    reveal_strlit("\",\"payload\":");
    lemma_short("\",\"payload\":");
    reveal_strlit("\"globals\":");
    lemma_short("\"globals\":");
    reveal_strlit("]");
    lemma_short("]");
    reveal_strlit("closure");
    lemma_short("closure");
    reveal_strlit("function");
    lemma_short("function");
    reveal_strlit("native");
    lemma_short("native");
    reveal_strlit("null");
    lemma_short("null");
    reveal_strlit("number");
    lemma_short("number");
    reveal_strlit("string");
    lemma_short("string");
    reveal_strlit("{\"activation_id\":");
    lemma_short("{\"activation_id\":");
    reveal_strlit("{\"binding_id\":");
    lemma_short("{\"binding_id\":");
    reveal_strlit("{\"kind\":\"");
    lemma_short("{\"kind\":\"");
    reveal_strlit("{\"kind\":\"bool\",\"payload\":false}");
    lemma_short("{\"kind\":\"bool\",\"payload\":false}");
    reveal_strlit("{\"kind\":\"cancelled\"}");
    lemma_short("{\"kind\":\"cancelled\"}");
    reveal_strlit("{\"kind\":\"cycle\",\"payload\":{\"object_id\":");
    lemma_short("{\"kind\":\"cycle\",\"payload\":{\"object_id\":");
    reveal_strlit("{\"kind\":\"faulted\"}");
    lemma_short("{\"kind\":\"faulted\"}");
    reveal_strlit("{\"kind\":\"list\",\"payload\":{\"object_id\":");
    lemma_short("{\"kind\":\"list\",\"payload\":{\"object_id\":");
    reveal_strlit("{\"kind\":\"nil\"}");
    lemma_short("{\"kind\":\"nil\"}");
    reveal_strlit("{\"kind\":\"paused\",\"payload\":");
    lemma_short("{\"kind\":\"paused\",\"payload\":");
    reveal_strlit("{\"kind\":\"truncated\"}");
    lemma_short("{\"kind\":\"truncated\"}");
    reveal_strlit("{\"reason\":");
    lemma_short("{\"reason\":");
    reveal_strlit("{\"source_id\":");
    lemma_short("{\"source_id\":");
    reveal_strlit("}");
    lemma_short("}");
    reveal_strlit("},\"end\":{\"byte_offset\":");
    lemma_short("},\"end\":{\"byte_offset\":");
    reveal_strlit("}}");
    lemma_short("}}");
}

/// Measures the empty values.
fn greatest_value_size() -> (value: usize)
    ensures
        is_greatest(value as nat, value_schemas()),
        value <= 40_000,
{
    proof {
        lemma_value_schemas_fit();
    }
    let mut values: Vec<DebugValue> = Vec::new();
    values.push(DebugValue::Nil);
    values.push(DebugValue::Bool(false));
    values.push(DebugValue::Number(String::new()));
    values.push(DebugValue::String(String::new()));
    values.push(DebugValue::Function(String::new()));
    values.push(DebugValue::Closure(String::new()));
    values.push(DebugValue::Native(String::new()));
    values.push(DebugValue::List { object_id: u64::MAX, items: Vec::new(), truncated: false });
    values.push(DebugValue::Cycle { object_id: u64::MAX });
    values.push(DebugValue::Truncated);
    let mut value: usize = 0;
    let mut i: usize = 0;
    let ghost shapes = value_schemas();
    proof {
        reveal(fits);
    }
    assert forall|n: int| 0 <= n < 10 implies (#[trigger] shapes[n]) == with_value(
        Ok(0),
        values@[n],
        0,
    ) by {
        reveal(value_schemas);
        reveal_with_fuel(with_value, 2);
        reveal_with_fuel(crate::snapshot::with_values, 2);
    }
    while i < values.len()
        invariant
            i <= values@.len() == 10 == shapes.len(),
            forall|n: int|
                0 <= n < 10 ==> (#[trigger] shapes[n]) == with_value(
                    Ok(0),
                    values@[n],
                    0,
                ),
            forall|n: int| 0 <= n < 10 ==> ((#[trigger] shapes[n]) matches Ok(m) && m <= 40_000),
            forall|n: int| 0 <= n < i ==> ((#[trigger] shapes[n]) matches Ok(m) && m <= value),
            i > 0 ==> exists|n: int| 0 <= n < i && #[trigger] shapes[n] == Estimate::Ok(value as nat),
            value <= 40_000,
        decreases 10 - i,
    {
        let mut size = JsonSize::new();
        size.value(&values[i]);
        assert(shapes[i as int] == size@);
        let bytes: usize = size.total.unwrap();
        if i == 0 || bytes > value {
            value = bytes;
        }
        i += 1;
    }
    value
}

/// Measures the empty records.
pub fn schema_estimates() -> (sizes: SchemaEstimates)
    ensures
        sizes.wf(),
        sizes == schema(),
{
    proof {
        lemma_schemas_fit();
    }
    let span = empty_span(SourceId(0), RevisionId(0));
    let empty_snapshot = VmSnapshot {
        reason: SnapshotReason::Paused(PauseReason::DebugPoint),
        current_span: span,
        frames: Vec::new(),
        frames_truncated: false,
        globals: Vec::new(),
        globals_truncated: false,
    };
    assert(empty_snapshot.frames@ =~= Seq::empty());
    assert(empty_snapshot.globals@ =~= Seq::empty());
    assert(empty_snapshot.estimate() == snapshot_schema()) by {
        reveal(snapshot_schema);
    }
    proof {
        reveal(fits);
    }
    let snapshot: usize = empty_snapshot.conservative_json_size().unwrap();
    let empty_frame = FrameSnapshot {
        activation_id: ActivationId(u64::MAX),
        function: String::new(),
        function_truncated: false,
        current_span: span,
        call_site: Some(span),
        parameters: Vec::new(),
        parameters_truncated: false,
        locals: Vec::new(),
        locals_truncated: false,
        upvalues: Vec::new(),
        upvalues_truncated: false,
    };
    let mut frame_size = JsonSize::new();
    frame_size.frame(&empty_frame);
    assert(frame_size@ == frame_schema()) by {
        reveal(frame_schema);
        assert(empty_frame.function@ =~= Seq::empty());
        assert(empty_frame.parameters@ =~= Seq::empty());
        assert(empty_frame.locals@ =~= Seq::empty());
        assert(empty_frame.upvalues@ =~= Seq::empty());
    }
    let frame: usize = frame_size.total.unwrap();
    let empty_binding = BindingSnapshot {
        binding_id: Some(BindingId(u64::MAX)),
        name: String::new(),
        name_truncated: false,
        binding_kind: String::new(),
        value_kind: ValueKind::Truncated,
        value: DebugValue::Nil,
    };
    let mut binding_size = JsonSize::new();
    binding_size.binding(&empty_binding);
    assert(binding_size@ == binding_schema()) by {
        reveal(binding_schema);
        assert(empty_binding.name@ =~= Seq::empty());
        assert(empty_binding.binding_kind@ =~= Seq::empty());
    }
    let binding: usize = binding_size.total.unwrap();
    let value: usize = greatest_value_size();
    let sizes = SchemaEstimates { snapshot, frame: frame + 1, binding: binding + 1, value: value + 1 };
    proof {
        lemma_schema(sizes);
    }
    sizes
}

/// Where a budget stood.
#[derive(Clone, Copy, Debug, PartialEq, Eq, Structural)]
pub struct BudgetCheckpoint {
    pub total_string_bytes: usize,
    pub value_nodes: usize,
    pub total_bindings: usize,
    pub estimated_json_bytes: usize,
}

#[derive(Clone, Copy, Debug, PartialEq, Eq, Structural)]
pub enum AggregateBudget {
    TotalStringBytes,
    ValueNodes,
    TotalBindings,
    EstimatedJsonBytes,
}

#[derive(Clone, Copy, Debug, PartialEq, Eq, Structural)]
pub enum DynamicStringAdmission {
    Admitted,
    PerStringLimit,
    Exhausted(AggregateBudget),
}

/// What has been spent, and the first budget that ran out.
#[derive(Clone, Copy, Debug, PartialEq, Eq, Structural)]
pub struct BuildBudget {
    pub limits: SnapshotLimits,
    pub total_string_bytes: usize,
    pub value_nodes: usize,
    pub total_bindings: usize,
    pub estimated_json_bytes: usize,
    pub exhausted: Option<AggregateBudget>,
}

pub type Reservation = (BuildBudget, Result<(), AggregateBudget>);

impl BuildBudget {
    /// A request is refused: the budget that ran out first is remembered.
    pub open spec fn refused(self, budget: AggregateBudget) -> Reservation {
        match self.exhausted {
            Some(first) => (self, Err(first)),
            None => (BuildBudget { exhausted: Some(budget), ..self }, Err(budget)),
        }
    }

    /// The budget behind a request for bytes of JSON, and the answer to it.
    pub open spec fn on_estimate(self, bytes: nat) -> Reservation {
        if self.exhausted is Some || self.estimated_json_bytes + bytes
            > self.limits.max_estimated_json_bytes {
            self.refused(AggregateBudget::EstimatedJsonBytes)
        } else {
            (
                BuildBudget {
                    estimated_json_bytes: (self.estimated_json_bytes + bytes) as usize,
                    ..self
                },
                Ok(()),
            )
        }
    }

    /// The budget behind a request to own a text, and the answer to it.
    pub open spec fn on_owned_string(self, text: Seq<char>) -> Reservation {
        if self.exhausted is Some || self.total_string_bytes + utf8_len(text)
            > self.limits.max_total_string_bytes {
            self.refused(AggregateBudget::TotalStringBytes)
        } else {
            let (budget, answer) = self.on_estimate(2 + escaped_len(text));
            if answer is Ok {
                (
                    BuildBudget {
                        total_string_bytes: (self.total_string_bytes + utf8_len(text)) as usize,
                        ..budget
                    },
                    answer,
                )
            } else {
                (budget, answer)
            }
        }
    }

    /// The budget behind a request to own a text of the program.
    pub open spec fn on_dynamic_string(self, text: Seq<char>) -> (
        BuildBudget,
        DynamicStringAdmission,
    ) {
        if utf8_len(text) > self.limits.max_string_bytes {
            (self, DynamicStringAdmission::PerStringLimit)
        } else {
            let (budget, answer) = self.on_owned_string(text);
            match answer {
                Ok(_) => (budget, DynamicStringAdmission::Admitted),
                Err(exhausted) => (budget, DynamicStringAdmission::Exhausted(exhausted)),
            }
        }
    }

    pub open spec fn on_binding(self) -> Reservation {
        if self.exhausted is Some || self.total_bindings >= self.limits.max_total_bindings {
            self.refused(AggregateBudget::TotalBindings)
        } else {
            let (budget, answer) = self.on_estimate(schema().binding as nat);
            if answer is Ok {
                (
                    BuildBudget { total_bindings: (self.total_bindings + 1) as usize, ..budget },
                    answer,
                )
            } else {
                (budget, answer)
            }
        }
    }

    pub open spec fn on_value(self) -> Reservation {
        if self.exhausted is Some || self.value_nodes >= self.limits.max_value_nodes {
            self.refused(AggregateBudget::ValueNodes)
        } else {
            let (budget, answer) = self.on_estimate(schema().value as nat);
            if answer is Ok {
                (BuildBudget { value_nodes: (self.value_nodes + 1) as usize, ..budget }, answer)
            } else {
                (budget, answer)
            }
        }
    }

    pub open spec fn restored(self, checkpoint: BudgetCheckpoint) -> BuildBudget {
        BuildBudget {
            total_string_bytes: checkpoint.total_string_bytes,
            value_nodes: checkpoint.value_nodes,
            total_bindings: checkpoint.total_bindings,
            estimated_json_bytes: checkpoint.estimated_json_bytes,
            ..self
        }
    }

    /// Nothing is overspent.
    pub open spec fn within_limits(self) -> bool {
        &&& self.total_string_bytes <= self.limits.max_total_string_bytes
        &&& self.value_nodes <= self.limits.max_value_nodes
        &&& self.total_bindings <= self.limits.max_total_bindings
        &&& self.estimated_json_bytes <= self.limits.max_estimated_json_bytes
    }

    pub open spec fn fresh(limits: SnapshotLimits) -> BuildBudget {
        BuildBudget {
            limits,
            total_string_bytes: 0,
            value_nodes: 0,
            total_bindings: 0,
            estimated_json_bytes: schema().snapshot,
            exhausted: None,
        }
    }

    pub fn new(limits: &SnapshotLimits) -> (result: Result<Self, SnapshotBuildError>)
        ensures
            match result {
                Ok(budget) => schema().snapshot <= limits.max_estimated_json_bytes && budget
                    == Self::fresh(*limits) && budget.within_limits(),
                Err(error) => error == SnapshotBuildError::SizeOverflow && schema().snapshot
                    > limits.max_estimated_json_bytes,
            },
    {
        let snapshot_estimate: usize = schema_estimates().snapshot;
        if snapshot_estimate > limits.max_estimated_json_bytes {
            return Err(SnapshotBuildError::SizeOverflow);
        }
        Ok(
            BuildBudget {
                limits: *limits,
                total_string_bytes: 0,
                value_nodes: 0,
                total_bindings: 0,
                estimated_json_bytes: snapshot_estimate,
                exhausted: None,
            },
        )
    }

    pub fn checkpoint(&self) -> (checkpoint: BudgetCheckpoint)
        ensures
            self.restored(checkpoint) == *self,
    {
        BudgetCheckpoint {
            total_string_bytes: self.total_string_bytes,
            value_nodes: self.value_nodes,
            total_bindings: self.total_bindings,
            estimated_json_bytes: self.estimated_json_bytes,
        }
    }

    pub fn restore(&mut self, checkpoint: BudgetCheckpoint)
        ensures
            *final(self) == old(self).restored(checkpoint),
    {
        self.total_string_bytes = checkpoint.total_string_bytes;
        self.value_nodes = checkpoint.value_nodes;
        self.total_bindings = checkpoint.total_bindings;
        self.estimated_json_bytes = checkpoint.estimated_json_bytes;
    }

    pub fn is_exhausted(&self) -> (exhausted: bool)
        ensures
            exhausted == (self.exhausted is Some),
    {
        self.exhausted.is_some()
    }

    fn exhaust(&mut self, budget: AggregateBudget) -> (first: AggregateBudget)
        ensures
            (*final(self), Result::<(), AggregateBudget>::Err(first)) == old(self).refused(budget),
    {
        match self.exhausted {
            Some(first) => first,
            None => {
                self.exhausted = Some(budget);
                budget
            },
        }
    }

    pub fn reserve_estimate(&mut self, bytes: usize) -> (answer: Result<(), AggregateBudget>)
        ensures
            (*final(self), answer) == old(self).on_estimate(bytes as nat),
    {
        if let Some(exhausted) = self.exhausted {
            return Err(exhausted);
        }
        match self.estimated_json_bytes.checked_add(bytes) {
            Some(total) if total <= self.limits.max_estimated_json_bytes => {
                self.estimated_json_bytes = total;
                Ok(())
            },
            _ => Err(self.exhaust(AggregateBudget::EstimatedJsonBytes)),
        }
    }

    pub fn reserve_owned_string(&mut self, value: &str) -> (answer: Result<(), AggregateBudget>)
        ensures
            (*final(self), answer) == old(self).on_owned_string(value@),
    {
        if let Some(exhausted) = self.exhausted {
            return Err(exhausted);
        }
        let total: usize = match self.total_string_bytes.checked_add(byte_len(value)) {
            Some(total) if total <= self.limits.max_total_string_bytes => total,
            _ => return Err(self.exhaust(AggregateBudget::TotalStringBytes)),
        };
        let mut escaped = JsonSize::new();
        escaped.string(value);
        proof {
            reveal(grown);
        }
        let bytes: usize = match escaped.total {
            Ok(bytes) => bytes,
            Err(_) => return Err(self.exhaust(AggregateBudget::EstimatedJsonBytes)),
        };
        match self.reserve_estimate(bytes) {
            Ok(()) => {
                self.total_string_bytes = total;
                Ok(())
            },
            Err(exhausted) => Err(exhausted),
        }
    }

    pub fn reserve_dynamic_string(&mut self, value: &str) -> (admission: DynamicStringAdmission)
        ensures
            (*final(self), admission) == old(self).on_dynamic_string(value@),
    {
        if byte_len(value) > self.limits.max_string_bytes {
            return DynamicStringAdmission::PerStringLimit;
        }
        match self.reserve_owned_string(value) {
            Ok(()) => DynamicStringAdmission::Admitted,
            Err(exhausted) => DynamicStringAdmission::Exhausted(exhausted),
        }
    }

    pub fn reserve_fixed_string(&mut self, value: &str) -> (answer: Result<(), AggregateBudget>)
        ensures
            (*final(self), answer) == old(self).on_owned_string(value@),
    {
        self.reserve_owned_string(value)
    }

    pub fn reserve_binding(&mut self) -> (answer: Result<(), AggregateBudget>)
        ensures
            (*final(self), answer) == old(self).on_binding(),
    {
        if let Some(exhausted) = self.exhausted {
            return Err(exhausted);
        }
        if self.total_bindings >= self.limits.max_total_bindings {
            return Err(self.exhaust(AggregateBudget::TotalBindings));
        }
        match self.reserve_estimate(schema_estimates().binding) {
            Ok(()) => {
                self.total_bindings = self.total_bindings + 1;
                Ok(())
            },
            Err(exhausted) => Err(exhausted),
        }
    }

    pub fn reserve_value(&mut self) -> (answer: Result<(), AggregateBudget>)
        ensures
            (*final(self), answer) == old(self).on_value(),
    {
        if let Some(exhausted) = self.exhausted {
            return Err(exhausted);
        }
        if self.value_nodes >= self.limits.max_value_nodes {
            return Err(self.exhaust(AggregateBudget::ValueNodes));
        }
        match self.reserve_estimate(schema_estimates().value) {
            Ok(()) => {
                self.value_nodes = self.value_nodes + 1;
                Ok(())
            },
            Err(exhausted) => Err(exhausted),
        }
    }
}

/// Once a budget has run out, every later request changes nothing and is
/// answered with the budget that ran out first, and going back to a
/// checkpoint does not undo that.
pub proof fn law_exhaustion_latches(
    budget: BuildBudget,
    checkpoint: BudgetCheckpoint,
    bytes: nat,
    text: Seq<char>,
)
    requires
        budget.exhausted is Some,
    ensures
        budget.restored(checkpoint).exhausted == budget.exhausted,
        budget.on_estimate(bytes) == (budget, Result::<(), AggregateBudget>::Err(budget.exhausted->0)),
        budget.on_owned_string(text) == (
            budget,
            Result::<(), AggregateBudget>::Err(budget.exhausted->0),
        ),
        budget.on_binding() == (budget, Result::<(), AggregateBudget>::Err(budget.exhausted->0)),
        budget.on_value() == (budget, Result::<(), AggregateBudget>::Err(budget.exhausted->0)),
        budget.on_dynamic_string(text).0 == budget,
        budget.on_dynamic_string(text).1 != DynamicStringAdmission::Admitted,
{
}

/// A refused request spends nothing; an admitted one stays within the limits.
pub proof fn law_requests_stay_within_limits(budget: BuildBudget, bytes: nat, text: Seq<char>)
    requires
        budget.within_limits(),
    ensures
        budget.on_estimate(bytes).0.within_limits(),
        budget.on_owned_string(text).0.within_limits(),
        budget.on_dynamic_string(text).0.within_limits(),
        budget.on_binding().0.within_limits(),
        budget.on_value().0.within_limits(),
        budget.on_owned_string(text).1 is Err ==> budget.on_owned_string(text).0 == (BuildBudget {
            exhausted: budget.on_owned_string(text).0.exhausted,
            ..budget
        }),
        budget.on_binding().1 is Err ==> budget.on_binding().0 == (BuildBudget {
            exhausted: budget.on_binding().0.exhausted,
            ..budget
        }),
        budget.on_value().1 is Err ==> budget.on_value().0 == (BuildBudget {
            exhausted: budget.on_value().0.exhausted,
            ..budget
        }),
{
}

} // verus!
