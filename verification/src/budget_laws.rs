//! When what a picture asks for is granted, and what that costs.
use vstd::prelude::*;
use crate::snapshot::{
    escaped_len, first_fault, SnapshotLimitError, SnapshotLimitField, SnapshotLimits,
    MAX_BINDINGS_PER_FRAME, MAX_COLLECTION_ITEMS, MAX_DEPTH, MAX_FRAMES, MAX_GLOBALS,
    MAX_SNAPSHOT_JSON_BYTES, MAX_STRING_BYTES, MAX_TOTAL_BINDINGS, MAX_TOTAL_STRING_BYTES,
    MAX_VALUE_NODES, MIN_ESTIMATED_JSON_BYTES,
};
use crate::snapshot_budget::{schema, AggregateBudget, BuildBudget};
use crate::text::utf8_len;

verus! {

/// A value is granted exactly while one more fits; it costs one of the values
/// and the bytes of its frame.
pub proof fn law_values_are_granted_while_they_fit(b: BuildBudget)
    ensures
        ({
            let (after, answer) = b.on_value();
            let fits = b.value_nodes < b.limits.max_value_nodes && b.estimated_json_bytes
                + schema().value <= b.limits.max_estimated_json_bytes;
            &&& answer is Ok <==> b.exhausted is None && fits
            &&& answer is Ok ==> after.value_nodes == b.value_nodes + 1
                && after.estimated_json_bytes == b.estimated_json_bytes + schema().value
                && after.total_bindings == b.total_bindings && after.total_string_bytes
                == b.total_string_bytes && after.exhausted is None
            &&& answer is Err ==> after.exhausted is Some && after.value_nodes == b.value_nodes
                && after.estimated_json_bytes == b.estimated_json_bytes
            &&& b.exhausted is None && b.value_nodes >= b.limits.max_value_nodes
                ==> after.exhausted == Some(AggregateBudget::ValueNodes)
        }),
{
}

/// A binding is granted exactly while one more fits.
pub proof fn law_bindings_are_granted_while_they_fit(b: BuildBudget)
    ensures
        ({
            let (after, answer) = b.on_binding();
            let fits = b.total_bindings < b.limits.max_total_bindings && b.estimated_json_bytes
                + schema().binding <= b.limits.max_estimated_json_bytes;
            &&& answer is Ok <==> b.exhausted is None && fits
            &&& answer is Ok ==> after.total_bindings == b.total_bindings + 1
                && after.estimated_json_bytes == b.estimated_json_bytes + schema().binding
                && after.value_nodes == b.value_nodes && after.exhausted is None
            &&& answer is Err ==> after.exhausted is Some && after.total_bindings
                == b.total_bindings && after.estimated_json_bytes == b.estimated_json_bytes
            &&& b.exhausted is None && b.total_bindings >= b.limits.max_total_bindings
                ==> after.exhausted == Some(AggregateBudget::TotalBindings)
        }),
{
}

/// A text is shown exactly if it is not too long by itself and fits with what is
/// shown already; it costs its bytes, and its bytes in quotes as JSON.
pub proof fn law_texts_are_granted_while_they_fit(b: BuildBudget, text: Seq<char>)
    ensures
        ({
            let (after, admission) = b.on_dynamic_string(text);
            let short = utf8_len(text) <= b.limits.max_string_bytes;
            let fits = b.total_string_bytes + utf8_len(text) <= b.limits.max_total_string_bytes
                && b.estimated_json_bytes + 2 + escaped_len(text)
                <= b.limits.max_estimated_json_bytes;
            &&& admission is PerStringLimit <==> !short
            &&& admission is Admitted <==> short && b.exhausted is None && fits
            &&& admission is Admitted ==> after.total_string_bytes == b.total_string_bytes
                + utf8_len(text) && after.estimated_json_bytes == b.estimated_json_bytes + 2
                + escaped_len(text) && after.exhausted is None
            &&& admission is PerStringLimit ==> after == b
            &&& admission is Exhausted ==> after.exhausted is Some
            &&& short && b.exhausted is None && b.total_string_bytes + utf8_len(text)
                > b.limits.max_total_string_bytes ==> after.exhausted == Some(
                AggregateBudget::TotalStringBytes,
            )
        }),
{
}

/// The value of a limit, and the bounds within which it can be set.
pub open spec fn bounds_of(limits: SnapshotLimits, field: SnapshotLimitField) -> (int, int, int) {
    match field {
        SnapshotLimitField::Depth => (limits.max_depth as int, 0, MAX_DEPTH as int),
        SnapshotLimitField::CollectionItems => (
            limits.max_collection_items as int,
            0,
            MAX_COLLECTION_ITEMS as int,
        ),
        SnapshotLimitField::StringBytes => (
            limits.max_string_bytes as int,
            0,
            MAX_STRING_BYTES as int,
        ),
        SnapshotLimitField::TotalStringBytes => (
            limits.max_total_string_bytes as int,
            0,
            MAX_TOTAL_STRING_BYTES as int,
        ),
        SnapshotLimitField::ValueNodes => (limits.max_value_nodes as int, 0, MAX_VALUE_NODES as int),
        SnapshotLimitField::Frames => (limits.max_frames as int, 0, MAX_FRAMES as int),
        SnapshotLimitField::BindingsPerFrame => (
            limits.max_bindings_per_frame as int,
            0,
            MAX_BINDINGS_PER_FRAME as int,
        ),
        SnapshotLimitField::TotalBindings => (
            limits.max_total_bindings as int,
            0,
            MAX_TOTAL_BINDINGS as int,
        ),
        SnapshotLimitField::Globals => (limits.max_globals as int, 0, MAX_GLOBALS as int),
        SnapshotLimitField::EstimatedJsonBytes => (
            limits.max_estimated_json_bytes as int,
            MIN_ESTIMATED_JSON_BYTES as int,
            MAX_SNAPSHOT_JSON_BYTES as int,
        ),
    }
}

/// A fault of the limits names a limit that is out of its bounds, with its value
/// and the bound; where there is none, all are within theirs.
pub proof fn law_faults_of_limits_name_what_is_wrong(
    limits: SnapshotLimits,
    field: SnapshotLimitField,
)
    ensures
        match limits.fault() {
            None => bounds_of(limits, field).1 <= bounds_of(limits, field).0 <= bounds_of(
                limits,
                field,
            ).2,
            Some(SnapshotLimitError::AboveMaximum { field, requested, maximum }) => bounds_of(
                limits,
                field,
            ).0 == requested && bounds_of(limits, field).2 == maximum && requested > maximum,
            Some(SnapshotLimitError::BelowMinimum { field, requested, minimum }) => bounds_of(
                limits,
                field,
            ).0 == requested && bounds_of(limits, field).1 == minimum && requested < minimum,
        },
{
    reveal_with_fuel(first_fault, 11);
}

} // verus!
