//! Reading tagged values off the wire: a kind, and a payload that must fit it.
use vstd::prelude::*;
use crate::session::PauseReason;
use crate::snapshot::{DebugValue, SnapshotReason};

verus! {

#[derive(Debug, Clone, Copy, PartialEq, Eq, Structural)]
pub enum SnapshotReasonKind {
    Paused,
    Faulted,
    Cancelled,
}

pub open spec fn reason_of(kind: SnapshotReasonKind, payload: Option<PauseReason>) -> Option<
    SnapshotReason,
> {
    match (kind, payload) {
        (SnapshotReasonKind::Paused, Some(reason)) => Some(SnapshotReason::Paused(reason)),
        (SnapshotReasonKind::Faulted, None) => Some(SnapshotReason::Faulted),
        (SnapshotReasonKind::Cancelled, None) => Some(SnapshotReason::Cancelled),
        _ => None,
    }
}

/// The reason that a kind and a payload name, if the payload fits.
pub fn snapshot_reason(kind: SnapshotReasonKind, payload: Option<PauseReason>) -> (reason: Option<
    SnapshotReason,
>)
    ensures
        reason == reason_of(kind, payload),
{
    match (kind, payload) {
        (SnapshotReasonKind::Paused, Some(reason)) => Some(SnapshotReason::Paused(reason)),
        (SnapshotReasonKind::Faulted, None) => Some(SnapshotReason::Faulted),
        (SnapshotReasonKind::Cancelled, None) => Some(SnapshotReason::Cancelled),
        _ => None,
    }
}

#[derive(Debug, Clone, Copy, PartialEq, Eq, Structural)]
pub enum DebugValueKind {
    Nil,
    Bool,
    Number,
    String,
    Function,
    Closure,
    Native,
    List,
    Cycle,
    Truncated,
}

#[derive(Debug)]
pub enum DebugValuePayload {
    Bool(bool),
    Text(String),
    List { object_id: u64, items: Vec<DebugValue>, truncated: bool },
    Cycle { object_id: u64 },
}

pub open spec fn value_of(kind: DebugValueKind, payload: Option<DebugValuePayload>) -> Option<
    DebugValue,
> {
    match (kind, payload) {
        (DebugValueKind::Nil, None) => Some(DebugValue::Nil),
        (DebugValueKind::Bool, Some(DebugValuePayload::Bool(v))) => Some(DebugValue::Bool(v)),
        (DebugValueKind::Number, Some(DebugValuePayload::Text(v))) => Some(DebugValue::Number(v)),
        (DebugValueKind::String, Some(DebugValuePayload::Text(v))) => Some(DebugValue::String(v)),
        (DebugValueKind::Function, Some(DebugValuePayload::Text(v))) => Some(
            DebugValue::Function(v),
        ),
        (DebugValueKind::Closure, Some(DebugValuePayload::Text(v))) => Some(
            DebugValue::Closure(v),
        ),
        (DebugValueKind::Native, Some(DebugValuePayload::Text(v))) => Some(DebugValue::Native(v)),
        (
            DebugValueKind::List,
            Some(DebugValuePayload::List { object_id, items, truncated }),
        ) => Some(DebugValue::List { object_id, items, truncated }),
        (DebugValueKind::Cycle, Some(DebugValuePayload::Cycle { object_id })) => Some(
            DebugValue::Cycle { object_id },
        ),
        (DebugValueKind::Truncated, None) => Some(DebugValue::Truncated),
        _ => None,
    }
}

/// The value that a kind and a payload name, if the payload fits.
pub fn debug_value(kind: DebugValueKind, payload: Option<DebugValuePayload>) -> (value: Option<
    DebugValue,
>)
    ensures
        value == value_of(kind, payload),
{
    match (kind, payload) {
        (DebugValueKind::Nil, None) => Some(DebugValue::Nil),
        (DebugValueKind::Bool, Some(DebugValuePayload::Bool(v))) => Some(DebugValue::Bool(v)),
        (DebugValueKind::Number, Some(DebugValuePayload::Text(v))) => Some(DebugValue::Number(v)),
        (DebugValueKind::String, Some(DebugValuePayload::Text(v))) => Some(DebugValue::String(v)),
        (DebugValueKind::Function, Some(DebugValuePayload::Text(v))) => Some(
            DebugValue::Function(v),
        ),
        (DebugValueKind::Closure, Some(DebugValuePayload::Text(v))) => Some(
            DebugValue::Closure(v),
        ),
        (DebugValueKind::Native, Some(DebugValuePayload::Text(v))) => Some(DebugValue::Native(v)),
        (
            DebugValueKind::List,
            Some(DebugValuePayload::List { object_id, items, truncated }),
        ) => Some(DebugValue::List { object_id, items, truncated }),
        (DebugValueKind::Cycle, Some(DebugValuePayload::Cycle { object_id })) => Some(
            DebugValue::Cycle { object_id },
        ),
        (DebugValueKind::Truncated, None) => Some(DebugValue::Truncated),
        _ => None,
    }
}

pub open spec fn kind_of_value(value: DebugValue) -> DebugValueKind {
    match value {
        DebugValue::Nil => DebugValueKind::Nil,
        DebugValue::Bool(_) => DebugValueKind::Bool,
        DebugValue::Number(_) => DebugValueKind::Number,
        DebugValue::String(_) => DebugValueKind::String,
        DebugValue::Function(_) => DebugValueKind::Function,
        DebugValue::Closure(_) => DebugValueKind::Closure,
        DebugValue::Native(_) => DebugValueKind::Native,
        DebugValue::List { object_id, items, truncated } => DebugValueKind::List,
        DebugValue::Cycle { object_id } => DebugValueKind::Cycle,
        DebugValue::Truncated => DebugValueKind::Truncated,
    }
}

pub open spec fn payload_of(value: DebugValue) -> Option<DebugValuePayload> {
    match value {
        DebugValue::Nil | DebugValue::Truncated => None,
        DebugValue::Bool(v) => Some(DebugValuePayload::Bool(v)),
        DebugValue::Number(v) => Some(DebugValuePayload::Text(v)),
        DebugValue::String(v) => Some(DebugValuePayload::Text(v)),
        DebugValue::Function(v) => Some(DebugValuePayload::Text(v)),
        DebugValue::Closure(v) => Some(DebugValuePayload::Text(v)),
        DebugValue::Native(v) => Some(DebugValuePayload::Text(v)),
        DebugValue::List { object_id, items, truncated } => Some(
            DebugValuePayload::List { object_id, items, truncated },
        ),
        DebugValue::Cycle { object_id } => Some(DebugValuePayload::Cycle { object_id }),
    }
}

/// The kind and the payload of a value.
pub fn tagged(value: DebugValue) -> (tag: (DebugValueKind, Option<DebugValuePayload>))
    ensures
        tag == (kind_of_value(value), payload_of(value)),
{
    match value {
        DebugValue::Nil => (DebugValueKind::Nil, None),
        DebugValue::Bool(v) => (DebugValueKind::Bool, Some(DebugValuePayload::Bool(v))),
        DebugValue::Number(v) => (DebugValueKind::Number, Some(DebugValuePayload::Text(v))),
        DebugValue::String(v) => (DebugValueKind::String, Some(DebugValuePayload::Text(v))),
        DebugValue::Function(v) => (DebugValueKind::Function, Some(DebugValuePayload::Text(v))),
        DebugValue::Closure(v) => (DebugValueKind::Closure, Some(DebugValuePayload::Text(v))),
        DebugValue::Native(v) => (DebugValueKind::Native, Some(DebugValuePayload::Text(v))),
        DebugValue::List { object_id, items, truncated } => (
            DebugValueKind::List,
            Some(DebugValuePayload::List { object_id, items, truncated }),
        ),
        DebugValue::Cycle { object_id } => (
            DebugValueKind::Cycle,
            Some(DebugValuePayload::Cycle { object_id }),
        ),
        DebugValue::Truncated => (DebugValueKind::Truncated, None),
    }
}

/// A value that is taken apart for the wire is put together again as it was,
/// and no other kind takes its payload for it.
pub proof fn law_tagged_values_round_trip(value: DebugValue, kind: DebugValueKind)
    ensures
        value_of(kind_of_value(value), payload_of(value)) == Some(value),
        value_of(kind, payload_of(value)) == Some(value) ==> kind == kind_of_value(value),
{
}

} // verus!
