use rlox::wire::{
    debug_value, snapshot_reason, tagged, DebugValueKind, DebugValuePayload, SnapshotReasonKind,
};
use rlox::{DebugValue, PauseReason, SnapshotReason};

#[test]
fn snapshot_reasons_need_the_payload_of_their_kind() {
    assert_eq!(
        snapshot_reason(SnapshotReasonKind::Paused, Some(PauseReason::Step)),
        Some(SnapshotReason::Paused(PauseReason::Step))
    );
    assert_eq!(
        snapshot_reason(SnapshotReasonKind::Faulted, None),
        Some(SnapshotReason::Faulted)
    );
    assert_eq!(
        snapshot_reason(SnapshotReasonKind::Cancelled, None),
        Some(SnapshotReason::Cancelled)
    );
    assert_eq!(snapshot_reason(SnapshotReasonKind::Paused, None), None);
    assert_eq!(
        snapshot_reason(SnapshotReasonKind::Faulted, Some(PauseReason::Explicit)),
        None
    );
    assert_eq!(
        snapshot_reason(SnapshotReasonKind::Cancelled, Some(PauseReason::DebugPoint)),
        None
    );
}

fn examples() -> Vec<DebugValue> {
    vec![
        DebugValue::Nil,
        DebugValue::Bool(true),
        DebugValue::Number("1.5".to_owned()),
        DebugValue::String("text".to_owned()),
        DebugValue::Function("<fn f>".to_owned()),
        DebugValue::Closure("<fn g>".to_owned()),
        DebugValue::Native("<native fn>".to_owned()),
        DebugValue::List {
            object_id: 4,
            items: vec![DebugValue::Nil, DebugValue::Cycle { object_id: 4 }],
            truncated: true,
        },
        DebugValue::Cycle { object_id: 9 },
        DebugValue::Truncated,
    ]
}

#[test]
fn tagged_values_are_read_back() {
    for (value, expected) in examples().into_iter().zip(examples()) {
        let (kind, payload) = tagged(value);
        assert_eq!(debug_value(kind, payload), Some(expected));
    }
}

#[test]
fn values_need_the_payload_of_their_kind() {
    assert_eq!(debug_value(DebugValueKind::Nil, Some(DebugValuePayload::Bool(true))), None);
    assert_eq!(debug_value(DebugValueKind::Bool, None), None);
    assert_eq!(
        debug_value(DebugValueKind::Number, Some(DebugValuePayload::Bool(true))),
        None
    );
    assert_eq!(
        debug_value(
            DebugValueKind::List,
            Some(DebugValuePayload::Cycle { object_id: 1 })
        ),
        None
    );
    assert_eq!(
        debug_value(
            DebugValueKind::Cycle,
            Some(DebugValuePayload::Text("1".to_owned()))
        ),
        None
    );
    assert_eq!(
        debug_value(
            DebugValueKind::Truncated,
            Some(DebugValuePayload::Text(String::new()))
        ),
        None
    );
}
