use rlox::snapshot::{
    MAX_BINDINGS_PER_FRAME, MAX_COLLECTION_ITEMS, MAX_DEPTH, MAX_FRAMES, MAX_GLOBALS,
    MAX_SNAPSHOT_JSON_BYTES, MAX_STRING_BYTES, MAX_TOTAL_BINDINGS, MAX_TOTAL_STRING_BYTES,
    MAX_VALUE_NODES, MIN_ESTIMATED_JSON_BYTES,
};
use rlox::snapshot_budget::{AggregateBudget, BuildBudget, DynamicStringAdmission};
use rlox::{
    BindingSnapshot, DebugValue, PauseReason, RevisionId, SnapshotLimitError, SnapshotLimitField,
    SnapshotLimits, SnapshotReason, SnapshotSizeError, SourceId, SourceSpan, TextPosition,
    ValueKind, VmSnapshot,
};

fn span() -> SourceSpan {
    let start = TextPosition {
        byte_offset: 0,
        line: 1,
        column: 1,
    };
    SourceSpan {
        source_id: SourceId(1),
        revision: RevisionId(1),
        start,
        end: start,
    }
}

#[test]
fn limits_accept_zero_counts_and_reject_every_excessive_field() {
    let defaults = SnapshotLimits::default();
    defaults.validate().unwrap();

    let set = |limits: &mut SnapshotLimits, field: SnapshotLimitField, value: usize| match field
    {
        SnapshotLimitField::Depth => limits.max_depth = value,
        SnapshotLimitField::CollectionItems => limits.max_collection_items = value,
        SnapshotLimitField::StringBytes => limits.max_string_bytes = value,
        SnapshotLimitField::TotalStringBytes => limits.max_total_string_bytes = value,
        SnapshotLimitField::ValueNodes => limits.max_value_nodes = value,
        SnapshotLimitField::Frames => limits.max_frames = value,
        SnapshotLimitField::BindingsPerFrame => limits.max_bindings_per_frame = value,
        SnapshotLimitField::TotalBindings => limits.max_total_bindings = value,
        SnapshotLimitField::Globals => limits.max_globals = value,
        SnapshotLimitField::EstimatedJsonBytes => limits.max_estimated_json_bytes = value,
    };

    let cases = [
        (SnapshotLimitField::Depth, MAX_DEPTH),
        (SnapshotLimitField::CollectionItems, MAX_COLLECTION_ITEMS),
        (SnapshotLimitField::StringBytes, MAX_STRING_BYTES),
        (SnapshotLimitField::TotalStringBytes, MAX_TOTAL_STRING_BYTES),
        (SnapshotLimitField::ValueNodes, MAX_VALUE_NODES),
        (SnapshotLimitField::Frames, MAX_FRAMES),
        (SnapshotLimitField::BindingsPerFrame, MAX_BINDINGS_PER_FRAME),
        (SnapshotLimitField::TotalBindings, MAX_TOTAL_BINDINGS),
        (SnapshotLimitField::Globals, MAX_GLOBALS),
        (
            SnapshotLimitField::EstimatedJsonBytes,
            MAX_SNAPSHOT_JSON_BYTES,
        ),
    ];

    for (field, maximum) in cases {
        let mut exact = defaults.clone();
        set(&mut exact, field, maximum);
        exact.validate().unwrap();

        let mut limits = defaults.clone();
        set(&mut limits, field, maximum + 1);
        assert_eq!(
            limits.validate(),
            Err(SnapshotLimitError::AboveMaximum {
                field,
                requested: maximum + 1,
                maximum,
            })
        );

        let mut extreme = defaults.clone();
        set(&mut extreme, field, usize::MAX);
        assert_eq!(
            extreme.validate(),
            Err(SnapshotLimitError::AboveMaximum {
                field,
                requested: usize::MAX,
                maximum,
            })
        );
    }

    for requested in [0, 1, MIN_ESTIMATED_JSON_BYTES - 1] {
        let mut below = defaults.clone();
        below.max_estimated_json_bytes = requested;
        assert_eq!(
            below.validate(),
            Err(SnapshotLimitError::BelowMinimum {
                field: SnapshotLimitField::EstimatedJsonBytes,
                requested,
                minimum: MIN_ESTIMATED_JSON_BYTES,
            })
        );
    }

    let mut zero = defaults;
    zero.max_depth = 0;
    zero.max_collection_items = 0;
    zero.max_string_bytes = 0;
    zero.max_total_string_bytes = 0;
    zero.max_value_nodes = 0;
    zero.max_frames = 0;
    zero.max_bindings_per_frame = 0;
    zero.max_total_bindings = 0;
    zero.max_globals = 0;
    zero.max_estimated_json_bytes = MIN_ESTIMATED_JSON_BYTES;
    zero.validate().unwrap();
}

#[test]
fn estimator_bounds_control_and_unicode_expansion() {
    let snapshot = VmSnapshot {
        reason: SnapshotReason::Paused(PauseReason::Step),
        current_span: span(),
        frames: Vec::new(),
        frames_truncated: false,
        globals: vec![BindingSnapshot {
            binding_id: None,
            name: "\0\"\\é😀".to_string(),
            name_truncated: false,
            binding_kind: "global".to_string(),
            value_kind: ValueKind::String,
            value: DebugValue::String("\0\"\\é😀".to_string()),
        }],
        globals_truncated: false,
    };

    let size = snapshot.conservative_json_size().unwrap();
    assert!(size > 300);
    assert!(size < MIN_ESTIMATED_JSON_BYTES);
}

#[test]
fn estimator_rejects_public_values_beyond_the_supported_depth() {
    let mut value = DebugValue::Nil;
    for object_id in 1..=(MAX_DEPTH as u64 + 2) {
        value = DebugValue::List {
            object_id,
            items: vec![value],
            truncated: false,
        };
    }
    let snapshot = VmSnapshot {
        reason: SnapshotReason::Faulted,
        current_span: span(),
        frames: Vec::new(),
        frames_truncated: false,
        globals: vec![BindingSnapshot {
            binding_id: None,
            name: "value".to_string(),
            name_truncated: false,
            binding_kind: "global".to_string(),
            value_kind: ValueKind::List,
            value,
        }],
        globals_truncated: false,
    };

    assert_eq!(
        snapshot.conservative_json_size(),
        Err(SnapshotSizeError::DepthLimit)
    );
}

#[test]
fn aggregate_budget_failures_latch_across_checkpoint_restore() {
    let mut limits = SnapshotLimits::default();
    limits.max_string_bytes = 0;
    limits.max_total_string_bytes = 6;
    let mut budget = BuildBudget::new(&limits).unwrap();
    let checkpoint = budget.checkpoint();

    assert_eq!(
        budget.reserve_dynamic_string("name"),
        DynamicStringAdmission::PerStringLimit
    );
    assert!(!budget.is_exhausted());
    budget.reserve_fixed_string("global").unwrap();
    assert_eq!(budget.total_string_bytes, 6);
    assert_eq!(
        budget.reserve_fixed_string("local"),
        Err(AggregateBudget::TotalStringBytes)
    );
    budget.restore(checkpoint);
    assert!(budget.is_exhausted());
    assert_eq!(budget.total_string_bytes, 0);
    assert_eq!(
        budget.reserve_binding(),
        Err(AggregateBudget::TotalStringBytes)
    );
}
