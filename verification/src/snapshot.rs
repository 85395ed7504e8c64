//! Owned pictures of a paused or finished program, the limits they are built
//! under, and a bound on the bytes that their JSON form takes.
use vstd::prelude::*;
use crate::debug_info::BindingId;
use crate::session::{ActivationId, PauseReason};
use crate::snapshot_json::law_size_bounds_json;
use crate::source::SourceSpan;
use crate::text::{byte_len, chars_of, utf8_len};

verus! {

pub const MIN_ESTIMATED_JSON_BYTES: usize = 1_024;

pub const MAX_DEPTH: usize = 16;

pub const MAX_COLLECTION_ITEMS: usize = 256;

pub const MAX_STRING_BYTES: usize = 65_536;

pub const MAX_TOTAL_STRING_BYTES: usize = 1_048_576;

pub const MAX_VALUE_NODES: usize = 16_384;

pub const MAX_FRAMES: usize = 256;

pub const MAX_BINDINGS_PER_FRAME: usize = 512;

pub const MAX_TOTAL_BINDINGS: usize = 16_384;

pub const MAX_GLOBALS: usize = 8_192;

pub const MAX_SNAPSHOT_JSON_BYTES: usize = 5_242_880;

pub const MAX_UNSIGNED_DECIMAL_BYTES: usize = 20;

#[derive(Clone, Copy, Debug, PartialEq, Eq, Structural)]
pub enum SnapshotReason {
    Paused(PauseReason),
    Faulted,
    Cancelled,
}

#[derive(Clone, Debug, PartialEq, Eq)]
pub struct VmSnapshot {
    pub reason: SnapshotReason,
    pub current_span: SourceSpan,
    pub frames: Vec<FrameSnapshot>,
    pub frames_truncated: bool,
    pub globals: Vec<BindingSnapshot>,
    pub globals_truncated: bool,
}

#[derive(Clone, Debug, PartialEq, Eq)]
pub struct FrameSnapshot {
    pub activation_id: ActivationId,
    pub function: String,
    pub function_truncated: bool,
    pub current_span: SourceSpan,
    pub call_site: Option<SourceSpan>,
    pub parameters: Vec<BindingSnapshot>,
    pub parameters_truncated: bool,
    pub locals: Vec<BindingSnapshot>,
    pub locals_truncated: bool,
    pub upvalues: Vec<BindingSnapshot>,
    pub upvalues_truncated: bool,
}

#[derive(Clone, Debug, PartialEq, Eq)]
pub struct BindingSnapshot {
    pub binding_id: Option<BindingId>,
    pub name: String,
    pub name_truncated: bool,
    pub binding_kind: String,
    pub value_kind: ValueKind,
    pub value: DebugValue,
}

#[derive(Clone, Copy, Debug, PartialEq, Eq, Structural)]
pub enum ValueKind {
    Nil,
    Bool,
    Number,
    String,
    Function,
    Closure,
    Native,
    List,
    Cycle,
    Truncated,
}

#[derive(Debug, PartialEq, Eq)]
pub enum DebugValue {
    Nil,
    Bool(bool),
    Number(String),
    String(String),
    Function(String),
    Closure(String),
    Native(String),
    List { object_id: u64, items: Vec<DebugValue>, truncated: bool },
    Cycle { object_id: u64 },
    Truncated,
}

/// Two values that show the same.
pub open spec fn same_value(a: DebugValue, b: DebugValue) -> bool
    decreases a,
{
    match (a, b) {
        (DebugValue::Nil, DebugValue::Nil) => true,
        (DebugValue::Bool(x), DebugValue::Bool(y)) => x == y,
        (DebugValue::Number(x), DebugValue::Number(y)) => x@ == y@,
        (DebugValue::String(x), DebugValue::String(y)) => x@ == y@,
        (DebugValue::Function(x), DebugValue::Function(y)) => x@ == y@,
        (DebugValue::Closure(x), DebugValue::Closure(y)) => x@ == y@,
        (DebugValue::Native(x), DebugValue::Native(y)) => x@ == y@,
        (
            DebugValue::List { object_id: i, items: x, truncated: s },
            DebugValue::List { object_id: j, items: y, truncated: t },
        ) => i == j && s == t && x@.len() == y@.len() && forall|n: int|
            0 <= n < x@.len() ==> same_value(#[trigger] x@[n], y@[n]),
        (DebugValue::Cycle { object_id: i }, DebugValue::Cycle { object_id: j }) => i == j,
        (DebugValue::Truncated, DebugValue::Truncated) => true,
        _ => false,
    }
}

fn copy_value(value: &DebugValue) -> (copy: DebugValue)
    ensures
        same_value(*value, copy),
    decreases value,
{
    match value {
        DebugValue::Nil => DebugValue::Nil,
        DebugValue::Bool(shown) => DebugValue::Bool(*shown),
        DebugValue::Number(text) => DebugValue::Number(text.clone()),
        DebugValue::String(text) => DebugValue::String(text.clone()),
        DebugValue::Function(text) => DebugValue::Function(text.clone()),
        DebugValue::Closure(text) => DebugValue::Closure(text.clone()),
        DebugValue::Native(text) => DebugValue::Native(text.clone()),
        DebugValue::List { object_id, items, truncated } => {
            let mut copies: Vec<DebugValue> = Vec::new();
            let mut n: usize = 0;
            while n < items.len()
                invariant
                    n <= items@.len(),
                    copies@.len() == n,
                    value matches DebugValue::List { object_id: _, items: own, truncated: _ }
                        && own == items,
                    forall|m: int| 0 <= m < n ==> same_value(#[trigger] items@[m], copies@[m]),
                decreases items@.len() - n,
            {
                copies.push(copy_value(&items[n]));
                n += 1;
            }
            DebugValue::List { object_id: *object_id, items: copies, truncated: *truncated }
        },
        DebugValue::Cycle { object_id } => DebugValue::Cycle { object_id: *object_id },
        DebugValue::Truncated => DebugValue::Truncated,
    }
}

impl Clone for DebugValue {
    fn clone(&self) -> (copy: Self)
        ensures
            same_value(*self, copy),
    {
        copy_value(self)
    }
}

#[derive(Clone, Copy, Debug, PartialEq, Eq, Structural)]
pub struct SnapshotLimits {
    pub max_depth: usize,
    pub max_collection_items: usize,
    pub max_string_bytes: usize,
    pub max_total_string_bytes: usize,
    pub max_value_nodes: usize,
    pub max_frames: usize,
    pub max_bindings_per_frame: usize,
    pub max_total_bindings: usize,
    pub max_globals: usize,
    pub max_estimated_json_bytes: usize,
}

#[derive(Clone, Copy, Debug, PartialEq, Eq, Structural)]
pub enum SnapshotLimitField {
    Depth,
    CollectionItems,
    StringBytes,
    TotalStringBytes,
    ValueNodes,
    Frames,
    BindingsPerFrame,
    TotalBindings,
    Globals,
    EstimatedJsonBytes,
}

#[derive(Clone, Copy, Debug, PartialEq, Eq, Structural)]
pub enum SnapshotLimitError {
    BelowMinimum { field: SnapshotLimitField, requested: usize, minimum: usize },
    AboveMaximum { field: SnapshotLimitField, requested: usize, maximum: usize },
}

#[derive(Clone, Copy, Debug, PartialEq, Eq, Structural)]
pub enum SnapshotSizeError {
    Overflow,
    DepthLimit,
}

#[derive(Clone, Copy, Debug, PartialEq, Eq, Structural)]
pub enum SnapshotBuildError {
    FrameState,
    StackState,
    BindingMetadata,
    TableState,
    ObjectState,
    UpvalueState,
    ObjectIdExhausted,
    SizeOverflow,
}

/// One field is above its maximum.
pub open spec fn above(field: SnapshotLimitField, requested: usize, maximum: usize) -> Option<
    SnapshotLimitError,
> {
    if requested > maximum {
        Some(SnapshotLimitError::AboveMaximum { field, requested, maximum })
    } else {
        None
    }
}

impl SnapshotLimits {
    /// The first fault of the limits, in the order of the fields.
    pub open spec fn fault(self) -> Option<SnapshotLimitError> {
        let json = SnapshotLimitField::EstimatedJsonBytes;
        let faults = seq![
            above(SnapshotLimitField::Depth, self.max_depth, MAX_DEPTH),
            above(
                SnapshotLimitField::CollectionItems,
                self.max_collection_items,
                MAX_COLLECTION_ITEMS,
            ),
            above(SnapshotLimitField::StringBytes, self.max_string_bytes, MAX_STRING_BYTES),
            above(
                SnapshotLimitField::TotalStringBytes,
                self.max_total_string_bytes,
                MAX_TOTAL_STRING_BYTES,
            ),
            above(SnapshotLimitField::ValueNodes, self.max_value_nodes, MAX_VALUE_NODES),
            above(SnapshotLimitField::Frames, self.max_frames, MAX_FRAMES),
            above(
                SnapshotLimitField::BindingsPerFrame,
                self.max_bindings_per_frame,
                MAX_BINDINGS_PER_FRAME,
            ),
            above(SnapshotLimitField::TotalBindings, self.max_total_bindings, MAX_TOTAL_BINDINGS),
            above(SnapshotLimitField::Globals, self.max_globals, MAX_GLOBALS),
            if self.max_estimated_json_bytes < MIN_ESTIMATED_JSON_BYTES {
                Some(
                    SnapshotLimitError::BelowMinimum {
                        field: json,
                        requested: self.max_estimated_json_bytes,
                        minimum: MIN_ESTIMATED_JSON_BYTES,
                    },
                )
            } else {
                above(json, self.max_estimated_json_bytes, MAX_SNAPSHOT_JSON_BYTES)
            },
        ];
        first_fault(faults)
    }

    /// Every field lies within its bounds.
    pub open spec fn within_bounds(self) -> bool {
        &&& self.max_depth <= MAX_DEPTH
        &&& self.max_collection_items <= MAX_COLLECTION_ITEMS
        &&& self.max_string_bytes <= MAX_STRING_BYTES
        &&& self.max_total_string_bytes <= MAX_TOTAL_STRING_BYTES
        &&& self.max_value_nodes <= MAX_VALUE_NODES
        &&& self.max_frames <= MAX_FRAMES
        &&& self.max_bindings_per_frame <= MAX_BINDINGS_PER_FRAME
        &&& self.max_total_bindings <= MAX_TOTAL_BINDINGS
        &&& self.max_globals <= MAX_GLOBALS
        &&& MIN_ESTIMATED_JSON_BYTES <= self.max_estimated_json_bytes <= MAX_SNAPSHOT_JSON_BYTES
    }

    pub proof fn lemma_no_fault(self)
        ensures
            self.fault() is None <==> self.within_bounds(),
    {
        reveal_with_fuel(first_fault, 11);
    }

    pub fn validate(&self) -> (result: Result<(), SnapshotLimitError>)
        ensures
            match result {
                Ok(()) => self.fault() is None && self.within_bounds(),
                Err(error) => self.fault() == Some(error) && !self.within_bounds(),
            },
    {
        proof {
            reveal_with_fuel(first_fault, 11);
        }
        validate_max(SnapshotLimitField::Depth, self.max_depth, MAX_DEPTH)?;
        validate_max(
            SnapshotLimitField::CollectionItems,
            self.max_collection_items,
            MAX_COLLECTION_ITEMS,
        )?;
        validate_max(SnapshotLimitField::StringBytes, self.max_string_bytes, MAX_STRING_BYTES)?;
        validate_max(
            SnapshotLimitField::TotalStringBytes,
            self.max_total_string_bytes,
            MAX_TOTAL_STRING_BYTES,
        )?;
        validate_max(SnapshotLimitField::ValueNodes, self.max_value_nodes, MAX_VALUE_NODES)?;
        validate_max(SnapshotLimitField::Frames, self.max_frames, MAX_FRAMES)?;
        validate_max(
            SnapshotLimitField::BindingsPerFrame,
            self.max_bindings_per_frame,
            MAX_BINDINGS_PER_FRAME,
        )?;
        validate_max(
            SnapshotLimitField::TotalBindings,
            self.max_total_bindings,
            MAX_TOTAL_BINDINGS,
        )?;
        validate_max(SnapshotLimitField::Globals, self.max_globals, MAX_GLOBALS)?;
        if self.max_estimated_json_bytes < MIN_ESTIMATED_JSON_BYTES {
            return Err(
                SnapshotLimitError::BelowMinimum {
                    field: SnapshotLimitField::EstimatedJsonBytes,
                    requested: self.max_estimated_json_bytes,
                    minimum: MIN_ESTIMATED_JSON_BYTES,
                },
            );
        }
        validate_max(
            SnapshotLimitField::EstimatedJsonBytes,
            self.max_estimated_json_bytes,
            MAX_SNAPSHOT_JSON_BYTES,
        )
    }
}

/// The first of some checks that failed.
pub open spec fn first_fault(faults: Seq<Option<SnapshotLimitError>>) -> Option<SnapshotLimitError>
    decreases faults.len(),
{
    if faults.len() == 0 {
        None
    } else if faults[0] is Some {
        faults[0]
    } else {
        first_fault(faults.drop_first())
    }
}

/// The limits that a session has unless others are set.
pub open spec fn default_limits() -> SnapshotLimits {
    SnapshotLimits {
        max_depth: 4,
        max_collection_items: 64,
        max_string_bytes: 4_096,
        max_total_string_bytes: 1_048_576,
        max_value_nodes: 10_000,
        max_frames: 256,
        max_bindings_per_frame: 512,
        max_total_bindings: 8_192,
        max_globals: 2_048,
        max_estimated_json_bytes: MAX_SNAPSHOT_JSON_BYTES,
    }
}

impl Default for SnapshotLimits {
    fn default() -> (limits: Self)
        ensures
            limits == default_limits(),
            limits.within_bounds(),
    {
        SnapshotLimits {
            max_depth: 4,
            max_collection_items: 64,
            max_string_bytes: 4_096,
            max_total_string_bytes: 1_048_576,
            max_value_nodes: 10_000,
            max_frames: 256,
            max_bindings_per_frame: 512,
            max_total_bindings: 8_192,
            max_globals: 2_048,
            max_estimated_json_bytes: MAX_SNAPSHOT_JSON_BYTES,
        }
    }
}

fn validate_max(field: SnapshotLimitField, requested: usize, maximum: usize) -> (result: Result<
    (),
    SnapshotLimitError,
>)
    ensures
        match result {
            Ok(()) => above(field, requested, maximum) is None,
            Err(error) => above(field, requested, maximum) == Some(error),
        },
{
    if requested > maximum {
        Err(SnapshotLimitError::AboveMaximum { field, requested, maximum })
    } else {
        Ok(())
    }
}

/// A running size, or the reason why there is none.
pub type Estimate = Result<nat, SnapshotSizeError>;

#[verifier::opaque]
pub open spec fn grown(e: Estimate, bytes: nat) -> Estimate {
    match e {
        Ok(size) => if size + bytes > usize::MAX {
            Err(SnapshotSizeError::Overflow)
        } else {
            Ok(size + bytes)
        },
        Err(error) => Err(error),
    }
}

/// Growing twice is growing by the sum.
pub proof fn lemma_grown_twice(e: Estimate, a: nat, b: nat)
    ensures
        grown(grown(e, a), b) == grown(e, a + b),
{
    reveal(grown);
}

pub open spec fn with_literal(e: Estimate, text: &str) -> Estimate {
    grown(e, utf8_len(text@))
}

pub open spec fn with_unsigned(e: Estimate) -> Estimate {
    grown(e, MAX_UNSIGNED_DECIMAL_BYTES as nat)
}

/// Most bytes that one scalar takes inside a JSON string.
pub open spec fn escaped_width(c: char) -> nat {
    if c == '"' || c == '\\' {
        2
    } else if c <= '\u{1f}' {
        6
    } else if c <= '\u{7f}' {
        1
    } else if c <= '\u{ffff}' {
        6
    } else {
        12
    }
}

pub open spec fn escaped_len(s: Seq<char>) -> nat
    decreases s.len(),
{
    if s.len() == 0 {
        0
    } else {
        escaped_len(s.drop_last()) + escaped_width(s.last())
    }
}

pub open spec fn with_string(e: Estimate, s: Seq<char>) -> Estimate {
    grown(e, 2 + escaped_len(s))
}

pub open spec fn with_span(e: Estimate) -> Estimate {
    let e = with_unsigned(with_literal(e, "{\"source_id\":"));
    let e = with_unsigned(with_literal(e, ", \"revision\":"));
    let e = with_unsigned(with_literal(e, ", \"start\":{\"byte_offset\":"));
    let e = with_unsigned(with_literal(e, ", \"line\":"));
    let e = with_unsigned(with_literal(e, ", \"column\":"));
    let e = with_unsigned(with_literal(e, "},\"end\":{\"byte_offset\":"));
    let e = with_unsigned(with_literal(e, ", \"line\":"));
    let e = with_unsigned(with_literal(e, ", \"column\":"));
    with_literal(e, "}}")
}

pub open spec fn pause_reason_name(reason: PauseReason) -> Seq<char> {
    match reason {
        PauseReason::DebugPoint => "debug_point"@,
        PauseReason::Step => "step"@,
        PauseReason::Explicit => "explicit"@,
    }
}

pub open spec fn with_reason(e: Estimate, reason: SnapshotReason) -> Estimate {
    match reason {
        SnapshotReason::Paused(reason) => {
            let e = with_literal(e, "{\"kind\":\"paused\",\"payload\":");
            with_literal(with_string(e, pause_reason_name(reason)), "}")
        },
        SnapshotReason::Faulted => with_literal(e, "{\"kind\":\"faulted\"}"),
        SnapshotReason::Cancelled => with_literal(e, "{\"kind\":\"cancelled\"}"),
    }
}

pub open spec fn value_kind_text(kind: ValueKind) -> Seq<char> {
    match kind {
        ValueKind::Nil => "nil"@,
        ValueKind::Bool => "bool"@,
        ValueKind::Number => "number"@,
        ValueKind::String => "string"@,
        ValueKind::Function => "function"@,
        ValueKind::Closure => "closure"@,
        ValueKind::Native => "native"@,
        ValueKind::List => "list"@,
        ValueKind::Cycle => "cycle"@,
        ValueKind::Truncated => "truncated"@,
    }
}

pub open spec fn with_tagged(e: Estimate, tag: &str, s: Seq<char>) -> Estimate {
    let e = with_literal(with_literal(with_literal(e, "{\"kind\":\""), tag), "\",\"payload\":");
    with_literal(with_string(e, s), "}")
}

/// A value at a nesting depth; values nested too deep have no size.
pub open spec fn with_value(e: Estimate, value: DebugValue, depth: nat) -> Estimate
    decreases value, 0nat,
{
    if e is Err {
        e
    } else if depth > MAX_DEPTH {
        Err(SnapshotSizeError::DepthLimit)
    } else {
        match value {
            DebugValue::Nil => with_literal(e, "{\"kind\":\"nil\"}"),
            DebugValue::Bool(_) => with_literal(e, "{\"kind\":\"bool\",\"payload\":false}"),
            DebugValue::Number(text) => with_tagged(e, "number", text@),
            DebugValue::String(text) => with_tagged(e, "string", text@),
            DebugValue::Function(text) => with_tagged(e, "function", text@),
            DebugValue::Closure(text) => with_tagged(e, "closure", text@),
            DebugValue::Native(text) => with_tagged(e, "native", text@),
            DebugValue::List { object_id, items, truncated } => {
                let e = with_literal(e, "{\"kind\":\"list\",\"payload\":{\"object_id\":");
                let e = with_literal(with_unsigned(e), ", \"items\":");
                let e = with_literal(
                    with_values(with_literal(e, "["), items@, items@.len(), depth + 1),
                    "]",
                );
                with_literal(e, ", \"truncated\":false}}")
            },
            DebugValue::Cycle { object_id } => {
                let e = with_literal(e, "{\"kind\":\"cycle\",\"payload\":{\"object_id\":");
                with_literal(with_unsigned(e), "}}")
            },
            DebugValue::Truncated => with_literal(e, "{\"kind\":\"truncated\"}"),
        }
    }
}

/// The first `n` of some values, with commas between them.
pub open spec fn with_values(e: Estimate, values: Seq<DebugValue>, n: nat, depth: nat) -> Estimate
    decreases values, n,
{
    if n == 0 || n > values.len() {
        e
    } else {
        let e = with_values(e, values, (n - 1) as nat, depth);
        let e = if n > 1 {
            with_literal(e, ",")
        } else {
            e
        };
        with_value(e, values[n - 1], depth)
    }
}

pub open spec fn with_binding(e: Estimate, binding: BindingSnapshot) -> Estimate {
    with_binding_parts(
        e,
        binding.binding_id is Some,
        binding.name@,
        binding.binding_kind@,
        binding.value_kind,
        binding.value,
    )
}

pub open spec fn with_binding_parts(
    e: Estimate,
    has_id: bool,
    name: Seq<char>,
    binding_kind: Seq<char>,
    value_kind: ValueKind,
    value: DebugValue,
) -> Estimate {
    let e = with_literal(e, "{\"binding_id\":");
    let e = if has_id {
        with_unsigned(e)
    } else {
        with_literal(e, "null")
    };
    let e = with_string(with_literal(e, ", \"name\":"), name);
    let e = with_literal(e, ", \"name_truncated\":false,\"binding_kind\":");
    let e = with_string(e, binding_kind);
    let e = with_string(with_literal(e, ", \"value_kind\":"), value_kind_text(value_kind));
    let e = with_value(with_literal(e, ", \"value\":"), value, 0);
    with_literal(e, "}")
}

/// The first `n` of some bindings, with commas between them.
pub open spec fn with_binding_items(e: Estimate, bindings: Seq<BindingSnapshot>, n: nat) -> Estimate
    decreases n,
{
    if n == 0 {
        e
    } else {
        let e = with_binding_items(e, bindings, (n - 1) as nat);
        let e = if n > 1 {
            with_literal(e, ",")
        } else {
            e
        };
        with_binding(e, bindings[n - 1])
    }
}

pub open spec fn with_bindings(e: Estimate, bindings: Seq<BindingSnapshot>) -> Estimate {
    with_literal(with_binding_items(with_literal(e, "["), bindings, bindings.len()), "]")
}

pub open spec fn with_frame(e: Estimate, frame: FrameSnapshot) -> Estimate {
    with_frame_parts(
        e,
        frame.function@,
        frame.call_site is Some,
        frame.parameters@,
        frame.locals@,
        frame.upvalues@,
    )
}

pub open spec fn with_frame_parts(
    e: Estimate,
    function: Seq<char>,
    has_call_site: bool,
    parameters: Seq<BindingSnapshot>,
    locals: Seq<BindingSnapshot>,
    upvalues: Seq<BindingSnapshot>,
) -> Estimate {
    let e = with_unsigned(with_literal(e, "{\"activation_id\":"));
    let e = with_string(with_literal(e, ", \"function\":"), function);
    let e = with_span(with_literal(e, ", \"function_truncated\":false,\"current_span\":"));
    let e = with_literal(e, ", \"call_site\":");
    let e = if has_call_site {
        with_span(e)
    } else {
        with_literal(e, "null")
    };
    let e = with_bindings(with_literal(e, ", \"parameters\":"), parameters);
    let e = with_literal(e, ", \"parameters_truncated\":false,\"locals\":");
    let e = with_bindings(e, locals);
    let e = with_literal(e, ", \"locals_truncated\":false,\"upvalues\":");
    let e = with_bindings(e, upvalues);
    with_literal(e, ", \"upvalues_truncated\":false}")
}

/// The first `n` of some frames, with commas between them.
pub open spec fn with_frame_items(e: Estimate, frames: Seq<FrameSnapshot>, n: nat) -> Estimate
    decreases n,
{
    if n == 0 {
        e
    } else {
        let e = with_frame_items(e, frames, (n - 1) as nat);
        let e = if n > 1 {
            with_literal(e, ",")
        } else {
            e
        };
        with_frame(e, frames[n - 1])
    }
}

pub open spec fn with_frames(e: Estimate, frames: Seq<FrameSnapshot>) -> Estimate {
    with_literal(with_frame_items(with_literal(e, "["), frames, frames.len()), "]")
}

pub open spec fn snapshot_estimate(
    reason: SnapshotReason,
    frames: Seq<FrameSnapshot>,
    globals: Seq<BindingSnapshot>,
) -> Estimate {
    let e = with_reason(with_literal(Ok(0), "{\"reason\":"), reason);
    let e = with_span(with_literal(e, ", \"current_span\":"));
    let e = with_frames(with_literal(e, ", \"frames\":"), frames);
    let e = with_literal(e, ", \"frames_truncated\":false,");
    let e = with_bindings(with_literal(e, "\"globals\":"), globals);
    with_literal(e, ", \"globals_truncated\":false}")
}

impl VmSnapshot {
    /// An upper bound on the bytes of the snapshot's JSON form.
    pub open spec fn estimate(self) -> Estimate {
        snapshot_estimate(self.reason, self.frames@, self.globals@)
    }

    pub fn conservative_json_size(&self) -> (size: Result<usize, SnapshotSizeError>)
        ensures
            match size {
                Ok(bytes) => self.estimate() == Estimate::Ok(bytes as nat) && self.json_bytes()
                    <= bytes,
                Err(error) => self.estimate() == Estimate::Err(error),
            },
    {
        proof {
            law_size_bounds_json(*self);
        }
        let mut size = JsonSize::new();
        size.literal("{\"reason\":");
        size.snapshot_reason(&self.reason);
        size.literal(", \"current_span\":");
        size.span();
        size.literal(", \"frames\":");
        size.frames(&self.frames);
        size.literal(", \"frames_truncated\":false,");
        size.literal("\"globals\":");
        size.bindings(&self.globals);
        size.literal(", \"globals_truncated\":false}");
        size.total
    }
}

/// Accumulates an estimate. Once there is an error it stays.
#[derive(Clone, Copy)]
pub struct JsonSize {
    pub total: Result<usize, SnapshotSizeError>,
}

impl JsonSize {
    pub open spec fn view(self) -> Estimate {
        match self.total {
            Ok(bytes) => Ok(bytes as nat),
            Err(error) => Err(error),
        }
    }

    pub fn new() -> (size: Self)
        ensures
            size@ == Estimate::Ok(0),
    {
        JsonSize { total: Ok(0) }
    }

    pub fn grow(&mut self, bytes: usize)
        ensures
            final(self)@ == grown(old(self)@, bytes as nat),
    {
        proof {
            reveal(grown);
        }
        if let Ok(size) = self.total {
            self.total = match size.checked_add(bytes) {
                Some(total) => Ok(total),
                None => Err(SnapshotSizeError::Overflow),
            };
        }
    }

    fn literal(&mut self, value: &str)
        ensures
            final(self)@ == with_literal(old(self)@, value),
    {
        self.grow(byte_len(value))
    }

    pub fn string(&mut self, value: &str)
        ensures
            final(self)@ == with_string(old(self)@, value@),
    {
        let scalars = chars_of(value);
        let ghost before = self@;
        self.grow(2);
        let mut i: usize = 0;
        while i < scalars.len()
            invariant
                i <= scalars@.len(),
                self@ == grown(before, 2 + escaped_len(scalars@.take(i as int))),
            decreases scalars@.len() - i,
        {
            let c = scalars[i];
            let bytes: usize = if c == '"' || c == '\\' {
                2
            } else if c <= '\u{1f}' {
                6
            } else if c <= '\u{7f}' {
                1
            } else if c <= '\u{ffff}' {
                6
            } else {
                12
            };
            assert(scalars@.take(i + 1).drop_last() =~= scalars@.take(i as int));
            proof {
                lemma_grown_twice(before, 2 + escaped_len(scalars@.take(i as int)), bytes as nat);
            }
            self.grow(bytes);
            i += 1;
        }
        assert(scalars@.take(i as int) =~= value@);
    }

    fn unsigned(&mut self)
        ensures
            final(self)@ == with_unsigned(old(self)@),
    {
        self.grow(MAX_UNSIGNED_DECIMAL_BYTES)
    }

    fn span(&mut self)
        ensures
            final(self)@ == with_span(old(self)@),
    {
        self.literal("{\"source_id\":");
        self.unsigned();
        self.literal(", \"revision\":");
        self.unsigned();
        self.literal(", \"start\":{\"byte_offset\":");
        self.unsigned();
        self.literal(", \"line\":");
        self.unsigned();
        self.literal(", \"column\":");
        self.unsigned();
        self.literal("},\"end\":{\"byte_offset\":");
        self.unsigned();
        self.literal(", \"line\":");
        self.unsigned();
        self.literal(", \"column\":");
        self.unsigned();
        self.literal("}}")
    }

    fn snapshot_reason(&mut self, reason: &SnapshotReason)
        ensures
            final(self)@ == with_reason(old(self)@, *reason),
    {
        match reason {
            SnapshotReason::Paused(reason) => {
                self.literal("{\"kind\":\"paused\",\"payload\":");
                let name = match reason {
                    PauseReason::DebugPoint => "debug_point",
                    PauseReason::Step => "step",
                    PauseReason::Explicit => "explicit",
                };
                self.string(name);
                self.literal("}")
            },
            SnapshotReason::Faulted => self.literal("{\"kind\":\"faulted\"}"),
            SnapshotReason::Cancelled => self.literal("{\"kind\":\"cancelled\"}"),
        }
    }

    fn frames(&mut self, frames: &Vec<FrameSnapshot>)
        ensures
            final(self)@ == with_frames(old(self)@, frames@),
    {
        self.literal("[");
        let ghost opened = self@;
        let mut index: usize = 0;
        while index < frames.len()
            invariant
                index <= frames@.len(),
                opened == with_literal(old(self)@, "["),
                self@ == with_frame_items(opened, frames@, index as nat),
            decreases frames@.len() - index,
        {
            if index > 0 {
                self.literal(",");
            }
            self.frame(&frames[index]);
            index += 1;
        }
        self.literal("]")
    }

    #[verifier::spinoff_prover]
    pub fn frame(&mut self, frame: &FrameSnapshot)
        ensures
            final(self)@ == with_frame(old(self)@, *frame),
    {
        self.literal("{\"activation_id\":");
        self.unsigned();
        self.literal(", \"function\":");
        self.string(frame.function.as_str());
        self.literal(", \"function_truncated\":false,\"current_span\":");
        self.span();
        self.literal(", \"call_site\":");
        if frame.call_site.is_some() {
            self.span();
        } else {
            self.literal("null");
        }
        self.literal(", \"parameters\":");
        self.bindings(&frame.parameters);
        self.literal(", \"parameters_truncated\":false,\"locals\":");
        self.bindings(&frame.locals);
        self.literal(", \"locals_truncated\":false,\"upvalues\":");
        self.bindings(&frame.upvalues);
        self.literal(", \"upvalues_truncated\":false}")
    }

    fn bindings(&mut self, bindings: &Vec<BindingSnapshot>)
        ensures
            final(self)@ == with_bindings(old(self)@, bindings@),
    {
        self.literal("[");
        let ghost opened = self@;
        let mut index: usize = 0;
        while index < bindings.len()
            invariant
                index <= bindings@.len(),
                opened == with_literal(old(self)@, "["),
                self@ == with_binding_items(opened, bindings@, index as nat),
            decreases bindings@.len() - index,
        {
            if index > 0 {
                self.literal(",");
            }
            self.binding(&bindings[index]);
            index += 1;
        }
        self.literal("]")
    }

    #[verifier::spinoff_prover]
    pub fn binding(&mut self, binding: &BindingSnapshot)
        ensures
            final(self)@ == with_binding(old(self)@, *binding),
    {
        self.literal("{\"binding_id\":");
        if binding.binding_id.is_some() {
            self.unsigned();
        } else {
            self.literal("null");
        }
        self.literal(", \"name\":");
        self.string(binding.name.as_str());
        self.literal(", \"name_truncated\":false,\"binding_kind\":");
        self.string(binding.binding_kind.as_str());
        self.literal(", \"value_kind\":");
        self.string(value_kind_name(binding.value_kind));
        self.literal(", \"value\":");
        self.value(&binding.value);
        self.literal("}")
    }

    pub fn value(&mut self, value: &DebugValue)
        ensures
            final(self)@ == with_value(old(self)@, *value, 0),
    {
        self.value_at_depth(value, 0)
    }

    #[verifier::spinoff_prover]
    fn value_at_depth(&mut self, value: &DebugValue, depth: usize)
        requires
            depth <= MAX_DEPTH + 1,
        ensures
            final(self)@ == with_value(old(self)@, *value, depth as nat),
        decreases MAX_DEPTH + 1 - depth, 1int,
    {
        if self.total.is_err() {
            return ;
        }
        if depth > MAX_DEPTH {
            self.total = Err(SnapshotSizeError::DepthLimit);
            return ;
        }
        match value {
            DebugValue::Nil => self.literal("{\"kind\":\"nil\"}"),
            DebugValue::Bool(_) => self.literal("{\"kind\":\"bool\",\"payload\":false}"),
            DebugValue::Number(text) => self.tagged_string("number", text.as_str()),
            DebugValue::String(text) => self.tagged_string("string", text.as_str()),
            DebugValue::Function(text) => self.tagged_string("function", text.as_str()),
            DebugValue::Closure(text) => self.tagged_string("closure", text.as_str()),
            DebugValue::Native(text) => self.tagged_string("native", text.as_str()),
            DebugValue::List { object_id: _, items, truncated: _ } => {
                self.literal("{\"kind\":\"list\",\"payload\":{\"object_id\":");
                self.unsigned();
                self.literal(", \"items\":");
                self.values_at_depth(items, depth + 1);
                self.literal(", \"truncated\":false}}")
            },
            DebugValue::Cycle { object_id: _ } => {
                self.literal("{\"kind\":\"cycle\",\"payload\":{\"object_id\":");
                self.unsigned();
                self.literal("}}")
            },
            DebugValue::Truncated => self.literal("{\"kind\":\"truncated\"}"),
        }
    }

    fn tagged_string(&mut self, tag: &str, value: &str)
        ensures
            final(self)@ == with_tagged(old(self)@, tag, value@),
    {
        self.literal("{\"kind\":\"");
        self.literal(tag);
        self.literal("\",\"payload\":");
        self.string(value);
        self.literal("}")
    }

    fn values_at_depth(&mut self, values: &Vec<DebugValue>, depth: usize)
        requires
            depth <= MAX_DEPTH + 1,
        ensures
            final(self)@ == with_literal(
                with_values(
                    with_literal(old(self)@, "["),
                    values@,
                    values@.len(),
                    depth as nat,
                ),
                "]",
            ),
        decreases MAX_DEPTH + 1 - depth, 2int,
    {
        self.literal("[");
        let ghost opened = self@;
        let mut index: usize = 0;
        while index < values.len()
            invariant
                index <= values@.len(),
                depth <= MAX_DEPTH + 1,
                opened == with_literal(old(self)@, "["),
                self@ == with_values(opened, values@, index as nat, depth as nat),
            decreases values@.len() - index,
        {
            if index > 0 {
                self.literal(",");
            }
            self.value_at_depth(&values[index], depth);
            index += 1;
        }
        self.literal("]")
    }
}

fn value_kind_name(kind: ValueKind) -> (name: &'static str)
    ensures
        name@ == value_kind_text(kind),
{
    match kind {
        ValueKind::Nil => "nil",
        ValueKind::Bool => "bool",
        ValueKind::Number => "number",
        ValueKind::String => "string",
        ValueKind::Function => "function",
        ValueKind::Closure => "closure",
        ValueKind::Native => "native",
        ValueKind::List => "list",
        ValueKind::Cycle => "cycle",
        ValueKind::Truncated => "truncated",
    }
}

/// A picture on which nothing is seen.
pub open spec fn shows_nothing(
    snapshot: VmSnapshot,
    reason: SnapshotReason,
    current_span: SourceSpan,
) -> bool {
    &&& snapshot.reason == reason
    &&& snapshot.current_span == current_span
    &&& snapshot.frames@.len() == 0
    &&& snapshot.frames_truncated
    &&& snapshot.globals@.len() == 0
    &&& snapshot.globals_truncated
}

/// The picture of a program that cannot be looked into.
pub fn unavailable_snapshot(reason: SnapshotReason, current_span: SourceSpan) -> (snapshot:
    VmSnapshot)
    ensures
        shows_nothing(snapshot, reason, current_span),
{
    VmSnapshot {
        reason,
        current_span,
        frames: Vec::new(),
        frames_truncated: true,
        globals: Vec::new(),
        globals_truncated: true,
    }
}

} // verus!
