//! How long the JSON form of a snapshot is, and that the size of a snapshot is
//! never below it.
use vstd::prelude::*;
use crate::snapshot::{
    escaped_len, escaped_width, grown, pause_reason_name, value_kind_text, with_binding,
    with_binding_items, with_bindings, with_frame, with_frame_items, with_literal, with_reason,
    with_span, with_string, with_tagged, with_unsigned, with_value, with_values, BindingSnapshot,
    DebugValue, Estimate, FrameSnapshot, SnapshotReason, VmSnapshot, MAX_DEPTH,
};
use crate::snapshot_laws::lemma_text_size;
use crate::source::SourceSpan;
use crate::wire_diagnostic::{
    bool_bytes, digits, json_len, json_width, lit, pow10, span_bytes, string_bytes,
};

verus! {

/// The size of a value in JSON: its kind, and what belongs to it.
pub open spec fn value_bytes(value: DebugValue) -> nat
    decreases value, 0nat,
{
    match value {
        DebugValue::Nil => lit("{\"kind\":\"nil\"}"),
        DebugValue::Bool(b) => lit("{\"kind\":\"bool\",\"payload\":") + bool_bytes(b) + lit("}"),
        DebugValue::Number(text) => tagged_bytes("number", text@),
        DebugValue::String(text) => tagged_bytes("string", text@),
        DebugValue::Function(text) => tagged_bytes("function", text@),
        DebugValue::Closure(text) => tagged_bytes("closure", text@),
        DebugValue::Native(text) => tagged_bytes("native", text@),
        DebugValue::List { object_id, items, truncated } => lit(
            "{\"kind\":\"list\",\"payload\":{\"object_id\":",
        ) + digits(object_id as nat) + lit(",\"items\":[") + values_bytes(items@, items@.len())
            + lit("],\"truncated\":") + bool_bytes(truncated) + lit("}}"),
        DebugValue::Cycle { object_id } => lit("{\"kind\":\"cycle\",\"payload\":{\"object_id\":")
            + digits(object_id as nat) + lit("}}"),
        DebugValue::Truncated => lit("{\"kind\":\"truncated\"}"),
    }
}

pub open spec fn tagged_bytes(tag: &str, text: Seq<char>) -> nat {
    lit("{\"kind\":\"") + lit(tag) + lit("\",\"payload\":") + string_bytes(text) + lit("}")
}

/// The size of the first `n` values in JSON, with the commas between them.
pub open spec fn values_bytes(values: Seq<DebugValue>, n: nat) -> nat
    decreases values, n,
{
    if n == 0 || n > values.len() {
        0
    } else {
        values_bytes(values, (n - 1) as nat) + (if n > 1 {
            lit(",")
        } else {
            0
        }) + value_bytes(values[n - 1])
    }
}

/// The size of a binding in JSON.
#[verifier::opaque]
pub open spec fn binding_bytes(binding: BindingSnapshot) -> nat {
    lit("{\"binding_id\":") + (match binding.binding_id {
        Some(id) => digits(id.0 as nat),
        None => lit("null"),
    }) + lit(",\"name\":") + string_bytes(binding.name@) + lit(",\"name_truncated\":") + bool_bytes(
        binding.name_truncated,
    ) + lit(",\"binding_kind\":") + string_bytes(binding.binding_kind@) + lit(",\"value_kind\":")
        + string_bytes(value_kind_text(binding.value_kind)) + lit(",\"value\":") + value_bytes(
        binding.value,
    ) + lit("}")
}

/// The size of the first `n` bindings in JSON, with the commas between them.
pub open spec fn binding_items_bytes(bindings: Seq<BindingSnapshot>, n: nat) -> nat
    decreases n,
{
    if n == 0 {
        0
    } else {
        binding_items_bytes(bindings, (n - 1) as nat) + (if n > 1 {
            lit(",")
        } else {
            0
        }) + binding_bytes(bindings[n - 1])
    }
}

pub open spec fn bindings_bytes(bindings: Seq<BindingSnapshot>) -> nat {
    lit("[") + binding_items_bytes(bindings, bindings.len()) + lit("]")
}

/// The size of a call in JSON.
#[verifier::opaque]
pub open spec fn frame_bytes(frame: FrameSnapshot) -> nat {
    lit("{\"activation_id\":") + digits(frame.activation_id.0 as nat) + lit(",\"function\":")
        + string_bytes(frame.function@) + lit(",\"function_truncated\":") + bool_bytes(
        frame.function_truncated,
    ) + lit(",\"current_span\":") + span_bytes(frame.current_span) + lit(",\"call_site\":") + (
    match frame.call_site {
        Some(span) => span_bytes(span),
        None => lit("null"),
    }) + lit(",\"parameters\":") + bindings_bytes(frame.parameters@) + lit(
        ",\"parameters_truncated\":",
    ) + bool_bytes(frame.parameters_truncated) + lit(",\"locals\":") + bindings_bytes(frame.locals@)
        + lit(",\"locals_truncated\":") + bool_bytes(frame.locals_truncated) + lit(
        ",\"upvalues\":",
    ) + bindings_bytes(frame.upvalues@) + lit(",\"upvalues_truncated\":") + bool_bytes(
        frame.upvalues_truncated,
    ) + lit("}")
}

/// The size of the first `n` calls in JSON, with the commas between them.
pub open spec fn frame_items_bytes(frames: Seq<FrameSnapshot>, n: nat) -> nat
    decreases n,
{
    if n == 0 {
        0
    } else {
        frame_items_bytes(frames, (n - 1) as nat) + (if n > 1 {
            lit(",")
        } else {
            0
        }) + frame_bytes(frames[n - 1])
    }
}

pub open spec fn reason_bytes(reason: SnapshotReason) -> nat {
    match reason {
        SnapshotReason::Paused(reason) => lit("{\"kind\":\"paused\",\"payload\":") + string_bytes(
            pause_reason_name(reason),
        ) + lit("}"),
        SnapshotReason::Faulted => lit("{\"kind\":\"faulted\"}"),
        SnapshotReason::Cancelled => lit("{\"kind\":\"cancelled\"}"),
    }
}

impl VmSnapshot {
    /// The size of the snapshot in JSON.
    pub open spec fn json_bytes(self) -> nat {
        lit("{\"reason\":") + reason_bytes(self.reason) + lit(",\"current_span\":") + span_bytes(
            self.current_span,
        ) + lit(",\"frames\":") + lit("[") + frame_items_bytes(self.frames@, self.frames@.len())
            + lit("]") + lit(",\"frames_truncated\":") + bool_bytes(self.frames_truncated) + lit(
            ",\"globals\":",
        ) + bindings_bytes(self.globals@) + lit(",\"globals_truncated\":") + bool_bytes(
            self.globals_truncated,
        ) + lit("}")
    }
}

/// A size, if there is one, is this at least.
#[verifier::opaque]
spec fn least(e: Estimate, n: nat) -> bool {
    e matches Ok(size) ==> n <= size
}

proof fn lemma_least(e: Estimate, n: nat, bytes: nat, m: nat)
    requires
        least(e, n),
        m <= n + bytes,
    ensures
        least(grown(e, bytes), m),
{
    reveal(least);
    reveal(grown);
}

/// A text is no longer in JSON than its size says.
proof fn lemma_text(text: Seq<char>)
    ensures
        json_len(text) <= escaped_len(text),
    decreases text.len(),
{
    if text.len() > 0 {
        lemma_text(text.drop_last());
        assert(json_width(text.last()) <= escaped_width(text.last()));
    }
}

proof fn lemma_string(e: Estimate, n: nat, text: Seq<char>)
    requires
        least(e, n),
    ensures
        least(with_string(e, text), n + string_bytes(text)),
{
    lemma_text(text);
    lemma_least(e, n, 2 + escaped_len(text), n + string_bytes(text));
}

/// A fixed text, where the JSON form has one that is no longer.
proof fn lemma_fixed(e: Estimate, n: nat, text: &str, m: nat)
    requires
        least(e, n),
        m <= n + lit(text),
    ensures
        least(with_literal(e, text), m),
{
    lemma_least(e, n, lit(text), m);
}

/// A number below a power of ten has no more digits than the power has zeros.
proof fn lemma_digits(number: nat, k: nat)
    requires
        0 < k,
        number < pow10(k),
    ensures
        digits(number) <= k,
    decreases k,
{
    if number >= 10 {
        if k == 1 {
            reveal_with_fuel(pow10, 2);
        } else {
            assert(number / 10 < pow10((k - 1) as nat));
            lemma_digits(number / 10, (k - 1) as nat);
        }
    }
}

proof fn lemma_digits_are_few(number: nat)
    requires
        number <= u64::MAX,
    ensures
        digits(number) <= 20,
{
    reveal_with_fuel(pow10, 21);
    lemma_digits(number, 20);
}

proof fn lemma_number(e: Estimate, n: nat, number: nat)
    requires
        least(e, n),
        number <= u64::MAX,
    ensures
        least(with_unsigned(e), n + digits(number)),
{
    lemma_digits_are_few(number);
    lemma_least(e, n, 20, n + digits(number));
}

proof fn lemma_span_texts()
    ensures
        lit(",\"revision\":") <= lit(", \"revision\":"),
        lit(",\"start\":") + lit("{\"byte_offset\":") <= lit(", \"start\":{\"byte_offset\":"),
        lit(",\"line\":") <= lit(", \"line\":"),
        lit(",\"column\":") <= lit(", \"column\":"),
        lit("}") + lit(",\"end\":") + lit("{\"byte_offset\":") <= lit(
            "},\"end\":{\"byte_offset\":",
        ),
        lit("}") + lit("}") <= lit("}}"),
{
    lemma_text_size(",\"revision\":");
    reveal_strlit(",\"revision\":");
    lemma_text_size(", \"revision\":");
    reveal_strlit(", \"revision\":");
    lemma_text_size(",\"start\":");
    reveal_strlit(",\"start\":");
    lemma_text_size("{\"byte_offset\":");
    reveal_strlit("{\"byte_offset\":");
    lemma_text_size(", \"start\":{\"byte_offset\":");
    reveal_strlit(", \"start\":{\"byte_offset\":");
    lemma_text_size(",\"line\":");
    reveal_strlit(",\"line\":");
    lemma_text_size(", \"line\":");
    reveal_strlit(", \"line\":");
    lemma_text_size(",\"column\":");
    reveal_strlit(",\"column\":");
    lemma_text_size(", \"column\":");
    reveal_strlit(", \"column\":");
    lemma_text_size("}");
    reveal_strlit("}");
    lemma_text_size(",\"end\":");
    reveal_strlit(",\"end\":");
    lemma_text_size("},\"end\":{\"byte_offset\":");
    reveal_strlit("},\"end\":{\"byte_offset\":");
    lemma_text_size("}}");
    reveal_strlit("}}");
}

/// A text and a number behind it.
proof fn lemma_labelled(e: Estimate, n: nat, text: &str, label: nat, number: nat)
    requires
        least(e, n),
        label <= lit(text),
        number <= u64::MAX,
    ensures
        least(with_unsigned(with_literal(e, text)), n + label + digits(number)),
{
    lemma_fixed(e, n, text, n + label);
    lemma_number(with_literal(e, text), n + label, number);
}

proof fn lemma_span(e: Estimate, n: nat, span: SourceSpan)
    requires
        least(e, n),
    ensures
        least(with_span(e), n + span_bytes(span)),
{
    lemma_span_texts();
    let e1 = with_unsigned(with_literal(e, "{\"source_id\":"));
    let n1 = n + lit("{\"source_id\":") + digits(span.source_id.0 as nat);
    lemma_labelled(e, n, "{\"source_id\":", lit("{\"source_id\":"), span.source_id.0 as nat);
    let e2 = with_unsigned(with_literal(e1, ", \"revision\":"));
    let n2 = n1 + lit(",\"revision\":") + digits(span.revision.0 as nat);
    lemma_labelled(e1, n1, ", \"revision\":", lit(",\"revision\":"), span.revision.0 as nat);
    let e3 = with_unsigned(with_literal(e2, ", \"start\":{\"byte_offset\":"));
    let start = lit(",\"start\":") + lit("{\"byte_offset\":");
    let n3 = n2 + start + digits(span.start.byte_offset as nat);
    lemma_labelled(
        e2,
        n2,
        ", \"start\":{\"byte_offset\":",
        start,
        span.start.byte_offset as nat,
    );
    let e4 = with_unsigned(with_literal(e3, ", \"line\":"));
    let n4 = n3 + lit(",\"line\":") + digits(span.start.line as nat);
    lemma_labelled(e3, n3, ", \"line\":", lit(",\"line\":"), span.start.line as nat);
    let e5 = with_unsigned(with_literal(e4, ", \"column\":"));
    let n5 = n4 + lit(",\"column\":") + digits(span.start.column as nat);
    lemma_labelled(e4, n4, ", \"column\":", lit(",\"column\":"), span.start.column as nat);
    let e6 = with_unsigned(with_literal(e5, "},\"end\":{\"byte_offset\":"));
    let end = lit("}") + lit(",\"end\":") + lit("{\"byte_offset\":");
    let n6 = n5 + end + digits(span.end.byte_offset as nat);
    lemma_labelled(e5, n5, "},\"end\":{\"byte_offset\":", end, span.end.byte_offset as nat);
    let e7 = with_unsigned(with_literal(e6, ", \"line\":"));
    let n7 = n6 + lit(",\"line\":") + digits(span.end.line as nat);
    lemma_labelled(e6, n6, ", \"line\":", lit(",\"line\":"), span.end.line as nat);
    let e8 = with_unsigned(with_literal(e7, ", \"column\":"));
    let n8 = n7 + lit(",\"column\":") + digits(span.end.column as nat);
    lemma_labelled(e7, n7, ", \"column\":", lit(",\"column\":"), span.end.column as nat);
    lemma_fixed(e8, n8, "}}", n + span_bytes(span));
}

proof fn lemma_tagged(e: Estimate, n: nat, tag: &str, text: Seq<char>)
    requires
        least(e, n),
    ensures
        least(with_tagged(e, tag, text), n + tagged_bytes(tag, text)),
{
    let e1 = with_literal(e, "{\"kind\":\"");
    let n1 = n + lit("{\"kind\":\"");
    lemma_fixed(e, n, "{\"kind\":\"", n1);
    let e2 = with_literal(e1, tag);
    let n2 = n1 + lit(tag);
    lemma_fixed(e1, n1, tag, n2);
    let e3 = with_literal(e2, "\",\"payload\":");
    let n3 = n2 + lit("\",\"payload\":");
    lemma_fixed(e2, n2, "\",\"payload\":", n3);
    lemma_string(e3, n3, text);
    lemma_fixed(
        with_string(e3, text),
        n3 + string_bytes(text),
        "}",
        n + tagged_bytes(tag, text),
    );
}

proof fn lemma_value_texts()
    ensures
        lit("{\"kind\":\"bool\",\"payload\":") + 5 + lit("}") <= lit(
            "{\"kind\":\"bool\",\"payload\":false}",
        ),
        lit(",\"items\":[") <= lit(", \"items\":") + lit("["),
        lit("],\"truncated\":") + 5 + lit("}}") <= lit("]") + lit(", \"truncated\":false}}"),
{
    lemma_text_size("{\"kind\":\"bool\",\"payload\":");
    reveal_strlit("{\"kind\":\"bool\",\"payload\":");
    lemma_text_size("}");
    reveal_strlit("}");
    lemma_text_size("{\"kind\":\"bool\",\"payload\":false}");
    reveal_strlit("{\"kind\":\"bool\",\"payload\":false}");
    lemma_text_size(",\"items\":[");
    reveal_strlit(",\"items\":[");
    lemma_text_size(", \"items\":");
    reveal_strlit(", \"items\":");
    lemma_text_size("[");
    reveal_strlit("[");
    lemma_text_size("],\"truncated\":");
    reveal_strlit("],\"truncated\":");
    lemma_text_size("}}");
    reveal_strlit("}}");
    lemma_text_size("]");
    reveal_strlit("]");
    lemma_text_size(", \"truncated\":false}}");
    reveal_strlit(", \"truncated\":false}}");
}

proof fn lemma_value(e: Estimate, n: nat, value: DebugValue, depth: nat)
    requires
        least(e, n),
    ensures
        least(with_value(e, value, depth), n + value_bytes(value)),
    decreases value, 0nat,
{
    if e is Err || depth > MAX_DEPTH {
        reveal(least);
    } else {
        match value {
            DebugValue::Nil => {
                lemma_fixed(e, n, "{\"kind\":\"nil\"}", n + value_bytes(value));
            },
            DebugValue::Bool(_) => {
                lemma_value_texts();
                lemma_fixed(
                    e,
                    n,
                    "{\"kind\":\"bool\",\"payload\":false}",
                    n + value_bytes(value),
                );
            },
            DebugValue::Number(text) => {
                lemma_tagged(e, n, "number", text@);
            },
            DebugValue::String(text) => {
                lemma_tagged(e, n, "string", text@);
            },
            DebugValue::Function(text) => {
                lemma_tagged(e, n, "function", text@);
            },
            DebugValue::Closure(text) => {
                lemma_tagged(e, n, "closure", text@);
            },
            DebugValue::Native(text) => {
                lemma_tagged(e, n, "native", text@);
            },
            DebugValue::List { object_id, items, truncated } => {
                lemma_value_texts();
                let head = "{\"kind\":\"list\",\"payload\":{\"object_id\":";
                lemma_labelled(e, n, head, lit(head), object_id as nat);
                let e1 = with_unsigned(with_literal(e, head));
                let n1 = n + lit(head) + digits(object_id as nat);
                let e2 = with_literal(e1, ", \"items\":");
                lemma_fixed(e1, n1, ", \"items\":", n1 + lit(", \"items\":"));
                let e3 = with_literal(e2, "[");
                let n3 = n1 + lit(",\"items\":[");
                lemma_fixed(e2, n1 + lit(", \"items\":"), "[", n3);
                lemma_values(e3, n3, items@, items@.len(), depth + 1);
                let e4 = with_values(e3, items@, items@.len(), depth + 1);
                let n4 = n3 + values_bytes(items@, items@.len());
                lemma_fixed(e4, n4, "]", n4 + lit("]"));
                lemma_fixed(
                    with_literal(e4, "]"),
                    n4 + lit("]"),
                    ", \"truncated\":false}}",
                    n + value_bytes(value),
                );
            },
            DebugValue::Cycle { object_id } => {
                let head = "{\"kind\":\"cycle\",\"payload\":{\"object_id\":";
                lemma_labelled(e, n, head, lit(head), object_id as nat);
                lemma_fixed(
                    with_unsigned(with_literal(e, head)),
                    n + lit(head) + digits(object_id as nat),
                    "}}",
                    n + value_bytes(value),
                );
            },
            DebugValue::Truncated => {
                lemma_fixed(e, n, "{\"kind\":\"truncated\"}", n + value_bytes(value));
            },
        }
    }
}

proof fn lemma_values(e: Estimate, n: nat, values: Seq<DebugValue>, count: nat, depth: nat)
    requires
        least(e, n),
        count <= values.len(),
    ensures
        least(with_values(e, values, count, depth), n + values_bytes(values, count)),
    decreases values, count,
{
    if count > 0 {
        let less = (count - 1) as nat;
        lemma_values(e, n, values, less, depth);
        let e1 = with_values(e, values, less, depth);
        let n1 = n + values_bytes(values, less);
        lemma_fixed(e1, n1, ",", n1 + lit(","));
        if count > 1 {
            lemma_value(with_literal(e1, ","), n1 + lit(","), values[count - 1], depth);
        } else {
            lemma_value(e1, n1, values[count - 1], depth);
        }
    }
}

proof fn lemma_binding_texts()
    ensures
        lit(",\"name\":") <= lit(", \"name\":"),
        lit(",\"name_truncated\":") + 5 + lit(",\"binding_kind\":") <= lit(
            ", \"name_truncated\":false,\"binding_kind\":",
        ),
        lit(",\"value_kind\":") <= lit(", \"value_kind\":"),
        lit(",\"value\":") <= lit(", \"value\":"),
{
    lemma_text_size(",\"name\":");
    reveal_strlit(",\"name\":");
    lemma_text_size(", \"name\":");
    reveal_strlit(", \"name\":");
    lemma_text_size(",\"name_truncated\":");
    reveal_strlit(",\"name_truncated\":");
    lemma_text_size(",\"binding_kind\":");
    reveal_strlit(",\"binding_kind\":");
    lemma_text_size(", \"name_truncated\":false,\"binding_kind\":");
    reveal_strlit(", \"name_truncated\":false,\"binding_kind\":");
    lemma_text_size(",\"value_kind\":");
    reveal_strlit(",\"value_kind\":");
    lemma_text_size(", \"value_kind\":");
    reveal_strlit(", \"value_kind\":");
    lemma_text_size(",\"value\":");
    reveal_strlit(",\"value\":");
    lemma_text_size(", \"value\":");
    reveal_strlit(", \"value\":");
}

proof fn lemma_binding(e: Estimate, n: nat, binding: BindingSnapshot)
    requires
        least(e, n),
    ensures
        least(with_binding(e, binding), n + binding_bytes(binding)),
{
    reveal(binding_bytes);
    lemma_binding_texts();
    let e1 = with_literal(e, "{\"binding_id\":");
    let n1 = n + lit("{\"binding_id\":");
    lemma_fixed(e, n, "{\"binding_id\":", n1);
    let e2 = if binding.binding_id is Some {
        with_unsigned(e1)
    } else {
        with_literal(e1, "null")
    };
    let n2 = n1 + (match binding.binding_id {
        Some(id) => digits(id.0 as nat),
        None => lit("null"),
    });
    match binding.binding_id {
        Some(id) => {
            lemma_number(e1, n1, id.0 as nat);
        },
        None => {
            lemma_fixed(e1, n1, "null", n2);
        },
    }
    let e3 = with_literal(e2, ", \"name\":");
    let n3 = n2 + lit(",\"name\":");
    lemma_fixed(e2, n2, ", \"name\":", n3);
    let e4 = with_string(e3, binding.name@);
    let n4 = n3 + string_bytes(binding.name@);
    lemma_string(e3, n3, binding.name@);
    let e5 = with_literal(e4, ", \"name_truncated\":false,\"binding_kind\":");
    let n5 = n4 + lit(",\"name_truncated\":") + bool_bytes(binding.name_truncated) + lit(
        ",\"binding_kind\":",
    );
    lemma_fixed(e4, n4, ", \"name_truncated\":false,\"binding_kind\":", n5);
    let e6 = with_string(e5, binding.binding_kind@);
    let n6 = n5 + string_bytes(binding.binding_kind@);
    lemma_string(e5, n5, binding.binding_kind@);
    let e7 = with_literal(e6, ", \"value_kind\":");
    let n7 = n6 + lit(",\"value_kind\":");
    lemma_fixed(e6, n6, ", \"value_kind\":", n7);
    let kind = value_kind_text(binding.value_kind);
    let e8 = with_string(e7, kind);
    let n8 = n7 + string_bytes(kind);
    lemma_string(e7, n7, kind);
    let e9 = with_literal(e8, ", \"value\":");
    let n9 = n8 + lit(",\"value\":");
    lemma_fixed(e8, n8, ", \"value\":", n9);
    lemma_value(e9, n9, binding.value, 0);
    lemma_fixed(
        with_value(e9, binding.value, 0),
        n9 + value_bytes(binding.value),
        "}",
        n + binding_bytes(binding),
    );
}

proof fn lemma_binding_items(e: Estimate, n: nat, bindings: Seq<BindingSnapshot>, count: nat)
    requires
        least(e, n),
    ensures
        least(with_binding_items(e, bindings, count), n + binding_items_bytes(bindings, count)),
    decreases count,
{
    if count > 0 {
        let less = (count - 1) as nat;
        lemma_binding_items(e, n, bindings, less);
        let e1 = with_binding_items(e, bindings, less);
        let n1 = n + binding_items_bytes(bindings, less);
        lemma_fixed(e1, n1, ",", n1 + lit(","));
        if count > 1 {
            lemma_binding(with_literal(e1, ","), n1 + lit(","), bindings[count - 1]);
        } else {
            lemma_binding(e1, n1, bindings[count - 1]);
        }
    }
}

proof fn lemma_bindings(e: Estimate, n: nat, bindings: Seq<BindingSnapshot>)
    requires
        least(e, n),
    ensures
        least(with_bindings(e, bindings), n + bindings_bytes(bindings)),
{
    let e1 = with_literal(e, "[");
    let n1 = n + lit("[");
    lemma_fixed(e, n, "[", n1);
    lemma_binding_items(e1, n1, bindings, bindings.len());
    lemma_fixed(
        with_binding_items(e1, bindings, bindings.len()),
        n1 + binding_items_bytes(bindings, bindings.len()),
        "]",
        n + bindings_bytes(bindings),
    );
}

proof fn lemma_frame_texts()
    ensures
        lit(",\"function\":") <= lit(", \"function\":"),
        lit(",\"function_truncated\":") + 5 + lit(",\"current_span\":") <= lit(
            ", \"function_truncated\":false,\"current_span\":",
        ),
        lit(",\"call_site\":") <= lit(", \"call_site\":"),
        lit(",\"parameters\":") <= lit(", \"parameters\":"),
{
    lemma_text_size(",\"function\":");
    reveal_strlit(",\"function\":");
    lemma_text_size(", \"function\":");
    reveal_strlit(", \"function\":");
    lemma_text_size(",\"function_truncated\":");
    reveal_strlit(",\"function_truncated\":");
    lemma_text_size(",\"current_span\":");
    reveal_strlit(",\"current_span\":");
    lemma_text_size(", \"function_truncated\":false,\"current_span\":");
    reveal_strlit(", \"function_truncated\":false,\"current_span\":");
    lemma_text_size(",\"call_site\":");
    reveal_strlit(",\"call_site\":");
    lemma_text_size(", \"call_site\":");
    reveal_strlit(", \"call_site\":");
    lemma_text_size(",\"parameters\":");
    reveal_strlit(",\"parameters\":");
    lemma_text_size(", \"parameters\":");
    reveal_strlit(", \"parameters\":");
}

proof fn lemma_frame_flags()
    ensures
        lit(",\"parameters_truncated\":") + 5 + lit(",\"locals\":") <= lit(
            ", \"parameters_truncated\":false,\"locals\":",
        ),
        lit(",\"locals_truncated\":") + 5 + lit(",\"upvalues\":") <= lit(
            ", \"locals_truncated\":false,\"upvalues\":",
        ),
        lit(",\"upvalues_truncated\":") + 5 + lit("}") <= lit(", \"upvalues_truncated\":false}"),
{
    lemma_text_size(",\"parameters_truncated\":");
    reveal_strlit(",\"parameters_truncated\":");
    lemma_text_size(",\"locals\":");
    reveal_strlit(",\"locals\":");
    lemma_text_size(", \"parameters_truncated\":false,\"locals\":");
    reveal_strlit(", \"parameters_truncated\":false,\"locals\":");
    lemma_text_size(",\"locals_truncated\":");
    reveal_strlit(",\"locals_truncated\":");
    lemma_text_size(",\"upvalues\":");
    reveal_strlit(",\"upvalues\":");
    lemma_text_size(", \"locals_truncated\":false,\"upvalues\":");
    reveal_strlit(", \"locals_truncated\":false,\"upvalues\":");
    lemma_text_size(",\"upvalues_truncated\":");
    reveal_strlit(",\"upvalues_truncated\":");
    lemma_text_size("}");
    reveal_strlit("}");
    lemma_text_size(", \"upvalues_truncated\":false}");
    reveal_strlit(", \"upvalues_truncated\":false}");
}

proof fn lemma_frame(e: Estimate, n: nat, frame: FrameSnapshot)
    requires
        least(e, n),
    ensures
        least(with_frame(e, frame), n + frame_bytes(frame)),
{
    reveal(frame_bytes);
    lemma_frame_texts();
    lemma_frame_flags();
    let head = "{\"activation_id\":";
    let e1 = with_unsigned(with_literal(e, head));
    let n1 = n + lit(head) + digits(frame.activation_id.0 as nat);
    lemma_labelled(e, n, head, lit(head), frame.activation_id.0 as nat);
    let e2 = with_literal(e1, ", \"function\":");
    let n2 = n1 + lit(",\"function\":");
    lemma_fixed(e1, n1, ", \"function\":", n2);
    let e3 = with_string(e2, frame.function@);
    let n3 = n2 + string_bytes(frame.function@);
    lemma_string(e2, n2, frame.function@);
    let e4 = with_literal(e3, ", \"function_truncated\":false,\"current_span\":");
    let n4 = n3 + lit(",\"function_truncated\":") + bool_bytes(frame.function_truncated) + lit(
        ",\"current_span\":",
    );
    lemma_fixed(e3, n3, ", \"function_truncated\":false,\"current_span\":", n4);
    let e5 = with_span(e4);
    let n5 = n4 + span_bytes(frame.current_span);
    lemma_span(e4, n4, frame.current_span);
    let e6 = with_literal(e5, ", \"call_site\":");
    let n6 = n5 + lit(",\"call_site\":");
    lemma_fixed(e5, n5, ", \"call_site\":", n6);
    let e7 = if frame.call_site is Some {
        with_span(e6)
    } else {
        with_literal(e6, "null")
    };
    let n7 = n6 + (match frame.call_site {
        Some(span) => span_bytes(span),
        None => lit("null"),
    });
    match frame.call_site {
        Some(span) => {
            lemma_span(e6, n6, span);
        },
        None => {
            lemma_fixed(e6, n6, "null", n7);
        },
    }
    let e8 = with_literal(e7, ", \"parameters\":");
    let n8 = n7 + lit(",\"parameters\":");
    lemma_fixed(e7, n7, ", \"parameters\":", n8);
    let e9 = with_bindings(e8, frame.parameters@);
    let n9 = n8 + bindings_bytes(frame.parameters@);
    lemma_bindings(e8, n8, frame.parameters@);
    let e10 = with_literal(e9, ", \"parameters_truncated\":false,\"locals\":");
    let n10 = n9 + lit(",\"parameters_truncated\":") + bool_bytes(frame.parameters_truncated) + lit(
        ",\"locals\":",
    );
    lemma_fixed(e9, n9, ", \"parameters_truncated\":false,\"locals\":", n10);
    let e11 = with_bindings(e10, frame.locals@);
    let n11 = n10 + bindings_bytes(frame.locals@);
    lemma_bindings(e10, n10, frame.locals@);
    let e12 = with_literal(e11, ", \"locals_truncated\":false,\"upvalues\":");
    let n12 = n11 + lit(",\"locals_truncated\":") + bool_bytes(frame.locals_truncated) + lit(
        ",\"upvalues\":",
    );
    lemma_fixed(e11, n11, ", \"locals_truncated\":false,\"upvalues\":", n12);
    let e13 = with_bindings(e12, frame.upvalues@);
    let n13 = n12 + bindings_bytes(frame.upvalues@);
    lemma_bindings(e12, n12, frame.upvalues@);
    lemma_fixed(e13, n13, ", \"upvalues_truncated\":false}", n + frame_bytes(frame));
}

#[verifier::opaque]
spec fn one_frame(e: Estimate, frame: FrameSnapshot) -> Estimate {
    with_frame(e, frame)
}

proof fn lemma_one_frame(e: Estimate, n: nat, frame: FrameSnapshot)
    requires
        least(e, n),
    ensures
        least(one_frame(e, frame), n + frame_bytes(frame)),
{
    reveal(one_frame);
    lemma_frame(e, n, frame);
}

proof fn lemma_frame_items_are(e: Estimate, frames: Seq<FrameSnapshot>, count: nat)
    requires
        count > 0,
    ensures
        with_frame_items(e, frames, count) == one_frame(
            if count > 1 {
                with_literal(with_frame_items(e, frames, (count - 1) as nat), ",")
            } else {
                with_frame_items(e, frames, (count - 1) as nat)
            },
            frames[count - 1],
        ),
{
    reveal(one_frame);
}

proof fn lemma_frame_items(e: Estimate, n: nat, frames: Seq<FrameSnapshot>, count: nat)
    requires
        least(e, n),
    ensures
        least(with_frame_items(e, frames, count), n + frame_items_bytes(frames, count)),
    decreases count,
{
    if count > 0 {
        let less = (count - 1) as nat;
        lemma_frame_items(e, n, frames, less);
        let e1 = with_frame_items(e, frames, less);
        let n1 = n + frame_items_bytes(frames, less);
        lemma_fixed(e1, n1, ",", n1 + lit(","));
        lemma_frame_items_are(e, frames, count);
        if count > 1 {
            lemma_one_frame(with_literal(e1, ","), n1 + lit(","), frames[count - 1]);
        } else {
            lemma_one_frame(e1, n1, frames[count - 1]);
        }
    }
}

proof fn lemma_reason(e: Estimate, n: nat, reason: SnapshotReason)
    requires
        least(e, n),
    ensures
        least(with_reason(e, reason), n + reason_bytes(reason)),
{
    match reason {
        SnapshotReason::Paused(pause) => {
            let head = "{\"kind\":\"paused\",\"payload\":";
            let name = pause_reason_name(pause);
            lemma_fixed(e, n, head, n + lit(head));
            lemma_string(with_literal(e, head), n + lit(head), name);
            lemma_fixed(
                with_string(with_literal(e, head), name),
                n + lit(head) + string_bytes(name),
                "}",
                n + reason_bytes(reason),
            );
        },
        SnapshotReason::Faulted => {
            lemma_fixed(e, n, "{\"kind\":\"faulted\"}", n + reason_bytes(reason));
        },
        SnapshotReason::Cancelled => {
            lemma_fixed(e, n, "{\"kind\":\"cancelled\"}", n + reason_bytes(reason));
        },
    }
}

proof fn lemma_snapshot_texts()
    ensures
        lit(",\"current_span\":") <= lit(", \"current_span\":"),
        lit(",\"frames\":") <= lit(", \"frames\":"),
        lit(",\"frames_truncated\":") + 5 + lit(",\"globals\":") <= lit(
            ", \"frames_truncated\":false,",
        ) + lit("\"globals\":"),
        lit(",\"globals_truncated\":") + 5 + lit("}") <= lit(", \"globals_truncated\":false}"),
{
    lemma_text_size(",\"current_span\":");
    reveal_strlit(",\"current_span\":");
    lemma_text_size(", \"current_span\":");
    reveal_strlit(", \"current_span\":");
    lemma_text_size(",\"frames\":");
    reveal_strlit(",\"frames\":");
    lemma_text_size(", \"frames\":");
    reveal_strlit(", \"frames\":");
    lemma_text_size(",\"frames_truncated\":");
    reveal_strlit(",\"frames_truncated\":");
    lemma_text_size(",\"globals\":");
    reveal_strlit(",\"globals\":");
    lemma_text_size(", \"frames_truncated\":false,");
    reveal_strlit(", \"frames_truncated\":false,");
    lemma_text_size("\"globals\":");
    reveal_strlit("\"globals\":");
    lemma_text_size(",\"globals_truncated\":");
    reveal_strlit(",\"globals_truncated\":");
    lemma_text_size("}");
    reveal_strlit("}");
    lemma_text_size(", \"globals_truncated\":false}");
    reveal_strlit(", \"globals_truncated\":false}");
}

/// The size of a snapshot is never below the length of its JSON form.
pub proof fn law_size_bounds_json(snapshot: VmSnapshot)
    ensures
        snapshot.estimate() matches Ok(size) ==> snapshot.json_bytes() <= size,
{
    lemma_snapshot_texts();
    let e0 = Estimate::Ok(0);
    assert(least(e0, 0)) by {
        reveal(least);
    }
    let e1 = with_literal(e0, "{\"reason\":");
    let n1 = lit("{\"reason\":");
    lemma_fixed(e0, 0, "{\"reason\":", n1);
    let e2 = with_reason(e1, snapshot.reason);
    let n2 = n1 + reason_bytes(snapshot.reason);
    lemma_reason(e1, n1, snapshot.reason);
    let e3 = with_literal(e2, ", \"current_span\":");
    let n3 = n2 + lit(",\"current_span\":");
    lemma_fixed(e2, n2, ", \"current_span\":", n3);
    let e4 = with_span(e3);
    let n4 = n3 + span_bytes(snapshot.current_span);
    lemma_span(e3, n3, snapshot.current_span);
    let e5 = with_literal(e4, ", \"frames\":");
    let n5 = n4 + lit(",\"frames\":");
    lemma_fixed(e4, n4, ", \"frames\":", n5);
    let e6 = with_literal(e5, "[");
    let n6 = n5 + lit("[");
    lemma_fixed(e5, n5, "[", n6);
    let frames = snapshot.frames@;
    let e7 = with_frame_items(e6, frames, frames.len());
    let n7 = n6 + frame_items_bytes(frames, frames.len());
    lemma_frame_items(e6, n6, frames, frames.len());
    let e8 = with_literal(e7, "]");
    let n8 = n7 + lit("]");
    lemma_fixed(e7, n7, "]", n8);
    let e9 = with_literal(e8, ", \"frames_truncated\":false,");
    let n9 = n8 + lit(", \"frames_truncated\":false,");
    lemma_fixed(e8, n8, ", \"frames_truncated\":false,", n9);
    let e10 = with_literal(e9, "\"globals\":");
    let n10 = n8 + lit(",\"frames_truncated\":") + bool_bytes(snapshot.frames_truncated) + lit(
        ",\"globals\":",
    );
    lemma_fixed(e9, n9, "\"globals\":", n10);
    let e11 = with_bindings(e10, snapshot.globals@);
    let n11 = n10 + bindings_bytes(snapshot.globals@);
    lemma_bindings(e10, n10, snapshot.globals@);
    lemma_fixed(e11, n11, ", \"globals_truncated\":false}", snapshot.json_bytes());
    reveal(least);
}

/// Texts in a row take what they take one by one.
pub proof fn lemma_escaped_concat(a: Seq<char>, b: Seq<char>)
    ensures
        escaped_len(a + b) == escaped_len(a) + escaped_len(b),
    decreases b.len(),
{
    if b.len() == 0 {
        assert(a + b =~= a);
    } else {
        lemma_escaped_concat(a, b.drop_last());
        assert((a + b).drop_last() =~= a + b.drop_last());
    }
}

} // verus!
