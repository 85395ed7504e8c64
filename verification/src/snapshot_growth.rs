//! What the size of a snapshot is made of: what its records take, whatever
//! they hold, and the widths of its texts.
use vstd::prelude::*;
use crate::snapshot::{
    escaped_len, grown, pause_reason_name, value_kind_text, with_binding, with_binding_items,
    with_bindings, with_frame, with_frame_items, with_literal, with_reason, with_span,
    with_string, with_tagged, with_unsigned, with_value, with_values, BindingSnapshot, DebugValue,
    Estimate, FrameSnapshot, SnapshotReason, VmSnapshot, MAX_DEPTH,
};
use crate::snapshot_json::lemma_escaped_concat;
use crate::wire_diagnostic::lit;

verus! {

/// The widths of some texts, together.
pub open spec fn widths(texts: Seq<Seq<char>>) -> nat
    decreases texts.len(),
{
    if texts.len() == 0 {
        0
    } else {
        widths(texts.drop_last()) + escaped_len(texts.last())
    }
}

/// The texts of a value, in their order.
pub open spec fn value_texts(value: DebugValue) -> Seq<Seq<char>>
    decreases value, 0nat,
{
    match value {
        DebugValue::Number(text)
        | DebugValue::String(text)
        | DebugValue::Function(text)
        | DebugValue::Closure(text)
        | DebugValue::Native(text) => seq![text@],
        DebugValue::List { object_id, items, truncated } => values_texts(items@, items@.len()),
        _ => Seq::empty(),
    }
}

/// The texts of the first `n` values.
pub open spec fn values_texts(values: Seq<DebugValue>, n: nat) -> Seq<Seq<char>>
    decreases values, n,
{
    if n == 0 || n > values.len() {
        Seq::empty()
    } else {
        values_texts(values, (n - 1) as nat) + value_texts(values[n - 1])
    }
}

pub open spec fn binding_texts(binding: BindingSnapshot) -> Seq<Seq<char>> {
    seq![binding.name@, binding.binding_kind@] + value_texts(binding.value)
}

/// The texts of the first `n` bindings.
pub open spec fn bindings_texts(bindings: Seq<BindingSnapshot>, n: nat) -> Seq<Seq<char>>
    decreases n,
{
    if n == 0 {
        Seq::empty()
    } else {
        bindings_texts(bindings, (n - 1) as nat) + binding_texts(bindings[n - 1])
    }
}

pub open spec fn frame_texts(frame: FrameSnapshot) -> Seq<Seq<char>> {
    seq![frame.function@] + bindings_texts(frame.parameters@, frame.parameters@.len())
        + bindings_texts(frame.locals@, frame.locals@.len()) + bindings_texts(
        frame.upvalues@,
        frame.upvalues@.len(),
    )
}

/// The texts of the first `n` calls.
pub open spec fn frames_texts(frames: Seq<FrameSnapshot>, n: nat) -> Seq<Seq<char>>
    decreases n,
{
    if n == 0 {
        Seq::empty()
    } else {
        frames_texts(frames, (n - 1) as nat) + frame_texts(frames[n - 1])
    }
}

/// Two values have one shape: they differ in their texts, numbers and flags
/// at most.
pub open spec fn values_alike(a: DebugValue, b: DebugValue) -> bool
    decreases a,
{
    match (a, b) {
        (DebugValue::Nil, DebugValue::Nil) => true,
        (DebugValue::Bool(_), DebugValue::Bool(_)) => true,
        (DebugValue::Number(_), DebugValue::Number(_)) => true,
        (DebugValue::String(_), DebugValue::String(_)) => true,
        (DebugValue::Function(_), DebugValue::Function(_)) => true,
        (DebugValue::Closure(_), DebugValue::Closure(_)) => true,
        (DebugValue::Native(_), DebugValue::Native(_)) => true,
        (
            DebugValue::List { object_id: _, items: x, truncated: _ },
            DebugValue::List { object_id: _, items: y, truncated: _ },
        ) => x@.len() == y@.len() && forall|n: int|
            0 <= n < x@.len() ==> values_alike(#[trigger] x@[n], y@[n]),
        (DebugValue::Cycle { object_id: _ }, DebugValue::Cycle { object_id: _ }) => true,
        (DebugValue::Truncated, DebugValue::Truncated) => true,
        _ => false,
    }
}

pub open spec fn binding_alike(a: BindingSnapshot, b: BindingSnapshot) -> bool {
    &&& (a.binding_id is Some) == (b.binding_id is Some)
    &&& a.value_kind == b.value_kind
    &&& values_alike(a.value, b.value)
}

pub open spec fn bindings_alike(a: Seq<BindingSnapshot>, b: Seq<BindingSnapshot>) -> bool {
    a.len() == b.len() && forall|i: int| 0 <= i < a.len() ==> binding_alike(#[trigger] a[i], b[i])
}

pub open spec fn frame_alike(a: FrameSnapshot, b: FrameSnapshot) -> bool {
    &&& (a.call_site is Some) == (b.call_site is Some)
    &&& bindings_alike(a.parameters@, b.parameters@)
    &&& bindings_alike(a.locals@, b.locals@)
    &&& bindings_alike(a.upvalues@, b.upvalues@)
}

impl VmSnapshot {
    /// The texts of the snapshot, in their order.
    pub open spec fn texts(self) -> Seq<Seq<char>> {
        frames_texts(self.frames@, self.frames@.len()) + bindings_texts(
            self.globals@,
            self.globals@.len(),
        )
    }

    /// Two snapshots have one shape: they differ in texts, numbers and flags
    /// at most.
    pub open spec fn is_alike(self, other: VmSnapshot) -> bool {
        &&& self.reason == other.reason
        &&& self.frames@.len() == other.frames@.len()
        &&& forall|i: int|
            0 <= i < self.frames@.len() ==> frame_alike(
                #[trigger] self.frames@[i],
                other.frames@[i],
            )
        &&& bindings_alike(self.globals@, other.globals@)
    }
}

proof fn lemma_widths_concat(a: Seq<Seq<char>>, b: Seq<Seq<char>>)
    ensures
        widths(a + b) == widths(a) + widths(b),
    decreases b.len(),
{
    if b.len() == 0 {
        assert(a + b =~= a);
    } else {
        lemma_widths_concat(a, b.drop_last());
        assert((a + b).drop_last() =~= a + b.drop_last());
    }
}

proof fn lemma_widths_one(text: Seq<char>)
    ensures
        widths(seq![text]) == escaped_len(text),
{
    assert(seq![text].drop_last() =~= Seq::empty());
    reveal_with_fuel(widths, 2);
}

/// A longer text is wider by what was added to it.
proof fn lemma_widths_appended(texts: Seq<Seq<char>>, i: int, more: Seq<char>)
    requires
        0 <= i < texts.len(),
    ensures
        widths(texts.update(i, texts[i] + more)) == widths(texts) + escaped_len(more),
    decreases texts.len(),
{
    let longer = texts.update(i, texts[i] + more);
    if i == texts.len() - 1 {
        assert(longer.drop_last() =~= texts.drop_last());
        lemma_escaped_concat(texts[i], more);
    } else {
        lemma_widths_appended(texts.drop_last(), i, more);
        assert(longer.drop_last() =~= texts.drop_last().update(i, texts[i] + more));
    }
}

/// `r` is `e` with `n` bytes more, as far as there is a size.
#[verifier::opaque]
spec fn adds(e: Estimate, n: nat, r: Estimate) -> bool {
    r matches Ok(size) ==> (e matches Ok(before) && size == before + n)
}

proof fn lemma_adds(e: Estimate, n: nat, r: Estimate, bytes: nat)
    requires
        adds(e, n, r),
    ensures
        adds(e, n + bytes, grown(r, bytes)),
{
    reveal(adds);
    reveal(grown);
}

proof fn lemma_literal(e: Estimate, n: nat, r: Estimate, text: &str)
    requires
        adds(e, n, r),
    ensures
        adds(e, n + lit(text), with_literal(r, text)),
{
    lemma_adds(e, n, r, lit(text));
}

proof fn lemma_string(e: Estimate, n: nat, r: Estimate, text: Seq<char>)
    requires
        adds(e, n, r),
    ensures
        adds(e, n + 2 + escaped_len(text), with_string(r, text)),
{
    lemma_adds(e, n, r, 2 + escaped_len(text));
}

proof fn lemma_labelled(e: Estimate, n: nat, r: Estimate, text: &str)
    requires
        adds(e, n, r),
    ensures
        adds(e, n + lit(text) + 20, with_unsigned(with_literal(r, text))),
{
    lemma_literal(e, n, r, text);
    lemma_adds(e, n + lit(text), with_literal(r, text), 20);
}

/// What a span takes.
spec fn span_fixed() -> nat {
    lit("{\"source_id\":") + 20 + lit(", \"revision\":") + 20 + lit(
        ", \"start\":{\"byte_offset\":",
    ) + 20 + lit(", \"line\":") + 20 + lit(", \"column\":") + 20 + lit(
        "},\"end\":{\"byte_offset\":",
    ) + 20 + lit(", \"line\":") + 20 + lit(", \"column\":") + 20 + lit("}}")
}

proof fn lemma_span(e: Estimate, n: nat, r: Estimate)
    requires
        adds(e, n, r),
    ensures
        adds(e, n + span_fixed(), with_span(r)),
{
    let r1 = with_unsigned(with_literal(r, "{\"source_id\":"));
    let n1 = n + lit("{\"source_id\":") + 20;
    lemma_labelled(e, n, r, "{\"source_id\":");
    let r2 = with_unsigned(with_literal(r1, ", \"revision\":"));
    let n2 = n1 + lit(", \"revision\":") + 20;
    lemma_labelled(e, n1, r1, ", \"revision\":");
    let r3 = with_unsigned(with_literal(r2, ", \"start\":{\"byte_offset\":"));
    let n3 = n2 + lit(", \"start\":{\"byte_offset\":") + 20;
    lemma_labelled(e, n2, r2, ", \"start\":{\"byte_offset\":");
    let r4 = with_unsigned(with_literal(r3, ", \"line\":"));
    let n4 = n3 + lit(", \"line\":") + 20;
    lemma_labelled(e, n3, r3, ", \"line\":");
    let r5 = with_unsigned(with_literal(r4, ", \"column\":"));
    let n5 = n4 + lit(", \"column\":") + 20;
    lemma_labelled(e, n4, r4, ", \"column\":");
    let r6 = with_unsigned(with_literal(r5, "},\"end\":{\"byte_offset\":"));
    let n6 = n5 + lit("},\"end\":{\"byte_offset\":") + 20;
    lemma_labelled(e, n5, r5, "},\"end\":{\"byte_offset\":");
    let r7 = with_unsigned(with_literal(r6, ", \"line\":"));
    let n7 = n6 + lit(", \"line\":") + 20;
    lemma_labelled(e, n6, r6, ", \"line\":");
    let r8 = with_unsigned(with_literal(r7, ", \"column\":"));
    let n8 = n7 + lit(", \"column\":") + 20;
    lemma_labelled(e, n7, r7, ", \"column\":");
    lemma_literal(e, n8, r8, "}}");
}

spec fn tagged_fixed(tag: &str) -> nat {
    lit("{\"kind\":\"") + lit(tag) + lit("\",\"payload\":") + 2 + lit("}")
}

proof fn lemma_tagged(e: Estimate, n: nat, r: Estimate, tag: &str, text: Seq<char>)
    requires
        adds(e, n, r),
    ensures
        adds(e, n + tagged_fixed(tag) + escaped_len(text), with_tagged(r, tag, text)),
{
    let r1 = with_literal(r, "{\"kind\":\"");
    let n1 = n + lit("{\"kind\":\"");
    lemma_literal(e, n, r, "{\"kind\":\"");
    let r2 = with_literal(r1, tag);
    let n2 = n1 + lit(tag);
    lemma_literal(e, n1, r1, tag);
    let r3 = with_literal(r2, "\",\"payload\":");
    let n3 = n2 + lit("\",\"payload\":");
    lemma_literal(e, n2, r2, "\",\"payload\":");
    lemma_string(e, n3, r3, text);
    lemma_literal(e, n3 + 2 + escaped_len(text), with_string(r3, text), "}");
}

spec fn list_fixed() -> nat {
    lit("{\"kind\":\"list\",\"payload\":{\"object_id\":") + 20 + lit(", \"items\":") + lit("[")
        + lit("]") + lit(", \"truncated\":false}}")
}

spec fn comma(n: nat) -> nat {
    if n > 1 {
        lit(",")
    } else {
        0
    }
}

/// What a value takes besides its texts.
spec fn value_fixed(value: DebugValue) -> nat
    decreases value, 0nat,
{
    match value {
        DebugValue::Nil => lit("{\"kind\":\"nil\"}"),
        DebugValue::Bool(_) => lit("{\"kind\":\"bool\",\"payload\":false}"),
        DebugValue::Number(_) => tagged_fixed("number"),
        DebugValue::String(_) => tagged_fixed("string"),
        DebugValue::Function(_) => tagged_fixed("function"),
        DebugValue::Closure(_) => tagged_fixed("closure"),
        DebugValue::Native(_) => tagged_fixed("native"),
        DebugValue::List { object_id, items, truncated } => list_fixed() + values_fixed(
            items@,
            items@.len(),
        ),
        DebugValue::Cycle { object_id } => lit("{\"kind\":\"cycle\",\"payload\":{\"object_id\":")
            + 20 + lit("}}"),
        DebugValue::Truncated => lit("{\"kind\":\"truncated\"}"),
    }
}

spec fn values_fixed(values: Seq<DebugValue>, n: nat) -> nat
    decreases values, n,
{
    if n == 0 || n > values.len() {
        0
    } else {
        values_fixed(values, (n - 1) as nat) + comma(n) + value_fixed(values[n - 1])
    }
}

proof fn lemma_value(e: Estimate, n: nat, r: Estimate, value: DebugValue, depth: nat)
    requires
        adds(e, n, r),
    ensures
        adds(
            e,
            n + value_fixed(value) + widths(value_texts(value)),
            with_value(r, value, depth),
        ),
    decreases value, 0nat,
{
    if r is Err || depth > MAX_DEPTH {
        reveal(adds);
    } else {
        match value {
            DebugValue::Nil => {
                lemma_literal(e, n, r, "{\"kind\":\"nil\"}");
            },
            DebugValue::Bool(_) => {
                lemma_literal(e, n, r, "{\"kind\":\"bool\",\"payload\":false}");
            },
            DebugValue::Number(text) => {
                lemma_widths_one(text@);
                lemma_tagged(e, n, r, "number", text@);
            },
            DebugValue::String(text) => {
                lemma_widths_one(text@);
                lemma_tagged(e, n, r, "string", text@);
            },
            DebugValue::Function(text) => {
                lemma_widths_one(text@);
                lemma_tagged(e, n, r, "function", text@);
            },
            DebugValue::Closure(text) => {
                lemma_widths_one(text@);
                lemma_tagged(e, n, r, "closure", text@);
            },
            DebugValue::Native(text) => {
                lemma_widths_one(text@);
                lemma_tagged(e, n, r, "native", text@);
            },
            DebugValue::List { object_id, items, truncated } => {
                let head = "{\"kind\":\"list\",\"payload\":{\"object_id\":";
                let r1 = with_unsigned(with_literal(r, head));
                let n1 = n + lit(head) + 20;
                lemma_labelled(e, n, r, head);
                let r2 = with_literal(r1, ", \"items\":");
                let n2 = n1 + lit(", \"items\":");
                lemma_literal(e, n1, r1, ", \"items\":");
                let r3 = with_literal(r2, "[");
                let n3 = n2 + lit("[");
                lemma_literal(e, n2, r2, "[");
                lemma_values(e, n3, r3, items@, items@.len(), depth + 1);
                let r4 = with_values(r3, items@, items@.len(), depth + 1);
                let n4 = n3 + values_fixed(items@, items@.len()) + widths(
                    values_texts(items@, items@.len()),
                );
                lemma_literal(e, n4, r4, "]");
                lemma_literal(
                    e,
                    n4 + lit("]"),
                    with_literal(r4, "]"),
                    ", \"truncated\":false}}",
                );
            },
            DebugValue::Cycle { object_id } => {
                let head = "{\"kind\":\"cycle\",\"payload\":{\"object_id\":";
                lemma_labelled(e, n, r, head);
                lemma_literal(
                    e,
                    n + lit(head) + 20,
                    with_unsigned(with_literal(r, head)),
                    "}}",
                );
            },
            DebugValue::Truncated => {
                lemma_literal(e, n, r, "{\"kind\":\"truncated\"}");
            },
        }
    }
}

proof fn lemma_values(
    e: Estimate,
    n: nat,
    r: Estimate,
    values: Seq<DebugValue>,
    count: nat,
    depth: nat,
)
    requires
        adds(e, n, r),
        count <= values.len(),
    ensures
        adds(
            e,
            n + values_fixed(values, count) + widths(values_texts(values, count)),
            with_values(r, values, count, depth),
        ),
    decreases values, count,
{
    if count > 0 {
        let less = (count - 1) as nat;
        lemma_values(e, n, r, values, less, depth);
        let r1 = with_values(r, values, less, depth);
        let n1 = n + values_fixed(values, less) + widths(values_texts(values, less));
        lemma_literal(e, n1, r1, ",");
        lemma_widths_concat(values_texts(values, less), value_texts(values[count - 1]));
        if count > 1 {
            lemma_value(e, n1 + lit(","), with_literal(r1, ","), values[count - 1], depth);
        } else {
            lemma_value(e, n1, r1, values[count - 1], depth);
        }
    }
}

/// What a binding takes besides its texts.
#[verifier::opaque]
spec fn binding_fixed(binding: BindingSnapshot) -> nat {
    lit("{\"binding_id\":") + (if binding.binding_id is Some {
        20
    } else {
        lit("null")
    }) + lit(", \"name\":") + 2 + lit(", \"name_truncated\":false,\"binding_kind\":") + 2 + lit(
        ", \"value_kind\":",
    ) + 2 + escaped_len(value_kind_text(binding.value_kind)) + lit(", \"value\":") + value_fixed(
        binding.value,
    ) + lit("}")
}

/// The widths of the texts of a binding.
proof fn lemma_binding_widths(binding: BindingSnapshot)
    ensures
        widths(binding_texts(binding)) == escaped_len(binding.name@) + escaped_len(
            binding.binding_kind@,
        ) + widths(value_texts(binding.value)),
{
    let own = seq![binding.name@, binding.binding_kind@];
    lemma_widths_concat(own, value_texts(binding.value));
    assert(own =~= seq![binding.name@] + seq![binding.binding_kind@]);
    lemma_widths_concat(seq![binding.name@], seq![binding.binding_kind@]);
    lemma_widths_one(binding.name@);
    lemma_widths_one(binding.binding_kind@);
}

#[verifier::opaque]
spec fn one_binding(e: Estimate, binding: BindingSnapshot) -> Estimate {
    with_binding(e, binding)
}

proof fn lemma_binding(e: Estimate, n: nat, r: Estimate, binding: BindingSnapshot)
    requires
        adds(e, n, r),
    ensures
        adds(
            e,
            n + binding_fixed(binding) + widths(binding_texts(binding)),
            one_binding(r, binding),
        ),
{
    reveal(binding_fixed);
    reveal(one_binding);
    lemma_binding_widths(binding);
    let r1 = with_literal(r, "{\"binding_id\":");
    let n1 = n + lit("{\"binding_id\":");
    lemma_literal(e, n, r, "{\"binding_id\":");
    let r2 = if binding.binding_id is Some {
        with_unsigned(r1)
    } else {
        with_literal(r1, "null")
    };
    let n2 = n1 + (if binding.binding_id is Some {
        20
    } else {
        lit("null")
    });
    if binding.binding_id is Some {
        lemma_adds(e, n1, r1, 20);
    } else {
        lemma_literal(e, n1, r1, "null");
    }
    let r3 = with_literal(r2, ", \"name\":");
    let n3 = n2 + lit(", \"name\":");
    lemma_literal(e, n2, r2, ", \"name\":");
    let r4 = with_string(r3, binding.name@);
    let n4 = n3 + 2 + escaped_len(binding.name@);
    lemma_string(e, n3, r3, binding.name@);
    let r5 = with_literal(r4, ", \"name_truncated\":false,\"binding_kind\":");
    let n5 = n4 + lit(", \"name_truncated\":false,\"binding_kind\":");
    lemma_literal(e, n4, r4, ", \"name_truncated\":false,\"binding_kind\":");
    let r6 = with_string(r5, binding.binding_kind@);
    let n6 = n5 + 2 + escaped_len(binding.binding_kind@);
    lemma_string(e, n5, r5, binding.binding_kind@);
    let r7 = with_literal(r6, ", \"value_kind\":");
    let n7 = n6 + lit(", \"value_kind\":");
    lemma_literal(e, n6, r6, ", \"value_kind\":");
    let kind = value_kind_text(binding.value_kind);
    let r8 = with_string(r7, kind);
    let n8 = n7 + 2 + escaped_len(kind);
    lemma_string(e, n7, r7, kind);
    let r9 = with_literal(r8, ", \"value\":");
    let n9 = n8 + lit(", \"value\":");
    lemma_literal(e, n8, r8, ", \"value\":");
    lemma_value(e, n9, r9, binding.value, 0);
    lemma_literal(
        e,
        n9 + value_fixed(binding.value) + widths(value_texts(binding.value)),
        with_value(r9, binding.value, 0),
        "}",
    );
}

spec fn binding_items_fixed(bindings: Seq<BindingSnapshot>, n: nat) -> nat
    decreases n,
{
    if n == 0 {
        0
    } else {
        binding_items_fixed(bindings, (n - 1) as nat) + comma(n) + binding_fixed(bindings[n - 1])
    }
}

proof fn lemma_binding_items_are(e: Estimate, bindings: Seq<BindingSnapshot>, count: nat)
    requires
        count > 0,
    ensures
        with_binding_items(e, bindings, count) == one_binding(
            if count > 1 {
                with_literal(with_binding_items(e, bindings, (count - 1) as nat), ",")
            } else {
                with_binding_items(e, bindings, (count - 1) as nat)
            },
            bindings[count - 1],
        ),
{
    reveal(one_binding);
}

proof fn lemma_binding_items(
    e: Estimate,
    n: nat,
    r: Estimate,
    bindings: Seq<BindingSnapshot>,
    count: nat,
)
    requires
        adds(e, n, r),
    ensures
        adds(
            e,
            n + binding_items_fixed(bindings, count) + widths(bindings_texts(bindings, count)),
            with_binding_items(r, bindings, count),
        ),
    decreases count,
{
    if count > 0 {
        let less = (count - 1) as nat;
        lemma_binding_items(e, n, r, bindings, less);
        lemma_binding_items_are(r, bindings, count);
        let r1 = with_binding_items(r, bindings, less);
        let n1 = n + binding_items_fixed(bindings, less) + widths(bindings_texts(bindings, less));
        lemma_literal(e, n1, r1, ",");
        lemma_widths_concat(bindings_texts(bindings, less), binding_texts(bindings[count - 1]));
        if count > 1 {
            lemma_binding(e, n1 + lit(","), with_literal(r1, ","), bindings[count - 1]);
        } else {
            lemma_binding(e, n1, r1, bindings[count - 1]);
        }
    }
}

#[verifier::opaque]
spec fn bindings_fixed(bindings: Seq<BindingSnapshot>) -> nat {
    lit("[") + binding_items_fixed(bindings, bindings.len()) + lit("]")
}

proof fn lemma_bindings(e: Estimate, n: nat, r: Estimate, bindings: Seq<BindingSnapshot>)
    requires
        adds(e, n, r),
    ensures
        adds(
            e,
            n + bindings_fixed(bindings) + widths(bindings_texts(bindings, bindings.len())),
            with_bindings(r, bindings),
        ),
{
    reveal(bindings_fixed);
    let r1 = with_literal(r, "[");
    let n1 = n + lit("[");
    lemma_literal(e, n, r, "[");
    lemma_binding_items(e, n1, r1, bindings, bindings.len());
    lemma_literal(
        e,
        n1 + binding_items_fixed(bindings, bindings.len()) + widths(
            bindings_texts(bindings, bindings.len()),
        ),
        with_binding_items(r1, bindings, bindings.len()),
        "]",
    );
}

/// What a call takes besides its texts.
#[verifier::opaque]
spec fn frame_fixed(frame: FrameSnapshot) -> nat {
    lit("{\"activation_id\":") + 20 + lit(", \"function\":") + 2 + lit(
        ", \"function_truncated\":false,\"current_span\":",
    ) + span_fixed() + lit(", \"call_site\":") + (if frame.call_site is Some {
        span_fixed()
    } else {
        lit("null")
    }) + lit(", \"parameters\":") + bindings_fixed(frame.parameters@) + lit(
        ", \"parameters_truncated\":false,\"locals\":",
    ) + bindings_fixed(frame.locals@) + lit(", \"locals_truncated\":false,\"upvalues\":")
        + bindings_fixed(frame.upvalues@) + lit(", \"upvalues_truncated\":false}")
}

proof fn lemma_frame_widths(frame: FrameSnapshot)
    ensures
        widths(frame_texts(frame)) == escaped_len(frame.function@) + widths(
            bindings_texts(frame.parameters@, frame.parameters@.len()),
        ) + widths(bindings_texts(frame.locals@, frame.locals@.len())) + widths(
            bindings_texts(frame.upvalues@, frame.upvalues@.len()),
        ),
{
    let name = seq![frame.function@];
    let parameters = bindings_texts(frame.parameters@, frame.parameters@.len());
    let locals = bindings_texts(frame.locals@, frame.locals@.len());
    let upvalues = bindings_texts(frame.upvalues@, frame.upvalues@.len());
    lemma_widths_one(frame.function@);
    lemma_widths_concat(name, parameters);
    lemma_widths_concat(name + parameters, locals);
    lemma_widths_concat(name + parameters + locals, upvalues);
}

#[verifier::opaque]
spec fn one_frame(e: Estimate, frame: FrameSnapshot) -> Estimate {
    with_frame(e, frame)
}

proof fn lemma_frame(e: Estimate, n: nat, r: Estimate, frame: FrameSnapshot)
    requires
        adds(e, n, r),
    ensures
        adds(e, n + frame_fixed(frame) + widths(frame_texts(frame)), one_frame(r, frame)),
{
    reveal(frame_fixed);
    reveal(one_frame);
    lemma_frame_widths(frame);
    let r1 = with_unsigned(with_literal(r, "{\"activation_id\":"));
    let n1 = n + lit("{\"activation_id\":") + 20;
    lemma_labelled(e, n, r, "{\"activation_id\":");
    let r2 = with_literal(r1, ", \"function\":");
    let n2 = n1 + lit(", \"function\":");
    lemma_literal(e, n1, r1, ", \"function\":");
    let r3 = with_string(r2, frame.function@);
    let n3 = n2 + 2 + escaped_len(frame.function@);
    lemma_string(e, n2, r2, frame.function@);
    let r4 = with_literal(r3, ", \"function_truncated\":false,\"current_span\":");
    let n4 = n3 + lit(", \"function_truncated\":false,\"current_span\":");
    lemma_literal(e, n3, r3, ", \"function_truncated\":false,\"current_span\":");
    let r5 = with_span(r4);
    let n5 = n4 + span_fixed();
    lemma_span(e, n4, r4);
    let r6 = with_literal(r5, ", \"call_site\":");
    let n6 = n5 + lit(", \"call_site\":");
    lemma_literal(e, n5, r5, ", \"call_site\":");
    let r7 = if frame.call_site is Some {
        with_span(r6)
    } else {
        with_literal(r6, "null")
    };
    let n7 = n6 + (if frame.call_site is Some {
        span_fixed()
    } else {
        lit("null")
    });
    if frame.call_site is Some {
        lemma_span(e, n6, r6);
    } else {
        lemma_literal(e, n6, r6, "null");
    }
    let r8 = with_literal(r7, ", \"parameters\":");
    let n8 = n7 + lit(", \"parameters\":");
    lemma_literal(e, n7, r7, ", \"parameters\":");
    let r9 = with_bindings(r8, frame.parameters@);
    let n9 = n8 + bindings_fixed(frame.parameters@) + widths(
        bindings_texts(frame.parameters@, frame.parameters@.len()),
    );
    lemma_bindings(e, n8, r8, frame.parameters@);
    let r10 = with_literal(r9, ", \"parameters_truncated\":false,\"locals\":");
    let n10 = n9 + lit(", \"parameters_truncated\":false,\"locals\":");
    lemma_literal(e, n9, r9, ", \"parameters_truncated\":false,\"locals\":");
    let r11 = with_bindings(r10, frame.locals@);
    let n11 = n10 + bindings_fixed(frame.locals@) + widths(
        bindings_texts(frame.locals@, frame.locals@.len()),
    );
    lemma_bindings(e, n10, r10, frame.locals@);
    let r12 = with_literal(r11, ", \"locals_truncated\":false,\"upvalues\":");
    let n12 = n11 + lit(", \"locals_truncated\":false,\"upvalues\":");
    lemma_literal(e, n11, r11, ", \"locals_truncated\":false,\"upvalues\":");
    let r13 = with_bindings(r12, frame.upvalues@);
    let n13 = n12 + bindings_fixed(frame.upvalues@) + widths(
        bindings_texts(frame.upvalues@, frame.upvalues@.len()),
    );
    lemma_bindings(e, n12, r12, frame.upvalues@);
    lemma_literal(e, n13, r13, ", \"upvalues_truncated\":false}");
}

spec fn frame_items_fixed(frames: Seq<FrameSnapshot>, n: nat) -> nat
    decreases n,
{
    if n == 0 {
        0
    } else {
        frame_items_fixed(frames, (n - 1) as nat) + comma(n) + frame_fixed(frames[n - 1])
    }
}

proof fn lemma_frame_items_are(e: Estimate, frames: Seq<FrameSnapshot>, count: nat)
    requires
        count > 0,
    ensures
        with_frame_items(e, frames, count) == one_frame(
            if count > 1 {
                with_literal(with_frame_items(e, frames, (count - 1) as nat), ",")
            } else {
                with_frame_items(e, frames, (count - 1) as nat)
            },
            frames[count - 1],
        ),
{
    reveal(one_frame);
}

proof fn lemma_frame_items(
    e: Estimate,
    n: nat,
    r: Estimate,
    frames: Seq<FrameSnapshot>,
    count: nat,
)
    requires
        adds(e, n, r),
    ensures
        adds(
            e,
            n + frame_items_fixed(frames, count) + widths(frames_texts(frames, count)),
            with_frame_items(r, frames, count),
        ),
    decreases count,
{
    if count > 0 {
        let less = (count - 1) as nat;
        lemma_frame_items(e, n, r, frames, less);
        lemma_frame_items_are(r, frames, count);
        let r1 = with_frame_items(r, frames, less);
        let n1 = n + frame_items_fixed(frames, less) + widths(frames_texts(frames, less));
        lemma_literal(e, n1, r1, ",");
        lemma_widths_concat(frames_texts(frames, less), frame_texts(frames[count - 1]));
        if count > 1 {
            lemma_frame(e, n1 + lit(","), with_literal(r1, ","), frames[count - 1]);
        } else {
            lemma_frame(e, n1, r1, frames[count - 1]);
        }
    }
}

spec fn reason_fixed(reason: SnapshotReason) -> nat {
    match reason {
        SnapshotReason::Paused(reason) => lit("{\"kind\":\"paused\",\"payload\":") + 2
            + escaped_len(pause_reason_name(reason)) + lit("}"),
        SnapshotReason::Faulted => lit("{\"kind\":\"faulted\"}"),
        SnapshotReason::Cancelled => lit("{\"kind\":\"cancelled\"}"),
    }
}

proof fn lemma_reason(e: Estimate, n: nat, r: Estimate, reason: SnapshotReason)
    requires
        adds(e, n, r),
    ensures
        adds(e, n + reason_fixed(reason), with_reason(r, reason)),
{
    match reason {
        SnapshotReason::Paused(pause) => {
            let head = "{\"kind\":\"paused\",\"payload\":";
            let name = pause_reason_name(pause);
            lemma_literal(e, n, r, head);
            lemma_string(e, n + lit(head), with_literal(r, head), name);
            lemma_literal(
                e,
                n + lit(head) + 2 + escaped_len(name),
                with_string(with_literal(r, head), name),
                "}",
            );
        },
        SnapshotReason::Faulted => {
            lemma_literal(e, n, r, "{\"kind\":\"faulted\"}");
        },
        SnapshotReason::Cancelled => {
            lemma_literal(e, n, r, "{\"kind\":\"cancelled\"}");
        },
    }
}

/// What a snapshot takes besides its texts.
spec fn snapshot_fixed(s: VmSnapshot) -> nat {
    lit("{\"reason\":") + reason_fixed(s.reason) + lit(", \"current_span\":") + span_fixed() + lit(
        ", \"frames\":",
    ) + lit("[") + frame_items_fixed(s.frames@, s.frames@.len()) + lit("]") + lit(
        ", \"frames_truncated\":false,",
    ) + lit("\"globals\":") + bindings_fixed(s.globals@) + lit(", \"globals_truncated\":false}")
}

/// The size of a snapshot is what its records take and the widths of its texts.
proof fn lemma_snapshot(s: VmSnapshot)
    ensures
        s.estimate() matches Ok(size) ==> size == snapshot_fixed(s) + widths(s.texts()),
{
    let frames = s.frames@;
    lemma_widths_concat(
        frames_texts(frames, frames.len()),
        bindings_texts(s.globals@, s.globals@.len()),
    );
    let e = Estimate::Ok(0);
    assert(adds(e, 0, e)) by {
        reveal(adds);
    }
    let r1 = with_literal(e, "{\"reason\":");
    let n1 = lit("{\"reason\":");
    lemma_literal(e, 0, e, "{\"reason\":");
    let r2 = with_reason(r1, s.reason);
    let n2 = n1 + reason_fixed(s.reason);
    lemma_reason(e, n1, r1, s.reason);
    let r3 = with_literal(r2, ", \"current_span\":");
    let n3 = n2 + lit(", \"current_span\":");
    lemma_literal(e, n2, r2, ", \"current_span\":");
    let r4 = with_span(r3);
    let n4 = n3 + span_fixed();
    lemma_span(e, n3, r3);
    let r5 = with_literal(r4, ", \"frames\":");
    let n5 = n4 + lit(", \"frames\":");
    lemma_literal(e, n4, r4, ", \"frames\":");
    let r6 = with_literal(r5, "[");
    let n6 = n5 + lit("[");
    lemma_literal(e, n5, r5, "[");
    let r7 = with_frame_items(r6, frames, frames.len());
    let n7 = n6 + frame_items_fixed(frames, frames.len()) + widths(
        frames_texts(frames, frames.len()),
    );
    lemma_frame_items(e, n6, r6, frames, frames.len());
    let r8 = with_literal(r7, "]");
    let n8 = n7 + lit("]");
    lemma_literal(e, n7, r7, "]");
    let r9 = with_literal(r8, ", \"frames_truncated\":false,");
    let n9 = n8 + lit(", \"frames_truncated\":false,");
    lemma_literal(e, n8, r8, ", \"frames_truncated\":false,");
    let r10 = with_literal(r9, "\"globals\":");
    let n10 = n9 + lit("\"globals\":");
    lemma_literal(e, n9, r9, "\"globals\":");
    let r11 = with_bindings(r10, s.globals@);
    let n11 = n10 + bindings_fixed(s.globals@) + widths(
        bindings_texts(s.globals@, s.globals@.len()),
    );
    lemma_bindings(e, n10, r10, s.globals@);
    lemma_literal(e, n11, r11, ", \"globals_truncated\":false}");
    reveal(adds);
}

proof fn lemma_value_alike(a: DebugValue, b: DebugValue)
    requires
        values_alike(a, b),
    ensures
        value_fixed(a) == value_fixed(b),
    decreases a, 0nat,
{
    if let DebugValue::List { object_id: _, items: x, truncated: _ } = a {
        if let DebugValue::List { object_id: _, items: y, truncated: _ } = b {
            lemma_values_alike(x@, y@, x@.len());
        }
    }
}

proof fn lemma_values_alike(a: Seq<DebugValue>, b: Seq<DebugValue>, n: nat)
    requires
        n <= a.len() == b.len(),
        forall|i: int| 0 <= i < a.len() ==> values_alike(#[trigger] a[i], b[i]),
    ensures
        values_fixed(a, n) == values_fixed(b, n),
    decreases a, n,
{
    if n > 0 {
        lemma_values_alike(a, b, (n - 1) as nat);
        assert(values_alike(a[n - 1], b[n - 1]));
        lemma_value_alike(a[n - 1], b[n - 1]);
    }
}

proof fn lemma_bindings_alike(a: Seq<BindingSnapshot>, b: Seq<BindingSnapshot>)
    requires
        bindings_alike(a, b),
    ensures
        bindings_fixed(a) == bindings_fixed(b),
{
    reveal(bindings_fixed);
    lemma_binding_items_alike(a, b, a.len());
}

proof fn lemma_binding_items_alike(a: Seq<BindingSnapshot>, b: Seq<BindingSnapshot>, n: nat)
    requires
        bindings_alike(a, b),
        n <= a.len(),
    ensures
        binding_items_fixed(a, n) == binding_items_fixed(b, n),
    decreases n,
{
    if n > 0 {
        lemma_binding_items_alike(a, b, (n - 1) as nat);
        assert(binding_alike(a[n - 1], b[n - 1]));
        reveal(binding_fixed);
        lemma_value_alike(a[n - 1].value, b[n - 1].value);
    }
}

proof fn lemma_frames_alike(a: Seq<FrameSnapshot>, b: Seq<FrameSnapshot>, n: nat)
    requires
        n <= a.len() == b.len(),
        forall|i: int| 0 <= i < a.len() ==> frame_alike(#[trigger] a[i], b[i]),
    ensures
        frame_items_fixed(a, n) == frame_items_fixed(b, n),
    decreases n,
{
    if n > 0 {
        lemma_frames_alike(a, b, (n - 1) as nat);
        let x = a[n - 1];
        let y = b[n - 1];
        assert(frame_alike(x, y));
        reveal(frame_fixed);
        lemma_bindings_alike(x.parameters@, y.parameters@);
        lemma_bindings_alike(x.locals@, y.locals@);
        lemma_bindings_alike(x.upvalues@, y.upvalues@);
    }
}

/// The sizes of snapshots of one shape differ by the widths of their texts.
pub proof fn law_sizes_differ_by_widths(a: VmSnapshot, b: VmSnapshot)
    requires
        a.is_alike(b),
        a.estimate() is Ok,
        b.estimate() is Ok,
    ensures
        b.estimate()->Ok_0 - a.estimate()->Ok_0 == widths(b.texts()) - widths(a.texts()),
{
    lemma_snapshot(a);
    lemma_snapshot(b);
    lemma_frames_alike(a.frames@, b.frames@, a.frames@.len());
    lemma_bindings_alike(a.globals@, b.globals@);
}

/// More behind one text of a snapshot, be it the name of a binding, its kind,
/// the name of a function or what a value shows, makes the snapshot larger by
/// the widths of the scalars that are added. Numbers and flags may differ too.
pub proof fn law_appended_text_adds_its_width(
    a: VmSnapshot,
    b: VmSnapshot,
    i: int,
    more: Seq<char>,
)
    requires
        a.is_alike(b),
        0 <= i < a.texts().len(),
        b.texts() == a.texts().update(i, a.texts()[i] + more),
        a.estimate() is Ok,
        b.estimate() is Ok,
    ensures
        b.estimate()->Ok_0 == a.estimate()->Ok_0 + escaped_len(more),
{
    law_sizes_differ_by_widths(a, b);
    lemma_widths_appended(a.texts(), i, more);
}

/// Snapshots of one shape with the same texts have one size, whatever their
/// numbers and flags.
pub proof fn law_numbers_and_flags_add_nothing(a: VmSnapshot, b: VmSnapshot)
    requires
        a.is_alike(b),
        a.texts() == b.texts(),
        a.estimate() is Ok,
        b.estimate() is Ok,
    ensures
        b.estimate() == a.estimate(),
{
    law_sizes_differ_by_widths(a, b);
}

} // verus!
