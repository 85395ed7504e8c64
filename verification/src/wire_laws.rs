//! That a tag on the wire says what it is the tag of.
use vstd::prelude::*;
use crate::faults::decimal;
use crate::printing_laws::law_digits_spell_their_number;
use crate::session::PauseReason;
use crate::snapshot::{DebugValue, SnapshotReason};
use crate::source::{SourceSpan, TextPosition};
use crate::text::{lemma_utf8_len_concat, utf8_len};
use crate::wire::{
    kind_of_value, payload_of, reason_of, DebugValueKind, DebugValuePayload, SnapshotReasonKind,
};
use crate::wire_diagnostic::{
    digits, frame_bytes, frames_bytes, json_text, lemma_json_text, phase_name, position_bytes,
    severity_name, span_bytes, WireDiagnostic, WireRuntimeFrame,
};

verus! {

/// The tag of a value is its own, and the payload holds what the value does.
pub proof fn law_tags_say_what_values_are(value: DebugValue)
    ensures
        match kind_of_value(value) {
            DebugValueKind::Nil => value is Nil,
            DebugValueKind::Bool => value is Bool,
            DebugValueKind::Number => value is Number,
            DebugValueKind::String => value is String,
            DebugValueKind::Function => value is Function,
            DebugValueKind::Closure => value is Closure,
            DebugValueKind::Native => value is Native,
            DebugValueKind::List => value is List,
            DebugValueKind::Cycle => value is Cycle,
            DebugValueKind::Truncated => value is Truncated,
        },
        value matches DebugValue::Bool(b) ==> payload_of(value) == Some(DebugValuePayload::Bool(b)),
        payload_of(value) is None <==> value is Nil || value is Truncated,
{
}

/// A reason is read for what it is: a pause has one of its own, and the others
/// have none.
pub proof fn law_reasons_are_read_as_they_are(
    kind: SnapshotReasonKind,
    payload: Option<PauseReason>,
)
    ensures
        reason_of(kind, payload) is None <==> (kind is Paused <==> payload is None),
        reason_of(kind, payload) matches Some(reason) ==> match reason {
            SnapshotReason::Paused(pause) => kind is Paused && payload == Some(pause),
            SnapshotReason::Faulted => kind is Faulted,
            SnapshotReason::Cancelled => kind is Cancelled,
        },
{
}

/// A text as JSON.
pub open spec fn json_string(text: Seq<char>) -> Seq<char> {
    seq!['"'] + json_text(text) + seq!['"']
}

pub open spec fn json_bool(b: bool) -> Seq<char> {
    if b {
        "true"@
    } else {
        "false"@
    }
}

pub open spec fn json_position(p: TextPosition) -> Seq<char> {
    "{\"byte_offset\":"@ + decimal(p.byte_offset as nat) + ",\"line\":"@ + decimal(p.line as nat)
        + ",\"column\":"@ + decimal(p.column as nat) + "}"@
}

pub open spec fn json_span(span: SourceSpan) -> Seq<char> {
    "{\"source_id\":"@ + decimal(span.source_id.0 as nat) + ",\"revision\":"@ + decimal(
        span.revision.0 as nat,
    ) + ",\"start\":"@ + json_position(span.start) + ",\"end\":"@ + json_position(span.end) + "}"@
}

pub open spec fn json_frame(frame: WireRuntimeFrame) -> Seq<char> {
    "{\"function\":"@ + json_string(frame.function@) + ",\"function_truncated\":"@ + json_bool(
        frame.function_truncated,
    ) + ",\"span\":"@ + json_span(frame.span) + "}"@
}

/// Calls as JSON, with commas between them.
pub open spec fn json_frames(frames: Seq<WireRuntimeFrame>) -> Seq<char>
    decreases frames.len(),
{
    if frames.len() == 0 {
        Seq::empty()
    } else if frames.len() == 1 {
        json_frame(frames[0])
    } else {
        json_frames(frames.drop_last()) + seq![','] + json_frame(frames.last())
    }
}

/// A diagnostic as JSON, without white space.
pub open spec fn json_diagnostic(d: WireDiagnostic) -> Seq<char> {
    "{\"phase\":"@ + json_string(phase_name(d.phase)) + ",\"severity\":"@ + json_string(
        severity_name(d.severity),
    ) + ",\"code\":"@ + json_string(d.code@) + ",\"code_truncated\":"@ + json_bool(
        d.code_truncated,
    ) + ",\"message\":"@ + json_string(d.message@) + ",\"message_truncated\":"@ + json_bool(
        d.message_truncated,
    ) + ",\"span\":"@ + json_span(d.span) + ",\"frames\":["@ + json_frames(d.frames@)
        + "],\"frames_truncated\":"@ + json_bool(d.frames_truncated) + "}"@
}

proof fn lemma_ascii(text: Seq<char>)
    requires
        forall|i: int| 0 <= i < text.len() ==> (#[trigger] text[i] as u32) < 0x80,
    ensures
        utf8_len(text) == text.len(),
    decreases text.len(),
{
    if text.len() > 0 {
        assert((text[text.len() - 1] as u32) < 0x80);
        lemma_ascii(text.drop_last());
    }
}

proof fn lemma_decimal(n: nat)
    ensures
        utf8_len(decimal(n)) == digits(n),
{
    law_digits_spell_their_number(n);
    lemma_ascii(decimal(n));
}

proof fn lemma_bool(b: bool)
    ensures
        utf8_len(json_bool(b)) == crate::wire_diagnostic::bool_bytes(b),
{
    reveal_strlit("true");
    reveal_strlit("false");
    lemma_ascii("true"@);
    lemma_ascii("false"@);
}

proof fn lemma_position(p: TextPosition)
    ensures
        utf8_len(json_position(p)) == position_bytes(p),
{
    let a = "{\"byte_offset\":"@;
    let b = a + decimal(p.byte_offset as nat);
    let c = b + ",\"line\":"@;
    let d = c + decimal(p.line as nat);
    let e = d + ",\"column\":"@;
    let f = e + decimal(p.column as nat);
    lemma_decimal(p.byte_offset as nat);
    lemma_decimal(p.line as nat);
    lemma_decimal(p.column as nat);
    lemma_utf8_len_concat(a, decimal(p.byte_offset as nat));
    lemma_utf8_len_concat(b, ",\"line\":"@);
    lemma_utf8_len_concat(c, decimal(p.line as nat));
    lemma_utf8_len_concat(d, ",\"column\":"@);
    lemma_utf8_len_concat(e, decimal(p.column as nat));
    lemma_utf8_len_concat(f, "}"@);
}

proof fn lemma_span(span: SourceSpan)
    ensures
        utf8_len(json_span(span)) == span_bytes(span),
{
    let id = decimal(span.source_id.0 as nat);
    let revision = decimal(span.revision.0 as nat);
    let a = "{\"source_id\":"@;
    let b = a + id;
    let c = b + ",\"revision\":"@;
    let d = c + revision;
    let e = d + ",\"start\":"@;
    let f = e + json_position(span.start);
    let g = f + ",\"end\":"@;
    let h = g + json_position(span.end);
    lemma_decimal(span.source_id.0 as nat);
    lemma_decimal(span.revision.0 as nat);
    lemma_position(span.start);
    lemma_position(span.end);
    lemma_utf8_len_concat(a, id);
    lemma_utf8_len_concat(b, ",\"revision\":"@);
    lemma_utf8_len_concat(c, revision);
    lemma_utf8_len_concat(d, ",\"start\":"@);
    lemma_utf8_len_concat(e, json_position(span.start));
    lemma_utf8_len_concat(f, ",\"end\":"@);
    lemma_utf8_len_concat(g, json_position(span.end));
    lemma_utf8_len_concat(h, "}"@);
}

proof fn lemma_frame(frame: WireRuntimeFrame)
    ensures
        utf8_len(json_frame(frame)) == frame_bytes(frame),
{
    let name = json_string(frame.function@);
    let cut = json_bool(frame.function_truncated);
    let a = "{\"function\":"@;
    let b = a + name;
    let c = b + ",\"function_truncated\":"@;
    let d = c + cut;
    let e = d + ",\"span\":"@;
    let f = e + json_span(frame.span);
    lemma_json_text(frame.function@);
    lemma_bool(frame.function_truncated);
    lemma_span(frame.span);
    lemma_utf8_len_concat(a, name);
    lemma_utf8_len_concat(b, ",\"function_truncated\":"@);
    lemma_utf8_len_concat(c, cut);
    lemma_utf8_len_concat(d, ",\"span\":"@);
    lemma_utf8_len_concat(e, json_span(frame.span));
    lemma_utf8_len_concat(f, "}"@);
}

proof fn lemma_frames(frames: Seq<WireRuntimeFrame>, n: int)
    requires
        0 <= n <= frames.len(),
    ensures
        utf8_len(json_frames(frames.take(n))) == frames_bytes(frames, n),
    decreases n,
{
    let part = frames.take(n);
    if n > 0 {
        assert(part.last() == frames[n - 1]);
        assert(part.drop_last() =~= frames.take(n - 1));
        lemma_frame(frames[n - 1]);
        if n > 1 {
            lemma_frames(frames, n - 1);
            let before = json_frames(frames.take(n - 1));
            lemma_ascii(seq![',']);
            lemma_utf8_len_concat(before, seq![',']);
            lemma_utf8_len_concat(before + seq![','], json_frame(frames[n - 1]));
        } else {
            assert(part[0] == frames[0]);
            assert(frames_bytes(frames, 0) == 0);
        }
    }
}

/// The size of a diagnostic is that of its JSON.
pub proof fn law_sizes_of_diagnostics_are_those_of_their_json(d: WireDiagnostic)
    ensures
        d.json_bytes() == utf8_len(json_diagnostic(d)),
{
    let phase = json_string(phase_name(d.phase));
    let severity = json_string(severity_name(d.severity));
    let code = json_string(d.code@);
    let code_cut = json_bool(d.code_truncated);
    let message = json_string(d.message@);
    let message_cut = json_bool(d.message_truncated);
    let span = json_span(d.span);
    let frames = json_frames(d.frames@);
    let frames_cut = json_bool(d.frames_truncated);
    lemma_json_text(phase_name(d.phase));
    lemma_json_text(severity_name(d.severity));
    lemma_json_text(d.code@);
    lemma_json_text(d.message@);
    lemma_bool(d.code_truncated);
    lemma_bool(d.message_truncated);
    lemma_bool(d.frames_truncated);
    lemma_span(d.span);
    lemma_frames(d.frames@, d.frames@.len() as int);
    assert(d.frames@.take(d.frames@.len() as int) =~= d.frames@);
    let a = "{\"phase\":"@;
    let b = a + phase;
    let c = b + ",\"severity\":"@;
    let e = c + severity;
    let f = e + ",\"code\":"@;
    let g = f + code;
    let h = g + ",\"code_truncated\":"@;
    let i = h + code_cut;
    let j = i + ",\"message\":"@;
    let k = j + message;
    let l = k + ",\"message_truncated\":"@;
    let m = l + message_cut;
    let n = m + ",\"span\":"@;
    let o = n + span;
    let p = o + ",\"frames\":["@;
    let q = p + frames;
    let r = q + "],\"frames_truncated\":"@;
    let s = r + frames_cut;
    lemma_utf8_len_concat(a, phase);
    lemma_utf8_len_concat(b, ",\"severity\":"@);
    lemma_utf8_len_concat(c, severity);
    lemma_utf8_len_concat(e, ",\"code\":"@);
    lemma_utf8_len_concat(f, code);
    lemma_utf8_len_concat(g, ",\"code_truncated\":"@);
    lemma_utf8_len_concat(h, code_cut);
    lemma_utf8_len_concat(i, ",\"message\":"@);
    lemma_utf8_len_concat(j, message);
    lemma_utf8_len_concat(k, ",\"message_truncated\":"@);
    lemma_utf8_len_concat(l, message_cut);
    lemma_utf8_len_concat(m, ",\"span\":"@);
    lemma_utf8_len_concat(n, span);
    lemma_utf8_len_concat(o, ",\"frames\":["@);
    lemma_utf8_len_concat(p, frames);
    lemma_utf8_len_concat(q, "],\"frames_truncated\":"@);
    lemma_utf8_len_concat(r, frames_cut);
    lemma_utf8_len_concat(s, "}"@);
}

} // verus!
