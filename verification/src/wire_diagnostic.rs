//! Diagnostics as they go over the wire, within bounds.
use vstd::prelude::*;
use vstd::std_specs::iter::IteratorSpec;
use crate::diagnostic::{DiagnosticPhase, DiagnosticSeverity};
use crate::faults::{decimal, hex_digit};
use crate::format::fitting;
use crate::source::{SourceSpan, TextPosition};
use crate::text::{
    byte_len, chars_of, char_width, lemma_utf8_len_bounds, lemma_utf8_len_concat,
    lemma_utf8_len_take, scalar_width, text_of, utf8_len,
};
use vstd::string::*;

verus! {

pub const MAX_DIAGNOSTIC_JSON_BYTES: usize = 2_097_152;

pub const MAX_DIAGNOSTIC_CODE_BYTES: usize = 128;

pub const MAX_DIAGNOSTIC_MESSAGE_BYTES: usize = 16_384;

pub const MAX_DIAGNOSTIC_FRAMES: usize = 64;

pub const MAX_DIAGNOSTIC_FUNCTION_BYTES: usize = 1_024;

#[derive(Clone, Debug, PartialEq, Eq)]
pub struct WireDiagnostic {
    pub phase: DiagnosticPhase,
    pub severity: DiagnosticSeverity,
    pub code: String,
    pub code_truncated: bool,
    pub message: String,
    pub message_truncated: bool,
    pub span: SourceSpan,
    pub frames: Vec<WireRuntimeFrame>,
    pub frames_truncated: bool,
}

#[derive(Clone, Debug, PartialEq, Eq)]
pub struct WireRuntimeFrame {
    pub function: String,
    pub function_truncated: bool,
    pub span: SourceSpan,
}

#[derive(Clone, Copy, Debug, PartialEq, Eq, Structural)]
pub enum WireDiagnosticError {
    InvalidCode,
    CodeTooLong,
    MessageTooLong,
    TooManyFrames,
    FunctionTooLong,
    JsonTooLarge,
    Serialization,
}

/// The error of `serde_json`.
#[verifier::external_type_specification]
#[verifier::external_body]
pub struct ExJsonError(serde_json::Error);

/// How many bytes a scalar takes in a JSON string.
pub open spec fn json_width(c: char) -> nat {
    if c == '"' || c == '\\' || c == '\u{8}' || c == '\t' || c == '\n' || c == '\u{c}' || c == '\r' {
        2
    } else if (c as u32) < 0x20 {
        6
    } else {
        scalar_width(c)
    }
}

/// How many bytes a text takes in a JSON string, without the quotes.
pub open spec fn json_len(text: Seq<char>) -> nat
    decreases text.len(),
{
    if text.len() == 0 {
        0
    } else {
        json_len(text.drop_last()) + json_width(text.last())
    }
}

/// How a scalar is written in a JSON string.
pub open spec fn json_scalar(c: char) -> Seq<char> {
    if c == '"' || c == '\\' {
        seq!['\\', c]
    } else if c == '\u{8}' {
        seq!['\\', 'b']
    } else if c == '\t' {
        seq!['\\', 't']
    } else if c == '\n' {
        seq!['\\', 'n']
    } else if c == '\u{c}' {
        seq!['\\', 'f']
    } else if c == '\r' {
        seq!['\\', 'r']
    } else if (c as u32) < 0x20 {
        seq!['\\', 'u', '0', '0', hex_digit(c as int / 16), hex_digit(c as int % 16)]
    } else {
        seq![c]
    }
}

/// How a text is written in a JSON string, without the quotes.
pub open spec fn json_text(text: Seq<char>) -> Seq<char>
    decreases text.len(),
{
    if text.len() == 0 {
        text
    } else {
        json_text(text.drop_last()) + json_scalar(text.last())
    }
}

/// The JSON form of a text, by `serde_json::to_string`. It does not fail on a
/// text. The result is the text between quotes, with `"`, `\`, and the
/// control characters escaped: `"` and `\` by a backslash before them,
/// backspace, tab, line feed, form feed and carriage return by a backslash
/// and a letter, the others by `\u` and four hexadecimal digits.
#[verifier::external_body]
fn json_string(text: &str) -> (json: Result<String, serde_json::Error>)
    requires
        6 * utf8_len(text@) + 2 <= isize::MAX,
    ensures
        json is Ok,
        json->Ok_0@ == seq!['"'] + json_text(text@) + seq!['"'],
{
    serde_json::to_string(text)
}

/// The bytes of one scalar.
proof fn lemma_one_scalar(c: char)
    ensures
        utf8_len(seq![c]) == scalar_width(c),
{
    reveal_with_fuel(utf8_len, 2);
    assert(seq![c].drop_last() =~= Seq::empty());
}

proof fn lemma_two_scalars(a: char, b: char)
    ensures
        utf8_len(seq![a, b]) == scalar_width(a) + scalar_width(b),
{
    lemma_one_scalar(a);
    assert(seq![a, b].drop_last() =~= seq![a]);
}

proof fn lemma_json_scalar(c: char)
    ensures
        utf8_len(json_scalar(c)) == json_width(c),
{
    let n = c as int;
    if (c as u32) < 0x20 && json_scalar(c).len() == 6 {
        let high = hex_digit(n / 16);
        let low = hex_digit(n % 16);
        lemma_two_scalars('\\', 'u');
        lemma_two_scalars('0', '0');
        lemma_two_scalars(high, low);
        lemma_utf8_len_concat(seq!['\\', 'u'], seq!['0', '0']);
        lemma_utf8_len_concat(seq!['\\', 'u'] + seq!['0', '0'], seq![high, low]);
        assert(json_scalar(c) =~= seq!['\\', 'u'] + seq!['0', '0'] + seq![high, low]);
    } else if json_scalar(c).len() == 2 {
        lemma_two_scalars(json_scalar(c)[0], json_scalar(c)[1]);
        assert(json_scalar(c) =~= seq![json_scalar(c)[0], json_scalar(c)[1]]);
    } else {
        lemma_one_scalar(c);
    }
}

/// The bytes of the JSON form of a text.
pub proof fn lemma_json_text(text: Seq<char>)
    ensures
        utf8_len(json_text(text)) == json_len(text),
        utf8_len(seq!['"'] + json_text(text) + seq!['"']) == json_len(text) + 2,
    decreases text.len(),
{
    if text.len() > 0 {
        lemma_json_text(text.drop_last());
        lemma_json_scalar(text.last());
        lemma_utf8_len_concat(json_text(text.drop_last()), json_scalar(text.last()));
    }
    lemma_one_scalar('"');
    lemma_utf8_len_concat(seq!['"'], json_text(text));
    lemma_utf8_len_concat(seq!['"'] + json_text(text), seq!['"']);
}

proof fn lemma_json_len(text: Seq<char>)
    ensures
        json_len(text) <= 6 * utf8_len(text),
    decreases text.len(),
{
    if text.len() > 0 {
        lemma_json_len(text.drop_last());
        crate::text::lemma_utf8_len_push(text.drop_last(), text.last());
        assert(text =~= text.drop_last().push(text.last()));
    }
}

pub open spec fn phase_name(phase: DiagnosticPhase) -> Seq<char> {
    match phase {
        DiagnosticPhase::Scanner => "scanner"@,
        DiagnosticPhase::Parser => "parser"@,
        DiagnosticPhase::Compiler => "compiler"@,
        DiagnosticPhase::Runtime => "runtime"@,
        DiagnosticPhase::Worker => "worker"@,
    }
}

/// The name of a phase.
pub fn phase_text(phase: DiagnosticPhase) -> (name: &'static str)
    ensures
        name@ == phase_name(phase),
{
    match phase {
        DiagnosticPhase::Scanner => "scanner",
        DiagnosticPhase::Parser => "parser",
        DiagnosticPhase::Compiler => "compiler",
        DiagnosticPhase::Runtime => "runtime",
        DiagnosticPhase::Worker => "worker",
    }
}

pub open spec fn severity_name(severity: DiagnosticSeverity) -> Seq<char> {
    match severity {
        DiagnosticSeverity::Error => "error"@,
        DiagnosticSeverity::Warning => "warning"@,
    }
}

fn severity_text(severity: DiagnosticSeverity) -> (name: &'static str)
    ensures
        name@ == severity_name(severity),
{
    match severity {
        DiagnosticSeverity::Error => "error",
        DiagnosticSeverity::Warning => "warning",
    }
}

/// How many decimal digits a number has.
pub open spec fn digits(n: nat) -> nat {
    decimal(n).len()
}

fn digit_count(n: u64) -> (count: usize)
    ensures
        count == digits(n as nat),
        1 <= count <= 20,
{
    let mut rest: u64 = n;
    let mut count: usize = 1;
    let ghost mut bound: int = 0x1_0000_0000_0000_0000;
    while rest >= 10
        invariant
            digits(n as nat) == digits(rest as nat) + count - 1,
            1 <= count <= 20,
            rest < bound,
            count == 1 ==> bound == 0x1_0000_0000_0000_0000,
            count > 1 ==> bound == pow10((21 - count) as nat),
        decreases rest,
    {
        proof {
            reveal_with_fuel(pow10, 22);
            if count == 20 {
                assert(pow10(1) == 10);
            }
            if count == 1 {
                bound = pow10(19) as int;
                assert(rest / 10 < bound);
            } else {
                assert(pow10((21 - count) as nat) == 10 * pow10((20 - count) as nat));
                bound = pow10((20 - count) as nat) as int;
            }
        }
        rest = rest / 10;
        count += 1;
    }
    count
}

pub open spec fn pow10(n: nat) -> nat
    decreases n,
{
    if n == 0 {
        1
    } else {
        10 * pow10((n - 1) as nat)
    }
}

/// The bytes of a text that is written as it is.
pub open spec fn lit(text: &str) -> nat {
    utf8_len(text@)
}

pub open spec fn bool_bytes(b: bool) -> nat {
    if b {
        4
    } else {
        5
    }
}

/// The size of a position in JSON.
pub open spec fn position_bytes(p: TextPosition) -> nat {
    lit("{\"byte_offset\":") + digits(p.byte_offset as nat) + lit(",\"line\":") + digits(
        p.line as nat,
    ) + lit(",\"column\":") + digits(p.column as nat) + lit("}")
}

/// The size of a span in JSON.
pub open spec fn span_bytes(span: SourceSpan) -> nat {
    lit("{\"source_id\":") + digits(span.source_id.0 as nat) + lit(",\"revision\":") + digits(
        span.revision.0 as nat,
    ) + lit(",\"start\":") + position_bytes(span.start) + lit(",\"end\":") + position_bytes(
        span.end,
    ) + lit("}")
}

pub open spec fn string_bytes(text: Seq<char>) -> nat {
    json_len(text) + 2
}

/// The size of a call in JSON.
pub open spec fn frame_bytes(frame: WireRuntimeFrame) -> nat {
    lit("{\"function\":") + string_bytes(frame.function@) + lit(",\"function_truncated\":")
        + bool_bytes(frame.function_truncated) + lit(",\"span\":") + span_bytes(frame.span)
        + lit("}")
}

/// The size of the first `n` calls in JSON, with the commas between them.
pub open spec fn frames_bytes(frames: Seq<WireRuntimeFrame>, n: int) -> nat
    decreases n,
{
    if n <= 0 {
        0
    } else {
        frames_bytes(frames, n - 1) + (if n > 1 {
            1nat
        } else {
            0nat
        }) + frame_bytes(frames[n - 1])
    }
}

impl WireDiagnostic {
    /// The size in JSON: an object with the fields in their order, without
    /// white space.
    pub open spec fn json_bytes(self) -> nat {
        lit("{\"phase\":") + string_bytes(phase_name(self.phase)) + lit(",\"severity\":")
            + string_bytes(severity_name(self.severity)) + lit(",\"code\":") + string_bytes(
            self.code@,
        ) + lit(",\"code_truncated\":") + bool_bytes(self.code_truncated) + lit(",\"message\":")
            + string_bytes(self.message@) + lit(",\"message_truncated\":") + bool_bytes(
            self.message_truncated,
        ) + lit(",\"span\":") + span_bytes(self.span) + lit(",\"frames\":[") + frames_bytes(
            self.frames@,
            self.frames@.len() as int,
        ) + lit("],\"frames_truncated\":") + bool_bytes(self.frames_truncated) + lit("}")
    }
}

/// The fixed texts are short.
proof fn lemma_literals()
    ensures
        lit("{\"byte_offset\":") <= 100,
        lit(",\"line\":") <= 100,
        lit(",\"column\":") <= 100,
        lit("}") <= 100,
        lit("{\"source_id\":") <= 100,
        lit(",\"revision\":") <= 100,
        lit(",\"start\":") <= 100,
        lit(",\"end\":") <= 100,
        lit("{\"function\":") <= 100,
        lit(",\"function_truncated\":") <= 100,
        lit(",\"span\":") <= 100,
        lit("{\"phase\":") <= 100,
        lit(",\"severity\":") <= 100,
        lit(",\"code\":") <= 100,
        lit(",\"code_truncated\":") <= 100,
        lit(",\"message\":") <= 100,
        lit(",\"message_truncated\":") <= 100,
        lit(",\"frames\":[") <= 100,
        lit("],\"frames_truncated\":") <= 100,
{
    lemma_short("{\"byte_offset\":");
    lemma_short(",\"line\":");
    lemma_short(",\"column\":");
    lemma_short("}");
    lemma_short("{\"source_id\":");
    lemma_short(",\"revision\":");
    lemma_short(",\"start\":");
    lemma_short(",\"end\":");
    lemma_short("{\"function\":");
    lemma_short(",\"function_truncated\":");
    lemma_short(",\"span\":");
    lemma_short("{\"phase\":");
    lemma_short(",\"severity\":");
    lemma_short(",\"code\":");
    lemma_short(",\"code_truncated\":");
    lemma_short(",\"message\":");
    lemma_short(",\"message_truncated\":");
    lemma_short(",\"frames\":[");
    lemma_short("],\"frames_truncated\":");
    reveal_strlit("{\"byte_offset\":");
    reveal_strlit(",\"line\":");
    reveal_strlit(",\"column\":");
    reveal_strlit("}");
    reveal_strlit("{\"source_id\":");
    reveal_strlit(",\"revision\":");
    reveal_strlit(",\"start\":");
    reveal_strlit(",\"end\":");
    reveal_strlit("{\"function\":");
    reveal_strlit(",\"function_truncated\":");
    reveal_strlit(",\"span\":");
    reveal_strlit("{\"phase\":");
    reveal_strlit(",\"severity\":");
    reveal_strlit(",\"code\":");
    reveal_strlit(",\"code_truncated\":");
    reveal_strlit(",\"message\":");
    reveal_strlit(",\"message_truncated\":");
    reveal_strlit(",\"frames\":[");
    reveal_strlit("],\"frames_truncated\":");
}

proof fn lemma_short(text: &str)
    ensures
        lit(text) <= 4 * text@.len(),
{
    lemma_utf8_len_bounds(text@);
}

fn position_size(p: TextPosition) -> (size: usize)
    ensures
        size == position_bytes(p),
        size <= 460,
{
    proof {
        lemma_literals();
    }
    byte_len("{\"byte_offset\":") + digit_count(p.byte_offset as u64) + byte_len(",\"line\":")
        + digit_count(p.line as u64) + byte_len(",\"column\":") + digit_count(p.column as u64)
        + byte_len("}")
}

fn span_size(span: SourceSpan) -> (size: usize)
    ensures
        size == span_bytes(span),
        size <= 1_460,
{
    proof {
        lemma_literals();
    }
    byte_len("{\"source_id\":") + digit_count(span.source_id.0) + byte_len(",\"revision\":")
        + digit_count(span.revision.0) + byte_len(",\"start\":") + position_size(span.start)
        + byte_len(",\"end\":") + position_size(span.end) + byte_len("}")
}

/// A text that can be put into JSON within the memory there is.
pub open spec fn writable(text: Seq<char>) -> bool {
    6 * utf8_len(text) + 2 <= isize::MAX
}

fn string_size(text: &str) -> (size: Result<usize, WireDiagnosticError>)
    requires
        writable(text@),
    ensures
        size == Ok::<usize, WireDiagnosticError>(string_bytes(text@) as usize),
        string_bytes(text@) <= 6 * utf8_len(text@) + 2,
{
    proof {
        lemma_json_len(text@);
        lemma_json_text(text@);
    }
    match json_string(text) {
        Ok(json) => Ok(byte_len(json.as_str())),
        Err(_) => Err(WireDiagnosticError::Serialization),
    }
}

fn bool_size(b: bool) -> (size: usize)
    ensures
        size == bool_bytes(b),
{
    if b {
        4
    } else {
        5
    }
}

fn frame_size(frame: &WireRuntimeFrame) -> (size: Result<usize, WireDiagnosticError>)
    requires
        writable(frame.function@),
        frame_bytes(*frame) <= usize::MAX,
    ensures
        size == Ok::<usize, WireDiagnosticError>(frame_bytes(*frame) as usize),
{
    let function: usize = match string_size(frame.function.as_str()) {
        Ok(size) => size,
        Err(error) => return Err(error),
    };
    Ok(
        byte_len("{\"function\":") + function + byte_len(",\"function_truncated\":") + bool_size(
            frame.function_truncated,
        ) + byte_len(",\"span\":") + span_size(frame.span) + byte_len("}"),
    )
}

proof fn lemma_frames_bytes(frames: Seq<WireRuntimeFrame>, i: int, n: int)
    requires
        0 <= i <= n,
    ensures
        frames_bytes(frames, i) <= frames_bytes(frames, n),
    decreases n,
{
    if i < n {
        lemma_frames_bytes(frames, i, n - 1);
    }
}

fn frames_size(frames: &Vec<WireRuntimeFrame>) -> (size: Result<usize, WireDiagnosticError>)
    requires
        forall|i: int| 0 <= i < frames@.len() ==> writable((#[trigger] frames@[i]).function@),
        frames_bytes(frames@, frames@.len() as int) <= usize::MAX,
    ensures
        size == Ok::<usize, WireDiagnosticError>(
            frames_bytes(frames@, frames@.len() as int) as usize,
        ),
{
    let mut total: usize = 0;
    let mut i: usize = 0;
    while i < frames.len()
        invariant
            i <= frames@.len(),
            total == frames_bytes(frames@, i as int),
            forall|i: int| 0 <= i < frames@.len() ==> writable((#[trigger] frames@[i]).function@),
            frames_bytes(frames@, frames@.len() as int) <= usize::MAX,
        decreases frames@.len() - i,
    {
        proof {
            lemma_frames_bytes(frames@, i + 1, frames@.len() as int);
        }
        if i > 0 {
            total += 1;
        }
        match frame_size(&frames[i]) {
            Ok(size) => {
                total += size;
            },
            Err(error) => {
                return Err(error);
            },
        }
        i += 1;
    }
    Ok(total)
}

pub open spec fn is_code_char(c: char) -> bool {
    ('a' <= c && c <= 'z') || ('0' <= c && c <= '9') || c == '.' || c == '_' || c == '-'
}

/// A code is made of lower-case letters, digits, dots, underscores and hyphens.
pub open spec fn is_code(code: Seq<char>) -> bool {
    &&& 0 < code.len()
    &&& utf8_len(code) <= MAX_DIAGNOSTIC_CODE_BYTES
    &&& forall|i: int| 0 <= i < code.len() ==> is_code_char(#[trigger] code[i])
}

fn valid_code(value: &str) -> (valid: bool)
    ensures
        valid == is_code(value@),
{
    if byte_len(value) > MAX_DIAGNOSTIC_CODE_BYTES {
        return false;
    }
    let scalars = chars_of(value);
    if scalars.len() == 0 {
        return false;
    }
    let mut i: usize = 0;
    while i < scalars.len()
        invariant
            i <= scalars@.len(),
            scalars@ == value@,
            forall|j: int| 0 <= j < i ==> is_code_char(#[trigger] value@[j]),
        decreases scalars@.len() - i,
    {
        let c = scalars[i];
        if !(('a' <= c && c <= 'z') || ('0' <= c && c <= '9') || c == '.' || c == '_' || c == '-') {
            assert(!is_code_char(value@[i as int]));
            return false;
        }
        i += 1;
    }
    true
}

/// A text and whether it was cut: it is, where it takes more bytes than the
/// maximum, to the longest beginning that does not.
pub open spec fn truncated_text(text: Seq<char>, maximum: int) -> (Seq<char>, bool) {
    if utf8_len(text) <= maximum {
        (text, false)
    } else {
        (text.take(fitting(text, text.len() as int, maximum)), true)
    }
}

pub fn truncate_utf8(value: &str, maximum: usize) -> (result: (String, bool))
    ensures
        (result.0@, result.1) == truncated_text(value@, maximum as int),
        utf8_len(result.0@) <= maximum,
{
    let mut bytes: usize = byte_len(value);
    if bytes <= maximum {
        return (value.to_owned(), false);
    }
    let scalars = chars_of(value);
    let ghost text = value@;
    let mut k: usize = scalars.len();
    assert(text.take(text.len() as int) =~= text);
    while k > 0 && bytes > maximum
        invariant
            k <= scalars@.len(),
            scalars@ == text,
            bytes == utf8_len(text.take(k as int)),
            fitting(text, k as int, maximum as int) == fitting(
                text,
                text.len() as int,
                maximum as int,
            ),
        decreases k,
    {
        proof {
            lemma_utf8_len_take(text, k - 1);
        }
        bytes -= char_width(scalars[k - 1]);
        k -= 1;
    }
    let kept = text_of(vstd::slice::slice_subrange(scalars.as_slice(), 0, k));
    assert(scalars@.subrange(0, k as int) =~= text.take(k as int));
    (kept, true)
}

/// A cut text is the longest beginning that fits.
pub proof fn law_truncation_is_longest(text: Seq<char>, maximum: int, k: int)
    requires
        0 <= maximum,
        0 <= k <= text.len(),
        utf8_len(text.take(k)) <= maximum,
    ensures
        truncated_text(text, maximum).0.is_prefix_of(text),
        utf8_len(truncated_text(text, maximum).0) <= maximum,
        k <= truncated_text(text, maximum).0.len(),
        truncated_text(text, maximum).1 <==> utf8_len(text) > maximum,
{
    if utf8_len(text) > maximum {
        lemma_fitting(text, text.len() as int, maximum, k);
    }
}

proof fn lemma_fitting(text: Seq<char>, n: int, maximum: int, k: int)
    requires
        0 <= maximum,
        0 <= k <= n <= text.len(),
        utf8_len(text.take(k)) <= maximum,
    ensures
        k <= fitting(text, n, maximum) <= n,
        utf8_len(text.take(fitting(text, n, maximum))) <= maximum,
    decreases n,
{
    if n <= 0 || utf8_len(text.take(n)) <= maximum {
        assert(text.take(0) =~= Seq::empty());
    } else {
        lemma_fitting(text, n - 1, maximum, k);
    }
}

impl WireDiagnostic {
    /// Every text can be put into JSON, and so can the whole.
    pub open spec fn is_writable(self) -> bool {
        &&& writable(self.code@)
        &&& writable(self.message@)
        &&& forall|i: int|
            0 <= i < self.frames@.len() ==> writable((#[trigger] self.frames@[i]).function@)
        &&& self.json_bytes() <= usize::MAX
    }

    /// How many bytes the diagnostic takes in JSON.
    pub fn json_size(&self) -> (size: Result<usize, WireDiagnosticError>)
        requires
            self.is_writable(),
        ensures
            size == Ok::<usize, WireDiagnosticError>(self.json_bytes() as usize),
    {
        proof {
            lemma_names(self.phase, self.severity);
        }
        let phase: usize = match string_size(phase_text(self.phase)) {
            Ok(size) => size,
            Err(error) => return Err(error),
        };
        let severity: usize = match string_size(severity_text(self.severity)) {
            Ok(size) => size,
            Err(error) => return Err(error),
        };
        let code: usize = match string_size(self.code.as_str()) {
            Ok(size) => size,
            Err(error) => return Err(error),
        };
        let message: usize = match string_size(self.message.as_str()) {
            Ok(size) => size,
            Err(error) => return Err(error),
        };
        let frames: usize = match frames_size(&self.frames) {
            Ok(size) => size,
            Err(error) => return Err(error),
        };
        Ok(
            byte_len("{\"phase\":") + phase + byte_len(",\"severity\":") + severity + byte_len(
                ",\"code\":",
            ) + code + byte_len(",\"code_truncated\":") + bool_size(self.code_truncated) + byte_len(
                ",\"message\":",
            ) + message + byte_len(",\"message_truncated\":") + bool_size(self.message_truncated)
                + byte_len(",\"span\":") + span_size(self.span) + byte_len(",\"frames\":[")
                + frames + byte_len("],\"frames_truncated\":") + bool_size(self.frames_truncated)
                + byte_len("}"),
        )
    }

    /// What is wrong with the diagnostic, in the order of the checks.
    pub open spec fn fault(self) -> Option<WireDiagnosticError> {
        if utf8_len(self.code@) > MAX_DIAGNOSTIC_CODE_BYTES {
            Some(WireDiagnosticError::CodeTooLong)
        } else if !is_code(self.code@) {
            Some(WireDiagnosticError::InvalidCode)
        } else if utf8_len(self.message@) > MAX_DIAGNOSTIC_MESSAGE_BYTES {
            Some(WireDiagnosticError::MessageTooLong)
        } else if self.frames@.len() > MAX_DIAGNOSTIC_FRAMES {
            Some(WireDiagnosticError::TooManyFrames)
        } else if exists|i: int|
            0 <= i < self.frames@.len() && utf8_len((#[trigger] self.frames@[i]).function@)
                > MAX_DIAGNOSTIC_FUNCTION_BYTES {
            Some(WireDiagnosticError::FunctionTooLong)
        } else if self.json_bytes() > MAX_DIAGNOSTIC_JSON_BYTES {
            Some(WireDiagnosticError::JsonTooLarge)
        } else {
            None
        }
    }

    pub fn validate(&self) -> (result: Result<(), WireDiagnosticError>)
        ensures
            match result {
                Ok(_) => self.fault() is None,
                Err(error) => self.fault() == Some(error),
            },
    {
        if byte_len(self.code.as_str()) > MAX_DIAGNOSTIC_CODE_BYTES {
            return Err(WireDiagnosticError::CodeTooLong);
        }
        if !valid_code(self.code.as_str()) {
            return Err(WireDiagnosticError::InvalidCode);
        }
        if byte_len(self.message.as_str()) > MAX_DIAGNOSTIC_MESSAGE_BYTES {
            return Err(WireDiagnosticError::MessageTooLong);
        }
        if self.frames.len() > MAX_DIAGNOSTIC_FRAMES {
            return Err(WireDiagnosticError::TooManyFrames);
        }
        let mut i: usize = 0;
        while i < self.frames.len()
            invariant
                i <= self.frames@.len(),
                is_code(self.code@),
                utf8_len(self.message@) <= MAX_DIAGNOSTIC_MESSAGE_BYTES,
                self.frames@.len() <= MAX_DIAGNOSTIC_FRAMES,
                forall|j: int|
                    0 <= j < i ==> utf8_len((#[trigger] self.frames@[j]).function@)
                        <= MAX_DIAGNOSTIC_FUNCTION_BYTES,
            decreases self.frames@.len() - i,
        {
            if byte_len(self.frames[i].function.as_str()) > MAX_DIAGNOSTIC_FUNCTION_BYTES {
                assert(utf8_len(self.frames@[i as int].function@) > MAX_DIAGNOSTIC_FUNCTION_BYTES);
                return Err(WireDiagnosticError::FunctionTooLong);
            }
            i += 1;
        }
        proof {
            lemma_bounded_size(*self);
        }
        match self.json_size() {
            Ok(size) => if size > MAX_DIAGNOSTIC_JSON_BYTES {
                Err(WireDiagnosticError::JsonTooLarge)
            } else {
                Ok(())
            },
            Err(error) => Err(error),
        }
    }
}

proof fn lemma_names(phase: DiagnosticPhase, severity: DiagnosticSeverity)
    ensures
        writable(phase_name(phase)),
        writable(severity_name(severity)),
        utf8_len(phase_name(phase)) <= 100,
        utf8_len(severity_name(severity)) <= 100,
{
    reveal_strlit("scanner");
    reveal_strlit("parser");
    reveal_strlit("compiler");
    reveal_strlit("runtime");
    reveal_strlit("worker");
    reveal_strlit("error");
    reveal_strlit("warning");
    lemma_utf8_len_bounds(phase_name(phase));
    lemma_utf8_len_bounds(severity_name(severity));
}

/// A diagnostic whose parts are within their bounds is so as a whole.
proof fn lemma_bounded_size(d: WireDiagnostic)
    requires
        utf8_len(d.code@) <= MAX_DIAGNOSTIC_CODE_BYTES,
        utf8_len(d.message@) <= MAX_DIAGNOSTIC_MESSAGE_BYTES,
        d.frames@.len() <= MAX_DIAGNOSTIC_FRAMES,
        forall|i: int|
            0 <= i < d.frames@.len() ==> utf8_len((#[trigger] d.frames@[i]).function@)
                <= MAX_DIAGNOSTIC_FUNCTION_BYTES,
    ensures
        d.is_writable(),
        d.json_bytes() <= MAX_DIAGNOSTIC_JSON_BYTES,
{
    lemma_literals();
    lemma_names(d.phase, d.severity);
    lemma_json_len(phase_name(d.phase));
    lemma_json_len(severity_name(d.severity));
    lemma_json_len(d.code@);
    lemma_json_len(d.message@);
    lemma_span_bytes(d.span);
    lemma_frames_bound(d.frames@, d.frames@.len() as int);
}

proof fn lemma_digits(n: nat)
    requires
        n <= u64::MAX,
    ensures
        digits(n) <= 20,
{
    reveal_with_fuel(pow10, 21);
    lemma_digits_below(n, 20);
}

proof fn lemma_digits_below(n: nat, k: nat)
    requires
        k >= 1,
        n < pow10(k),
    ensures
        digits(n) <= k,
    decreases k,
{
    if n >= 10 {
        if k == 1 {
            assert(pow10(1) == 10 * pow10(0));
        }
        lemma_digits_below(n / 10, (k - 1) as nat);
    }
}

proof fn lemma_span_bytes(span: SourceSpan)
    ensures
        span_bytes(span) <= 1_460,
{
    lemma_literals();
    lemma_digits(span.source_id.0 as nat);
    lemma_digits(span.revision.0 as nat);
    lemma_digits(span.start.byte_offset as nat);
    lemma_digits(span.start.line as nat);
    lemma_digits(span.start.column as nat);
    lemma_digits(span.end.byte_offset as nat);
    lemma_digits(span.end.line as nat);
    lemma_digits(span.end.column as nat);
}

proof fn lemma_frames_bound(frames: Seq<WireRuntimeFrame>, n: int)
    requires
        0 <= n <= frames.len(),
        forall|i: int|
            0 <= i < frames.len() ==> utf8_len((#[trigger] frames[i]).function@)
                <= MAX_DIAGNOSTIC_FUNCTION_BYTES,
    ensures
        frames_bytes(frames, n) <= 9_000 * n,
    decreases n,
{
    if n > 0 {
        lemma_frames_bound(frames, n - 1);
        lemma_literals();
        lemma_json_len(frames[n - 1].function@);
        lemma_span_bytes(frames[n - 1].span);
    }
}

pub open spec fn invalid_code() -> Seq<char> {
    "worker.invalid_diagnostic_code"@
}

/// A call is one of a program's, with its name cut to size.
pub open spec fn bounds_frame(wire: WireRuntimeFrame, frame: (String, SourceSpan)) -> bool {
    (wire.function@, wire.function_truncated) == truncated_text(
        frame.0@,
        MAX_DIAGNOSTIC_FUNCTION_BYTES as int,
    ) && wire.span == frame.1
}

impl WireRuntimeFrame {
    fn bounded(function: &str, span: SourceSpan) -> (wire: Self)
        ensures
            (wire.function@, wire.function_truncated) == truncated_text(
                function@,
                MAX_DIAGNOSTIC_FUNCTION_BYTES as int,
            ),
            utf8_len(wire.function@) <= MAX_DIAGNOSTIC_FUNCTION_BYTES,
            wire.span == span,
    {
        let (function, function_truncated) = truncate_utf8(function, MAX_DIAGNOSTIC_FUNCTION_BYTES);
        WireRuntimeFrame { function, function_truncated, span }
    }
}

/// What was asked of an iterator over calls, and what it answered: one answer
/// for every time that it was asked. Nobody else can ask it meanwhile.
pub struct Asked<I> {
    frames: I,
    answers: Ghost<Seq<Option<(String, SourceSpan)>>>,
}

impl<I: Iterator<Item = (String, SourceSpan)>> Asked<I> {
    /// The answers so far.
    pub closed spec fn answers(self) -> Seq<Option<(String, SourceSpan)>> {
        self.answers@
    }

    /// The iterator as it is now.
    pub closed spec fn source(self) -> I {
        self.frames
    }

    pub fn new(frames: I) -> (asked: Self)
        ensures
            asked.source() == frames,
            asked.answers().len() == 0,
    {
        Asked { frames, answers: Ghost(Seq::empty()) }
    }

    /// Asks the iterator once.
    fn ask(&mut self) -> (answer: Option<(String, SourceSpan)>)
        ensures
            final(self).answers() == old(self).answers().push(answer),
            final(self).source().obeys_prophetic_iter_laws()
                == old(self).source().obeys_prophetic_iter_laws(),
            old(self).source().obeys_prophetic_iter_laws() ==> (if old(
                self,
            ).source().remaining().len() > 0 {
                &&& answer == Some(old(self).source().remaining()[0])
                &&& final(self).source().remaining() == old(self).source().remaining().drop_first()
            } else {
                &&& answer is None
                &&& final(self).source().remaining() == old(self).source().remaining()
            }),
    {
        let answer = self.frames.next();
        self.answers = Ghost(self.answers@.push(answer));
        answer
    }
}

/// How an iterator over calls is asked: until there are as many calls as may
/// be shown or it has no more, and then once again, for whether it has more.
pub open spec fn asked_out(answers: Seq<Option<(String, SourceSpan)>>) -> bool {
    let n = answers.len() - 1;
    ||| n == MAX_DIAGNOSTIC_FRAMES && forall|i: int| 0 <= i < n ==> (#[trigger] answers[i]) is Some
    ||| 0 < n <= MAX_DIAGNOSTIC_FRAMES && answers[n - 1] is None && forall|i: int|
        0 <= i < n - 1 ==> (#[trigger] answers[i]) is Some
}

/// The calls that were given in answers.
pub open spec fn given(answers: Seq<Option<(String, SourceSpan)>>) -> Seq<(String, SourceSpan)> {
    let n = answers.len() - 1;
    let count = if n > 0 && answers[n - 1] is None {
        n - 1
    } else {
        n
    };
    Seq::new(count as nat, |i: int| answers[i]->0)
}

/// The least of two lengths.
pub open spec fn up_to(length: nat, most: int) -> int {
    if length <= most {
        length as int
    } else {
        most
    }
}

impl WireDiagnostic {
    /// The diagnostic says what it was given, cut to size. `more` tells
    /// whether there were more calls than may be shown.
    pub open spec fn is_bounded_from(
        self,
        phase: DiagnosticPhase,
        severity: DiagnosticSeverity,
        code: Seq<char>,
        message: Seq<char>,
        span: SourceSpan,
        frames: Seq<(String, SourceSpan)>,
        more: bool,
    ) -> bool {
        &&& self.phase == phase
        &&& self.severity == severity
        &&& (self.code@, self.code_truncated) == (if is_code(code) {
            (code, false)
        } else {
            (invalid_code(), true)
        })
        &&& (self.message@, self.message_truncated) == truncated_text(
            message,
            MAX_DIAGNOSTIC_MESSAGE_BYTES as int,
        )
        &&& self.span == span
        &&& self.frames@.len() == frames.len()
        &&& forall|i: int|
            0 <= i < self.frames@.len() ==> bounds_frame(#[trigger] self.frames@[i], frames[i])
        &&& self.frames_truncated == more
    }

    /// A diagnostic within the bounds. It is always valid.
    pub fn bounded<I: Iterator<Item = (String, SourceSpan)>>(
        phase: DiagnosticPhase,
        severity: DiagnosticSeverity,
        code: &str,
        message: &str,
        span: SourceSpan,
        frames: I,
    ) -> (diagnostic: Self)
        ensures
            exists|answers: Seq<Option<(String, SourceSpan)>>| #[trigger]
                asked_out(answers) && answers.len() <= MAX_DIAGNOSTIC_FRAMES + 1
                    && diagnostic.is_bounded_from(
                    phase,
                    severity,
                    code@,
                    message@,
                    span,
                    given(answers),
                    answers.last() is Some,
                ),
            frames.obeys_prophetic_iter_laws() ==> diagnostic.is_bounded_from(
                phase,
                severity,
                code@,
                message@,
                span,
                frames.remaining().take(
                    up_to(frames.remaining().len(), MAX_DIAGNOSTIC_FRAMES as int),
                ),
                frames.remaining().len() > MAX_DIAGNOSTIC_FRAMES,
            ),
            diagnostic.fault() is None,
    {
        let mut asked = Asked::new(frames);
        let ghost before = asked;
        let diagnostic = Self::bounded_from(phase, severity, code, message, span, &mut asked);
        assert(asked.answers().skip(0) =~= asked.answers());
        assert(asked_out(asked.answers()));
        diagnostic
    }

    /// A diagnostic within the bounds, with calls from an iterator that is
    /// asked no more often than one time more than calls may be shown.
    pub fn bounded_from<I: Iterator<Item = (String, SourceSpan)>>(
        phase: DiagnosticPhase,
        severity: DiagnosticSeverity,
        code: &str,
        message: &str,
        span: SourceSpan,
        frames: &mut Asked<I>,
    ) -> (diagnostic: Self)
        ensures
            final(frames).answers().len() <= old(frames).answers().len() + MAX_DIAGNOSTIC_FRAMES + 1,
            final(frames).answers().take(old(frames).answers().len() as int)
                == old(frames).answers(),
            ({
                let answers = final(frames).answers().skip(old(frames).answers().len() as int);
                asked_out(answers) && diagnostic.is_bounded_from(
                    phase,
                    severity,
                    code@,
                    message@,
                    span,
                    given(answers),
                    answers.last() is Some,
                )
            }),
            old(frames).source().obeys_prophetic_iter_laws() ==> {
                let all = old(frames).source().remaining();
                &&& final(frames).source().remaining() == all.skip(
                    up_to(all.len(), MAX_DIAGNOSTIC_FRAMES + 1),
                )
                &&& diagnostic.is_bounded_from(
                    phase,
                    severity,
                    code@,
                    message@,
                    span,
                    all.take(up_to(all.len(), MAX_DIAGNOSTIC_FRAMES as int)),
                    all.len() > MAX_DIAGNOSTIC_FRAMES,
                )
            },
            diagnostic.fault() is None,
    {
        let valid = valid_code(code);
        let chosen = if valid {
            code
        } else {
            "worker.invalid_diagnostic_code"
        };
        let (message, message_truncated) = truncate_utf8(message, MAX_DIAGNOSTIC_MESSAGE_BYTES);
        let ghost first = frames.answers();
        let ghost all = frames.source().remaining();
        let ghost lawful = frames.source().obeys_prophetic_iter_laws();
        let mut wire: Vec<WireRuntimeFrame> = Vec::new();
        let mut ended = false;
        let ghost mut answers: Seq<Option<(String, SourceSpan)>> = Seq::empty();
        assert(all.skip(0) =~= all);
        while wire.len() < MAX_DIAGNOSTIC_FRAMES && !ended
            invariant
                wire@.len() <= MAX_DIAGNOSTIC_FRAMES,
                frames.answers() == first + answers,
                first == old(frames).answers(),
                ended ==> wire@.len() < MAX_DIAGNOSTIC_FRAMES && answers.len() == wire@.len() + 1
                    && answers.last() is None,
                !ended ==> answers.len() == wire@.len(),
                forall|i: int|
                    0 <= i < wire@.len() ==> (#[trigger] answers[i]) is Some && bounds_frame(
                        wire@[i],
                        answers[i]->0,
                    ),
                forall|i: int|
                    0 <= i < wire@.len() ==> utf8_len((#[trigger] wire@[i]).function@)
                        <= MAX_DIAGNOSTIC_FUNCTION_BYTES,
                frames.source().obeys_prophetic_iter_laws() == lawful,
                lawful ==> wire@.len() <= all.len() && frames.source().remaining() == all.skip(
                    wire@.len() as int,
                ) && (ended ==> wire@.len() == all.len()) && forall|i: int|
                    0 <= i < wire@.len() ==> (#[trigger] answers[i]) == Some(all[i]),
            decreases
                MAX_DIAGNOSTIC_FRAMES - wire@.len(),
                if ended {
                    0int
                } else {
                    1
                },
        {
            let ghost before = answers;
            let answer = frames.ask();
            proof {
                answers = answers.push(answer);
                assert(frames.answers() =~= first + answers);
                assert forall|i: int| 0 <= i < before.len() implies #[trigger] answers[i]
                    == before[i] by {}
            }
            match answer {
                Some((function, at)) => {
                    let frame = WireRuntimeFrame::bounded(function.as_str(), at);
                    wire.push(frame);
                    assert(lawful ==> all.skip(wire@.len() - 1).drop_first() =~= all.skip(
                        wire@.len() as int,
                    ));
                },
                None => {
                    ended = true;
                },
            }
        }
        let ghost before = answers;
        let more = frames.ask().is_some();
        proof {
            answers = frames.answers().skip(first.len() as int);
            assert(answers.drop_last() =~= before);
            assert(frames.answers().take(first.len() as int) =~= first);
            assert forall|i: int| 0 <= i < before.len() implies #[trigger] answers[i]
                == before[i] by {}
            assert(asked_out(answers));
            assert(given(answers).len() == wire@.len());
        }
        assert(lawful ==> given(answers) =~= all.take(
            up_to(all.len(), MAX_DIAGNOSTIC_FRAMES as int),
        ));
        assert(lawful && all.len() > MAX_DIAGNOSTIC_FRAMES ==> all.skip(
            MAX_DIAGNOSTIC_FRAMES as int,
        ).drop_first() =~= all.skip(MAX_DIAGNOSTIC_FRAMES + 1));
        let candidate = WireDiagnostic {
            phase,
            severity,
            code: chosen.to_owned(),
            code_truncated: !valid,
            message,
            message_truncated,
            span,
            frames: wire,
            frames_truncated: more,
        };
        proof {
            lemma_invalid_code();
            lemma_bounded_size(candidate);
        }
        match candidate.json_size() {
            Ok(size) if size <= MAX_DIAGNOSTIC_JSON_BYTES => candidate,
            _ => Self::fallback(phase, severity, span),
        }
    }

    /// What is sent in place of a diagnostic that is too large.
    fn fallback(phase: DiagnosticPhase, severity: DiagnosticSeverity, span: SourceSpan) -> (diagnostic:
        Self)
        ensures
            diagnostic.phase == phase,
            diagnostic.severity == severity,
            diagnostic.span == span,
            diagnostic.code@ == "worker.diagnostic_too_large"@,
            diagnostic.message@ == "The worker diagnostic exceeded the protocol budget."@,
            diagnostic.code_truncated && diagnostic.message_truncated,
            diagnostic.frames@.len() == 0 && diagnostic.frames_truncated,
    {
        WireDiagnostic {
            phase,
            severity,
            code: "worker.diagnostic_too_large".to_owned(),
            code_truncated: true,
            message: "The worker diagnostic exceeded the protocol budget.".to_owned(),
            message_truncated: true,
            span,
            frames: Vec::new(),
            frames_truncated: true,
        }
    }
}

proof fn lemma_invalid_code()
    ensures
        is_code(invalid_code()),
{
    reveal_strlit("worker.invalid_diagnostic_code");
    lemma_utf8_len_bounds(invalid_code());
}

} // verus!
