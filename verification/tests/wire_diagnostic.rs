use rlox::wire_diagnostic::{
    truncate_utf8, WireDiagnostic, WireDiagnosticError, WireRuntimeFrame,
    MAX_DIAGNOSTIC_CODE_BYTES, MAX_DIAGNOSTIC_FRAMES, MAX_DIAGNOSTIC_FUNCTION_BYTES,
    MAX_DIAGNOSTIC_MESSAGE_BYTES,
};
use rlox::{
    DiagnosticPhase, DiagnosticSeverity, RevisionId, SourceId, SourceSpan, TextPosition,
};

fn span() -> SourceSpan {
    SourceSpan {
        source_id: SourceId(7),
        revision: RevisionId(u64::MAX),
        start: TextPosition {
            byte_offset: 0,
            line: 1,
            column: 1,
        },
        end: TextPosition {
            byte_offset: 1234,
            line: 56,
            column: 7,
        },
    }
}

fn bounded(code: &str, message: &str, frames: Vec<(String, SourceSpan)>) -> WireDiagnostic {
    WireDiagnostic::bounded(
        DiagnosticPhase::Runtime,
        DiagnosticSeverity::Error,
        code,
        message,
        span(),
        frames.into_iter(),
    )
}

fn object(fields: Vec<(&str, serde_json::Value)>) -> serde_json::Value {
    let mut map = serde_json::Map::new();
    for (name, value) in fields {
        map.insert(name.to_string(), value);
    }
    serde_json::Value::Object(map)
}

fn position_json(position: TextPosition) -> serde_json::Value {
    object(vec![
        ("byte_offset", serde_json::Value::from(position.byte_offset)),
        ("line", serde_json::Value::from(position.line)),
        ("column", serde_json::Value::from(position.column)),
    ])
}

fn span_json(span: SourceSpan) -> serde_json::Value {
    object(vec![
        ("source_id", serde_json::Value::from(span.source_id.0)),
        ("revision", serde_json::Value::from(span.revision.0)),
        ("start", position_json(span.start)),
        ("end", position_json(span.end)),
    ])
}

fn json(diagnostic: &WireDiagnostic) -> serde_json::Value {
    let frames = diagnostic
        .frames
        .iter()
        .map(|frame| {
            object(vec![
                ("function", serde_json::Value::from(frame.function.as_str())),
                (
                    "function_truncated",
                    serde_json::Value::from(frame.function_truncated),
                ),
                ("span", span_json(frame.span)),
            ])
        })
        .collect();
    object(vec![
        ("phase", serde_json::Value::from("runtime")),
        ("severity", serde_json::Value::from("error")),
        ("code", serde_json::Value::from(diagnostic.code.as_str())),
        (
            "code_truncated",
            serde_json::Value::from(diagnostic.code_truncated),
        ),
        (
            "message",
            serde_json::Value::from(diagnostic.message.as_str()),
        ),
        (
            "message_truncated",
            serde_json::Value::from(diagnostic.message_truncated),
        ),
        ("span", span_json(diagnostic.span)),
        ("frames", frames),
        (
            "frames_truncated",
            serde_json::Value::from(diagnostic.frames_truncated),
        ),
    ])
}

#[test]
fn json_size_is_that_of_the_serialized_form() {
    let plain = bounded("runtime.type", "plain", Vec::new());
    let escaped = bounded(
        "runtime.type",
        "\"quoted\\\" \u{0}\u{1f}\u{7f}\n\t\r\u{8}\u{c} βλ 😀",
        vec![("f".to_string(), span()), ("\"g\"\u{1}".to_string(), span())],
    );
    for diagnostic in [plain, escaped] {
        let text = serde_json::to_vec(&json(&diagnostic)).unwrap();
        assert_eq!(diagnostic.json_size(), Ok(text.len()));
    }
}

#[test]
fn bounded_diagnostics_are_valid_and_say_what_was_cut() {
    let small = bounded("worker.failed-1_a", "message", Vec::new());
    assert_eq!(small.validate(), Ok(()));
    assert_eq!(small.code, "worker.failed-1_a");
    assert!(!small.code_truncated && !small.message_truncated && !small.frames_truncated);

    let frames = (0..MAX_DIAGNOSTIC_FRAMES + 1)
        .map(|_| ("β".repeat(MAX_DIAGNOSTIC_FUNCTION_BYTES), span()))
        .collect();
    let message = format!("a{}", "😀".repeat(MAX_DIAGNOSTIC_MESSAGE_BYTES));
    let large = bounded("Not A Code", &message, frames);
    assert_eq!(large.validate(), Ok(()));
    assert_eq!(large.code, "worker.invalid_diagnostic_code");
    assert!(large.code_truncated);
    assert_eq!(large.message.len(), MAX_DIAGNOSTIC_MESSAGE_BYTES - 3);
    assert!(message.starts_with(&large.message));
    assert!(large.message_truncated);
    assert_eq!(large.frames.len(), MAX_DIAGNOSTIC_FRAMES);
    assert!(large.frames_truncated);
    assert_eq!(
        large.frames[0].function.len(),
        MAX_DIAGNOSTIC_FUNCTION_BYTES
    );
    assert!(large.frames[0].function_truncated);
}

#[test]
fn validation_names_the_first_fault() {
    let valid = bounded("a", "m", vec![("f".to_string(), span())]);
    let mut code = valid.clone();
    code.code = "a".repeat(MAX_DIAGNOSTIC_CODE_BYTES + 1);
    code.message = "m".repeat(MAX_DIAGNOSTIC_MESSAGE_BYTES + 1);
    assert_eq!(code.validate(), Err(WireDiagnosticError::CodeTooLong));
    for invalid in ["", "A", "a b", "ä"] {
        let mut code = valid.clone();
        code.code = invalid.to_string();
        assert_eq!(code.validate(), Err(WireDiagnosticError::InvalidCode));
    }
    let mut message = valid.clone();
    message.message = "m".repeat(MAX_DIAGNOSTIC_MESSAGE_BYTES + 1);
    assert_eq!(message.validate(), Err(WireDiagnosticError::MessageTooLong));
    let mut frames = valid.clone();
    frames.frames = vec![
        WireRuntimeFrame {
            function: String::new(),
            function_truncated: false,
            span: span(),
        };
        MAX_DIAGNOSTIC_FRAMES + 1
    ];
    assert_eq!(frames.validate(), Err(WireDiagnosticError::TooManyFrames));
    let mut function = valid.clone();
    function.frames[0].function = "f".repeat(MAX_DIAGNOSTIC_FUNCTION_BYTES + 1);
    assert_eq!(
        function.validate(),
        Err(WireDiagnosticError::FunctionTooLong)
    );
}

#[test]
fn truncation_keeps_whole_scalars() {
    assert_eq!(truncate_utf8("aβc", 4), ("aβc".to_string(), false));
    assert_eq!(truncate_utf8("aβc", 3), ("aβ".to_string(), true));
    assert_eq!(truncate_utf8("aβc", 2), ("a".to_string(), true));
    assert_eq!(truncate_utf8("😀", 3), (String::new(), true));
}

fn asked(mut answer: impl FnMut(usize) -> Option<(String, SourceSpan)>) -> (WireDiagnostic, usize) {
    let mut count = 0;
    let diagnostic = WireDiagnostic::bounded(
        DiagnosticPhase::Runtime,
        DiagnosticSeverity::Error,
        "runtime.error",
        "message",
        span(),
        std::iter::from_fn(|| {
            count += 1;
            answer(count)
        }),
    );
    (diagnostic, count)
}

#[test]
fn an_endless_iterator_is_asked_for_one_frame_more_than_is_shown() {
    let (diagnostic, count) = asked(|n| Some((format!("f{n}"), span())));
    assert_eq!(count, MAX_DIAGNOSTIC_FRAMES + 1);
    assert_eq!(diagnostic.frames.len(), MAX_DIAGNOSTIC_FRAMES);
    assert_eq!(diagnostic.frames[63].function, "f64");
    assert!(diagnostic.frames_truncated);
    assert_eq!(diagnostic.validate(), Ok(()));
}

#[test]
fn an_iterator_that_has_ended_is_asked_once_more() {
    let (diagnostic, count) = asked(|n| (n <= 2).then(|| (format!("f{n}"), span())));
    assert_eq!(count, 4);
    assert_eq!(diagnostic.frames.len(), 2);
    assert!(!diagnostic.frames_truncated);

    let (diagnostic, count) = asked(|n| (n != 3).then(|| (format!("f{n}"), span())));
    assert_eq!(count, 4);
    assert_eq!(diagnostic.frames.len(), 2);
    assert!(diagnostic.frames_truncated);

    let (diagnostic, count) = asked(|n| (n <= MAX_DIAGNOSTIC_FRAMES).then(|| (format!("f{n}"), span())));
    assert_eq!(count, MAX_DIAGNOSTIC_FRAMES + 1);
    assert_eq!(diagnostic.frames.len(), MAX_DIAGNOSTIC_FRAMES);
    assert!(!diagnostic.frames_truncated);
}
