use rlox::console::{diagnostic_lines, plain_lines};
use rlox::{
    Diagnostic, DiagnosticPhase, DiagnosticSeverity, RevisionId, RuntimeFrame, SourceId,
    SourceSpan, TextPosition,
};

fn span(start: usize, end: usize, line: usize) -> SourceSpan {
    SourceSpan {
        source_id: SourceId(1),
        revision: RevisionId(1),
        start: TextPosition {
            byte_offset: start,
            line,
            column: 1,
        },
        end: TextPosition {
            byte_offset: end,
            line,
            column: 1 + (end - start),
        },
    }
}

fn diagnostic(phase: DiagnosticPhase, span: SourceSpan) -> Diagnostic {
    Diagnostic {
        phase,
        severity: DiagnosticSeverity::Error,
        code: "code".to_owned(),
        message: "Something is wrong.".to_owned(),
        span,
        frames: vec![
            RuntimeFrame {
                function: "inner".to_owned(),
                span,
            },
            RuntimeFrame {
                function: "<script>".to_owned(),
                span,
            },
        ],
    }
}

#[test]
fn compile_errors_say_where_they_are() {
    let source = "é + ;";
    let at = |phase, start, end| diagnostic_lines(&diagnostic(phase, span(start, end, 3)), source);
    assert_eq!(
        at(DiagnosticPhase::Parser, 3, 4),
        ["[line 3] Error at '+': Something is wrong."]
    );
    assert_eq!(
        at(DiagnosticPhase::Compiler, 0, 2),
        ["[line 3] Error at 'é': Something is wrong."]
    );
    assert_eq!(
        at(DiagnosticPhase::Parser, 6, 6),
        ["[line 3] Error at end: Something is wrong."]
    );
    assert_eq!(
        at(DiagnosticPhase::Parser, 1, 2),
        ["[line 3] Error: Something is wrong."]
    );
    assert_eq!(
        at(DiagnosticPhase::Parser, 4, 9),
        ["[line 3] Error: Something is wrong."]
    );
    assert_eq!(
        at(DiagnosticPhase::Scanner, 3, 4),
        ["[line 3] Error: Something is wrong."]
    );
}

#[test]
fn runtime_errors_list_the_calls() {
    let value = diagnostic(DiagnosticPhase::Runtime, span(0, 1, 7));
    let expected = [
        "Something is wrong.",
        "[line 7] in inner()",
        "[line 7] in script",
    ];
    assert_eq!(diagnostic_lines(&value, "x"), expected);
    assert_eq!(plain_lines(&value), expected);
}

#[test]
fn plain_lines_leave_the_source_out() {
    assert_eq!(
        plain_lines(&diagnostic(DiagnosticPhase::Parser, span(0, 1, 12))),
        ["[line 12] Error: Something is wrong."]
    );
}
