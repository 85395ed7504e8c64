//! What a console shows of diagnostics.
use vstd::prelude::*;
use crate::compiler::contents;
use crate::diagnostic::{Diagnostic, DiagnosticPhase, Report};
use crate::faults::{decimal, decimal_text};
use crate::source::SourceSpan;
use crate::text::{
    byte_len, chars_of, char_width, lemma_utf8_len_monotone, lemma_utf8_len_take, same_text,
    text_of, utf8_len,
};
use vstd::string::*;

verus! {

/// The line of a call that was under way when a program failed.
pub open spec fn frame_line(name: Seq<char>, span: SourceSpan) -> Seq<char> {
    let start = "[line "@ + decimal(span.start.line as nat) + "] in "@;
    if name == "<script>"@ {
        start + "script"@
    } else {
        start + name + "()"@
    }
}

pub open spec fn runtime_lines(report: Report) -> Seq<Seq<char>> {
    seq![report.message] + report.frames.map_values(
        |frame: (Seq<char>, SourceSpan)| frame_line(frame.0, frame.1),
    )
}

/// The part of a source between two bytes, where those are between scalars.
pub open spec fn is_between(source: Seq<char>, from: usize, to: usize, part: Seq<char>) -> bool {
    exists|i: int, k: int|
        0 <= i <= k <= source.len() && #[trigger] utf8_len(source.take(i)) == from
            && #[trigger] utf8_len(source.take(k)) == to && part == source.subrange(i, k)
}

/// Where a diagnostic says that it is: at the end, at some text, or nothing.
pub open spec fn whereabouts(report: Report, source: Seq<char>, text: Seq<char>) -> bool {
    let span = report.span;
    if report.phase is Scanner {
        text.len() == 0
    } else if span.start == span.end && span.start.byte_offset == utf8_len(source) {
        text == " at end"@
    } else {
        ||| exists|part: Seq<char>| #[trigger]
            is_between(source, span.start.byte_offset, span.end.byte_offset, part) && text
                == " at '"@ + part + "'"@
        ||| text.len() == 0 && forall|part: Seq<char>|
            !#[trigger] is_between(source, span.start.byte_offset, span.end.byte_offset, part)
    }
}

/// The lines that are shown of a diagnostic, with what it is about.
pub open spec fn shows_diagnostic(report: Report, source: Seq<char>, lines: Seq<Seq<char>>) -> bool {
    if report.phase is Runtime {
        lines == runtime_lines(report)
    } else {
        exists|text: Seq<char>| #[trigger]
            whereabouts(report, source, text) && lines == seq![
                "[line "@ + decimal(report.span.start.line as nat) + "] Error"@ + text + ": "@
                    + report.message,
            ]
    }
}

fn runtime_text(diagnostic: &Diagnostic) -> (lines: Vec<String>)
    ensures
        contents(lines@) == runtime_lines(diagnostic@),
{
    let mut lines: Vec<String> = Vec::new();
    lines.push(diagnostic.message.clone());
    let ghost all = runtime_lines(diagnostic@);
    assert(contents(lines@) =~= all.take(1));
    let mut i: usize = 0;
    while i < diagnostic.frames.len()
        invariant
            i <= diagnostic.frames@.len(),
            all == runtime_lines(diagnostic@),
            contents(lines@) == all.take(i + 1),
        decreases diagnostic.frames@.len() - i,
    {
        let frame = &diagnostic.frames[i];
        let mut line = "[line ".to_owned();
        line.append(decimal_text(frame.span.start.line).as_str());
        line.append("] in ");
        if same_text(frame.function.as_str(), "<script>") {
            line.append("script");
        } else {
            line.append(frame.function.as_str());
            line.append("()");
        }
        assert(line@ =~= frame_line(frame.function@, frame.span));
        let ghost before = contents(lines@);
        lines.push(line);
        assert(contents(lines@) =~= before.push(line@));
        assert(diagnostic@.frames[i as int] == (frame.function@, frame.span));
        assert(contents(lines@) =~= all.take(i + 2));
        i += 1;
    }
    assert(all.take(i + 1) =~= all);
    lines
}

/// The scalar at which a byte offset is, if there is one.
fn scalar_at(scalars: &Vec<char>, offset: usize) -> (place: Option<usize>)
    requires
        utf8_len(scalars@) <= usize::MAX,
    ensures
        match place {
            Some(i) => i <= scalars@.len() && utf8_len(scalars@.take(i as int)) == offset,
            None => forall|i: int|
                0 <= i <= scalars@.len() ==> #[trigger] utf8_len(scalars@.take(i)) != offset,
        },
{
    let mut i: usize = 0;
    let mut at: usize = 0;
    assert(scalars@.take(0) =~= Seq::empty());
    loop
        invariant
            i <= scalars@.len(),
            utf8_len(scalars@) <= usize::MAX,
            at == utf8_len(scalars@.take(i as int)),
            forall|j: int|
                0 <= j < i ==> #[trigger] utf8_len(scalars@.take(j)) != offset,
        decreases scalars@.len() - i,
    {
        if at == offset {
            return Some(i);
        }
        if i >= scalars.len() {
            return None;
        }
        proof {
            lemma_utf8_len_take(scalars@, i as int);
            lemma_utf8_len_monotone(scalars@, i + 1, scalars@.len() as int);
            assert(scalars@.take(scalars@.len() as int) =~= scalars@);
        }
        at += char_width(scalars[i]);
        i += 1;
    }
}

fn text_between(source: &str, from: usize, to: usize) -> (part: Option<String>)
    ensures
        match part {
            Some(part) => is_between(source@, from, to, part@),
            None => forall|part: Seq<char>| !#[trigger] is_between(source@, from, to, part),
        },
{
    let bytes: usize = byte_len(source);
    let scalars = chars_of(source);
    let first = scalar_at(&scalars, from);
    let last = scalar_at(&scalars, to);
    match (first, last) {
        (Some(i), Some(k)) => {
            if i <= k {
                let part = text_of(vstd::slice::slice_subrange(scalars.as_slice(), i, k));
                assert(is_between(source@, from, to, part@)) by {
                    assert(utf8_len(source@.take(i as int)) == from);
                    assert(utf8_len(source@.take(k as int)) == to);
                }
                return Some(part);
            }
            proof {
                lemma_utf8_len_monotone(source@, k as int, i as int);
                assert forall|part: Seq<char>| !#[trigger] is_between(source@, from, to, part) by {
                    if is_between(source@, from, to, part) {
                        let (a, b) = choose|a: int, b: int|
                            0 <= a <= b <= source@.len() && #[trigger] utf8_len(source@.take(a))
                                == from && #[trigger] utf8_len(source@.take(b)) == to && part
                                == source@.subrange(a, b);
                        lemma_utf8_len_monotone(source@, a, b);
                    }
                }
            }
            None
        },
        _ => None,
    }
}

/// The lines to show of a diagnostic about a source.
pub fn diagnostic_lines(diagnostic: &Diagnostic, source: &str) -> (lines: Vec<String>)
    ensures
        shows_diagnostic(diagnostic@, source@, contents(lines@)),
{
    if diagnostic.phase == DiagnosticPhase::Runtime {
        return runtime_text(diagnostic);
    }
    let span = diagnostic.span;
    let mut about = String::new();
    if diagnostic.phase != DiagnosticPhase::Scanner {
        if span.start == span.end && span.start.byte_offset == byte_len(source) {
            about.append(" at end");
            assert(about@ =~= " at end"@);
        } else if let Some(part) = text_between(
            source,
            span.start.byte_offset,
            span.end.byte_offset,
        ) {
            about.append(" at '");
            about.append(part.as_str());
            about.append("'");
            assert(about@ =~= " at '"@ + part@ + "'"@);
        }
    }
    assert(whereabouts(diagnostic@, source@, about@));
    let mut line = "[line ".to_owned();
    line.append(decimal_text(span.start.line).as_str());
    line.append("] Error");
    line.append(about.as_str());
    line.append(": ");
    line.append(diagnostic.message.as_str());
    let ghost text = line@;
    let mut lines: Vec<String> = Vec::new();
    lines.push(line);
    assert(contents(lines@) =~= seq![text]);
    lines
}

/// The lines to show of a diagnostic where its source is not at hand.
pub fn plain_lines(diagnostic: &Diagnostic) -> (lines: Vec<String>)
    ensures
        contents(lines@) == (if diagnostic.phase is Runtime {
            runtime_lines(diagnostic@)
        } else {
            seq![
                "[line "@ + decimal(diagnostic.span.start.line as nat) + "] Error: "@
                    + diagnostic.message@,
            ]
        }),
{
    if diagnostic.phase == DiagnosticPhase::Runtime {
        return runtime_text(diagnostic);
    }
    let mut line = "[line ".to_owned();
    line.append(decimal_text(diagnostic.span.start.line).as_str());
    line.append("] Error: ");
    line.append(diagnostic.message.as_str());
    let ghost text = line@;
    let mut lines: Vec<String> = Vec::new();
    lines.push(line);
    assert(contents(lines@) =~= seq![text]);
    lines
}

} // verus!
