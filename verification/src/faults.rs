//! Telling what went wrong in a program.
use vstd::prelude::*;
use crate::diagnostic::{Diagnostic, DiagnosticPhase, DiagnosticSeverity, Report, RuntimeFrame};
use crate::format::{function_name, text_at};
use crate::machine::{Fault, VmState};
use crate::object::{Content, HeapState, Object};
use crate::source::SourceSpan;
use crate::vm::VM;
use vstd::string::*;

verus! {

pub open spec fn digit(n: int) -> char {
    if n == 0 {
        '0'
    } else if n == 1 {
        '1'
    } else if n == 2 {
        '2'
    } else if n == 3 {
        '3'
    } else if n == 4 {
        '4'
    } else if n == 5 {
        '5'
    } else if n == 6 {
        '6'
    } else if n == 7 {
        '7'
    } else if n == 8 {
        '8'
    } else {
        '9'
    }
}

/// A hexadecimal digit.
pub open spec fn hex_digit(n: int) -> char {
    if n == 10 {
        'a'
    } else if n == 11 {
        'b'
    } else if n == 12 {
        'c'
    } else if n == 13 {
        'd'
    } else if n == 14 {
        'e'
    } else if n == 15 {
        'f'
    } else {
        digit(n)
    }
}

/// A number in decimal digits.
pub open spec fn decimal(n: nat) -> Seq<char>
    decreases n,
{
    if n < 10 {
        seq![digit(n as int)]
    } else {
        decimal(n / 10).push(digit((n % 10) as int))
    }
}

fn digit_of(n: usize) -> (c: char)
    requires
        n < 10,
    ensures
        c == digit(n as int),
{
    match n {
        0 => '0',
        1 => '1',
        2 => '2',
        3 => '3',
        4 => '4',
        5 => '5',
        6 => '6',
        7 => '7',
        8 => '8',
        _ => '9',
    }
}

/// Writes a number in decimal digits.
pub fn decimal_text(n: usize) -> (text: String)
    ensures
        text@ == decimal(n as nat),
    decreases n,
{
    if n < 10 {
        let mut text = String::new();
        text.push(digit_of(n));
        assert(text@ =~= decimal(n as nat));
        text
    } else {
        let mut text = decimal_text(n / 10);
        text.push(digit_of(n % 10));
        text
    }
}

pub open spec fn fault_message(heap: HeapState, fault: Fault) -> Seq<char> {
    match fault {
        Fault::Message(message) => message@,
        Fault::WrongArity { expected, got } => "Expected "@ + decimal(expected as nat)
            + " arguments but got "@ + decimal(got as nat) + "."@,
        Fault::UndefinedVariable { name } => "Undefined variable '"@ + text_at(heap, name) + "'."@,
        Fault::UndefinedProperty { name } => "Undefined property '"@ + text_at(heap, name) + "'."@,
        Fault::NoListMethod { name } => "List has no method '"@ + text_at(heap, name) + "'."@,
    }
}

impl VmState {
    /// The name of the function of the frame `i`.
    pub open spec fn frame_name(self, i: int) -> Seq<char> {
        match self.heap.get(self.frames[i].closure) {
            Content::Closure { function, upvalues } => match function_name(self.heap, function) {
                Some(name) => name,
                None => "<script>"@,
            },
            _ => "<script>"@,
        }
    }

    /// Where the frame `i` is: at its next instruction, or at the call that
    /// it waits for.
    pub open spec fn frame_span(self, i: int, otherwise: SourceSpan) -> SourceSpan {
        let span = if i == self.frames.len() - 1 {
            self.current_span()
        } else {
            self.frames[i + 1].call_site
        };
        match span {
            Some(span) => span,
            None => otherwise,
        }
    }

    /// The calls under way, the innermost first.
    pub open spec fn trace(self, otherwise: SourceSpan) -> Seq<(Seq<char>, SourceSpan)> {
        Seq::new(
            self.frames.len(),
            |k: int|
                {
                    let i = self.frames.len() - 1 - k;
                    (self.frame_name(i), self.frame_span(i, otherwise))
                },
        )
    }

    /// What is reported of a fault. Where no span is known, it is `otherwise`.
    pub open spec fn fault_report(self, fault: Fault, otherwise: SourceSpan) -> Report {
        Report {
            phase: DiagnosticPhase::Runtime,
            severity: DiagnosticSeverity::Error,
            code: "runtime.error"@,
            message: fault_message(self.heap, fault),
            span: match self.current_span() {
                Some(span) => span,
                None => otherwise,
            },
            frames: self.trace(otherwise),
        }
    }
}

impl VM {
    fn quoted(&self, before: &str, name: usize) -> (text: String)
        requires
            self.wf(),
        ensures
            text@ == before@ + text_at(self@.heap, name) + "'."@,
    {
        let mut text = before.to_owned();
        if name < self.heap.len() {
            if let Object::Text { text: name, hash: _ } = self.heap.get(name) {
                text.append(name.as_str());
            }
        }
        assert(text@ =~= before@ + text_at(self@.heap, name));
        text.append("'.");
        text
    }

    pub fn fault_text(&self, fault: Fault) -> (text: String)
        requires
            self.wf(),
        ensures
            text@ == fault_message(self@.heap, fault),
    {
        match fault {
            Fault::Message(message) => message.to_owned(),
            Fault::WrongArity { expected, got } => {
                let mut text = "Expected ".to_owned();
                text.append(decimal_text(expected).as_str());
                text.append(" arguments but got ");
                text.append(decimal_text(got).as_str());
                text.append(".");
                text
            },
            Fault::UndefinedVariable { name } => self.quoted("Undefined variable '", name),
            Fault::UndefinedProperty { name } => self.quoted("Undefined property '", name),
            Fault::NoListMethod { name } => self.quoted("List has no method '", name),
        }
    }

    /// The name of a function by its closure.
    pub fn closure_name(&self, closure: usize) -> (name: String)
        requires
            self.wf(),
        ensures
            name@ == (match self@.heap.get(closure) {
                Content::Closure { function, upvalues } => match function_name(
                    self@.heap,
                    function,
                ) {
                    Some(name) => name,
                    None => "<script>"@,
                },
                _ => "<script>"@,
            }),
    {
        if let Some(f) = self.function_of(closure) {
            if let Some(name) = f.name {
                if name < self.heap.len() {
                    if let Object::Text { text, hash: _ } = self.heap.get(name) {
                        return text.clone();
                    }
                }
            }
        }
        "<script>".to_owned()
    }

    /// The span of the instruction that is being executed.
    pub fn current_span(&self) -> (span: Option<SourceSpan>)
        requires
            self.wf(),
        ensures
            span == self@.current_span(),
    {
        if self.frames.len() == 0 {
            return None;
        }
        let frame = self.frames[self.frames.len() - 1];
        match self.function_of(frame.closure) {
            Some(f) => if frame.ip < f.chunk.spans.len() {
                Some(f.chunk.spans[frame.ip])
            } else {
                None
            },
            None => None,
        }
    }

    fn trace(&self, otherwise: SourceSpan) -> (frames: Vec<RuntimeFrame>)
        requires
            self.wf(),
        ensures
            frames@.map_values(|frame: RuntimeFrame| (frame.function@, frame.span))
                == self@.trace(otherwise),
    {
        let mut frames: Vec<RuntimeFrame> = Vec::new();
        let mut i: usize = self.frames.len();
        while i > 0
            invariant
                self.wf(),
                i <= self.frames@.len(),
                frames@.len() + i == self.frames@.len(),
                forall|k: int|
                    0 <= k < frames@.len() ==> ((#[trigger] frames@[k]).function@, frames@[k].span)
                        == self@.trace(otherwise)[k],
            decreases i,
        {
            i -= 1;
            let span = if i == self.frames.len() - 1 {
                self.current_span()
            } else {
                self.frames[i + 1].call_site
            };
            frames.push(
                RuntimeFrame {
                    function: self.closure_name(self.frames[i].closure),
                    span: match span {
                        Some(span) => span,
                        None => otherwise,
                    },
                },
            );
        }
        assert(frames@.map_values(|frame: RuntimeFrame| (frame.function@, frame.span))
            =~= self@.trace(otherwise));
        frames
    }

    pub fn diagnostic_for_fault(&self, fault: Fault, otherwise: SourceSpan) -> (diagnostic:
        Diagnostic)
        requires
            self.wf(),
        ensures
            diagnostic@ == self@.fault_report(fault, otherwise),
    {
        let span = match self.current_span() {
            Some(span) => span,
            None => otherwise,
        };
        Diagnostic {
            phase: DiagnosticPhase::Runtime,
            severity: DiagnosticSeverity::Error,
            code: "runtime.error".to_owned(),
            message: self.fault_text(fault),
            span,
            frames: self.trace(otherwise),
        }
    }
}

} // verus!
