//! What is reported about a program.
use vstd::prelude::*;
use crate::source::SourceSpan;

verus! {

#[derive(Debug, Clone, Copy, PartialEq, Eq, Structural)]
pub enum DiagnosticPhase {
    Scanner,
    Parser,
    Compiler,
    Runtime,
    Worker,
}

#[derive(Debug, Clone, Copy, PartialEq, Eq, Structural)]
pub enum DiagnosticSeverity {
    Error,
    Warning,
}

/// One call that was under way when a program failed.
#[derive(Debug, Clone, PartialEq, Eq)]
pub struct RuntimeFrame {
    pub function: String,
    pub span: SourceSpan,
}

#[derive(Debug, Clone, PartialEq, Eq)]
pub struct Diagnostic {
    pub phase: DiagnosticPhase,
    pub severity: DiagnosticSeverity,
    pub code: String,
    pub message: String,
    pub span: SourceSpan,
    pub frames: Vec<RuntimeFrame>,
}

/// What a diagnostic says.
pub ghost struct Report {
    pub phase: DiagnosticPhase,
    pub severity: DiagnosticSeverity,
    pub code: Seq<char>,
    pub message: Seq<char>,
    pub span: SourceSpan,
    pub frames: Seq<(Seq<char>, SourceSpan)>,
}

impl Diagnostic {
    pub open spec fn view(self) -> Report {
        Report {
            phase: self.phase,
            severity: self.severity,
            code: self.code@,
            message: self.message@,
            span: self.span,
            frames: self.frames@.map_values(|frame: RuntimeFrame| (frame.function@, frame.span)),
        }
    }

    /// A copy that says the same.
    pub fn duplicate(&self) -> (copy: Self)
        ensures
            copy@ == self@,
    {
        let mut frames: Vec<RuntimeFrame> = Vec::new();
        let mut i: usize = 0;
        while i < self.frames.len()
            invariant
                i <= self.frames@.len(),
                frames@.len() == i,
                forall|j: int|
                    0 <= j < i ==> (#[trigger] frames@[j]).function@ == self.frames@[j].function@
                        && frames@[j].span == self.frames@[j].span,
            decreases self.frames@.len() - i,
        {
            frames.push(
                RuntimeFrame {
                    function: self.frames[i].function.clone(),
                    span: self.frames[i].span,
                },
            );
            i += 1;
        }
        let copy = Diagnostic {
            phase: self.phase,
            severity: self.severity,
            code: self.code.clone(),
            message: self.message.clone(),
            span: self.span,
            frames,
        };
        assert(copy@.frames =~= self@.frames);
        copy
    }
}

} // verus!
