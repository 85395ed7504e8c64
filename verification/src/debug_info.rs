//! What the compiler records about a function for debuggers.
use vstd::prelude::*;
use crate::source::{RevisionId, SourceId, SourceSpan, TextPosition};

verus! {

#[derive(Debug, Clone, Copy, PartialEq, Eq, Hash, Structural)]
pub struct DebugPointId(pub u64);

#[derive(Debug, Clone, Copy, PartialEq, Eq, Structural)]
pub enum DebugPointKind {
    FunctionEntry,
    Statement,
    LoopInitializer,
    LoopCondition,
    LoopIncrement,
}

/// A place in the code where a program can be paused.
#[derive(Debug, Clone, Copy, PartialEq, Eq, Structural)]
pub struct DebugPoint {
    pub id: DebugPointId,
    pub offset: usize,
    pub kind: DebugPointKind,
    pub span: SourceSpan,
}

#[derive(Debug, Clone, Copy, PartialEq, Eq, Hash, Structural)]
pub struct BindingId(pub u64);

#[derive(Debug, Clone, Copy, PartialEq, Eq, Structural)]
pub enum BindingKind {
    Parameter,
    Local,
    Implicit,
}

/// A local variable: its slot, and the code offsets between which it lives.
#[derive(Debug, Clone, PartialEq, Eq)]
pub struct BindingDebugInfo {
    pub id: BindingId,
    pub name: String,
    pub kind: BindingKind,
    pub slot: u16,
    pub scope_depth: i32,
    pub declaration: SourceSpan,
    pub live_start: usize,
    pub live_end: usize,
}

#[derive(Debug, Clone, PartialEq, Eq)]
pub struct UpvalueDebugInfo {
    pub binding_id: BindingId,
    pub name: String,
    pub index: u8,
    pub declaration: SourceSpan,
}

#[derive(Debug, Clone, PartialEq, Eq)]
pub struct FunctionDebugInfo {
    pub source_id: SourceId,
    pub revision: RevisionId,
    pub declaration: SourceSpan,
    pub points: Vec<DebugPoint>,
    pub bindings: Vec<BindingDebugInfo>,
    pub upvalues: Vec<UpvalueDebugInfo>,
}

/// The span of nothing, at the start of a source.
pub open spec fn origin_span(source_id: SourceId, revision: RevisionId) -> SourceSpan {
    let position = TextPosition { byte_offset: 0, line: 1, column: 1 };
    SourceSpan { source_id, revision, start: position, end: position }
}

pub fn empty_span(source_id: SourceId, revision: RevisionId) -> (span: SourceSpan)
    ensures
        span == origin_span(source_id, revision),
{
    let position = TextPosition { byte_offset: 0, line: 1, column: 1 };
    SourceSpan { source_id, revision, start: position, end: position }
}

impl Default for FunctionDebugInfo {
    fn default() -> (info: Self)
        ensures
            info.source_id == SourceId(0),
            info.revision == RevisionId(0),
            info.declaration == origin_span(SourceId(0), RevisionId(0)),
            info.points@.len() == 0,
            info.bindings@.len() == 0,
            info.upvalues@.len() == 0,
    {
        FunctionDebugInfo {
            source_id: SourceId(0),
            revision: RevisionId(0),
            declaration: empty_span(SourceId(0), RevisionId(0)),
            points: Vec::new(),
            bindings: Vec::new(),
            upvalues: Vec::new(),
        }
    }
}

} // verus!
