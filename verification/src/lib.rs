//! A small scripting language: its scanner, compiler and machine, a debugger's
//! view of running programs, and a language server's rules.
use vstd::prelude::*;

pub mod analysis;
pub mod assignment_laws;
pub mod budget_laws;
pub mod chunk;
pub mod command_line;
pub mod compiler;
pub mod compiling_laws;
pub mod complaint_laws;
pub mod console;
pub mod debug_info;
pub mod declaration_laws;
pub mod diagnostic;
pub mod disassembly;
pub mod document_store;
pub mod documents;
pub mod editor_laws;
pub mod evaluation_laws;
pub mod expression_laws;
pub mod expressions;
pub mod faults;
pub mod format;
pub mod garbage;
pub mod garbage_laws;
pub mod grammar;
pub mod grammar_laws;
pub mod instruction_laws;
pub mod interpreter;
pub mod interpreter_session;
pub mod lexing_laws;
pub mod listing_laws;
pub mod loader;
pub mod loading_laws;
pub mod lookup_laws;
pub mod machine;
pub mod machine_laws;
pub mod number;
pub mod number_laws;
pub mod object;
pub mod object_laws;
pub mod parser;
pub mod picture;
pub mod picture_laws;
pub mod precedence_laws;
pub mod printing_laws;
pub mod reporting_laws;
pub mod rules;
pub mod runtime_host;
pub mod scanner;
pub mod scanner_laws;
pub mod scope_laws;
pub mod scopes;
pub mod server;
pub mod service_laws;
pub mod session;
pub mod snapshot;
pub mod snapshot_budget;
pub mod snapshot_builder;
pub mod snapshot_globals;
pub mod snapshot_globals_laws;
pub mod snapshot_growth;
pub mod snapshot_json;
pub mod snapshot_laws;
pub mod snapshot_machine;
pub mod snapshot_showing_laws;
pub mod source;
pub mod statement_laws;
pub mod statements;
pub mod stepping_laws;
pub mod store_laws;
pub mod symbol_laws;
pub mod symbols;
pub mod table;
pub mod text;
pub mod text_index;
pub mod value;
pub mod vm;
pub mod wire;
pub mod wire_diagnostic;
pub mod wire_laws;

pub use analysis::{
    analyze, AnalysisError, AnalysisLimit, HighlightKind, HighlightSpan, LanguageAnalysis,
    SemanticStatus, MAX_ANALYSIS_DIAGNOSTICS, MAX_ANALYSIS_LEXICAL_ITEMS,
    MAX_ANALYSIS_NESTING_DEPTH, MAX_ANALYSIS_SOURCE_BYTES,
};
pub use debug_info::{
    BindingDebugInfo, BindingId, BindingKind, DebugPoint, DebugPointId, DebugPointKind,
    FunctionDebugInfo, UpvalueDebugInfo,
};
pub use diagnostic::{Diagnostic, DiagnosticPhase, DiagnosticSeverity, RuntimeFrame};
pub use interpreter::{InterpretResult, Interpreter};
pub use interpreter_session::InterpreterSession;
pub use machine::ArithmeticOp;
pub use runtime_host::{Arithmetic, RecordingHost, RuntimeHost};
pub use session::{
    ActivationId, ExecutionControl, ExecutionState, PauseLocation, PauseReason, ResumeMode,
    RunOutcome, SessionError, SessionOperation,
};
pub use snapshot::{
    BindingSnapshot, DebugValue, FrameSnapshot, SnapshotLimitError, SnapshotLimitField,
    SnapshotLimits, SnapshotReason, SnapshotSizeError, ValueKind, VmSnapshot,
};
pub use source::{RevisionId, SourceDocument, SourceId, SourceSpan, TextPosition};
pub use parser::SymbolKind;
pub use symbols::{SymbolOccurrence, SymbolOccurrenceKind, SymbolResolution};
pub use wire_diagnostic::{WireDiagnostic, WireDiagnosticError, WireRuntimeFrame};

verus! {

} // verus!
