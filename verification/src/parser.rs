//! The state of the compiler: the tokens still to read, the function that is
//! being compiled and those around it, and what has been reported so far.
use vstd::prelude::*;
use crate::chunk::{byte_of, constant_index, with_constant, Chunk, OpCode};
use crate::debug_info::{origin_span, BindingId, BindingKind, DebugPoint, DebugPointId, DebugPointKind};
use crate::diagnostic::DiagnosticPhase;
use crate::scanner::TokenType;
use crate::source::{RevisionId, SourceId, SourceSpan, TextPosition};
use crate::value::Value;

verus! {

/// Local variables that one function can have, its own slot among them.
pub const LOCALS_MAX: usize = 256;

/// A token as the compiler reads it: its text is a number in a table of
/// texts, and a number token has the bits of its number.
#[derive(Debug, Clone, Copy)]
pub struct Lexed {
    pub token_type: TokenType,
    pub text: usize,
    pub number: u64,
    pub start: TextPosition,
    pub end: TextPosition,
    pub fault: Option<&'static str>,
}

/// Something reported while compiling.
#[derive(Debug, Clone, Copy)]
pub struct Note {
    pub phase: DiagnosticPhase,
    pub message: &'static str,
    pub span: SourceSpan,
}

#[derive(Debug, Clone, Copy, PartialEq, Eq, Structural)]
pub enum FunctionType {
    Function,
    Script,
}

/// A local variable in scope. Its depth is -1 until it is initialized.
#[derive(Debug, Clone, Copy, PartialEq, Eq, Structural)]
pub struct Local {
    pub name: usize,
    pub depth: i32,
    pub is_captured: bool,
    pub binding_id: BindingId,
    pub declaration: SourceSpan,
    pub metadata: Option<usize>,
}

/// A variable of an enclosing function that is captured: a local of the next
/// function out, or one of that function's own captured variables.
#[derive(Debug, Clone, Copy, PartialEq, Eq, Structural)]
pub struct Upvalue {
    pub index: u8,
    pub is_local: bool,
    pub binding_id: BindingId,
    pub name: usize,
    pub declaration: SourceSpan,
}

/// A place to pause, waiting for the instruction that it will stand at.
#[derive(Debug, Clone, Copy, PartialEq, Eq, Structural)]
pub struct PendingPoint {
    pub id: DebugPointId,
    pub kind: DebugPointKind,
    pub span: SourceSpan,
}

/// What is recorded about a local variable.
#[derive(Debug, Clone, Copy, PartialEq, Eq, Structural)]
pub struct Binding {
    pub id: BindingId,
    pub name: usize,
    pub kind: BindingKind,
    pub slot: u16,
    pub scope_depth: i32,
    pub declaration: SourceSpan,
    pub live_start: usize,
    pub live_end: usize,
}

/// A function that is being compiled, or has been.
#[derive(Debug)]
pub struct FunctionState {
    pub kind: FunctionType,
    pub name: Option<usize>,
    pub arity: usize,
    pub chunk: Chunk,
    pub declaration: SourceSpan,
    pub points: Vec<DebugPoint>,
    pub bindings: Vec<Binding>,
    pub locals: Vec<Local>,
    pub scope_depth: i32,
    pub upvalues: Vec<Upvalue>,
    pub pending: Vec<PendingPoint>,
}

/// The contents of a `FunctionState`.
pub ghost struct FState {
    pub kind: FunctionType,
    pub name: Option<usize>,
    pub arity: usize,
    pub code: Seq<u8>,
    pub spans: Seq<SourceSpan>,
    pub constants: Seq<Value>,
    pub declaration: SourceSpan,
    pub points: Seq<DebugPoint>,
    pub bindings: Seq<Binding>,
    pub locals: Seq<Local>,
    pub scope_depth: i32,
    pub upvalues: Seq<Upvalue>,
    pub pending: Seq<PendingPoint>,
}

impl FunctionState {
    pub open spec fn view(self) -> FState {
        FState {
            kind: self.kind,
            name: self.name,
            arity: self.arity,
            code: self.chunk.code@,
            spans: self.chunk.spans@,
            constants: self.chunk.constants@,
            declaration: self.declaration,
            points: self.points@,
            bindings: self.bindings@,
            locals: self.locals@,
            scope_depth: self.scope_depth,
            upvalues: self.upvalues@,
            pending: self.pending@,
        }
    }
}

/// What a name is the name of.
#[derive(Debug, Clone, Copy, PartialEq, Eq, Structural)]
pub enum SymbolKind {
    Variable,
    Function,
    Parameter,
    BuiltIn,
    Unknown,
}

/// What is done with a name. The target of a use is the declaration of the
/// local variable that it means, perhaps one of a function around it.
#[derive(Debug, Clone, Copy, PartialEq, Eq, Structural)]
pub enum Sight {
    Declares { symbol: SymbolKind, local: bool },
    Uses { write: bool, captured: bool, target: Option<SourceSpan> },
}

/// A name that was met while compiling.
#[derive(Debug, Clone, Copy, PartialEq, Eq, Structural)]
pub struct Sighting {
    pub name: usize,
    pub span: SourceSpan,
    pub sight: Sight,
}

/// The compiler at work.
pub struct Parser<'t> {
    pub tokens: &'t Vec<Lexed>,
    pub next: usize,
    pub current: Lexed,
    pub previous: Lexed,
    pub had_error: bool,
    pub panic_mode: bool,
    pub source_id: SourceId,
    pub revision: RevisionId,
    pub notes: Vec<Note>,
    pub note_count: usize,
    pub note_limit: Option<usize>,
    pub depth: usize,
    pub depth_limit: Option<usize>,
    pub too_deep: bool,
    pub next_binding_id: u64,
    pub next_point_id: u64,
    pub function: FunctionState,
    pub enclosing: Vec<FunctionState>,
    pub finished: Vec<FunctionState>,
    pub sightings: Vec<Sighting>,
}

/// The contents of a `Parser`.
pub ghost struct PState {
    pub tokens: Seq<Lexed>,
    pub next: int,
    pub current: Lexed,
    pub previous: Lexed,
    pub had_error: bool,
    pub panic_mode: bool,
    pub source_id: SourceId,
    pub revision: RevisionId,
    pub notes: Seq<Note>,
    pub note_count: usize,
    pub note_limit: Option<usize>,
    pub depth: usize,
    pub depth_limit: Option<usize>,
    pub too_deep: bool,
    pub next_binding_id: u64,
    pub next_point_id: u64,
    pub function: FState,
    pub enclosing: Seq<FState>,
    pub finished: Seq<FState>,
    pub sightings: Seq<Sighting>,
}

pub open spec fn views(states: Seq<FunctionState>) -> Seq<FState> {
    states.map_values(|state: FunctionState| state@)
}

/// The next number in a row of identities.
pub open spec fn next_id(id: u64) -> u64 {
    if id == u64::MAX {
        0
    } else {
        (id + 1) as u64
    }
}

pub open spec fn one_more(n: usize) -> usize {
    if n == usize::MAX {
        n
    } else {
        (n + 1) as usize
    }
}

pub open spec fn one_less(n: usize) -> usize {
    if n == 0 {
        n
    } else {
        (n - 1) as usize
    }
}

/// The same functions, with the same code.
pub open spec fn same_codes(a: Seq<FState>, b: Seq<FState>) -> bool {
    &&& a.len() == b.len()
    &&& forall|i: int| #![trigger b[i]] 0 <= i < a.len() ==> a[i].code == b[i].code
}

/// The tokens end with the only end-of-file token.
pub open spec fn well_ended(tokens: Seq<Lexed>) -> bool {
    &&& tokens.len() > 0
    &&& forall|i: int|
        0 <= i < tokens.len() ==> ((#[trigger] tokens[i]).token_type == TokenType::Eof <==> i
            == tokens.len() - 1)
}

impl FState {
    /// One more byte of code.
    #[verifier::opaque]
    pub open spec fn with_byte(self, byte: u8, span: SourceSpan) -> FState {
        FState { code: self.code.push(byte), spans: self.spans.push(span), ..self }
    }

    /// One more instruction; the waiting points stand at it.
    #[verifier::opaque]
    pub open spec fn with_op(self, op: OpCode, span: SourceSpan) -> FState {
        let offset = self.code.len() as usize;
        let placed = self.pending.map_values(
            |point: PendingPoint|
                DebugPoint { id: point.id, offset, kind: point.kind, span: point.span },
        );
        FState {
            points: self.points + placed,
            pending: Seq::empty(),
            code: self.code.push(byte_of(op)),
            spans: self.spans.push(span),
            ..self
        }
    }

    /// The two bytes at `place` spell `operand`.
    #[verifier::opaque]
    pub open spec fn with_operand(self, place: int, operand: int) -> FState {
        FState {
            code: self.code.update(place, (operand % 256) as u8).update(
                place + 1,
                (operand / 256 % 256) as u8,
            ),
            ..self
        }
    }
}

impl PState {
    pub open spec fn eof(self) -> bool {
        self.current.token_type == TokenType::Eof
    }

    /// How much is left to read.
    pub open spec fn rem(self) -> nat {
        (self.tokens.len() - self.next + (if self.eof() {
            0int
        } else {
            1
        })) as nat
    }

    pub open spec fn wf(self) -> bool {
        &&& well_ended(self.tokens)
        &&& 0 <= self.next < self.tokens.len()
        &&& self.eof() ==> self.next == self.tokens.len() - 1
    }

    /// `to` can come behind this state: it has read more, or everything.
    pub open spec fn ahead(self, to: PState) -> bool {
        to.rem() < self.rem() || (to.eof() && to.rem() <= self.rem())
    }

    /// `to` comes behind this state in a run of the compiler.
    pub open spec fn leads_to(self, to: PState) -> bool {
        &&& to.wf()
        &&& to.tokens == self.tokens
        &&& to.rem() <= self.rem()
        &&& self.eof() ==> to.eof()
        &&& same_codes(self.enclosing, to.enclosing)
        &&& self.function.code.len() <= to.function.code.len()
    }

    /// `to` has read as far as this state, and kept the code.
    pub open spec fn steady(self, to: PState) -> bool {
        &&& to.tokens == self.tokens
        &&& to.next == self.next
        &&& to.current == self.current
        &&& to.previous == self.previous
        &&& same_codes(self.enclosing, to.enclosing)
        &&& self.function.code.len() <= to.function.code.len()
    }

    pub open spec fn at(self, kind: TokenType) -> bool {
        self.current.token_type == kind
    }

    pub open spec fn span_of(self, token: Lexed) -> SourceSpan {
        SourceSpan {
            source_id: self.source_id,
            revision: self.revision,
            start: token.start,
            end: token.end,
        }
    }

    pub open spec fn merged(self, start: Lexed, end: Lexed) -> SourceSpan {
        SourceSpan {
            source_id: self.source_id,
            revision: self.revision,
            start: start.start,
            end: end.end,
        }
    }

    /// Reports at a token. While an error is being recovered from, only
    /// faults of the scanner are reported.
    pub open spec fn report_at(
        self,
        token: Lexed,
        message: &'static str,
        phase: DiagnosticPhase,
    ) -> PState {
        if self.panic_mode && phase != DiagnosticPhase::Scanner {
            self
        } else {
            let note = Note { phase, message, span: self.span_of(token) };
            PState {
                panic_mode: true,
                had_error: true,
                note_count: one_more(self.note_count),
                notes: if self.note_limit matches Some(limit) && self.notes.len() >= limit {
                    self.notes
                } else {
                    self.notes.push(note)
                },
                ..self
            }
        }
    }

    pub open spec fn error_at(self, token: Lexed, message: &'static str) -> PState {
        self.report_at(
            token,
            message,
            if token.token_type == TokenType::Error {
                DiagnosticPhase::Scanner
            } else {
                DiagnosticPhase::Parser
            },
        )
    }

    pub open spec fn error(self, message: &'static str) -> PState {
        self.error_at(self.previous, message)
    }

    pub open spec fn error_at_current(self, message: &'static str) -> PState {
        self.error_at(self.current, message)
    }

    pub open spec fn compiler_error(self, message: &'static str) -> PState {
        self.report_at(self.previous, message, DiagnosticPhase::Compiler)
    }

    pub open spec fn compiler_error_at_current(self, message: &'static str) -> PState {
        self.report_at(self.current, message, DiagnosticPhase::Compiler)
    }

    /// Reads up to the next token that is well formed, and reports the others.
    pub open spec fn read(self) -> PState
        decreases self.tokens.len() - self.next,
    {
        let token = self.tokens[self.next];
        let taken = PState { current: token, next: self.next + 1, ..self };
        if token.token_type == TokenType::Eof {
            PState { next: self.next, ..taken }
        } else if token.token_type == TokenType::Error && 0 <= self.next < self.tokens.len() - 1 {
            taken.error_at_current(fault_message(token)).read()
        } else {
            taken
        }
    }

    #[verifier::opaque]
    pub open spec fn advance(self) -> PState {
        PState { previous: self.current, ..self }.read()
    }

    #[verifier::opaque]
    pub open spec fn consume(self, kind: TokenType, message: &'static str) -> PState {
        if self.at(kind) {
            self.advance()
        } else {
            self.error_at_current(message)
        }
    }

    /// The state behind a token of this kind, if it is the next one.
    pub open spec fn match_token(self, kind: TokenType) -> PState {
        if self.at(kind) {
            self.advance()
        } else {
            self
        }
    }

    pub open spec fn with_function(self, function: FState) -> PState {
        PState { function, ..self }
    }

    pub open spec fn schedule_point(self, kind: DebugPointKind, span: SourceSpan) -> PState {
        let point = PendingPoint { id: DebugPointId(self.next_point_id), kind, span };
        PState { next_point_id: next_id(self.next_point_id), ..self }.with_function(
            FState { pending: self.function.pending.push(point), ..self.function },
        )
    }

    /// The span of a scheduled point ends where the last token that was read ends.
    #[verifier::opaque]
    pub open spec fn finish_point(self, id: u64) -> PState {
        let end = self.previous.end;
        let waiting = pending_place(self.function.pending, id, 0);
        let placed = point_place(self.function.points, id, 0);
        if waiting < self.function.pending.len() {
            let point = self.function.pending[waiting];
            let ended = PendingPoint { span: SourceSpan { end, ..point.span }, ..point };
            self.with_function(
                FState {
                    pending: self.function.pending.update(waiting, ended),
                    ..self.function
                },
            )
        } else if placed < self.function.points.len() {
            let point = self.function.points[placed];
            let ended = DebugPoint { span: SourceSpan { end, ..point.span }, ..point };
            self.with_function(
                FState { points: self.function.points.update(placed, ended), ..self.function },
            )
        } else {
            self
        }
    }

    pub open spec fn byte_at(self, byte: u8, span: SourceSpan) -> PState {
        self.with_function(self.function.with_byte(byte, span))
    }

    pub open spec fn byte(self, byte: u8) -> PState {
        self.byte_at(byte, self.span_of(self.previous))
    }

    pub open spec fn op_at(self, op: OpCode, span: SourceSpan) -> PState {
        self.with_function(self.function.with_op(op, span))
    }

    pub open spec fn op(self, op: OpCode) -> PState {
        self.op_at(op, self.span_of(self.previous))
    }

    pub open spec fn short_at(self, value: int, span: SourceSpan) -> PState {
        self.byte_at((value % 256) as u8, span).byte_at((value / 256 % 256) as u8, span)
    }

    pub open spec fn short(self, value: int) -> PState {
        self.short_at(value, self.span_of(self.previous))
    }

    pub open spec fn op_byte(self, op: OpCode, operand: u8) -> PState {
        self.op(op).byte(operand)
    }

    pub open spec fn op_byte_at(self, op: OpCode, operand: u8, span: SourceSpan) -> PState {
        self.op_at(op, span).byte_at(operand, span)
    }

    pub open spec fn op_long(self, op: OpCode, operand: int) -> PState {
        self.op(op).byte((operand % 256) as u8).byte((operand / 256 % 256) as u8).byte(
            (operand / 65536 % 256) as u8,
        )
    }

    /// Jumps back to `start`.
    #[verifier::opaque]
    pub open spec fn emit_loop(self, start: int) -> PState {
        let s = self.op(OpCode::Loop);
        let offset = s.function.code.len() - start + 2;
        let s = if offset > u16::MAX {
            s.compiler_error("Loop body too large")
        } else {
            s
        };
        s.short(offset)
    }

    /// A jump whose target is not known yet, and the place of its operand.
    pub open spec fn emit_jump(self, op: OpCode) -> PState {
        self.op(op).short(u16::MAX as int)
    }

    pub open spec fn jump_place(self) -> int {
        self.function.code.len() - 2
    }

    /// The jump whose operand stands at `place` goes to the end of the code.
    pub open spec fn patch_jump(self, place: int) -> PState {
        let jump = self.function.code.len() - place - 2;
        let s = if jump > u16::MAX {
            self.compiler_error("Too much code to jump over.")
        } else {
            self
        };
        s.with_function(s.function.with_operand(place, jump))
    }

    pub open spec fn emit_return(self) -> PState {
        self.op(OpCode::Nil).op(OpCode::Return)
    }

    pub open spec fn make_constant(self, value: Value) -> PState {
        self.with_function(
            FState { constants: with_constant(self.function.constants, value), ..self.function },
        )
    }

    pub open spec fn constant_place(self, value: Value) -> int {
        constant_index(self.function.constants, value)
    }

    #[verifier::opaque]
    pub open spec fn emit_constant(self, value: Value) -> PState {
        let index = self.constant_place(value);
        if index <= 255 {
            self.make_constant(value).op_byte(OpCode::Constant, index as u8)
        } else {
            self.make_constant(value).op_long(OpCode::ConstantLong, index)
        }
    }

    pub open spec fn begin_scope(self) -> PState {
        let depth = self.function.scope_depth;
        self.with_function(
            FState {
                scope_depth: if depth == i32::MAX {
                    depth
                } else {
                    (depth + 1) as i32
                },
                ..self.function
            },
        )
    }

    /// Drops the locals that are deeper than the scope, the last one first.
    pub open spec fn drop_locals(self) -> PState
        decreases self.function.locals.len(),
    {
        let locals = self.function.locals;
        if locals.len() > 0 && locals.last().depth > self.function.scope_depth {
            let local = locals.last();
            let s = self.with_function(
                FState {
                    locals: locals.drop_last(),
                    bindings: with_live_end(
                        self.function.bindings,
                        local.metadata,
                        self.function.code.len() as usize,
                    ),
                    ..self.function
                },
            );
            let op = if local.is_captured {
                OpCode::CloseUpvalue
            } else {
                OpCode::Pop
            };
            proof {
                reveal(FState::with_op);
            }
            s.op(op).drop_locals()
        } else {
            self
        }
    }

    #[verifier::opaque]
    pub open spec fn end_scope(self) -> PState {
        let depth = self.function.scope_depth;
        self.with_function(
            FState {
                scope_depth: if depth == i32::MIN {
                    depth
                } else {
                    (depth - 1) as i32
                },
                ..self.function
            },
        ).drop_locals()
    }

    #[verifier::opaque]
    pub open spec fn add_local(self, name: Lexed) -> PState {
        if self.function.locals.len() == LOCALS_MAX {
            self.compiler_error("Too many local variables in function.")
        } else {
            let id = BindingId(self.next_binding_id);
            let declaration = self.span_of(name);
            let binding = Binding {
                id,
                name: name.text,
                kind: BindingKind::Local,
                slot: self.function.locals.len() as u16,
                scope_depth: self.function.scope_depth,
                declaration,
                live_start: usize::MAX,
                live_end: usize::MAX,
            };
            let local = Local {
                name: name.text,
                depth: (-1) as i32,
                is_captured: false,
                binding_id: id,
                declaration,
                metadata: Some(self.function.bindings.len() as usize),
            };
            PState { next_binding_id: next_id(self.next_binding_id), ..self }.with_function(
                FState {
                    bindings: self.function.bindings.push(binding),
                    locals: self.function.locals.push(local),
                    ..self.function
                },
            )
        }
    }

    /// Declares the name that was read last in the current scope.
    #[verifier::opaque]
    pub open spec fn declare_variable(self, kind: BindingKind) -> PState {
        if self.function.scope_depth == 0 {
            self
        } else {
            let name = self.previous;
            let place = local_place(self.function.locals, name.text);
            let local = self.function.locals[place];
            let s = if place > 0 && (local.depth == -1 || local.depth
                == self.function.scope_depth) {
                self.compiler_error("Already a variable with this name in this scope.")
            } else {
                self
            };
            let s = s.add_local(name);
            s.with_function(
                FState {
                    bindings: with_kind(s.function.bindings, last_metadata(s.function.locals), kind),
                    ..s.function
                },
            )
        }
    }

    /// The constant of a name, and a complaint where it does not fit a byte.
    #[verifier::opaque]
    pub open spec fn identifier_constant(self, name: Lexed) -> PState {
        let s = self.make_constant(Value::Obj(name.text));
        if self.constant_place(Value::Obj(name.text)) > u8::MAX {
            s.compiler_error("Too many globals in one chunk.")
        } else {
            s
        }
    }

    pub open spec fn identifier_operand(self, name: Lexed) -> u8 {
        let index = self.constant_place(Value::Obj(name.text));
        if index > u8::MAX {
            0
        } else {
            index as u8
        }
    }

    #[verifier::opaque]
    pub open spec fn parse_variable(self, message: &'static str, kind: BindingKind) -> PState {
        let s = self.consume(TokenType::Identifier, message).declare_variable(kind);
        if s.function.scope_depth > 0 {
            s
        } else {
            s.identifier_constant(s.previous)
        }
    }

    #[verifier::opaque]
    pub open spec fn variable_operand(self, message: &'static str, kind: BindingKind) -> u8 {
        let s = self.consume(TokenType::Identifier, message).declare_variable(kind);
        if s.function.scope_depth > 0 {
            0
        } else {
            s.identifier_operand(s.previous)
        }
    }

    /// The name that was read last is declared.
    #[verifier::opaque]
    pub open spec fn declares(self, symbol: SymbolKind) -> PState {
        let sighting = Sighting {
            name: self.previous.text,
            span: self.span_of(self.previous),
            sight: Sight::Declares { symbol, local: self.function.scope_depth > 0 },
        };
        PState { sightings: self.sightings.push(sighting), ..self }
    }

    /// The declaration of what an instruction reads.
    pub open spec fn target_of(self, get: OpCode, place: int) -> Option<SourceSpan> {
        if get == OpCode::GetLocal || get == OpCode::GetLocalLong {
            if 0 <= place < self.function.locals.len() {
                Some(self.function.locals[place].declaration)
            } else {
                None
            }
        } else if get == OpCode::GetUpvalue {
            if 0 <= place < self.function.upvalues.len() {
                Some(self.function.upvalues[place].declaration)
            } else {
                None
            }
        } else {
            None
        }
    }

    /// A name is used.
    #[verifier::opaque]
    pub open spec fn uses(self, name: Lexed, get: OpCode, place: int, write: bool) -> PState {
        let sighting = Sighting {
            name: name.text,
            span: self.span_of(name),
            sight: Sight::Uses {
                write,
                captured: get == OpCode::GetUpvalue,
                target: self.target_of(get, place),
            },
        };
        PState { sightings: self.sightings.push(sighting), ..self }
    }

    #[verifier::opaque]
    pub open spec fn mark_initialized(self) -> PState {
        if self.function.scope_depth == 0 || self.function.locals.len() == 0 {
            self
        } else {
            let locals = self.function.locals;
            let local = Local { depth: self.function.scope_depth, ..locals.last() };
            self.with_function(
                FState { locals: locals.update(locals.len() - 1, local), ..self.function },
            )
        }
    }

    #[verifier::opaque]
    pub open spec fn define_variable(self, global: u8) -> PState {
        if self.function.scope_depth > 0 {
            let s = self.mark_initialized();
            s.with_function(
                FState {
                    bindings: with_live_start(
                        s.function.bindings,
                        last_metadata(s.function.locals),
                        s.function.code.len() as usize,
                    ),
                    ..s.function
                },
            )
        } else {
            self.op_byte(OpCode::DefineGlobal, global)
        }
    }

    /// Starts to compile a function, named by the token read last.
    #[verifier::opaque]
    pub open spec fn open_function(self, kind: FunctionType) -> PState {
        let declaration = self.span_of(self.previous);
        let name = if kind == FunctionType::Script {
            None
        } else {
            Some(self.previous.text)
        };
        let opened = fresh_function(
            kind,
            name,
            declaration,
            self.next_point_id,
            origin_span(self.source_id, self.revision),
        );
        PState {
            next_point_id: next_id(self.next_point_id),
            enclosing: self.enclosing.push(self.function),
            function: opened,
            ..self
        }
    }

    /// Ends the function that is being compiled: its code returns, and its
    /// remaining locals live to the end of what it had.
    #[verifier::opaque]
    pub open spec fn close_function(self) -> PState {
        let end = if self.function.code.len() == 0 {
            1
        } else {
            self.function.code.len() as usize
        };
        self.with_function(
            FState {
                bindings: ended(self.function.bindings, self.function.locals, 1, end),
                pending: Seq::empty(),
                ..self.function
            },
        ).emit_return()
    }

    /// Puts a finished function aside and goes on with the one around it.
    #[verifier::opaque]
    pub open spec fn leave_function(self) -> PState {
        PState {
            finished: self.finished.push(self.function),
            function: self.enclosing.last(),
            enclosing: self.enclosing.drop_last(),
            ..self
        }
    }

    /// The declaration of the function that is being compiled reaches from
    /// `start` to the token read last.
    #[verifier::opaque]
    pub open spec fn declare_function(self, start: TextPosition) -> PState {
        let declaration = SourceSpan {
            source_id: self.source_id,
            revision: self.revision,
            start,
            end: self.previous.end,
        };
        let place = entry_place(self.function.points, 0);
        let points = self.function.points;
        self.with_function(
            FState {
                declaration,
                points: if place < points.len() {
                    points.update(place, DebugPoint { span: declaration, ..points[place] })
                } else {
                    points
                },
                ..self.function
            },
        )
    }

    /// One construct deeper. Past the limit there is nothing more to read.
    #[verifier::opaque]
    pub open spec fn enter(self) -> PState {
        if self.depth_limit matches Some(limit) && self.depth >= limit {
            PState {
                too_deep: true,
                depth: one_more(self.depth),
                current: self.tokens.last(),
                next: self.tokens.len() - 1,
                ..self
            }
        } else {
            PState { depth: one_more(self.depth), ..self }
        }
    }

    pub open spec fn leave(self) -> PState {
        PState { depth: one_less(self.depth), ..self }
    }

    /// Recovers from an error: reads on to the start of a statement.
    #[verifier::opaque]
    pub open spec fn synchronize(self) -> PState {
        PState { panic_mode: false, ..self }.skip_to_statement(0)
    }

    /// Reads on to the start of a statement, `open` delimiters inside what
    /// is passed over.
    pub open spec fn skip_to_statement(self, open: usize) -> PState
        decreases self.rem(),
    {
        if self.eof() || self.previous.token_type == TokenType::Semicolon || starts_statement(
            self.current.token_type,
        ) {
            self
        } else {
            let open = if opens_delimiter(self.current.token_type) {
                one_more(open)
            } else if closes_delimiter(self.current.token_type) {
                one_less(open)
            } else {
                open
            };
            let s = if self.depth_limit matches Some(limit) && self.depth + open > limit {
                PState {
                    too_deep: true,
                    current: self.tokens.last(),
                    next: self.tokens.len() - 1,
                    ..self
                }
            } else {
                self.advance()
            };
            if s.rem() < self.rem() {
                s.skip_to_statement(open)
            } else {
                s
            }
        }
    }
}

pub open spec fn fault_message(token: Lexed) -> &'static str {
    match token.fault {
        Some(message) => message,
        None => "Unexpected scanner error.",
    }
}

pub open spec fn starts_statement(kind: TokenType) -> bool {
    kind == TokenType::Class || kind == TokenType::Fun || kind == TokenType::Var || kind
        == TokenType::For || kind == TokenType::If || kind == TokenType::While || kind
        == TokenType::Print || kind == TokenType::Return
}

pub open spec fn opens_delimiter(kind: TokenType) -> bool {
    kind == TokenType::LeftParen || kind == TokenType::LeftBracket || kind == TokenType::LeftBrace
}

pub open spec fn closes_delimiter(kind: TokenType) -> bool {
    kind == TokenType::RightParen || kind == TokenType::RightBracket || kind
        == TokenType::RightBrace
}

pub open spec fn pending_place(pending: Seq<PendingPoint>, id: u64, i: int) -> int
    decreases pending.len() - i,
{
    if 0 <= i < pending.len() && pending[i].id != DebugPointId(id) {
        pending_place(pending, id, i + 1)
    } else {
        i
    }
}

pub open spec fn point_place(points: Seq<DebugPoint>, id: u64, i: int) -> int
    decreases points.len() - i,
{
    if 0 <= i < points.len() && points[i].id != DebugPointId(id) {
        point_place(points, id, i + 1)
    } else {
        i
    }
}

pub open spec fn entry_place(points: Seq<DebugPoint>, i: int) -> int
    decreases points.len() - i,
{
    if 0 <= i < points.len() && points[i].kind != DebugPointKind::FunctionEntry {
        entry_place(points, i + 1)
    } else {
        i
    }
}

/// The last local of a name, or the function's own slot.
pub open spec fn local_place(locals: Seq<Local>, name: usize) -> int
    decreases locals.len(),
{
    if locals.len() <= 1 {
        0
    } else if locals.last().name == name {
        locals.len() - 1
    } else {
        local_place(locals.drop_last(), name)
    }
}

pub open spec fn last_metadata(locals: Seq<Local>) -> Option<usize> {
    if locals.len() == 0 {
        None
    } else {
        locals.last().metadata
    }
}

pub open spec fn with_live_end(bindings: Seq<Binding>, metadata: Option<usize>, end: usize) -> Seq<
    Binding,
> {
    match metadata {
        Some(i) if i < bindings.len() => bindings.update(
            i as int,
            Binding { live_end: end, ..bindings[i as int] },
        ),
        _ => bindings,
    }
}

pub open spec fn with_live_start(
    bindings: Seq<Binding>,
    metadata: Option<usize>,
    start: usize,
) -> Seq<Binding> {
    match metadata {
        Some(i) if i < bindings.len() => bindings.update(
            i as int,
            Binding { live_start: start, ..bindings[i as int] },
        ),
        _ => bindings,
    }
}

pub open spec fn with_kind(bindings: Seq<Binding>, metadata: Option<usize>, kind: BindingKind) -> Seq<
    Binding,
> {
    match metadata {
        Some(i) if i < bindings.len() => bindings.update(
            i as int,
            Binding { kind, ..bindings[i as int] },
        ),
        _ => bindings,
    }
}

/// The bindings of the locals from `i` on, if they ever lived, live to `end`.
pub open spec fn ended(bindings: Seq<Binding>, locals: Seq<Local>, i: int, end: usize) -> Seq<
    Binding,
>
    decreases locals.len() - i,
{
    if 0 <= i < locals.len() {
        let metadata = locals[i].metadata;
        let bindings = if metadata matches Some(m) && m < bindings.len()
            && bindings[m as int].live_start != usize::MAX {
            with_live_end(bindings, metadata, end)
        } else {
            bindings
        };
        ended(bindings, locals, i + 1, end)
    } else {
        bindings
    }
}

/// A function with nothing in it but its entry point and its own slot.
pub open spec fn fresh_function(
    kind: FunctionType,
    name: Option<usize>,
    declaration: SourceSpan,
    entry: u64,
    origin: SourceSpan,
) -> FState {
    FState {
        kind,
        name,
        arity: 0,
        code: Seq::empty(),
        spans: Seq::empty(),
        constants: Seq::empty(),
        declaration,
        points: seq![
            DebugPoint {
                id: DebugPointId(entry),
                offset: 0,
                kind: DebugPointKind::FunctionEntry,
                span: declaration,
            },
        ],
        bindings: Seq::empty(),
        locals: seq![
            Local {
                name: usize::MAX,
                depth: 0,
                is_captured: false,
                binding_id: BindingId(0),
                declaration: origin,
                metadata: None,
            },
        ],
        scope_depth: 0,
        upvalues: Seq::empty(),
        pending: Seq::empty(),
    }
}

/// Reading goes ahead until the end of the file, and stays there.
pub proof fn lemma_read(s: PState)
    requires
        well_ended(s.tokens),
        0 <= s.next < s.tokens.len(),
    ensures
        s.read().wf(),
        s.read().tokens == s.tokens,
        s.read().tokens.len() - s.read().next + (if s.read().eof() {
            0int
        } else {
            1
        }) <= s.tokens.len() - s.next,
        s.next == s.tokens.len() - 1 ==> s.read().eof(),
        s.read().enclosing == s.enclosing,
        s.read().function == s.function,
        s.read().finished == s.finished,
        s.read().previous == s.previous,
        s.read().depth == s.depth,
    decreases s.tokens.len() - s.next,
{
    let token = s.tokens[s.next];
    let taken = PState { current: token, next: s.next + 1, ..s };
    if token.token_type == TokenType::Error && s.next < s.tokens.len() - 1 {
        lemma_read(taken.error_at_current(fault_message(token)));
    }
}

pub proof fn lemma_advance(s: PState)
    requires
        s.wf(),
    ensures
        s.leads_to(s.advance()),
        s.ahead(s.advance()),
        s.advance().function == s.function,
        s.advance().enclosing == s.enclosing,
        s.advance().finished == s.finished,
        s.advance().previous == s.current,
{
    reveal(PState::advance);
    lemma_read(PState { previous: s.current, ..s });
}

/// The low bytes of a distance do not depend on what is above them.
proof fn lemma_low_bytes(n: int)
    requires
        0 <= n,
    ensures
        (n % 65536 + 2) % 256 == (n + 2) % 256,
        (n % 65536 + 2) / 256 % 256 == (n + 2) / 256 % 256,
{
    let q = n / 65536;
    let x = n % 65536 + 2;
    assert(n + 2 == 256 * (256 * q) + x);
    assert((n + 2) % 256 == x % 256) by (nonlinear_arith)
        requires
            n + 2 == 256 * (256 * q) + x,
    ;
    assert((n + 2) / 256 == 256 * q + x / 256) by (nonlinear_arith)
        requires
            n + 2 == 256 * (256 * q) + x,
    ;
    let y = x / 256;
    assert((256 * q + y) % 256 == y % 256) by (nonlinear_arith);
}

pub proof fn lemma_push_view(states: Seq<FunctionState>, state: FunctionState)
    ensures
        views(states.push(state)) == views(states).push(state@),
{
    assert(views(states.push(state)) =~= views(states).push(state@));
}

impl<'t> Parser<'t> {
    pub open spec fn view(self) -> PState {
        PState {
            tokens: self.tokens@,
            next: self.next as int,
            current: self.current,
            previous: self.previous,
            had_error: self.had_error,
            panic_mode: self.panic_mode,
            source_id: self.source_id,
            revision: self.revision,
            notes: self.notes@,
            note_count: self.note_count,
            note_limit: self.note_limit,
            depth: self.depth,
            depth_limit: self.depth_limit,
            too_deep: self.too_deep,
            next_binding_id: self.next_binding_id,
            next_point_id: self.next_point_id,
            function: self.function@,
            enclosing: views(self.enclosing@),
            finished: views(self.finished@),
            sightings: self.sightings@,
        }
    }

    pub fn check(&self, kind: TokenType) -> (yes: bool)
        ensures
            yes == self@.at(kind),
    {
        self.current.token_type == kind
    }

    pub fn sight_declaration(&mut self, symbol: SymbolKind)
        ensures
            final(self)@ == old(self)@.declares(symbol),
            old(self)@.steady(final(self)@),
    {
        proof {
            reveal(PState::declares);
        }
        let sighting = Sighting {
            name: self.previous.text,
            span: self.token_span(self.previous),
            sight: Sight::Declares { symbol, local: self.function.scope_depth > 0 },
        };
        self.sightings.push(sighting);
    }

    pub fn sight_use(&mut self, name: Lexed, get: OpCode, place: usize, write: bool)
        ensures
            final(self)@ == old(self)@.uses(name, get, place as int, write),
            old(self)@.steady(final(self)@),
    {
        proof {
            reveal(PState::uses);
        }
        let target = if get == OpCode::GetLocal || get == OpCode::GetLocalLong {
            if place < self.function.locals.len() {
                Some(self.function.locals[place].declaration)
            } else {
                None
            }
        } else if get == OpCode::GetUpvalue {
            if place < self.function.upvalues.len() {
                Some(self.function.upvalues[place].declaration)
            } else {
                None
            }
        } else {
            None
        };
        let sighting = Sighting {
            name: name.text,
            span: self.token_span(name),
            sight: Sight::Uses { write, captured: get == OpCode::GetUpvalue, target },
        };
        self.sightings.push(sighting);
    }

    pub fn token_span(&self, token: Lexed) -> (span: SourceSpan)
        ensures
            span == self@.span_of(token),
    {
        SourceSpan {
            source_id: self.source_id,
            revision: self.revision,
            start: token.start,
            end: token.end,
        }
    }

    pub fn merged_span(&self, start: Lexed, end: Lexed) -> (span: SourceSpan)
        ensures
            span == self@.merged(start, end),
    {
        SourceSpan {
            source_id: self.source_id,
            revision: self.revision,
            start: start.start,
            end: end.end,
        }
    }

    pub fn report_at(&mut self, token: Lexed, message: &'static str, phase: DiagnosticPhase)
        ensures
            old(self)@.steady(final(self)@),
            final(self)@ == old(self)@.report_at(token, message, phase),
    {
        if self.panic_mode && phase != DiagnosticPhase::Scanner {
            return ;
        }
        let span = self.token_span(token);
        self.panic_mode = true;
        self.had_error = true;
        if self.note_count < usize::MAX {
            self.note_count = self.note_count + 1;
        }
        let full = match self.note_limit {
            Some(limit) => self.notes.len() >= limit,
            None => false,
        };
        if !full {
            self.notes.push(Note { phase, message, span });
        }
    }

    pub fn error_at(&mut self, token: Lexed, message: &'static str)
        ensures
            old(self)@.steady(final(self)@),
            final(self)@ == old(self)@.error_at(token, message),
    {
        let phase = if token.token_type == TokenType::Error {
            DiagnosticPhase::Scanner
        } else {
            DiagnosticPhase::Parser
        };
        self.report_at(token, message, phase);
    }

    pub fn error(&mut self, message: &'static str)
        ensures
            old(self)@.steady(final(self)@),
            final(self)@ == old(self)@.error(message),
    {
        self.error_at(self.previous, message);
    }

    pub fn error_at_current(&mut self, message: &'static str)
        ensures
            old(self)@.steady(final(self)@),
            final(self)@ == old(self)@.error_at_current(message),
    {
        self.error_at(self.current, message);
    }

    pub fn compiler_error(&mut self, message: &'static str)
        ensures
            old(self)@.steady(final(self)@),
            final(self)@ == old(self)@.compiler_error(message),
    {
        self.report_at(self.previous, message, DiagnosticPhase::Compiler);
    }

    pub fn compiler_error_at_current(&mut self, message: &'static str)
        ensures
            old(self)@.steady(final(self)@),
            final(self)@ == old(self)@.compiler_error_at_current(message),
    {
        self.report_at(self.current, message, DiagnosticPhase::Compiler);
    }

    pub fn advance(&mut self)
        requires
            old(self)@.wf(),
        ensures
            final(self)@.previous == old(self)@.current,
            !old(self)@.eof() ==> final(self)@.rem() < old(self)@.rem(),
            final(self)@ == old(self)@.advance(),
            old(self)@.leads_to(final(self)@),
            old(self)@.ahead(final(self)@),
    {
        proof {
            reveal(PState::advance);
        }
        proof {
            lemma_advance(self@);
        }
        self.previous = self.current;
        loop
            invariant_except_break
                well_ended(self@.tokens),
                0 <= self@.next < self@.tokens.len(),
                self@.read() == old(self)@.advance(),
            ensures
                self@ == old(self)@.advance(),
            decreases self@.tokens.len() - self@.next,
        {
            let count: usize = self.tokens.len();
            let token = self.tokens[self.next];
            self.current = token;
            if token.token_type == TokenType::Eof {
                break;
            }
            self.next = self.next + 1;
            if token.token_type != TokenType::Error {
                break;
            }
            let message = match token.fault {
                Some(message) => message,
                None => "Unexpected scanner error.",
            };
            self.error_at_current(message);
        }
    }

    pub fn consume(&mut self, kind: TokenType, message: &'static str)
        requires
            old(self)@.wf(),
        ensures
            final(self)@ == old(self)@.consume(kind, message),
            old(self)@.leads_to(final(self)@),
    {
        proof {
            reveal(PState::consume);
        }
        if self.current.token_type == kind {
            self.advance();
            return ;
        }
        self.error_at_current(message);
    }

    pub fn match_token(&mut self, kind: TokenType) -> (matched: bool)
        requires
            old(self)@.wf(),
        ensures
            matched == old(self)@.at(kind),
            final(self)@ == old(self)@.match_token(kind),
            old(self)@.leads_to(final(self)@),
            matched ==> old(self)@.ahead(final(self)@),
            matched ==> final(self)@.previous == old(self)@.current,
            matched && kind != TokenType::Eof ==> final(self)@.rem() < old(self)@.rem(),
    {
        if !self.check(kind) {
            return false;
        }
        self.advance();
        true
    }

    pub fn schedule_point(&mut self, kind: DebugPointKind, span: SourceSpan) -> (id: u64)
        ensures
            old(self)@.steady(final(self)@),
            id == old(self)@.next_point_id,
            final(self)@ == old(self)@.schedule_point(kind, span),
    {
        let id: u64 = self.next_point_id;
        self.next_point_id = if id == u64::MAX {
            0
        } else {
            id + 1
        };
        self.function.pending.push(PendingPoint { id: DebugPointId(id), kind, span });
        id
    }

    pub fn finish_point(&mut self, id: u64)
        ensures
            old(self)@.steady(final(self)@),
            final(self)@ == old(self)@.finish_point(id),
    {
        proof {
            reveal(PState::finish_point);
        }
        let end = self.previous.end;
        let mut i: usize = 0;
        while i < self.function.pending.len()
            invariant
                i <= self.function.pending@.len(),
                *self == *old(self),
                end == self.previous.end,
                pending_place(self.function.pending@, id, i as int) == pending_place(
                    self.function.pending@,
                    id,
                    0,
                ),
            decreases self.function.pending@.len() - i,
        {
            let point = self.function.pending[i];
            if point.id == DebugPointId(id) {
                proof {
                    reveal(PState::finish_point);
                }
                let span = SourceSpan { end, ..point.span };
                self.function.pending.set(i, PendingPoint { span, ..point });
                return ;
            }
            i += 1;
        }
        let mut j: usize = 0;
        while j < self.function.points.len()
            invariant
                j <= self.function.points@.len(),
                *self == *old(self),
                end == self.previous.end,
                pending_place(self.function.pending@, id, 0) >= self.function.pending@.len(),
                point_place(self.function.points@, id, j as int) == point_place(
                    self.function.points@,
                    id,
                    0,
                ),
            decreases self.function.points@.len() - j,
        {
            let point = self.function.points[j];
            if point.id == DebugPointId(id) {
                proof {
                    reveal(PState::finish_point);
                }
                let span = SourceSpan { end, ..point.span };
                self.function.points.set(j, DebugPoint { span, ..point });
                return ;
            }
            j += 1;
        }
    }

    pub fn emit_byte_operand_at(&mut self, byte: u8, span: SourceSpan)
        ensures
            old(self)@.steady(final(self)@),
            final(self)@ == old(self)@.byte_at(byte, span),
            final(self)@.function.code.len() == old(self)@.function.code.len() + 1,
    {
        proof {
            reveal(FState::with_byte);
        }
        self.function.chunk.write(byte, span);
    }

    pub fn emit_byte_operand(&mut self, byte: u8)
        ensures
            old(self)@.steady(final(self)@),
            final(self)@ == old(self)@.byte(byte),
            final(self)@.function.code.len() == old(self)@.function.code.len() + 1,
    {
        let span = self.token_span(self.previous);
        self.emit_byte_operand_at(byte, span);
    }

    pub fn emit_opcode_at(&mut self, op: OpCode, span: SourceSpan)
        ensures
            old(self)@.steady(final(self)@),
            final(self)@ == old(self)@.op_at(op, span),
            final(self)@.function.code.len() == old(self)@.function.code.len() + 1,
    {
        proof {
            reveal(FState::with_op);
        }
        let offset: usize = self.function.chunk.code.len();
        let ghost before = self@;
        let ghost placed = before.function.pending.map_values(
            |point: PendingPoint|
                DebugPoint { id: point.id, offset, kind: point.kind, span: point.span },
        );
        let mut i: usize = 0;
        while i < self.function.pending.len()
            invariant
                i <= self.function.pending@.len(),
                self@ == before.with_function(
                    FState {
                        points: before.function.points + placed.take(i as int),
                        ..before.function
                    },
                ),
                placed == before.function.pending.map_values(
                    |point: PendingPoint|
                        DebugPoint { id: point.id, offset, kind: point.kind, span: point.span },
                ),
            decreases self.function.pending@.len() - i,
        {
            let point = self.function.pending[i];
            self.function.points.push(
                DebugPoint { id: point.id, offset, kind: point.kind, span: point.span },
            );
            assert(before.function.points + placed.take(i + 1) =~= (before.function.points
                + placed.take(i as int)).push(placed[i as int]));
            i += 1;
        }
        assert(placed.take(i as int) =~= placed);
        self.function.pending.clear();
        self.function.chunk.write(op.byte(), span);
    }

    pub fn emit_opcode(&mut self, op: OpCode)
        ensures
            old(self)@.steady(final(self)@),
            final(self)@ == old(self)@.op(op),
            final(self)@.function.code.len() == old(self)@.function.code.len() + 1,
    {
        let span = self.token_span(self.previous);
        self.emit_opcode_at(op, span);
    }

    pub fn emit_short(&mut self, value: usize)
        ensures
            old(self)@.steady(final(self)@),
            final(self)@ == old(self)@.short(value as int),
            final(self)@.function.code.len() == old(self)@.function.code.len() + 2,
    {
        let span = self.token_span(self.previous);
        self.emit_byte_operand_at((value % 256) as u8, span);
        self.emit_byte_operand_at((value / 256 % 256) as u8, span);
    }

    pub fn emit_opcode_with_byte(&mut self, op: OpCode, operand: u8)
        ensures
            old(self)@.steady(final(self)@),
            final(self)@ == old(self)@.op_byte(op, operand),
    {
        self.emit_opcode(op);
        self.emit_byte_operand(operand);
    }

    pub fn emit_opcode_with_byte_at(&mut self, op: OpCode, operand: u8, span: SourceSpan)
        ensures
            old(self)@.steady(final(self)@),
            final(self)@ == old(self)@.op_byte_at(op, operand, span),
    {
        self.emit_opcode_at(op, span);
        self.emit_byte_operand_at(operand, span);
    }

    pub fn emit_opcode_with_long(&mut self, op: OpCode, operand: usize)
        ensures
            old(self)@.steady(final(self)@),
            final(self)@ == old(self)@.op_long(op, operand as int),
    {
        self.emit_opcode(op);
        self.emit_byte_operand((operand % 256) as u8);
        self.emit_byte_operand((operand / 256 % 256) as u8);
        self.emit_byte_operand((operand / 65536 % 256) as u8);
    }

    /// How many bytes of code the current function has.
    pub fn code_len(&self) -> (len: usize)
        ensures
            len == self@.function.code.len(),
    {
        self.function.chunk.code.len()
    }

    pub fn emit_loop(&mut self, start: usize)
        requires
            start <= old(self)@.function.code.len(),
        ensures
            old(self)@.steady(final(self)@),
            final(self)@ == old(self)@.emit_loop(start as int),
            final(self)@.function.code.len() == old(self)@.function.code.len() + 3,
    {
        proof {
            reveal(FState::with_op);
            reveal(FState::with_byte);
        }
        proof {
            reveal(PState::emit_loop);
        }
        self.emit_opcode(OpCode::Loop);
        let body: usize = self.code_len() - start;
        if body > u16::MAX as usize - 2 {
            self.compiler_error("Loop body too large");
        }
        // Only the low sixteen bits of the distance are written.
        let low: usize = body % 65536 + 2;
        proof {
            lemma_low_bytes(body as int);
        }
        self.emit_short(low);
    }

    pub fn emit_jump(&mut self, op: OpCode) -> (place: usize)
        ensures
            old(self)@.steady(final(self)@),
            final(self)@ == old(self)@.emit_jump(op),
            place == final(self)@.jump_place(),
            final(self)@.function.code.len() == old(self)@.function.code.len() + 3,
    {
        proof {
            reveal(FState::with_op);
            reveal(FState::with_byte);
        }
        self.emit_opcode(op);
        // Placeholder offset
        self.emit_short(u16::MAX as usize);
        self.code_len() - 2
    }

    pub fn emit_return(&mut self)
        ensures
            old(self)@.steady(final(self)@),
            final(self)@ == old(self)@.emit_return(),
    {
        self.emit_opcode(OpCode::Nil);
        self.emit_opcode(OpCode::Return);
    }

    pub fn make_constant(&mut self, value: Value) -> (index: usize)
        ensures
            old(self)@.steady(final(self)@),
            index == old(self)@.constant_place(value),
            final(self)@ == old(self)@.make_constant(value),
    {
        self.function.chunk.add_constant(value)
    }

    pub fn emit_constant(&mut self, value: Value)
        ensures
            old(self)@.steady(final(self)@),
            final(self)@ == old(self)@.emit_constant(value),
    {
        proof {
            reveal(PState::emit_constant);
        }
        let constant: usize = self.make_constant(value);
        if constant <= 255 {
            self.emit_opcode_with_byte(OpCode::Constant, constant as u8);
        } else {
            self.emit_opcode_with_long(OpCode::ConstantLong, constant);
        }
    }

    pub fn patch_jump(&mut self, place: usize)
        requires
            place + 2 <= old(self)@.function.code.len(),
        ensures
            old(self)@.steady(final(self)@),
            final(self)@ == old(self)@.patch_jump(place as int),
            final(self)@.function.code.len() == old(self)@.function.code.len(),
    {
        proof {
            reveal(FState::with_operand);
        }
        let jump: usize = self.code_len() - place - 2;
        if jump > u16::MAX as usize {
            self.compiler_error("Too much code to jump over.");
        }
        self.function.chunk.code.set(place, (jump % 256) as u8);
        self.function.chunk.code.set(place + 1, (jump / 256 % 256) as u8);
    }

    pub fn begin_scope(&mut self)
        ensures
            old(self)@.steady(final(self)@),
            final(self)@ == old(self)@.begin_scope(),
    {
        if self.function.scope_depth < i32::MAX {
            self.function.scope_depth = self.function.scope_depth + 1;
        }
    }

    fn end_binding(&mut self, metadata: Option<usize>, end: usize)
        ensures
            final(self)@ == old(self)@.with_function(
                FState {
                    bindings: with_live_end(old(self)@.function.bindings, metadata, end),
                    ..old(self)@.function
                },
            ),
    {
        if let Some(i) = metadata {
            if i < self.function.bindings.len() {
                let binding = self.function.bindings[i];
                self.function.bindings.set(i, Binding { live_end: end, ..binding });
            }
        }
    }

    pub fn end_scope(&mut self)
        ensures
            old(self)@.steady(final(self)@),
            final(self)@ == old(self)@.end_scope(),
    {
        proof {
            reveal(PState::end_scope);
        }
        if self.function.scope_depth > i32::MIN {
            self.function.scope_depth = self.function.scope_depth - 1;
        }
        // The locals declared inside the scope that is left, the last one first.
        loop
            invariant
                self@.drop_locals() == old(self)@.end_scope(),
                old(self)@.steady(self@),
            ensures
                self@ == old(self)@.end_scope(),
            decreases self@.function.locals.len(),
        {
            proof {
                reveal(FState::with_op);
            }
            let count: usize = self.function.locals.len();
            if count == 0 {
                break;
            }
            let local = self.function.locals[count - 1];
            if local.depth <= self.function.scope_depth {
                break;
            }
            let end: usize = self.code_len();
            self.end_binding(local.metadata, end);
            self.function.locals.pop();
            if local.is_captured {
                self.emit_opcode(OpCode::CloseUpvalue);
            } else {
                self.emit_opcode(OpCode::Pop);
            }
        }
    }
}

} // verus!
