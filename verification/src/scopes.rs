//! Names: locals, the variables of enclosing functions, and globals.
use vstd::prelude::*;
use crate::chunk::{Chunk, OpCode};
use crate::debug_info::{empty_span, BindingId, BindingKind, DebugPoint, DebugPointId, DebugPointKind};
use crate::parser::{ended, entry_place, fresh_function, last_metadata};
use crate::parser::{lemma_push_view, local_place};
use crate::parser::{same_codes, views};
use crate::parser::{Binding, FState, FunctionState, FunctionType, Lexed, Local};
use crate::parser::{PState, Parser, Upvalue, LOCALS_MAX};
use crate::scanner::TokenType;
use crate::source::{SourceSpan, TextPosition};
use crate::value::Value;

verus! {

/// Where a captured variable is kept, if it is.
pub open spec fn upvalue_place(upvalues: Seq<Upvalue>, index: u8, is_local: bool, i: int) -> int
    decreases upvalues.len() - i,
{
    if 0 <= i < upvalues.len() && !(upvalues[i].index == index && upvalues[i].is_local
        == is_local) {
        upvalue_place(upvalues, index, is_local, i + 1)
    } else {
        i
    }
}

proof fn lemma_upvalue_place(upvalues: Seq<Upvalue>, index: u8, is_local: bool, i: int)
    ensures
        i <= upvalue_place(upvalues, index, is_local, i),
    decreases upvalues.len() - i,
{
    if 0 <= i < upvalues.len() && !(upvalues[i].index == index && upvalues[i].is_local
        == is_local) {
        lemma_upvalue_place(upvalues, index, is_local, i + 1);
    }
}

pub type Capture = Result<Option<usize>, ()>;

/// A function that captures one more variable, and the place of the variable
/// among those that it captures. There are only as many places as a byte can name.
pub open spec fn with_upvalue(
    f: FState,
    index: int,
    is_local: bool,
    binding_id: BindingId,
    name: usize,
    declaration: SourceSpan,
) -> (FState, Capture) {
    let place = upvalue_place(f.upvalues, index as u8, is_local, 0);
    if index > u8::MAX {
        (f, Err(()))
    } else if place < f.upvalues.len() && place <= u8::MAX {
        (f, Ok(Some(place as usize)))
    } else if f.upvalues.len() > u8::MAX {
        (f, Err(()))
    } else {
        let upvalue = Upvalue { index: index as u8, is_local, binding_id, name, declaration };
        (
            FState { upvalues: f.upvalues.push(upvalue), ..f },
            Ok(Some(f.upvalues.len() as usize)),
        )
    }
}

/// Looks for a variable in the functions around `inner`, from the inside
/// out. Where it is a local of one of them, that local is marked, and every
/// function in between captures it.
pub open spec fn captured(enclosing: Seq<FState>, inner: FState, name: usize) -> (
    Seq<FState>,
    FState,
    Capture,
)
    decreases enclosing.len(),
{
    if enclosing.len() == 0 {
        (enclosing, inner, Ok(None))
    } else {
        let outer = enclosing.last();
        let rest = enclosing.drop_last();
        let place = local_place(outer.locals, name);
        let local = outer.locals[place];
        if place > 0 && local.depth != -1 {
            let marked = FState {
                locals: outer.locals.update(place, Local { is_captured: true, ..local }),
                ..outer
            };
            let (inner, capture) = with_upvalue(
                inner,
                place,
                true,
                local.binding_id,
                local.name,
                local.declaration,
            );
            (rest.push(marked), inner, capture)
        } else {
            let (rest, outer, capture) = captured(rest, outer, name);
            match capture {
                Ok(Some(place)) => {
                    let upvalue = outer.upvalues[place as int];
                    let (inner, capture) = with_upvalue(
                        inner,
                        place as int,
                        false,
                        upvalue.binding_id,
                        upvalue.name,
                        upvalue.declaration,
                    );
                    (rest.push(outer), inner, capture)
                },
                _ => (rest.push(outer), inner, capture),
            }
        }
    }
}

/// A place that was found names a captured variable.
pub proof fn lemma_captured(enclosing: Seq<FState>, inner: FState, name: usize)
    ensures
        same_codes(enclosing, captured(enclosing, inner, name).0),
        captured(enclosing, inner, name).2 matches Ok(Some(place)) ==> place < captured(
            enclosing,
            inner,
            name,
        ).1.upvalues.len(),
        captured(enclosing, inner, name).1.code == inner.code,
    decreases enclosing.len(),
{
    if enclosing.len() > 0 {
        lemma_captured(enclosing.drop_last(), enclosing.last(), name);
        assert forall|index: u8, is_local: bool| 0 <= #[trigger] upvalue_place(
            inner.upvalues,
            index,
            is_local,
            0,
        ) by {
            lemma_upvalue_place(inner.upvalues, index, is_local, 0);
        }
    }
}

impl PState {
    /// A use of a local that is still being initialized is reported.
    pub open spec fn resolve_local(self, name: Lexed) -> PState {
        let place = local_place(self.function.locals, name.text);
        if place > 0 && self.function.locals[place].depth == -1 {
            self.compiler_error("Can't read local variable in its own initializer.")
        } else {
            self
        }
    }

    pub open spec fn resolve_upvalue(self, name: Lexed) -> PState {
        let (enclosing, function, capture) = captured(self.enclosing, self.function, name.text);
        let s = PState { enclosing, function, ..self };
        if capture is Err {
            s.compiler_error("Too many closure variables in function.")
        } else {
            s
        }
    }

    pub open spec fn upvalue_operand(self, name: Lexed) -> Option<usize> {
        match captured(self.enclosing, self.function, name.text).2 {
            Ok(place) => place,
            Err(_) => None,
        }
    }
}

proof fn lemma_drop_last_view(states: Seq<FunctionState>)
    requires
        states.len() > 0,
    ensures
        views(states.drop_last()) == views(states).drop_last(),
        views(states).last() == states.last()@,
{
    assert(views(states.drop_last()) =~= views(states).drop_last());
}

fn find_local(locals: &Vec<Local>, name: usize) -> (place: usize)
    ensures
        place == local_place(locals@, name),
        place > 0 ==> place < locals@.len(),
{
    let mut n: usize = locals.len();
    assert(locals@.take(n as int) =~= locals@);
    while n > 1
        invariant
            n <= locals@.len(),
            local_place(locals@.take(n as int), name) == local_place(locals@, name),
        decreases n,
    {
        assert(locals@.take(n as int).last() == locals@[n - 1]);
        if locals[n - 1].name == name {
            return n - 1;
        }
        assert(locals@.take(n as int).drop_last() =~= locals@.take(n - 1));
        n -= 1;
    }
    0
}

fn add_upvalue(
    function: &mut FunctionState,
    index: usize,
    is_local: bool,
    binding_id: BindingId,
    name: usize,
    declaration: SourceSpan,
) -> (capture: Capture)
    ensures
        (final(function)@, capture) == with_upvalue(
            old(function)@,
            index as int,
            is_local,
            binding_id,
            name,
            declaration,
        ),
{
    if index > u8::MAX as usize {
        return Err(());
    }
    let byte: u8 = index as u8;
    let mut i: usize = 0;
    while i < function.upvalues.len()
        invariant
            i <= function.upvalues@.len(),
            *function == *old(function),
            upvalue_place(function.upvalues@, byte, is_local, i as int) == upvalue_place(
                function.upvalues@,
                byte,
                is_local,
                0,
            ),
            byte == index,
        decreases function.upvalues@.len() - i,
    {
        if function.upvalues[i].index == byte && function.upvalues[i].is_local == is_local {
            return if i > u8::MAX as usize {
                Err(())
            } else {
                Ok(Some(i))
            };
        }
        i += 1;
    }
    if i > u8::MAX as usize {
        return Err(());
    }
    function.upvalues.push(Upvalue { index: byte, is_local, binding_id, name, declaration });
    Ok(Some(i))
}

fn resolve_upvalue_in(
    enclosing: &mut Vec<FunctionState>,
    inner: &mut FunctionState,
    name: usize,
) -> (capture: Capture)
    ensures
        (views(final(enclosing)@), final(inner)@, capture) == captured(
            views(old(enclosing)@),
            old(inner)@,
            name,
        ),
    decreases old(enclosing)@.len(),
{
    let ghost before = enclosing@;
    let mut outer = match enclosing.pop() {
        None => return Ok(None),
        Some(outer) => outer,
    };
    proof {
        assert(enclosing@ =~= before.drop_last());
        lemma_drop_last_view(before);
    }
    let place: usize = find_local(&outer.locals, name);
    if place > 0 && outer.locals[place].depth != -1 {
        let local = outer.locals[place];
        outer.locals.set(place, Local { is_captured: true, ..local });
        let capture = add_upvalue(
            inner,
            place,
            true,
            local.binding_id,
            local.name,
            local.declaration,
        );
        proof {
            lemma_push_view(enclosing@, outer);
        }
        enclosing.push(outer);
        return capture;
    }
    proof {
        lemma_captured(views(enclosing@), outer@, name);
    }
    let found = resolve_upvalue_in(enclosing, &mut outer, name);
    let capture = match found {
        Ok(Some(place)) => {
            let upvalue = outer.upvalues[place];
            add_upvalue(
                inner,
                place,
                false,
                upvalue.binding_id,
                upvalue.name,
                upvalue.declaration,
            )
        },
        _ => found,
    };
    proof {
        lemma_push_view(enclosing@, outer);
    }
    enclosing.push(outer);
    capture
}

impl<'t> Parser<'t> {
    pub fn resolve_local(&mut self, name: Lexed) -> (place: Option<usize>)
        ensures
            old(self)@.steady(final(self)@),
            final(self)@ == old(self)@.resolve_local(name),
            match place {
                Some(i) => i > 0 && i == local_place(old(self)@.function.locals, name.text),
                None => local_place(old(self)@.function.locals, name.text) <= 0,
            },
    {
        let place: usize = find_local(&self.function.locals, name.text);
        if place > 0 {
            if self.function.locals[place].depth == -1 {
                self.compiler_error("Can't read local variable in its own initializer.");
            }
            Some(place)
        } else {
            None
        }
    }

    pub fn resolve_upvalue(&mut self, name: Lexed) -> (place: Option<usize>)
        ensures
            final(self)@ == old(self)@.resolve_upvalue(name),
            place == old(self)@.upvalue_operand(name),
            old(self)@.steady(final(self)@),
            final(self)@.function.code == old(self)@.function.code,
    {
        proof {
            lemma_captured(self@.enclosing, self@.function, name.text);
        }
        match resolve_upvalue_in(&mut self.enclosing, &mut self.function, name.text) {
            Ok(place) => place,
            Err(_) => {
                self.compiler_error("Too many closure variables in function.");
                None
            },
        }
    }

    pub fn add_local(&mut self, name: Lexed)
        ensures
            old(self)@.steady(final(self)@),
            final(self)@ == old(self)@.add_local(name),
    {
        proof {
            reveal(PState::add_local);
        }
        if self.function.locals.len() == LOCALS_MAX {
            self.compiler_error("Too many local variables in function.");
            return ;
        }
        let id = BindingId(self.next_binding_id);
        self.next_binding_id = if self.next_binding_id == u64::MAX {
            0
        } else {
            self.next_binding_id + 1
        };
        let declaration = self.token_span(name);
        let metadata: usize = self.function.bindings.len();
        self.function.bindings.push(
            Binding {
                id,
                name: name.text,
                kind: BindingKind::Local,
                slot: self.function.locals.len() as u16,
                scope_depth: self.function.scope_depth,
                declaration,
                live_start: usize::MAX,
                live_end: usize::MAX,
            },
        );
        self.function.locals.push(
            Local {
                name: name.text,
                depth: -1,
                is_captured: false,
                binding_id: id,
                declaration,
                metadata: Some(metadata),
            },
        );
    }

    fn last_metadata(&self) -> (metadata: Option<usize>)
        ensures
            metadata == last_metadata(self@.function.locals),
    {
        let count: usize = self.function.locals.len();
        if count == 0 {
            None
        } else {
            self.function.locals[count - 1].metadata
        }
    }

    pub fn declare_variable(&mut self, kind: BindingKind)
        ensures
            old(self)@.steady(final(self)@),
            final(self)@ == old(self)@.declare_variable(kind),
    {
        proof {
            reveal(PState::declare_variable);
            reveal(PState::add_local);
        }
        if self.function.scope_depth == 0 {
            return ;
        }
        let name = self.previous;
        let place: usize = find_local(&self.function.locals, name.text);
        if place > 0 {
            let local = self.function.locals[place];
            if local.depth == -1 || local.depth == self.function.scope_depth {
                self.compiler_error("Already a variable with this name in this scope.");
            }
        }
        self.add_local(name);
        if let Some(i) = self.last_metadata() {
            if i < self.function.bindings.len() {
                let binding = self.function.bindings[i];
                self.function.bindings.set(i, Binding { kind, ..binding });
            }
        }
    }

    pub fn identifier_constant(&mut self, name: Lexed) -> (operand: u8)
        ensures
            old(self)@.steady(final(self)@),
            final(self)@ == old(self)@.identifier_constant(name),
            operand == old(self)@.identifier_operand(name),
    {
        proof {
            reveal(PState::identifier_constant);
        }
        let constant: usize = self.make_constant(Value::Obj(name.text));
        if constant > u8::MAX as usize {
            self.compiler_error("Too many globals in one chunk.");
            return 0;
        }
        constant as u8
    }

    pub fn parse_variable(&mut self, message: &'static str, kind: BindingKind) -> (operand: u8)
        requires
            old(self)@.wf(),
        ensures
            final(self)@ == old(self)@.parse_variable(message, kind),
            operand == old(self)@.variable_operand(message, kind),
            old(self)@.leads_to(final(self)@),
    {
        proof {
            reveal(PState::parse_variable);
            reveal(PState::variable_operand);
        }
        self.consume(TokenType::Identifier, message);
        self.declare_variable(kind);
        if self.function.scope_depth > 0 {
            return 0;
        }
        let name = self.previous;
        self.identifier_constant(name)
    }

    pub fn mark_resolver_initialized(&mut self)
        ensures
            old(self)@.steady(final(self)@),
            final(self)@ == old(self)@.mark_initialized(),
    {
        proof {
            reveal(PState::mark_initialized);
        }
        let count: usize = self.function.locals.len();
        if self.function.scope_depth == 0 || count == 0 {
            return ;
        }
        let local = self.function.locals[count - 1];
        self.function.locals.set(count - 1, Local { depth: self.function.scope_depth, ..local });
    }

    pub fn define_variable(&mut self, global: u8)
        ensures
            old(self)@.steady(final(self)@),
            final(self)@ == old(self)@.define_variable(global),
    {
        proof {
            reveal(PState::define_variable);
            reveal(PState::mark_initialized);
        }
        if self.function.scope_depth > 0 {
            self.mark_resolver_initialized();
            let live_start: usize = self.code_len();
            if let Some(i) = self.last_metadata() {
                if i < self.function.bindings.len() {
                    let binding = self.function.bindings[i];
                    self.function.bindings.set(i, Binding { live_start, ..binding });
                }
            }
            return ;
        }
        self.emit_opcode_with_byte(OpCode::DefineGlobal, global);
    }

    pub fn open_function(&mut self, kind: FunctionType)
        ensures
            final(self)@ == old(self)@.open_function(kind),
            old(self)@.wf() ==> final(self)@.wf(),
            final(self)@.rem() == old(self)@.rem(),
            final(self)@.eof() == old(self)@.eof(),
            final(self)@.tokens == old(self)@.tokens,
            final(self)@.enclosing == old(self)@.enclosing.push(old(self)@.function),
    {
        proof {
            reveal(PState::open_function);
        }
        let declaration = self.token_span(self.previous);
        let entry: u64 = self.next_point_id;
        self.next_point_id = if entry == u64::MAX {
            0
        } else {
            entry + 1
        };
        let name = if kind == FunctionType::Script {
            None
        } else {
            Some(self.previous.text)
        };
        let mut opened = new_function(
            kind,
            name,
            declaration,
            entry,
            empty_span(self.source_id, self.revision),
        );
        core::mem::swap(&mut self.function, &mut opened);
        proof {
            lemma_push_view(self.enclosing@, opened);
        }
        self.enclosing.push(opened);
    }

    pub fn close_function(&mut self)
        ensures
            old(self)@.steady(final(self)@),
            final(self)@ == old(self)@.close_function(),
    {
        proof {
            reveal(PState::close_function);
        }
        let code_len: usize = self.code_len();
        let end: usize = if code_len == 0 {
            1
        } else {
            code_len
        };
        let ghost before = self@;
        let ghost all = ended(before.function.bindings, before.function.locals, 1, end);
        let mut i: usize = 1;
        while i < self.function.locals.len()
            invariant
                1 <= i,
                ended(self@.function.bindings, self@.function.locals, i as int, end) == all,
                self@ == before.with_function(
                    FState { bindings: self@.function.bindings, ..before.function },
                ),
            decreases self.function.locals@.len() - i,
        {
            if let Some(m) = self.function.locals[i].metadata {
                if m < self.function.bindings.len() {
                    let binding = self.function.bindings[m];
                    if binding.live_start != usize::MAX {
                        self.function.bindings.set(m, Binding { live_end: end, ..binding });
                    }
                }
            }
            i += 1;
        }
        self.function.pending.clear();
        self.emit_return();
    }

    pub fn leave_function(&mut self) -> (index: usize)
        requires
            old(self)@.enclosing.len() > 0,
        ensures
            final(self)@ == old(self)@.leave_function(),
            index == old(self)@.finished.len(),
            old(self)@.wf() ==> final(self)@.wf(),
            final(self)@.rem() == old(self)@.rem(),
            final(self)@.eof() == old(self)@.eof(),
            final(self)@.tokens == old(self)@.tokens,
            final(self)@.function == old(self)@.enclosing.last(),
            final(self)@.enclosing == old(self)@.enclosing.drop_last(),
            final(self)@.finished == old(self)@.finished.push(old(self)@.function),
    {
        proof {
            reveal(PState::leave_function);
        }
        let ghost before = self.enclosing@;
        let index: usize = self.finished.len();
        match self.enclosing.pop() {
            Some(mut outer) => {
                proof {
                    assert(self.enclosing@ =~= before.drop_last());
                    lemma_drop_last_view(before);
                }
                core::mem::swap(&mut self.function, &mut outer);
                proof {
                    lemma_push_view(self.finished@, outer);
                }
                self.finished.push(outer);
            },
            None => {},
        }
        index
    }

    pub fn declare_function(&mut self, start: TextPosition)
        ensures
            old(self)@.steady(final(self)@),
            final(self)@ == old(self)@.declare_function(start),
    {
        proof {
            reveal(PState::declare_function);
        }
        let declaration = SourceSpan {
            source_id: self.source_id,
            revision: self.revision,
            start,
            end: self.previous.end,
        };
        self.function.declaration = declaration;
        let ghost before = self@;
        let mut i: usize = 0;
        while i < self.function.points.len()
            invariant
                i <= self.function.points@.len(),
                self@ == before,
                entry_place(before.function.points, i as int) == entry_place(
                    before.function.points,
                    0,
                ),
                before == old(self)@.with_function(FState { declaration, ..old(self)@.function }),
                old(self)@.declare_function(start) == before.with_function(
                    FState {
                        points: if entry_place(before.function.points, 0)
                            < before.function.points.len() {
                            before.function.points.update(
                                entry_place(before.function.points, 0),
                                DebugPoint {
                                    span: declaration,
                                    ..before.function.points[entry_place(
                                        before.function.points,
                                        0,
                                    )]
                                },
                            )
                        } else {
                            before.function.points
                        },
                        ..before.function
                    },
                ),
            decreases self.function.points@.len() - i,
        {
            let point = self.function.points[i];
            if point.kind == DebugPointKind::FunctionEntry {
                self.function.points.set(i, DebugPoint { span: declaration, ..point });
                return ;
            }
            i += 1;
        }
    }

    /// Nothing more is read: a nesting limit was passed.
    fn give_up(&mut self)
        requires
            old(self)@.wf(),
        ensures
            final(self)@ == (PState {
                too_deep: true,
                current: old(self)@.tokens.last(),
                next: old(self)@.tokens.len() - 1,
                ..old(self)@
            }),
            old(self)@.leads_to(final(self)@),
            final(self)@.eof(),
    {
        let count: usize = self.tokens.len();
        self.too_deep = true;
        self.current = self.tokens[count - 1];
        self.next = count - 1;
    }

    pub fn enter(&mut self)
        requires
            old(self)@.wf(),
        ensures
            final(self)@ == old(self)@.enter(),
            old(self)@.leads_to(final(self)@),
    {
        proof {
            reveal(PState::enter);
        }
        let full = match self.depth_limit {
            Some(limit) => self.depth >= limit,
            None => false,
        };
        if self.depth < usize::MAX {
            self.depth = self.depth + 1;
        }
        if full {
            self.give_up();
        }
    }

    pub fn leave(&mut self)
        ensures
            old(self)@.steady(final(self)@),
            final(self)@ == old(self)@.leave(),
    {
        if self.depth > 0 {
            self.depth = self.depth - 1;
        }
    }

    pub fn synchronize(&mut self)
        requires
            old(self)@.wf(),
        ensures
            final(self)@ == old(self)@.synchronize(),
            old(self)@.leads_to(final(self)@),
    {
        proof {
            reveal(PState::synchronize);
        }
        self.panic_mode = false;
        let ghost start = self@;
        let mut open: usize = 0;
        loop
            invariant_except_break
                self@.wf(),
                start.leads_to(self@),
                self@.skip_to_statement(open) == start.skip_to_statement(0),
            ensures
                start.leads_to(self@),
                self@ == start.skip_to_statement(0),
            decreases self@.rem(),
        {
            if self.current.token_type == TokenType::Eof || self.previous.token_type
                == TokenType::Semicolon {
                break;
            }
            let stop = match self.current.token_type {
                TokenType::Class | TokenType::Fun | TokenType::Var | TokenType::For | TokenType::If
                | TokenType::While | TokenType::Print | TokenType::Return => true,
                _ => false,
            };
            if stop {
                break;
            }
            match self.current.token_type {
                TokenType::LeftParen | TokenType::LeftBracket | TokenType::LeftBrace => {
                    if open < usize::MAX {
                        open += 1;
                    }
                },
                TokenType::RightParen | TokenType::RightBracket | TokenType::RightBrace => {
                    if open > 0 {
                        open -= 1;
                    }
                },
                _ => {},
            }
            let full = match self.depth_limit {
                Some(limit) => self.depth > limit || open > limit - self.depth,
                None => false,
            };
            if full {
                self.give_up();
            } else {
                self.advance();
            }
        }
    }
}

/// A function with nothing in it but its entry point and its own slot.
pub fn new_function(
    kind: FunctionType,
    name: Option<usize>,
    declaration: SourceSpan,
    entry: u64,
    origin: SourceSpan,
) -> (function: FunctionState)
    ensures
        function@ == fresh_function(kind, name, declaration, entry, origin),
{
    let mut points: Vec<DebugPoint> = Vec::new();
    points.push(
        DebugPoint {
            id: DebugPointId(entry),
            offset: 0,
            kind: DebugPointKind::FunctionEntry,
            span: declaration,
        },
    );
    let mut locals: Vec<Local> = Vec::new();
    locals.push(
        Local {
            name: usize::MAX,
            depth: 0,
            is_captured: false,
            binding_id: BindingId(0),
            declaration: origin,
            metadata: None,
        },
    );
    let function = FunctionState {
        kind,
        name,
        arity: 0,
        chunk: Chunk::new(),
        declaration,
        points,
        bindings: Vec::new(),
        locals,
        scope_depth: 0,
        upvalues: Vec::new(),
        pending: Vec::new(),
    };
    proof {
        let fresh = fresh_function(kind, name, declaration, entry, origin);
        assert(function@.code =~= fresh.code);
        assert(function@.spans =~= fresh.spans);
        assert(function@.constants =~= fresh.constants);
        assert(function@.points =~= fresh.points);
        assert(function@.locals =~= fresh.locals);
    }
    function
}

} // verus!
