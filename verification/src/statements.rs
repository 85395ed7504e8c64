//! Compiling statements and declarations. For every construct there is a
//! specification of what it makes of the compiler's state, and the function
//! that does it.
use vstd::prelude::*;
use crate::chunk::OpCode;
use crate::debug_info::{BindingKind, DebugPointKind};
use crate::expressions::whole_expression;
use crate::parser::SymbolKind;
use crate::parser::{one_more, same_codes, FState, FunctionType, PState, Parser};
use crate::scanner::TokenType;
use crate::source::TextPosition;
use crate::value::Value;

verus! {

#[verifier::opaque]
pub open spec fn expression_statement(s: PState) -> PState
{
    whole_expression(s).consume(TokenType::Semicolon, "Expect ';' after expression.").op(OpCode::Pop)
}

#[verifier::opaque]
pub open spec fn print_statement(s: PState) -> PState
{
    whole_expression(s).consume(TokenType::Semicolon, "Expect ';' after value.").op(OpCode::Print)
}

#[verifier::opaque]
pub open spec fn return_statement(s: PState) -> PState
{
    let s1 = if s.function.kind == FunctionType::Script {
        s.compiler_error("Cannot return from top-level code.")
    } else {
        s
    };
    if s1.at(TokenType::Semicolon) {
        s1.advance().emit_return()
    } else {
        whole_expression(s1).consume(TokenType::Semicolon, "Expect ';' after return value.").op(
            OpCode::Return,
        )
    }
}

#[verifier::opaque]
pub open spec fn var_declaration(s: PState) -> PState
{
    let s1 = s.parse_variable("Expect variable name.", BindingKind::Local).declares(
        SymbolKind::Variable,
    );
    let global = s.variable_operand("Expect variable name.", BindingKind::Local);
    let s2 = if s1.at(TokenType::Equal) {
        let s2 = s1.advance();
        whole_expression(s2)
    } else {
        s1.op(OpCode::Nil)
    };
    s2.consume(TokenType::Semicolon, "Expect ';' after variable declaration.").define_variable(
        global,
    )
}

/// The condition in parentheses behind a keyword.
#[verifier::opaque]
pub open spec fn condition(s: PState, message: &'static str) -> PState
{
    let s1 = s.consume(TokenType::LeftParen, message).enter();
    let s2 = whole_expression(s1);
    s2.consume(TokenType::RightParen, "Expect ')' after condition.").leave()
}

/// The parts of a program that hold other parts. Cases remember the jumps
/// out of the cases before them.
pub ghost enum Part {
    Statement,
    Declaration,
    Items { in_switch: bool },
    Cases { has_default: bool, exits: Seq<int> },
}

pub open spec fn rank(part: Part) -> nat {
    match part {
        Part::Statement => 1,
        Part::Declaration => 2,
        Part::Items { in_switch } => 3,
        Part::Cases { has_default, exits } => 4,
    }
}

/// What a part makes of a state.
pub type Compile = spec_fn(Part, PState) -> PState;

/// `inner` at `t` lies within `outer` at `s`.
pub open spec fn within(inner: Part, t: PState, outer: Part, s: PState) -> bool {
    t.rem() < s.rem() || (t.rem() == s.rem() && rank(inner) < rank(outer))
}

/// What the compiler makes of its state by compiling one part of a program.
pub open spec fn compiled(part: Part, s: PState) -> PState
    decreases s.rem(), rank(part), 1nat,
{
    part_body(part, s, inside(part, s))
}

/// What is compiled inside a part.
pub open spec fn inside(part: Part, s: PState) -> Compile
    decreases s.rem(), rank(part), 0nat,
{
    |inner: Part, t: PState|
        if within(inner, t, part, s) {
            compiled(inner, t)
        } else {
            t
        }
}

pub open spec fn part_body(part: Part, s: PState, rec: Compile) -> PState {
    match part {
        Part::Statement => statement(s, rec),
        Part::Declaration => declaration(s, rec),
        Part::Items { in_switch } => items(s, in_switch, rec),
        Part::Cases { has_default, exits } => switch_cases(s, has_default, exits, rec),
    }
}

#[verifier::opaque]
pub open spec fn if_statement(s: PState, rec: Compile) -> PState {
    let s1 = condition(s.enter(), "Expect '(' after 'if'.").emit_jump(OpCode::JumpIfFalse);
    let otherwise = s1.jump_place();
    let s2 = rec(Part::Statement, s1.op(OpCode::Pop)).emit_jump(OpCode::Jump);
    let end = s2.jump_place();
    let s3 = s2.patch_jump(otherwise).op(OpCode::Pop);
    let s4 = if s3.at(TokenType::Else) {
        rec(Part::Statement, s3.advance())
    } else {
        s3
    };
    s4.patch_jump(end).leave()
}

#[verifier::opaque]
pub open spec fn while_statement(s: PState, rec: Compile) -> PState {
    let start = s.function.code.len() as int;
    let s1 = condition(s.enter(), "Expect '(' after 'while'.").emit_jump(OpCode::JumpIfFalse);
    let exit = s1.jump_place();
    let s2 = rec(Part::Statement, s1.op(OpCode::Pop));
    s2.emit_loop(start).patch_jump(exit).op(OpCode::Pop).leave()
}

/// The first part of a `for` header.
#[verifier::opaque]
pub open spec fn for_initializer(s: PState) -> PState
{
    if s.at(TokenType::Semicolon) {
        s.advance()
    } else if s.at(TokenType::Var) {
        let s1 = s.advance();
        let s2 = s1.schedule_point(DebugPointKind::LoopInitializer, s1.span_of(s1.previous));
        let s3 = var_declaration(s2);
        s3.finish_point(s1.next_point_id)
    } else {
        let s1 = s.schedule_point(DebugPointKind::LoopInitializer, s.span_of(s.current));
        expression_statement(s1).finish_point(s.next_point_id)
    }
}

/// The second part of a `for` header, which is not empty. A jump out of the
/// loop follows it.
#[verifier::opaque]
pub open spec fn for_condition(s: PState) -> PState
{
    let s1 = s.schedule_point(DebugPointKind::LoopCondition, s.span_of(s.current));
    whole_expression(s1).consume(
        TokenType::Semicolon,
        "Expect ';' after loop condition.",
    ).finish_point(s.next_point_id).emit_jump(OpCode::JumpIfFalse)
}

/// The third part of a `for` header, which is not empty. It is run behind the
/// body, so the body is jumped to past it, and it jumps back to `start`.
#[verifier::opaque]
pub open spec fn for_increment(s: PState, start: int) -> PState
{
    let s1 = s.emit_jump(OpCode::Jump);
    let body = s1.jump_place();
    let s2 = s1.schedule_point(DebugPointKind::LoopIncrement, s1.span_of(s1.current));
    whole_expression(s2).finish_point(s1.next_point_id).op(OpCode::Pop).consume(
        TokenType::RightParen,
        "Expect ')' after for clauses.",
    ).emit_loop(start).patch_jump(body)
}

/// What is known behind the header of a `for`: where the loop goes back to,
/// and the jump out of it, if it has a condition.
pub ghost struct ForHeader {
    pub state: PState,
    pub back: int,
    pub exit: Option<int>,
}

/// The condition and the increment of a `for`.
#[verifier::opaque]
pub open spec fn for_clauses(s: PState) -> ForHeader
{
    let start = s.function.code.len() as int;
    let conditional = !s.at(TokenType::Semicolon);
    let s1 = if conditional {
        for_condition(s)
    } else {
        s.advance()
    };
    let exit = if conditional {
        Some(s1.jump_place())
    } else {
        None
    };
    let s2 = if conditional {
        s1.op(OpCode::Pop)
    } else {
        s1
    };
    if s2.at(TokenType::RightParen) {
        ForHeader { state: s2.advance(), back: start, exit }
    } else {
        // The increment stands behind the jump to the body.
        let back = s2.function.code.len() as int + 3;
        let s3 = for_increment(s2, start);
        ForHeader { state: s3, back, exit }
    }
}

#[verifier::opaque]
pub open spec fn for_statement(s: PState, rec: Compile) -> PState {
    let s1 = s.enter().begin_scope().consume(
        TokenType::LeftParen,
        "Expect '(' after 'for'.",
    ).enter();
    let header = for_clauses(for_initializer(s1));
    let s2 = rec(Part::Statement, header.state.leave()).emit_loop(header.back);
    let s3 = match header.exit {
        Some(place) => s2.patch_jump(place).op(OpCode::Pop),
        None => s2,
    };
    s3.end_scope().leave()
}

/// Declarations up to the end of a block or of a case.
#[verifier::opaque]
pub open spec fn items(s: PState, in_switch: bool, rec: Compile) -> PState {
    if s.at(TokenType::RightBrace) || s.at(TokenType::Eof) || (in_switch && (s.at(TokenType::Case)
        || s.at(TokenType::Default))) {
        s
    } else {
        rec(Part::Items { in_switch }, rec(Part::Declaration, s))
    }
}

pub open spec fn block(s: PState, rec: Compile) -> PState {
    rec(Part::Items { in_switch: false }, s).consume(
        TokenType::RightBrace,
        "Expect '}' after block.",
    )
}

/// One `case`, whose keyword was read last: the value is compared with a copy
/// of the subject, and the body ends in a jump out, whose place is returned.
#[verifier::opaque]
pub open spec fn switch_case(s: PState, has_default: bool, rec: Compile) -> (PState, int) {
    let s1 = if has_default {
        s.compiler_error("Cannot have 'case' after 'default'.")
    } else {
        s
    };
    let s2 = whole_expression(s1.op(OpCode::Dup)).consume(
        TokenType::Colon,
        "Expect ':' after 'case' value.",
    ).op(OpCode::Equal).emit_jump(OpCode::JumpIfFalse);
    let next = s2.jump_place();
    let s3 = rec(Part::Items { in_switch: true }, s2.op(OpCode::Pop)).emit_jump(OpCode::Jump);
    let exit = s3.jump_place();
    (s3.patch_jump(next).op(OpCode::Pop), exit)
}

/// The `default` case, whose keyword was read last.
#[verifier::opaque]
pub open spec fn switch_default(s: PState, has_default: bool, rec: Compile) -> PState {
    let s1 = if has_default {
        s.compiler_error("Cannot have more than one 'default' case.")
    } else {
        s
    };
    rec(
        Part::Items { in_switch: true },
        s1.consume(TokenType::Colon, "Expect ':' after 'default'."),
    )
}

/// The cases of a `switch` from here on, and the end of it, where the jumps
/// out of the cases go.
#[verifier::opaque]
pub open spec fn switch_cases(s: PState, has_default: bool, exits: Seq<int>, rec: Compile) -> PState {
    if s.at(TokenType::RightBrace) || s.at(TokenType::Eof) {
        switch_end(s, exits)
    } else if s.at(TokenType::Case) {
        let (s1, exit) = switch_case(s.advance(), has_default, rec);
        rec(Part::Cases { has_default, exits: exits.push(exit) }, s1)
    } else if s.at(TokenType::Default) {
        let s1 = switch_default(s.advance(), has_default, rec);
        rec(Part::Cases { has_default: true, exits }, s1)
    } else {
        switch_end(s.error_at_current("Expect 'case' or 'default'."), exits)
    }
}

#[verifier::opaque]
pub open spec fn switch_end(s: PState, exits: Seq<int>) -> PState {
    patch_all(s.consume(TokenType::RightBrace, "Expect '}' after switch case."), exits, 0)
}

/// Every jump from `i` on goes to the end of the code.
pub open spec fn patch_all(s: PState, places: Seq<int>, i: int) -> PState
    decreases places.len() - i,
{
    if 0 <= i < places.len() {
        patch_all(s.patch_jump(places[i]), places, i + 1)
    } else {
        s
    }
}

#[verifier::opaque]
pub open spec fn switch_statement(s: PState, rec: Compile) -> PState {
    let s1 = condition(s.enter(), "Expect '(' after 'switch'").consume(
        TokenType::LeftBrace,
        "Expect '{' before switch case.",
    );
    let s2 = s1.enter().begin_scope();
    let s3 = rec(Part::Cases { has_default: false, exits: Seq::empty() }, s2);
    s3.op(OpCode::Pop).end_scope().leave().leave()
}

/// The parameters of a function.
pub open spec fn parameters(s: PState) -> PState
    decreases s.rem(),
{
    let arity = one_more(s.function.arity);
    let s1 = s.with_function(FState { arity, ..s.function });
    let s2 = if arity > 255 {
        s1.compiler_error_at_current("Cannot have more than 255 parameters.")
    } else {
        s1
    };
    let message = "Expect parameter name.";
    let s3 = s2.parse_variable(message, BindingKind::Parameter).declares(
        SymbolKind::Parameter,
    ).define_variable(
        s2.variable_operand(message, BindingKind::Parameter),
    );
    if s3.at(TokenType::Comma) {
        let s4 = s3.advance();
        if s4.rem() < s.rem() {
            parameters(s4)
        } else {
            s4
        }
    } else {
        s3
    }
}

/// The bytes behind a closure instruction, from the captured variable `i` on.
pub open spec fn with_captures(s: PState, function: FState, i: int) -> PState
    decreases function.upvalues.len() - i,
{
    if 0 <= i < function.upvalues.len() {
        let upvalue = function.upvalues[i];
        let local = if upvalue.is_local {
            1u8
        } else {
            0u8
        };
        with_captures(s.byte(local).byte(upvalue.index), function, i + 1)
    } else {
        s
    }
}

/// The constant that stands for the finished function `index`. Functions are
/// numbered from the top, texts from the bottom.
pub open spec fn function_constant(index: int) -> Value {
    Value::Obj((usize::MAX - index) as usize)
}

/// Parameters and body of a function, compiled on their own; the function
/// around it gets the instruction that makes a closure of them.
#[verifier::opaque]
pub open spec fn function(s: PState, start: TextPosition, rec: Compile) -> PState {
    let s1 = s.open_function(FunctionType::Function).begin_scope();
    let s2 = s1.consume(TokenType::LeftParen, "Expect '(' after function name.").enter();
    let s3 = if s2.at(TokenType::RightParen) {
        s2
    } else {
        parameters(s2)
    };
    let s4 = s3.consume(TokenType::RightParen, "Expect ')' after parameters.").leave().consume(
        TokenType::LeftBrace,
        "Expect '{' before function body.",
    ).enter();
    with_closure(block(s4, rec).leave().declare_function(start).close_function())
}

/// The function that is being compiled is finished: the function around it
/// makes a closure of it.
#[verifier::opaque]
pub open spec fn with_closure(s: PState) -> PState {
    let compiled = s.function;
    let s1 = s.leave_function();
    let value = function_constant(s.finished.len() as int);
    let constant = s1.constant_place(value);
    let s2 = s1.make_constant(value);
    let s3 = if constant <= 255 {
        s2.op_byte(OpCode::Closure, constant as u8)
    } else if constant <= 0xff_ffff {
        s2.op_long(OpCode::ClosureLong, constant)
    } else {
        s2.compiler_error("Too many constants in one chunk.")
    };
    with_captures(s3, compiled, 0)
}

#[verifier::opaque]
pub open spec fn fun_declaration(s: PState, start: TextPosition, rec: Compile) -> PState {
    let s1 = s.parse_variable("Expect function name.", BindingKind::Local).declares(
        SymbolKind::Function,
    ).mark_initialized();
    function(s1, start, rec).define_variable(
        s.variable_operand("Expect function name.", BindingKind::Local),
    )
}

/// A statement behind its keyword.
#[verifier::opaque]
pub open spec fn keyword_statement(s: PState, keyword: TokenType, rec: Compile) -> PState {
    match keyword {
        TokenType::Print => print_statement(s),
        TokenType::Return => return_statement(s),
        TokenType::If => if_statement(s, rec),
        TokenType::Switch => switch_statement(s, rec),
        _ => while_statement(s, rec),
    }
}

pub open spec fn is_keyword_statement(kind: TokenType) -> bool {
    kind == TokenType::Print || kind == TokenType::Return || kind == TokenType::If || kind
        == TokenType::Switch || kind == TokenType::While
}

#[verifier::opaque]
pub open spec fn statement(s: PState, rec: Compile) -> PState {
    let s1 = s.advance();
    if is_keyword_statement(s.current.token_type) {
        let s2 = s1.schedule_point(DebugPointKind::Statement, s1.span_of(s1.previous));
        keyword_statement(s2, s.current.token_type, rec).finish_point(s1.next_point_id)
    } else if s.at(TokenType::For) {
        for_statement(s1, rec)
    } else if s.at(TokenType::LeftBrace) {
        block(s1.enter().begin_scope(), rec).end_scope().leave()
    } else {
        let s2 = s.schedule_point(DebugPointKind::Statement, s.span_of(s.current));
        expression_statement(s2).finish_point(s.next_point_id)
    }
}

#[verifier::opaque]
pub open spec fn declaration(s: PState, rec: Compile) -> PState {
    let s1 = s.advance();
    let s2 = s1.schedule_point(DebugPointKind::Statement, s1.span_of(s1.previous));
    let id = s1.next_point_id;
    let s3 = match s.current.token_type {
        TokenType::Fun => fun_declaration(s2, s1.previous.start, rec).finish_point(id),
        TokenType::Var => var_declaration(s2).finish_point(id),
        _ => rec(Part::Statement, s),
    };
    if s3.panic_mode {
        s3.synchronize()
    } else {
        s3
    }
}

/// The declarations of a whole program.
pub open spec fn program(s: PState) -> PState
    decreases s.rem(),
{
    if s.at(TokenType::Eof) {
        s.advance()
    } else {
        let s1 = compiled(Part::Declaration, s);
        if s1.rem() < s.rem() {
            program(s1)
        } else {
            s1
        }
    }
}

impl<'t> Parser<'t> {
    fn expression_statement(&mut self)
        requires
            old(self)@.wf(),
        ensures
            final(self)@ == expression_statement(old(self)@),
            old(self)@.leads_to(final(self)@),
            old(self)@.ahead(final(self)@),
    {
        proof {
            reveal(expression_statement);
        }
        self.whole_expression();
        self.consume(TokenType::Semicolon, "Expect ';' after expression.");
        self.emit_opcode(OpCode::Pop);
    }

    fn print_statement(&mut self)
        requires
            old(self)@.wf(),
        ensures
            final(self)@ == print_statement(old(self)@),
            old(self)@.leads_to(final(self)@),
    {
        proof {
            reveal(print_statement);
        }
        self.whole_expression();
        self.consume(TokenType::Semicolon, "Expect ';' after value.");
        self.emit_opcode(OpCode::Print);
    }

    fn return_statement(&mut self)
        requires
            old(self)@.wf(),
        ensures
            final(self)@ == return_statement(old(self)@),
            old(self)@.leads_to(final(self)@),
    {
        proof {
            reveal(return_statement);
        }
        if self.function.kind == FunctionType::Script {
            self.compiler_error("Cannot return from top-level code.");
        }
        if self.match_token(TokenType::Semicolon) {
            self.emit_return();
        } else {
            self.whole_expression();
            self.consume(TokenType::Semicolon, "Expect ';' after return value.");
            self.emit_opcode(OpCode::Return);
        }
    }

    fn var_declaration(&mut self)
        requires
            old(self)@.wf(),
        ensures
            final(self)@ == var_declaration(old(self)@),
            old(self)@.leads_to(final(self)@),
    {
        proof {
            reveal(var_declaration);
        }
        let global: u8 = self.parse_variable("Expect variable name.", BindingKind::Local);
        self.sight_declaration(SymbolKind::Variable);
        if self.match_token(TokenType::Equal) {
            self.whole_expression();
        } else {
            self.emit_opcode(OpCode::Nil);
        }
        self.consume(TokenType::Semicolon, "Expect ';' after variable declaration.");
        self.define_variable(global);
    }

    fn condition(&mut self, message: &'static str)
        requires
            old(self)@.wf(),
        ensures
            final(self)@ == condition(old(self)@, message),
            old(self)@.leads_to(final(self)@),
            old(self)@.ahead(final(self)@),
    {
        proof {
            reveal(condition);
        }
        self.consume(TokenType::LeftParen, message);
        self.enter();
        self.whole_expression();
        self.consume(TokenType::RightParen, "Expect ')' after condition.");
        self.leave();
    }

    fn if_statement(&mut self, outer: Ghost<(Part, PState)>)
        requires
            old(self)@.wf(),
            old(self)@.rem() < outer@.1.rem(),
        ensures
            final(self)@ == if_statement(old(self)@, inside(outer@.0, outer@.1)),
            old(self)@.leads_to(final(self)@),
        decreases outer@.1.rem(), rank(outer@.0), 3nat,
    {
        proof {
            reveal(if_statement);
        }
        self.enter();
        self.condition("Expect '(' after 'if'.");
        let otherwise: usize = self.emit_jump(OpCode::JumpIfFalse);
        self.emit_opcode(OpCode::Pop);
        self.statement();
        let end: usize = self.emit_jump(OpCode::Jump);
        self.patch_jump(otherwise);
        self.emit_opcode(OpCode::Pop);
        if self.match_token(TokenType::Else) {
            self.statement();
        }
        self.patch_jump(end);
        self.leave();
    }

    fn while_statement(&mut self, outer: Ghost<(Part, PState)>)
        requires
            old(self)@.wf(),
            old(self)@.rem() < outer@.1.rem(),
        ensures
            final(self)@ == while_statement(old(self)@, inside(outer@.0, outer@.1)),
            old(self)@.leads_to(final(self)@),
        decreases outer@.1.rem(), rank(outer@.0), 3nat,
    {
        proof {
            reveal(while_statement);
        }
        let start: usize = self.code_len();
        self.enter();
        self.condition("Expect '(' after 'while'.");
        let exit: usize = self.emit_jump(OpCode::JumpIfFalse);
        self.emit_opcode(OpCode::Pop);
        self.statement();
        self.emit_loop(start);
        self.patch_jump(exit);
        self.emit_opcode(OpCode::Pop);
        self.leave();
    }

    fn for_initializer(&mut self)
        requires
            old(self)@.wf(),
        ensures
            final(self)@ == for_initializer(old(self)@),
            old(self)@.leads_to(final(self)@),
            old(self)@.ahead(final(self)@),
    {
        proof {
            reveal(for_initializer);
        }
        if self.match_token(TokenType::Semicolon) {
            // No initializer
        } else if self.match_token(TokenType::Var) {
            let span = self.token_span(self.previous);
            let point: u64 = self.schedule_point(DebugPointKind::LoopInitializer, span);
            self.var_declaration();
            self.finish_point(point);
        } else {
            let span = self.token_span(self.current);
            let point: u64 = self.schedule_point(DebugPointKind::LoopInitializer, span);
            self.expression_statement();
            self.finish_point(point);
        }
    }

    fn for_condition(&mut self) -> (exit: usize)
        requires
            old(self)@.wf(),
        ensures
            final(self)@ == for_condition(old(self)@),
            exit == final(self)@.jump_place(),
            exit + 2 == final(self)@.function.code.len(),
            old(self)@.leads_to(final(self)@),
    {
        proof {
            reveal(for_condition);
        }
        let span = self.token_span(self.current);
        let point: u64 = self.schedule_point(DebugPointKind::LoopCondition, span);
        self.whole_expression();
        self.consume(TokenType::Semicolon, "Expect ';' after loop condition.");
        self.finish_point(point);
        // Jump out of the loop if the condition is false.
        self.emit_jump(OpCode::JumpIfFalse)
    }

    fn for_increment(&mut self, start: usize) -> (increment: usize)
        requires
            old(self)@.wf(),
            start <= old(self)@.function.code.len(),
        ensures
            final(self)@ == for_increment(old(self)@, start as int),
            increment == old(self)@.function.code.len() + 3,
            increment <= final(self)@.function.code.len(),
            old(self)@.leads_to(final(self)@),
    {
        proof {
            reveal(for_increment);
        }
        let body: usize = self.emit_jump(OpCode::Jump);
        let increment: usize = self.code_len();
        let span = self.token_span(self.current);
        let point: u64 = self.schedule_point(DebugPointKind::LoopIncrement, span);
        self.whole_expression();
        self.finish_point(point);
        self.emit_opcode(OpCode::Pop);
        self.consume(TokenType::RightParen, "Expect ')' after for clauses.");
        self.emit_loop(start);
        self.patch_jump(body);
        increment
    }

    fn for_clauses(&mut self) -> (header: (usize, Option<usize>))
        requires
            old(self)@.wf(),
        ensures
            final(self)@ == for_clauses(old(self)@).state,
            header.0 == for_clauses(old(self)@).back,
            match header.1 {
                Some(exit) => for_clauses(old(self)@).exit == Some(exit as int) && exit + 2
                    <= final(self)@.function.code.len(),
                None => for_clauses(old(self)@).exit is None,
            },
            header.0 <= final(self)@.function.code.len(),
            old(self)@.leads_to(final(self)@),
    {
        proof {
            reveal(for_clauses);
        }
        let start: usize = self.code_len();
        let mut exit: Option<usize> = None;
        // Condition
        if !self.match_token(TokenType::Semicolon) {
            exit = Some(self.for_condition());
            self.emit_opcode(OpCode::Pop);
        }
        // Increment
        let mut back: usize = start;
        if !self.match_token(TokenType::RightParen) {
            back = self.for_increment(start);
        }
        (back, exit)
    }

    fn for_statement(&mut self, outer: Ghost<(Part, PState)>)
        requires
            old(self)@.wf(),
            old(self)@.rem() < outer@.1.rem(),
        ensures
            final(self)@ == for_statement(old(self)@, inside(outer@.0, outer@.1)),
            old(self)@.leads_to(final(self)@),
        decreases outer@.1.rem(), rank(outer@.0), 3nat,
    {
        proof {
            reveal(for_statement);
        }
        self.enter();
        self.begin_scope();
        self.consume(TokenType::LeftParen, "Expect '(' after 'for'.");
        self.enter();
        self.for_initializer();
        let (back, exit) = self.for_clauses();
        self.leave();
        self.statement();
        self.emit_loop(back);
        if let Some(place) = exit {
            self.patch_jump(place);
            self.emit_opcode(OpCode::Pop);
        }
        self.end_scope();
        self.leave();
    }

    fn items(&mut self, in_switch: bool)
        requires
            old(self)@.wf(),
        ensures
            final(self)@ == compiled(Part::Items { in_switch }, old(self)@),
            old(self)@.leads_to(final(self)@),
        decreases old(self)@.rem(), rank(Part::Items { in_switch }), 9nat,
    {
        proof {
            reveal(items);
        }
        if self.check(TokenType::RightBrace) || self.check(TokenType::Eof) || (in_switch && (
        self.check(TokenType::Case) || self.check(TokenType::Default))) {
            return ;
        }
        self.declaration();
        self.items(in_switch);
    }

    fn block(&mut self, outer: Ghost<(Part, PState)>)
        requires
            old(self)@.wf(),
            old(self)@.rem() < outer@.1.rem(),
        ensures
            final(self)@ == block(old(self)@, inside(outer@.0, outer@.1)),
            old(self)@.leads_to(final(self)@),
        decreases outer@.1.rem(), rank(outer@.0), 2nat,
    {
        self.items(false);
        self.consume(TokenType::RightBrace, "Expect '}' after block.");
    }

    fn switch_case(&mut self, has_default: bool, outer: Ghost<(Part, PState)>) -> (exit: usize)
        requires
            old(self)@.wf(),
            old(self)@.rem() < outer@.1.rem(),
        ensures
            (final(self)@, exit as int) == switch_case(
                old(self)@,
                has_default,
                inside(outer@.0, outer@.1),
            ),
            exit + 2 <= final(self)@.function.code.len(),
            old(self)@.leads_to(final(self)@),
        decreases outer@.1.rem(), rank(outer@.0), 3nat,
    {
        proof {
            reveal(switch_case);
        }
        if has_default {
            self.compiler_error("Cannot have 'case' after 'default'.");
        }
        self.emit_opcode(OpCode::Dup);
        self.whole_expression();
        self.consume(TokenType::Colon, "Expect ':' after 'case' value.");
        self.emit_opcode(OpCode::Equal);
        let next: usize = self.emit_jump(OpCode::JumpIfFalse);
        self.emit_opcode(OpCode::Pop);
        self.items(true);
        let exit: usize = self.emit_jump(OpCode::Jump);
        self.patch_jump(next);
        self.emit_opcode(OpCode::Pop);
        exit
    }

    fn switch_default(&mut self, has_default: bool, outer: Ghost<(Part, PState)>)
        requires
            old(self)@.wf(),
            old(self)@.rem() < outer@.1.rem(),
        ensures
            final(self)@ == switch_default(old(self)@, has_default, inside(outer@.0, outer@.1)),
            old(self)@.leads_to(final(self)@),
        decreases outer@.1.rem(), rank(outer@.0), 3nat,
    {
        proof {
            reveal(switch_default);
        }
        if has_default {
            self.compiler_error("Cannot have more than one 'default' case.");
        }
        self.consume(TokenType::Colon, "Expect ':' after 'default'.");
        self.items(true);
    }

    fn switch_end(&mut self, exits: &Vec<usize>)
        requires
            old(self)@.wf(),
            forall|i: int|
                0 <= i < exits@.len() ==> (#[trigger] exits@[i]) + 2
                    <= old(self)@.function.code.len(),
        ensures
            final(self)@ == switch_end(old(self)@, places(exits@)),
            old(self)@.leads_to(final(self)@),
    {
        proof {
            reveal(switch_end);
        }
        self.consume(TokenType::RightBrace, "Expect '}' after switch case.");
        let ghost start = self@;
        let mut i: usize = 0;
        while i < exits.len()
            invariant
                self@.wf(),
                start.steady(self@),
                i <= exits@.len(),
                patch_all(self@, places(exits@), i as int) == patch_all(start, places(exits@), 0),
                forall|j: int|
                    0 <= j < exits@.len() ==> (#[trigger] exits@[j]) + 2
                        <= self@.function.code.len(),
            decreases exits@.len() - i,
        {
            self.patch_jump(exits[i]);
            i += 1;
        }
    }

    fn switch_cases(&mut self, has_default: bool, exits: &mut Vec<usize>)
        requires
            old(self)@.wf(),
            forall|i: int|
                0 <= i < old(exits)@.len() ==> (#[trigger] old(exits)@[i]) + 2
                    <= old(self)@.function.code.len(),
        ensures
            final(self)@ == compiled(
                Part::Cases { has_default, exits: places(old(exits)@) },
                old(self)@,
            ),
            old(self)@.leads_to(final(self)@),
        decreases
                old(self)@.rem(),
                rank(Part::Cases { has_default, exits: places(old(exits)@) }),
                9nat,
    {
        proof {
            reveal(switch_cases);
        }
        let ghost outer = (Part::Cases { has_default, exits: places(exits@) }, self@);
        if self.check(TokenType::RightBrace) || self.check(TokenType::Eof) {
            self.switch_end(exits);
        } else if self.match_token(TokenType::Case) {
            let exit: usize = self.switch_case(has_default, Ghost(outer));
            let ghost before = exits@;
            exits.push(exit);
            assert(places(exits@) =~= places(before).push(exit as int));
            self.switch_cases(has_default, exits);
        } else if self.match_token(TokenType::Default) {
            self.switch_default(has_default, Ghost(outer));
            self.switch_cases(true, exits);
        } else {
            self.error_at_current("Expect 'case' or 'default'.");
            self.switch_end(exits);
        }
    }

    fn switch_statement(&mut self, outer: Ghost<(Part, PState)>)
        requires
            old(self)@.wf(),
            old(self)@.rem() < outer@.1.rem(),
        ensures
            final(self)@ == switch_statement(old(self)@, inside(outer@.0, outer@.1)),
            old(self)@.leads_to(final(self)@),
        decreases outer@.1.rem(), rank(outer@.0), 3nat,
    {
        proof {
            reveal(switch_statement);
        }
        self.enter();
        self.condition("Expect '(' after 'switch'");
        self.consume(TokenType::LeftBrace, "Expect '{' before switch case.");
        self.enter();
        self.begin_scope();
        let mut exits: Vec<usize> = Vec::new();
        assert(places(exits@) =~= Seq::<int>::empty());
        self.switch_cases(false, &mut exits);
        self.emit_opcode(OpCode::Pop);
        self.end_scope();
        self.leave();
        self.leave();
    }

    fn parameters(&mut self)
        requires
            old(self)@.wf(),
        ensures
            final(self)@ == parameters(old(self)@),
            old(self)@.leads_to(final(self)@),
        decreases old(self)@.rem(),
    {
        if self.function.arity < usize::MAX {
            self.function.arity = self.function.arity + 1;
        }
        if self.function.arity > 255 {
            self.compiler_error_at_current("Cannot have more than 255 parameters.");
        }
        let constant: u8 = self.parse_variable("Expect parameter name.", BindingKind::Parameter);
        self.sight_declaration(SymbolKind::Parameter);
        self.define_variable(constant);
        if self.match_token(TokenType::Comma) {
            self.parameters();
        }
    }

    fn emit_captures(&mut self, index: usize)
        requires
            index < old(self)@.finished.len(),
        ensures
            final(self)@ == with_captures(
                old(self)@,
                old(self)@.finished[index as int],
                0,
            ),
            old(self)@.steady(final(self)@),
    {
        let ghost compiled = self@.finished[index as int];
        let ghost start = self@;
        let count: usize = self.finished[index].upvalues.len();
        let mut i: usize = 0;
        while i < count
            invariant
                i <= count,
                index < self@.finished.len(),
                self@.finished[index as int] == compiled,
                count == compiled.upvalues.len(),
                with_captures(self@, compiled, i as int) == with_captures(start, compiled, 0),
                start.steady(self@),
            decreases count - i,
        {
            let upvalue = self.finished[index].upvalues[i];
            let local: u8 = if upvalue.is_local {
                1
            } else {
                0
            };
            self.emit_byte_operand(local);
            self.emit_byte_operand(upvalue.index);
            i += 1;
        }
    }

    fn emit_closure(&mut self)
        requires
            old(self)@.wf(),
            old(self)@.enclosing.len() > 0,
        ensures
            final(self)@ == with_closure(old(self)@),
            final(self)@.wf(),
            final(self)@.tokens == old(self)@.tokens,
            final(self)@.rem() == old(self)@.rem(),
            final(self)@.eof() == old(self)@.eof(),
            same_codes(old(self)@.enclosing.drop_last(), final(self)@.enclosing),
            old(self)@.enclosing.last().code.len() <= final(self)@.function.code.len(),
    {
        proof {
            reveal(with_closure);
        }
        let index: usize = self.leave_function();
        let constant: usize = self.make_constant(Value::Obj(usize::MAX - index));
        if constant <= 255 {
            self.emit_opcode_with_byte(OpCode::Closure, constant as u8);
        } else if constant <= 0xff_ffff {
            self.emit_opcode_with_long(OpCode::ClosureLong, constant);
        } else {
            self.compiler_error("Too many constants in one chunk.");
        }
        self.emit_captures(index);
    }

    fn function(&mut self, start: TextPosition, outer: Ghost<(Part, PState)>)
        requires
            old(self)@.wf(),
            old(self)@.rem() < outer@.1.rem(),
        ensures
            final(self)@ == function(old(self)@, start, inside(outer@.0, outer@.1)),
            old(self)@.leads_to(final(self)@),
        decreases outer@.1.rem(), rank(outer@.0), 4nat,
    {
        proof {
            reveal(function);
        }
        let ghost s = self@;
        self.open_function(FunctionType::Function);
        let ghost opened = self@;
        self.begin_scope();
        self.consume(TokenType::LeftParen, "Expect '(' after function name.");
        self.enter();
        if !self.check(TokenType::RightParen) {
            self.parameters();
        }
        self.consume(TokenType::RightParen, "Expect ')' after parameters.");
        self.leave();
        self.consume(TokenType::LeftBrace, "Expect '{' before function body.");
        self.enter();
        assert(opened.leads_to(self@));
        self.block(outer);
        self.leave();
        self.declare_function(start);
        self.close_function();
        let ghost s1 = self@;
        assert(opened.leads_to(s1));
        proof {
            assert(s1.enclosing[s1.enclosing.len() - 1].code == s.function.code);
            assert forall|i: int| 0 <= i < s.enclosing.len() implies s.enclosing[i].code
                == #[trigger] s1.enclosing.drop_last()[i].code by {
                assert(s1.enclosing[i].code == opened.enclosing[i].code);
            }
        }
        self.emit_closure();
    }

    fn fun_declaration(&mut self, start: TextPosition, outer: Ghost<(Part, PState)>)
        requires
            old(self)@.wf(),
            old(self)@.rem() < outer@.1.rem(),
        ensures
            final(self)@ == fun_declaration(old(self)@, start, inside(outer@.0, outer@.1)),
            old(self)@.leads_to(final(self)@),
        decreases outer@.1.rem(), rank(outer@.0), 5nat,
    {
        proof {
            reveal(fun_declaration);
        }
        let global: u8 = self.parse_variable("Expect function name.", BindingKind::Local);
        self.sight_declaration(SymbolKind::Function);
        self.mark_resolver_initialized();
        self.function(start, outer);
        self.define_variable(global);
    }

    fn keyword_statement(&mut self, keyword: TokenType, outer: Ghost<(Part, PState)>)
        requires
            old(self)@.wf(),
            old(self)@.rem() < outer@.1.rem(),
        ensures
            final(self)@ == keyword_statement(old(self)@, keyword, inside(outer@.0, outer@.1)),
            old(self)@.leads_to(final(self)@),
        decreases outer@.1.rem(), rank(outer@.0), 6nat,
    {
        proof {
            reveal(keyword_statement);
        }
        match keyword {
            TokenType::Print => self.print_statement(),
            TokenType::Return => self.return_statement(),
            TokenType::If => self.if_statement(outer),
            TokenType::Switch => self.switch_statement(outer),
            _ => self.while_statement(outer),
        }
    }

    fn statement(&mut self)
        requires
            old(self)@.wf(),
        ensures
            final(self)@ == compiled(Part::Statement, old(self)@),
            old(self)@.leads_to(final(self)@),
            old(self)@.ahead(final(self)@),
        decreases old(self)@.rem(), rank(Part::Statement), 9nat,
    {
        proof {
            reveal(statement);
        }
        let ghost outer = (Part::Statement, self@);
        let token = self.current.token_type;
        let keyword = match token {
            TokenType::Print | TokenType::Return | TokenType::If | TokenType::Switch
            | TokenType::While => true,
            _ => false,
        };
        if keyword {
            self.advance();
            let span = self.token_span(self.previous);
            let point: u64 = self.schedule_point(DebugPointKind::Statement, span);
            self.keyword_statement(token, Ghost(outer));
            self.finish_point(point);
        } else if self.match_token(TokenType::For) {
            self.for_statement(Ghost(outer));
        } else if self.match_token(TokenType::LeftBrace) {
            self.enter();
            self.begin_scope();
            self.block(Ghost(outer));
            self.end_scope();
            self.leave();
        } else {
            let span = self.token_span(self.current);
            let point: u64 = self.schedule_point(DebugPointKind::Statement, span);
            self.expression_statement();
            self.finish_point(point);
        }
    }

    fn declaration(&mut self)
        requires
            old(self)@.wf(),
        ensures
            final(self)@ == compiled(Part::Declaration, old(self)@),
            old(self)@.leads_to(final(self)@),
            old(self)@.ahead(final(self)@),
        decreases old(self)@.rem(), rank(Part::Declaration), 9nat,
    {
        proof {
            reveal(declaration);
        }
        let ghost outer = (Part::Declaration, self@);
        if self.match_token(TokenType::Fun) {
            let span = self.token_span(self.previous);
            let point: u64 = self.schedule_point(DebugPointKind::Statement, span);
            self.fun_declaration(span.start, Ghost(outer));
            self.finish_point(point);
        } else if self.match_token(TokenType::Var) {
            let span = self.token_span(self.previous);
            let point: u64 = self.schedule_point(DebugPointKind::Statement, span);
            self.var_declaration();
            self.finish_point(point);
        } else {
            self.statement();
        }
        if self.panic_mode {
            self.synchronize();
        }
    }

    /// Compiles all declarations up to the end of the file.
    pub fn program(&mut self)
        requires
            old(self)@.wf(),
        ensures
            final(self)@ == program(old(self)@),
            old(self)@.leads_to(final(self)@),
        decreases old(self)@.rem(),
    {
        if self.match_token(TokenType::Eof) {
            return ;
        }
        self.declaration();
        self.program();
    }
}

pub open spec fn places(exits: Seq<usize>) -> Seq<int> {
    exits.map_values(|place: usize| place as int)
}

} // verus!
