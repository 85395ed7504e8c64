//! Compiling expressions. For every construct there is a specification of
//! what it makes of the compiler's state, and the function that does it.
use vstd::prelude::*;
use crate::chunk::OpCode;
use crate::parser::{local_place, one_more, Lexed, PState, Parser};
use crate::rules::{binary_ops, get_rule, rule_of, tighter, tightness, Infix, Precedence, Prefix};
use crate::scanner::TokenType;
use crate::source::SourceSpan;
use crate::value::Value;

verus! {
/// The end of the file begins no expression and continues none.
proof fn lemma_rule_of_eof()
    ensures
        rule_of(TokenType::Eof).prefix is None,
        rule_of(TokenType::Eof).precedence == Precedence::Loosest,
{
    reveal(rule_of);
}

/// How a name is read or written: the place that it stands for, and the
/// state in which that was found out.
pub ghost struct Access {
    pub state: PState,
    pub place: int,
    pub get: OpCode,
    pub set: OpCode,
}

#[verifier::opaque]
pub open spec fn access(s: PState, name: Lexed) -> Access {
    let local = local_place(s.function.locals, name.text);
    if local > 0 {
        Access {
            state: s.resolve_local(name),
            place: local,
            get: if local <= 255 {
                OpCode::GetLocal
            } else {
                OpCode::GetLocalLong
            },
            set: if local <= 255 {
                OpCode::SetLocal
            } else {
                OpCode::SetLocalLong
            },
        }
    } else {
        let resolved = s.resolve_upvalue(name);
        match s.upvalue_operand(name) {
            Some(place) => Access {
                state: resolved,
                place: place as int,
                get: OpCode::GetUpvalue,
                set: OpCode::SetUpvalue,
            },
            None => Access {
                state: resolved.identifier_constant(name),
                place: resolved.identifier_operand(name) as int,
                get: OpCode::GetGlobal,
                set: OpCode::SetGlobal,
            },
        }
    }
}

#[verifier::opaque]
pub open spec fn with_access(s: PState, op: OpCode, place: int, name: Lexed) -> PState {
    let span = s.span_of(name);
    if op == OpCode::GetLocalLong || op == OpCode::SetLocalLong {
        s.op_at(op, span).short_at(place, span)
    } else {
        s.op_byte_at(op, (place % 256) as u8, span)
    }
}

pub open spec fn expression(s: PState) -> PState
    decreases s.rem(), 20nat,
{
    parse_precedence(s, Precedence::Assignment)
}

/// What one expression makes of the compiler's state.
#[verifier::opaque]
pub open spec fn whole_expression(s: PState) -> PState {
    expression(s)
}

/// An expression of operators that bind at least as tightly as `precedence`.
pub open spec fn parse_precedence(s: PState, precedence: Precedence) -> PState
    decreases s.rem(), 10nat,
{
    let can_assign = tightness(precedence) <= tightness(Precedence::Assignment);
    let s1 = s.advance();
    match rule_of(s1.previous.token_type).prefix {
        None => s1.error("Expect expression."),
        Some(rule) => {
            if s1.rem() < s.rem() {
                let s2 = prefix(s1, rule, can_assign);
                if s2.rem() < s.rem() {
                    let s3 = operators(s2, precedence, can_assign);
                    if can_assign && s3.at(TokenType::Equal) {
                        s3.advance().error("Invalid assignment target.")
                    } else {
                        s3
                    }
                } else {
                    s2
                }
            } else {
                s1
            }
        },
    }
}

/// The operators behind an operand, for as long as they bind tightly enough.
pub open spec fn operators(s: PState, precedence: Precedence, can_assign: bool) -> PState
    decreases s.rem(), 60nat,
{
    if tightness(precedence) <= tightness(rule_of(s.current.token_type).precedence) {
        let s1 = s.advance();
        if s1.rem() < s.rem() {
            let s2 = match rule_of(s1.previous.token_type).infix {
                Some(rule) => infix(s1, rule, can_assign),
                None => s1,
            };
            if s2.rem() < s.rem() {
                operators(s2, precedence, can_assign)
            } else {
                s2
            }
        } else {
            s1
        }
    } else {
        s
    }
}

/// The operand that the token read last begins.
pub open spec fn prefix(s: PState, rule: Prefix, can_assign: bool) -> PState
    decreases s.rem(), 50nat,
{
    match rule {
        Prefix::Grouping => grouping(s),
        Prefix::List => list(s),
        Prefix::Unary => unary(s),
        Prefix::Text => s.emit_constant(Value::Obj(s.previous.text)),
        Prefix::Variable => named_variable(s, s.previous, can_assign),
        Prefix::Number => s.emit_constant(Value::Number(s.previous.number)),
        Prefix::Literal => s.op(literal_op(s.previous.token_type)),
    }
}

pub open spec fn literal_op(kind: TokenType) -> OpCode {
    if kind == TokenType::False {
        OpCode::False
    } else if kind == TokenType::Nil {
        OpCode::Nil
    } else {
        OpCode::True
    }
}

pub open spec fn grouping(s: PState) -> PState
    decreases s.rem(), 40nat,
{
    let s1 = s.enter();
    let s2 = if s1.rem() <= s.rem() {
        expression(s1)
    } else {
        s1
    };
    s2.consume(TokenType::RightParen, "Expect ')' after expression.").leave()
}

pub open spec fn list(s: PState) -> PState
    decreases s.rem(), 40nat,
{
    let s1 = s.enter();
    let (s2, count) = if s1.at(TokenType::RightBracket) {
        (s1, 0usize)
    } else if s1.rem() <= s.rem() {
        list_items(s1, 0)
    } else {
        (s1, 0usize)
    };
    let s3 = s2.consume(TokenType::RightBracket, "Expect ']' after list elements.").leave();
    if count <= 255 {
        s3.op_byte(OpCode::BuildList, count as u8)
    } else {
        s3.op(OpCode::BuildListLong).short(count as int)
    }
}

pub open spec fn unary(s: PState) -> PState
    decreases s.rem(), 40nat,
{
    let token = s.previous;
    let s1 = s.enter();
    let s2 = if s1.rem() <= s.rem() {
        parse_precedence(s1, Precedence::Unary)
    } else {
        s1
    };
    let op = if token.token_type == TokenType::Bang {
        OpCode::Not
    } else {
        OpCode::Negate
    };
    s2.leave().op_at(op, s.span_of(token))
}

/// A use of a name, or an assignment to it.
pub open spec fn named_variable(s: PState, name: Lexed, can_assign: bool) -> PState
    decreases s.rem(), 40nat,
{
    let found = access(s, name);
    let write = can_assign && found.state.at(TokenType::Equal);
    let s1 = found.state.uses(name, found.get, found.place, write);
    if can_assign && s1.at(TokenType::Equal) {
        let s2 = s1.advance();
        let s3 = if s2.rem() <= s.rem() {
            expression(s2)
        } else {
            s2
        };
        with_access(s3, found.set, found.place, name)
    } else {
        with_access(s1, found.get, found.place, name)
    }
}

/// The elements of a list, and how many there are.
pub open spec fn list_items(s: PState, count: usize) -> (PState, usize)
    decreases s.rem(), 30nat,
{
    let s1 = expression(s);
    let count = one_more(count);
    let s2 = if count > 255 {
        s1.compiler_error("Error processing list literal.")
    } else {
        s1
    };
    if s2.at(TokenType::Comma) {
        let s3 = s2.advance();
        if s3.rem() < s.rem() {
            list_items(s3, count)
        } else {
            (s3, count)
        }
    } else {
        (s2, count)
    }
}

/// The arguments of a call, and how many there are.
pub open spec fn argument_items(s: PState, count: u8) -> (PState, u8)
    decreases s.rem(), 30nat,
{
    let s1 = expression(s);
    let s2 = if count == 255 {
        s1.compiler_error("Cannot have more than 255 arguments.")
    } else {
        s1
    };
    let count = if count == 255 {
        0u8
    } else {
        (count + 1) as u8
    };
    if s2.at(TokenType::Comma) {
        let s3 = s2.advance();
        if s3.rem() < s.rem() {
            argument_items(s3, count)
        } else {
            (s3, count)
        }
    } else {
        (s2, count)
    }
}

/// What the operator read last does with the operand before it.
pub open spec fn infix(s: PState, rule: Infix, can_assign: bool) -> PState
    decreases s.rem(), 50nat,
{
    match rule {
        Infix::Call => call(s),
        Infix::Index => index(s, can_assign),
        Infix::Binary => binary(s),
        Infix::And => and(s),
        Infix::Or => or(s),
    }
}

pub open spec fn call(s: PState) -> PState
    decreases s.rem(), 40nat,
{
    let s1 = s.enter();
    let (s2, count) = if s1.at(TokenType::RightParen) {
        (s1, 0u8)
    } else if s1.rem() <= s.rem() {
        argument_items(s1, 0)
    } else {
        (s1, 0u8)
    };
    let s3 = s2.consume(TokenType::RightParen, "Expect ')' after arguments.").leave();
    s3.op_byte_at(OpCode::Call, count, s3.merged(s.previous, s3.previous))
}

pub open spec fn index(s: PState, can_assign: bool) -> PState
    decreases s.rem(), 40nat,
{
    let s1 = s.enter();
    let s2 = if s1.rem() <= s.rem() {
        expression(s1)
    } else {
        s1
    };
    let s3 = s2.consume(TokenType::RightBracket, "Expect ']' after index.").leave();
    let span = s3.merged(s.previous, s3.previous);
    if can_assign && s3.at(TokenType::Equal) {
        let s4 = s3.advance();
        let s5 = if s4.rem() <= s.rem() {
            expression(s4)
        } else {
            s4
        };
        s5.op_at(OpCode::SetIndex, span)
    } else {
        s3.op_at(OpCode::GetIndex, span)
    }
}

pub open spec fn binary(s: PState) -> PState
    decreases s.rem(), 40nat,
{
    let token = s.previous;
    let s1 = parse_precedence(s, tighter(rule_of(token.token_type).precedence));
    with_ops(s1, binary_ops(token.token_type), s.span_of(token))
}

/// One or two instructions at a span.
pub open spec fn with_ops(s: PState, ops: (Option<OpCode>, Option<OpCode>), span: SourceSpan) -> PState {
    let s1 = match ops.0 {
        Some(op) => s.op_at(op, span),
        None => s,
    };
    match ops.1 {
        Some(op) => s1.op_at(op, span),
        None => s1,
    }
}

pub open spec fn and(s: PState) -> PState
    decreases s.rem(), 40nat,
{
    let s1 = s.emit_jump(OpCode::JumpIfFalse);
    let end = s1.jump_place();
    let s2 = s1.op(OpCode::Pop);
    let s3 = parse_precedence(s2, Precedence::And);
    s3.patch_jump(end)
}

pub open spec fn or(s: PState) -> PState
    decreases s.rem(), 40nat,
{
    let s1 = s.emit_jump(OpCode::JumpIfFalse);
    let otherwise = s1.jump_place();
    let s2 = s1.emit_jump(OpCode::Jump);
    let end = s2.jump_place();
    let s3 = s2.patch_jump(otherwise).op(OpCode::Pop);
    let s4 = parse_precedence(s3, Precedence::Or);
    s4.patch_jump(end)
}

impl<'t> Parser<'t> {
    /// Compiles one expression.
    pub fn whole_expression(&mut self)
        requires
            old(self)@.wf(),
        ensures
            final(self)@ == whole_expression(old(self)@),
            old(self)@.leads_to(final(self)@),
            old(self)@.ahead(final(self)@),
    {
        proof {
            reveal(whole_expression);
        }
        self.expression();
    }

    fn expression(&mut self)
        requires
            old(self)@.wf(),
        ensures
            final(self)@ == expression(old(self)@),
            old(self)@.leads_to(final(self)@),
            old(self)@.ahead(final(self)@),
        decreases old(self)@.rem(), 20nat,
    {
        self.parse_precedence(Precedence::Assignment);
    }

    fn parse_precedence(&mut self, precedence: Precedence)
        requires
            old(self)@.wf(),
            tightness(precedence) > 0,
        ensures
            final(self)@ == parse_precedence(old(self)@, precedence),
            old(self)@.leads_to(final(self)@),
            old(self)@.ahead(final(self)@),
        decreases old(self)@.rem(), 10nat,
    {
        proof {
            lemma_rule_of_eof();
        }
        let ghost s = self@;
        self.advance();
        let rule = match get_rule(self.previous.token_type).prefix {
            Some(rule) => rule,
            None => {
                self.error("Expect expression.");
                return ;
            },
        };
        let can_assign = precedence.level() <= 1;
        let ghost s1 = self@;
        assert(s1.rem() < s.rem());
        self.prefix(rule, can_assign);
        let ghost s2 = self@;
        assert(s2.rem() < s.rem());
        self.operators(precedence, can_assign);
        let ghost s3 = self@;
        assert(s3.rem() < s.rem());
        if can_assign && self.check(TokenType::Equal) {
            self.advance();
            self.error("Invalid assignment target.");
        }
    }

    fn operators(&mut self, precedence: Precedence, can_assign: bool)
        requires
            old(self)@.wf(),
            tightness(precedence) > 0,
        ensures
            final(self)@ == operators(old(self)@, precedence, can_assign),
            old(self)@.leads_to(final(self)@),
        decreases old(self)@.rem(), 60nat,
    {
        proof {
            lemma_rule_of_eof();
        }
        if precedence.level() <= get_rule(self.current.token_type).precedence.level() {
            self.advance();
            if let Some(rule) = get_rule(self.previous.token_type).infix {
                self.infix(rule, can_assign);
            }
            self.operators(precedence, can_assign);
        }
    }

    fn prefix(&mut self, rule: Prefix, can_assign: bool)
        requires
            old(self)@.wf(),
        ensures
            final(self)@ == prefix(old(self)@, rule, can_assign),
            old(self)@.leads_to(final(self)@),
        decreases old(self)@.rem(), 50nat,
    {
        let token = self.previous;
        match rule {
            Prefix::Grouping => self.grouping(),
            Prefix::List => self.list(),
            Prefix::Unary => self.unary(),
            Prefix::Text => self.emit_constant(Value::Obj(token.text)),
            Prefix::Variable => self.named_variable(token, can_assign),
            Prefix::Number => self.emit_constant(Value::Number(token.number)),
            Prefix::Literal => self.literal(),
        }
    }

    fn grouping(&mut self)
        requires
            old(self)@.wf(),
        ensures
            final(self)@ == grouping(old(self)@),
            old(self)@.leads_to(final(self)@),
        decreases old(self)@.rem(), 40nat,
    {
        self.enter();
        self.expression();
        self.consume(TokenType::RightParen, "Expect ')' after expression.");
        self.leave();
    }

    fn list(&mut self)
        requires
            old(self)@.wf(),
        ensures
            final(self)@ == list(old(self)@),
            old(self)@.leads_to(final(self)@),
        decreases old(self)@.rem(), 40nat,
    {
        self.enter();
        let mut count: usize = 0;
        if !self.check(TokenType::RightBracket) {
            let ghost first = self@;
            loop
                invariant_except_break
                    self@.wf(),
                    first.leads_to(self@),
                    old(self)@.leads_to(self@),
                    list_items(self@, count) == list_items(first, 0),
                ensures
                    self@.wf(),
                    old(self)@.leads_to(self@),
                    (self@, count) == list_items(first, 0),
                decreases self@.rem(),
            {
                self.expression();
                if count < usize::MAX {
                    count += 1;
                }
                if count > 255 {
                    self.compiler_error("Error processing list literal.");
                }
                if !self.match_token(TokenType::Comma) {
                    break;
                }
            }
        }
        self.consume(TokenType::RightBracket, "Expect ']' after list elements.");
        self.leave();
        if count <= 255 {
            self.emit_opcode_with_byte(OpCode::BuildList, count as u8);
        } else {
            self.emit_opcode(OpCode::BuildListLong);
            self.emit_short(count);
        }
    }

    fn unary(&mut self)
        requires
            old(self)@.wf(),
        ensures
            final(self)@ == unary(old(self)@),
            old(self)@.leads_to(final(self)@),
        decreases old(self)@.rem(), 40nat,
    {
        let operator = self.previous;
        let span = self.token_span(operator);
        self.enter();
        self.parse_precedence(Precedence::Unary);
        self.leave();
        if operator.token_type == TokenType::Bang {
            self.emit_opcode_at(OpCode::Not, span);
        } else {
            self.emit_opcode_at(OpCode::Negate, span);
        }
    }

    fn literal(&mut self)
        ensures
            final(self)@ == old(self)@.op(literal_op(old(self)@.previous.token_type)),
            old(self)@.steady(final(self)@),
    {
        match self.previous.token_type {
            TokenType::False => self.emit_opcode(OpCode::False),
            TokenType::Nil => self.emit_opcode(OpCode::Nil),
            _ => self.emit_opcode(OpCode::True),
        }
    }

    fn named_variable(&mut self, name: Lexed, can_assign: bool)
        requires
            old(self)@.wf(),
        ensures
            final(self)@ == named_variable(old(self)@, name, can_assign),
            old(self)@.leads_to(final(self)@),
        decreases old(self)@.rem(), 40nat,
    {
        let (place, get, set) = self.resolve(name);
        let write = can_assign && self.check(TokenType::Equal);
        self.sight_use(name, get, place, write);
        if can_assign && self.match_token(TokenType::Equal) {
            self.expression();
            self.emit_access(set, place, name);
        } else {
            self.emit_access(get, place, name);
        }
    }

    /// Finds out what a name stands for, and how it is read and written.
    fn resolve(&mut self, name: Lexed) -> (found: (usize, OpCode, OpCode))
        ensures
            ({
                let found = found;
                let spec = access(old(self)@, name);
                &&& final(self)@ == spec.state
                &&& found.0 == spec.place
                &&& found.1 == spec.get
                &&& found.2 == spec.set
            }),
            old(self)@.steady(final(self)@),
    {
        proof {
            reveal(access);
        }
        match self.resolve_local(name) {
            Some(local) => if local <= 255 {
                (local, OpCode::GetLocal, OpCode::SetLocal)
            } else {
                (local, OpCode::GetLocalLong, OpCode::SetLocalLong)
            },
            None => match self.resolve_upvalue(name) {
                Some(upvalue) => (upvalue, OpCode::GetUpvalue, OpCode::SetUpvalue),
                None => {
                    let constant: usize = self.identifier_constant(name) as usize;
                    (constant, OpCode::GetGlobal, OpCode::SetGlobal)
                },
            },
        }
    }

    fn emit_access(&mut self, op: OpCode, place: usize, name: Lexed)
        ensures
            final(self)@ == with_access(old(self)@, op, place as int, name),
            old(self)@.steady(final(self)@),
    {
        proof {
            reveal(with_access);
        }
        let span = self.token_span(name);
        if op == OpCode::GetLocalLong || op == OpCode::SetLocalLong {
            self.emit_opcode_at(op, span);
            self.emit_byte_operand_at((place % 256) as u8, span);
            self.emit_byte_operand_at((place / 256 % 256) as u8, span);
        } else {
            self.emit_opcode_with_byte_at(op, (place % 256) as u8, span);
        }
    }

    fn infix(&mut self, rule: Infix, can_assign: bool)
        requires
            old(self)@.wf(),
        ensures
            final(self)@ == infix(old(self)@, rule, can_assign),
            old(self)@.leads_to(final(self)@),
        decreases old(self)@.rem(), 50nat,
    {
        match rule {
            Infix::Call => self.call(),
            Infix::Index => self.index(can_assign),
            Infix::Binary => self.binary(),
            Infix::And => self.and(),
            Infix::Or => self.or(),
        }
    }

    fn call(&mut self)
        requires
            old(self)@.wf(),
        ensures
            final(self)@ == call(old(self)@),
            old(self)@.leads_to(final(self)@),
        decreases old(self)@.rem(), 40nat,
    {
        let opening = self.previous;
        self.enter();
        let mut count: u8 = 0;
        if !self.check(TokenType::RightParen) {
            let ghost first = self@;
            loop
                invariant_except_break
                    self@.wf(),
                    first.leads_to(self@),
                    old(self)@.leads_to(self@),
                    argument_items(self@, count) == argument_items(first, 0),
                ensures
                    self@.wf(),
                    old(self)@.leads_to(self@),
                    (self@, count) == argument_items(first, 0),
                decreases self@.rem(),
            {
                self.expression();
                if count == 255 {
                    self.compiler_error("Cannot have more than 255 arguments.");
                }
                count = if count == 255 {
                    0
                } else {
                    count + 1
                };
                if !self.match_token(TokenType::Comma) {
                    break;
                }
            }
        }
        self.consume(TokenType::RightParen, "Expect ')' after arguments.");
        self.leave();
        let span = self.merged_span(opening, self.previous);
        self.emit_opcode_with_byte_at(OpCode::Call, count, span);
    }

    fn index(&mut self, can_assign: bool)
        requires
            old(self)@.wf(),
        ensures
            final(self)@ == index(old(self)@, can_assign),
            old(self)@.leads_to(final(self)@),
        decreases old(self)@.rem(), 40nat,
    {
        let opening = self.previous;
        self.enter();
        self.expression();
        self.consume(TokenType::RightBracket, "Expect ']' after index.");
        self.leave();
        let span = self.merged_span(opening, self.previous);
        if can_assign && self.match_token(TokenType::Equal) {
            self.expression();
            self.emit_opcode_at(OpCode::SetIndex, span);
        } else {
            self.emit_opcode_at(OpCode::GetIndex, span);
        }
    }

    fn binary(&mut self)
        requires
            old(self)@.wf(),
        ensures
            final(self)@ == binary(old(self)@),
            old(self)@.leads_to(final(self)@),
        decreases old(self)@.rem(), 40nat,
    {
        let operator = self.previous;
        let span = self.token_span(operator);
        let next = get_rule(operator.token_type).precedence.next();
        self.parse_precedence(next);
        let (first, second) = Self::operator_codes(operator.token_type);
        if let Some(op) = first {
            self.emit_opcode_at(op, span);
        }
        if let Some(op) = second {
            self.emit_opcode_at(op, span);
        }
    }

    fn operator_codes(kind: TokenType) -> (ops: (Option<OpCode>, Option<OpCode>))
        ensures
            ops == binary_ops(kind),
    {
        match kind {
            TokenType::BangEqual => (Some(OpCode::Equal), Some(OpCode::Not)),
            TokenType::EqualEqual => (Some(OpCode::Equal), None),
            TokenType::Greater => (Some(OpCode::Greater), None),
            TokenType::GreaterEqual => (Some(OpCode::Less), Some(OpCode::Not)),
            TokenType::Less => (Some(OpCode::Less), None),
            TokenType::LessEqual => (Some(OpCode::Greater), Some(OpCode::Not)),
            TokenType::Plus => (Some(OpCode::Add), None),
            TokenType::Minus => (Some(OpCode::Subtract), None),
            TokenType::Star => (Some(OpCode::Multiply), None),
            TokenType::Slash => (Some(OpCode::Divide), None),
            TokenType::Backslash => (Some(OpCode::IntDivide), None),
            _ => (None, None),
        }
    }

    fn and(&mut self)
        requires
            old(self)@.wf(),
        ensures
            final(self)@ == and(old(self)@),
            old(self)@.leads_to(final(self)@),
        decreases old(self)@.rem(), 40nat,
    {
        let end: usize = self.emit_jump(OpCode::JumpIfFalse);
        self.emit_opcode(OpCode::Pop);
        self.parse_precedence(Precedence::And);
        self.patch_jump(end);
    }

    fn or(&mut self)
        requires
            old(self)@.wf(),
        ensures
            final(self)@ == or(old(self)@),
            old(self)@.leads_to(final(self)@),
        decreases old(self)@.rem(), 40nat,
    {
        let otherwise: usize = self.emit_jump(OpCode::JumpIfFalse);
        let end: usize = self.emit_jump(OpCode::Jump);
        self.patch_jump(otherwise);
        self.emit_opcode(OpCode::Pop);
        self.parse_precedence(Precedence::Or);
        self.patch_jump(end);
    }
}

} // verus!
