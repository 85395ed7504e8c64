//! What compiling an expression keeps: bounds change nothing while they are
//! kept, names are met in the order of the source, and there was an error
//! exactly where something was reported.
use vstd::prelude::*;
use crate::chunk::OpCode;
use crate::debug_info::BindingKind;
use crate::expressions::{
    access, and, argument_items, binary, call, expression, grouping, index, infix, list,
    list_items, named_variable, operators, or, parse_precedence, prefix, unary, whole_expression,
    with_access, with_ops,
};
use crate::parser::{
    fault_message, one_more, well_ended, Lexed, PState, Sighting, SymbolKind,
};
use crate::rules::{binary_ops, rule_of, tighter, tightness, Infix, Precedence, Prefix};
use crate::scanner::TokenType;
use crate::source::SourceSpan;
use crate::value::Value;

verus! {

/// The same state without bounds.
pub open spec fn unbounded(s: PState) -> PState {
    PState { note_limit: None, depth_limit: None, ..s }
}

/// No bound was passed so far.
pub open spec fn within_bounds(s: PState) -> bool {
    &&& !s.too_deep
    &&& s.note_limit matches Some(limit) ==> s.note_count <= limit && s.note_count < usize::MAX
}

/// No bound was passed, and everything that was noted was counted.
pub open spec fn calm(s: PState) -> bool {
    &&& within_bounds(s)
    &&& s.note_limit is Some ==> s.notes.len() <= s.note_count
}

/// Something was reported exactly if there was an error.
pub open spec fn told(s: PState) -> bool {
    &&& s.had_error == (s.note_count > 0)
    &&& s.note_limit != Some(0usize) ==> s.had_error == (s.notes.len() > 0)
}

/// Sightings stand in the order of the source.
pub open spec fn in_order(sightings: Seq<Sighting>) -> bool {
    forall|i: int, k: int|
        #![trigger sightings[i], sightings[k]]
        0 <= i <= k < sightings.len() ==> sightings[i].span.start.byte_offset
            <= sightings[k].span.start.byte_offset
}

pub open spec fn tokens_in_order(tokens: Seq<Lexed>) -> bool {
    forall|i: int, k: int|
        #![trigger tokens[i], tokens[k]]
        0 <= i <= k < tokens.len() ==> tokens[i].start.byte_offset <= tokens[k].start.byte_offset
}

/// What was read and what was met stands in the order of the source.
#[verifier::opaque]
pub open spec fn forward(
    tokens: Seq<Lexed>,
    next: int,
    current: Lexed,
    previous: Lexed,
    sightings: Seq<Sighting>,
) -> bool {
    &&& well_ended(tokens)
    &&& tokens_in_order(tokens)
    &&& 0 <= next < tokens.len()
    &&& previous.start.byte_offset <= current.start.byte_offset
    &&& current.start.byte_offset <= tokens[next].start.byte_offset
    &&& in_order(sightings)
    &&& forall|i: int|
        #![trigger sightings[i]]
        0 <= i < sightings.len() ==> sightings[i].span.start.byte_offset
            <= previous.start.byte_offset
}

pub open spec fn orderly(s: PState) -> bool {
    forward(s.tokens, s.next, s.current, s.previous, s.sightings)
}

/// `t` comes behind `s`, and `u` behind `s` without bounds, by the same work.
#[verifier::opaque]
pub open spec fn keeps(s: PState, t: PState, u: PState) -> bool {
    &&& t.note_limit == s.note_limit
    &&& t.depth_limit == s.depth_limit
    &&& s.too_deep ==> t.too_deep
    &&& s.note_count <= t.note_count
    &&& told(s) ==> told(t)
    &&& orderly(s) ==> orderly(t)
    &&& calm(s) && within_bounds(t) ==> u == unbounded(t) && calm(t)
}

/// Works in a row: where the first one kept to its bounds, `u2` is what the
/// second makes without bounds.
pub proof fn lemma_chain(s: PState, t: PState, u: PState, t2: PState, u2: PState, x: PState)
    requires
        keeps(s, t, u),
        keeps(t, t2, x),
        u == unbounded(t) ==> u2 == x,
    ensures
        keeps(s, t2, u2),
{
    reveal(keeps);
}

pub proof fn lemma_same(s: PState)
    ensures
        keeps(s, s, unbounded(s)),
{
    reveal(keeps);
}

pub proof fn lemma_error(s: PState, message: &'static str)
    ensures
        keeps(s, s.error(message), unbounded(s).error(message)),
        keeps(s, s.error_at_current(message), unbounded(s).error_at_current(message)),
        keeps(s, s.compiler_error(message), unbounded(s).compiler_error(message)),
        keeps(
            s,
            s.compiler_error_at_current(message),
            unbounded(s).compiler_error_at_current(message),
        ),
{
    reveal(keeps);
}

/// Reading goes forward from the token that was read last.
proof fn lemma_read(s: PState)
    ensures
        ({
            let t = s.read();
            let u = unbounded(s).read();
            &&& t.previous == s.previous
            &&& t.tokens == s.tokens
            &&& t.note_limit == s.note_limit
            &&& t.depth_limit == s.depth_limit
            &&& s.too_deep ==> t.too_deep
            &&& s.note_count <= t.note_count
            &&& told(s) ==> told(t)
            &&& orderly(PState { current: s.previous, ..s }) ==> orderly(t)
            &&& calm(s) && within_bounds(t) ==> u == unbounded(t) && calm(t)
        }),
    decreases s.tokens.len() - s.next,
{
    reveal(keeps);
    reveal(forward);
    let token = s.tokens[s.next];
    let taken = PState { current: token, next: s.next + 1, ..s };
    if token.token_type != TokenType::Eof && token.token_type == TokenType::Error && 0 <= s.next
        < s.tokens.len() - 1 {
        let t = taken.error_at_current(fault_message(token));
        lemma_error(taken, fault_message(token));
        lemma_read(t);
    }
}

pub proof fn lemma_advance(s: PState)
    ensures
        keeps(s, s.advance(), unbounded(s).advance()),
{
    reveal(keeps);
    reveal(PState::advance);
    reveal(forward);
    let s1 = PState { previous: s.current, ..s };
    lemma_read(s1);
    assert(unbounded(s1) == PState { previous: s.current, ..unbounded(s) });
}

pub proof fn lemma_consume(s: PState, kind: TokenType, message: &'static str)
    ensures
        keeps(s, s.consume(kind, message), unbounded(s).consume(kind, message)),
{
    reveal(keeps);
    reveal(PState::consume);
    lemma_advance(s);
    lemma_error(s, message);
}

pub proof fn lemma_enter(s: PState)
    ensures
        keeps(s, s.enter(), unbounded(s).enter()),
{
    reveal(keeps);
    reveal(PState::enter);
    reveal(forward);
}

proof fn lemma_skip(s: PState, open: usize)
    ensures
        keeps(s, s.skip_to_statement(open), unbounded(s).skip_to_statement(open)),
    decreases s.rem(),
{
    reveal(keeps);
    if !(s.eof() || s.previous.token_type == TokenType::Semicolon
        || crate::parser::starts_statement(s.current.token_type)) {
        let open = if crate::parser::opens_delimiter(s.current.token_type) {
            crate::parser::one_more(open)
        } else if crate::parser::closes_delimiter(s.current.token_type) {
            crate::parser::one_less(open)
        } else {
            open
        };
        lemma_advance(s);
        let s1 = if s.depth_limit matches Some(limit) && s.depth + open > limit {
            reveal(forward);
            PState {
                too_deep: true,
                current: s.tokens.last(),
                next: s.tokens.len() - 1,
                ..s
            }
        } else {
            s.advance()
        };
        if s1.rem() < s.rem() {
            lemma_skip(s1, open);
        }
    }
}

pub proof fn lemma_synchronize(s: PState)
    ensures
        keeps(s, s.synchronize(), unbounded(s).synchronize()),
{
    reveal(keeps);
    reveal(PState::synchronize);
    lemma_skip(PState { panic_mode: false, ..s }, 0);
    assert(unbounded(PState { panic_mode: false, ..s }) == (PState {
        panic_mode: false,
        ..unbounded(s)
    }));
}

proof fn lemma_drop_locals(s: PState)
    ensures
        keeps(s, s.drop_locals(), unbounded(s).drop_locals()),
    decreases s.function.locals.len(),
{
    reveal(keeps);
    let locals = s.function.locals;
    if locals.len() > 0 && locals.last().depth > s.function.scope_depth {
        let local = locals.last();
        let s1 = s.with_function(
            crate::parser::FState {
                locals: locals.drop_last(),
                bindings: crate::parser::with_live_end(
                    s.function.bindings,
                    local.metadata,
                    s.function.code.len() as usize,
                ),
                ..s.function
            },
        );
        let op = if local.is_captured {
            OpCode::CloseUpvalue
        } else {
            OpCode::Pop
        };
        reveal(crate::parser::FState::with_op);
        lemma_drop_locals(s1.op(op));
        assert(unbounded(s1.op(op)) == unbounded(s1).op(op));
    }
}

pub proof fn lemma_end_scope(s: PState)
    ensures
        keeps(s, s.end_scope(), unbounded(s).end_scope()),
{
    reveal(keeps);
    reveal(PState::end_scope);
    let depth = s.function.scope_depth;
    let s1 = s.with_function(
        crate::parser::FState {
            scope_depth: if depth == i32::MIN {
                depth
            } else {
                (depth - 1) as i32
            },
            ..s.function
        },
    );
    lemma_drop_locals(s1);
}

pub proof fn lemma_point(s: PState, id: u64)
    ensures
        keeps(s, s.finish_point(id), unbounded(s).finish_point(id)),
{
    reveal(keeps);
    reveal(PState::finish_point);
}

pub proof fn lemma_loop(s: PState, start: int)
    ensures
        keeps(s, s.emit_loop(start), unbounded(s).emit_loop(start)),
{
    reveal(keeps);
    reveal(PState::emit_loop);
}

pub proof fn lemma_patch(s: PState, place: int)
    ensures
        keeps(s, s.patch_jump(place), unbounded(s).patch_jump(place)),
{
    reveal(keeps);
}

proof fn lemma_constant(s: PState, value: Value)
    ensures
        keeps(s, s.emit_constant(value), unbounded(s).emit_constant(value)),
{
    reveal(keeps);
    reveal(PState::emit_constant);
}

proof fn lemma_declare_variable(s: PState, kind: BindingKind)
    ensures
        keeps(s, s.declare_variable(kind), unbounded(s).declare_variable(kind)),
{
    reveal(keeps);
    reveal(PState::declare_variable);
    reveal(PState::add_local);
}

proof fn lemma_identifier(s: PState, name: Lexed)
    ensures
        keeps(s, s.identifier_constant(name), unbounded(s).identifier_constant(name)),
        s.identifier_constant(name).previous == s.previous,
{
    reveal(keeps);
    reveal(PState::identifier_constant);
}

pub proof fn lemma_parse_variable(s: PState, message: &'static str, kind: BindingKind)
    ensures
        keeps(s, s.parse_variable(message, kind), unbounded(s).parse_variable(message, kind)),
        calm(s) && within_bounds(s.parse_variable(message, kind)) ==> s.variable_operand(
            message,
            kind,
        ) == unbounded(s).variable_operand(message, kind),
{
    reveal(keeps);
    reveal(PState::parse_variable);
    reveal(PState::variable_operand);
    lemma_consume(s, TokenType::Identifier, message);
    let s1 = s.consume(TokenType::Identifier, message);
    lemma_declare_variable(s1, kind);
    let s2 = s1.declare_variable(kind);
    lemma_identifier(s2, s2.previous);
}

pub proof fn lemma_declares(s: PState, symbol: SymbolKind)
    ensures
        keeps(s, s.declares(symbol), unbounded(s).declares(symbol)),
{
    reveal(keeps);
    reveal(PState::declares);
    reveal(forward);
}

proof fn lemma_uses(s: PState, name: Lexed, get: OpCode, place: int, write: bool)
    requires
        name == s.previous,
    ensures
        keeps(s, s.uses(name, get, place, write), unbounded(s).uses(name, get, place, write)),
{
    reveal(keeps);
    reveal(PState::uses);
    reveal(forward);
}

pub proof fn lemma_mark(s: PState)
    ensures
        keeps(s, s.mark_initialized(), unbounded(s).mark_initialized()),
{
    reveal(keeps);
    reveal(PState::mark_initialized);
}

pub proof fn lemma_define(s: PState, global: u8)
    ensures
        keeps(s, s.define_variable(global), unbounded(s).define_variable(global)),
{
    reveal(keeps);
    reveal(PState::define_variable);
    reveal(PState::mark_initialized);
}

proof fn lemma_access(s: PState, name: Lexed)
    ensures
        ({
            let a = access(s, name);
            let b = access(unbounded(s), name);
            &&& keeps(s, a.state, b.state)
            &&& a.state.previous == s.previous
            &&& calm(s) && within_bounds(a.state) ==> a.place == b.place && a.get == b.get
                && a.set == b.set
        }),
{
    reveal(keeps);
    reveal(access);
    lemma_error(s, "Can't read local variable in its own initializer.");
    let s1 = s.resolve_upvalue(name);
    assert(keeps(s, s1, unbounded(s).resolve_upvalue(name)));
    lemma_identifier(s1, name);
}

proof fn lemma_with_access(s: PState, op: OpCode, place: int, name: Lexed)
    ensures
        keeps(s, with_access(s, op, place, name), with_access(unbounded(s), op, place, name)),
{
    reveal(keeps);
    reveal(with_access);
}

pub proof fn lemma_open_function(s: PState, kind: crate::parser::FunctionType)
    ensures
        keeps(s, s.open_function(kind), unbounded(s).open_function(kind)),
{
    reveal(keeps);
    reveal(PState::open_function);
}

pub proof fn lemma_close_function(s: PState)
    ensures
        keeps(s, s.close_function(), unbounded(s).close_function()),
{
    reveal(keeps);
    reveal(PState::close_function);
}

/// What an expression makes of a state.
#[verifier::opaque]
spec fn parsed(s: PState, precedence: Precedence) -> PState {
    parse_precedence(s, precedence)
}

/// Expressions keep their bounds where less than `n` is left to read.
#[verifier::opaque]
spec fn smooth(n: nat) -> bool {
    forall|s: PState, precedence: Precedence|
        s.rem() < n ==> #[trigger] keeps(
            s,
            parsed(s, precedence),
            parsed(unbounded(s), precedence),
        )
}

proof fn lemma_parsed(s: PState, precedence: Precedence, n: nat)
    requires
        smooth(n),
        s.rem() < n,
    ensures
        keeps(s, parsed(s, precedence), parsed(unbounded(s), precedence)),
{
    reveal(smooth);
}

/// An expression, unless more is left to read than at `s`.
#[verifier::opaque]
spec fn parsed_within(s: PState, t: PState, precedence: Precedence) -> PState {
    if t.rem() <= s.rem() {
        parsed(t, precedence)
    } else {
        t
    }
}

proof fn lemma_parsed_within(s: PState, t: PState, precedence: Precedence, n: nat)
    requires
        smooth(n),
        s.rem() < n,
    ensures
        keeps(
            t,
            parsed_within(s, t, precedence),
            parsed_within(unbounded(s), unbounded(t), precedence),
        ),
{
    reveal(parsed_within);
    lemma_same(t);
    if t.rem() <= s.rem() {
        lemma_parsed(t, precedence, n);
    }
}

/// What stands between the delimiters of a construct.
#[verifier::opaque]
spec fn delimited(s: PState, precedence: Precedence) -> PState {
    parsed_within(s, s.enter(), precedence)
}

proof fn lemma_delimited(s: PState, precedence: Precedence, n: nat)
    requires
        smooth(n),
        s.rem() < n,
    ensures
        keeps(s, delimited(s, precedence), delimited(unbounded(s), precedence)),
{
    reveal(delimited);
    lemma_enter(s);
    let s1 = s.enter();
    let u1 = unbounded(s).enter();
    lemma_parsed_within(s, s1, precedence, n);
    lemma_chain(
        s,
        s1,
        u1,
        parsed_within(s, s1, precedence),
        parsed_within(unbounded(s), u1, precedence),
        parsed_within(unbounded(s), unbounded(s1), precedence),
    );
}

/// The value behind a `=`.
#[verifier::opaque]
spec fn assigned(s: PState, t: PState) -> PState {
    parsed_within(s, t.advance(), Precedence::Assignment)
}

proof fn lemma_assigned(s: PState, t: PState, n: nat)
    requires
        smooth(n),
        s.rem() < n,
    ensures
        keeps(t, assigned(s, t), assigned(unbounded(s), unbounded(t))),
{
    reveal(assigned);
    lemma_advance(t);
    let t1 = t.advance();
    let u1 = unbounded(t).advance();
    lemma_parsed_within(s, t1, Precedence::Assignment, n);
    lemma_chain(
        t,
        t1,
        u1,
        parsed_within(s, t1, Precedence::Assignment),
        parsed_within(unbounded(s), u1, Precedence::Assignment),
        parsed_within(unbounded(s), unbounded(t1), Precedence::Assignment),
    );
}

/// The end of a construct.
#[verifier::opaque]
spec fn closed(s: PState, kind: TokenType, message: &'static str) -> PState {
    s.consume(kind, message).leave()
}

proof fn lemma_closed(s: PState, kind: TokenType, message: &'static str)
    ensures
        keeps(s, closed(s, kind, message), closed(unbounded(s), kind, message)),
{
    reveal(keeps);
    reveal(closed);
    lemma_consume(s, kind, message);
}

proof fn lemma_grouping_is(s: PState)
    ensures
        grouping(s) == closed(
            delimited(s, Precedence::Assignment),
            TokenType::RightParen,
            "Expect ')' after expression.",
        ),
{
    reveal(delimited);
    reveal(parsed_within);
    reveal(parsed);
    reveal(closed);
}

proof fn lemma_grouping(s: PState, n: nat)
    requires
        smooth(n),
        s.rem() < n,
    ensures
        keeps(s, grouping(s), grouping(unbounded(s))),
{
    lemma_grouping_is(s);
    lemma_grouping_is(unbounded(s));
    lemma_delimited(s, Precedence::Assignment, n);
    let s1 = delimited(s, Precedence::Assignment);
    let u1 = delimited(unbounded(s), Precedence::Assignment);
    let message = "Expect ')' after expression.";
    lemma_closed(s1, TokenType::RightParen, message);
    lemma_chain(
        s,
        s1,
        u1,
        grouping(s),
        grouping(unbounded(s)),
        closed(unbounded(s1), TokenType::RightParen, message),
    );
}

/// The operator in front of an operand.
#[verifier::opaque]
spec fn negated(t: PState, token: Lexed, span: SourceSpan) -> PState {
    t.leave().op_at(
        if token.token_type == TokenType::Bang {
            OpCode::Not
        } else {
            OpCode::Negate
        },
        span,
    )
}

proof fn lemma_negated(t: PState, token: Lexed, span: SourceSpan)
    ensures
        keeps(t, negated(t, token, span), negated(unbounded(t), token, span)),
{
    reveal(keeps);
    reveal(negated);
}

proof fn lemma_unary_is(s: PState)
    ensures
        unary(s) == negated(delimited(s, Precedence::Unary), s.previous, s.span_of(s.previous)),
{
    reveal(delimited);
    reveal(parsed_within);
    reveal(parsed);
    reveal(negated);
}

proof fn lemma_unary(s: PState, n: nat)
    requires
        smooth(n),
        s.rem() < n,
    ensures
        keeps(s, unary(s), unary(unbounded(s))),
{
    lemma_unary_is(s);
    lemma_unary_is(unbounded(s));
    lemma_delimited(s, Precedence::Unary, n);
    let s1 = delimited(s, Precedence::Unary);
    let u1 = delimited(unbounded(s), Precedence::Unary);
    let span = s.span_of(s.previous);
    lemma_negated(s1, s.previous, span);
    lemma_chain(
        s,
        s1,
        u1,
        unary(s),
        unary(unbounded(s)),
        negated(unbounded(s1), s.previous, span),
    );
}

/// A name that was read last, used or written.
#[verifier::opaque]
spec fn used(s: PState, can_assign: bool) -> PState {
    let found = access(s, s.previous);
    found.state.uses(
        s.previous,
        found.get,
        found.place,
        can_assign && found.state.at(TokenType::Equal),
    )
}

proof fn lemma_used(s: PState, can_assign: bool)
    ensures
        keeps(s, used(s, can_assign), used(unbounded(s), can_assign)),
        calm(s) && within_bounds(used(s, can_assign)) ==> within_bounds(
            access(s, s.previous).state,
        ),
{
    reveal(used);
    reveal(keeps);
    lemma_access(s, s.previous);
    let found = access(s, s.previous);
    lemma_uses(
        found.state,
        s.previous,
        found.get,
        found.place,
        can_assign && found.state.at(TokenType::Equal),
    );
}

/// The instruction for a name.
#[verifier::opaque]
spec fn named(s: PState, t: PState, can_assign: bool) -> PState {
    let found = access(s, s.previous);
    if can_assign && t.at(TokenType::Equal) {
        with_access(assigned(s, t), found.set, found.place, s.previous)
    } else {
        with_access(t, found.get, found.place, s.previous)
    }
}

proof fn lemma_named(s: PState, t: PState, can_assign: bool, n: nat)
    requires
        smooth(n),
        s.rem() < n,
    ensures
        keeps(t, named(s, t, can_assign), named(s, unbounded(t), can_assign)),
{
    reveal(named);
    let found = access(s, s.previous);
    if can_assign && t.at(TokenType::Equal) {
        lemma_assigned(s, t, n);
        lemma_assigned_from(s, unbounded(t));
        let t1 = assigned(s, t);
        lemma_with_access(t1, found.set, found.place, s.previous);
        lemma_chain(
            t,
            t1,
            assigned(s, unbounded(t)),
            named(s, t, can_assign),
            named(s, unbounded(t), can_assign),
            with_access(unbounded(t1), found.set, found.place, s.previous),
        );
    } else {
        lemma_with_access(t, found.get, found.place, s.previous);
    }
}

/// Of the state before, only what is left to read counts.
proof fn lemma_assigned_from(s: PState, t: PState)
    ensures
        assigned(unbounded(s), t) == assigned(s, t),
{
    reveal(assigned);
    reveal(parsed_within);
}

proof fn lemma_named_is(s: PState, can_assign: bool)
    ensures
        named_variable(s, s.previous, can_assign) == named(s, used(s, can_assign), can_assign),
{
    reveal(named);
    reveal(used);
    reveal(assigned);
    reveal(parsed_within);
    reveal(parsed);
    reveal(PState::uses);
}

/// Where the bounds are kept, a name is found alike.
proof fn lemma_named_alike(s: PState, t: PState, can_assign: bool)
    requires
        calm(s),
        within_bounds(access(s, s.previous).state),
    ensures
        named(unbounded(s), t, can_assign) == named(s, t, can_assign),
{
    reveal(named);
    lemma_access(s, s.previous);
    lemma_assigned_from(s, t);
}

proof fn lemma_named_variable(s: PState, can_assign: bool, n: nat)
    requires
        smooth(n),
        s.rem() < n,
    ensures
        keeps(
            s,
            named_variable(s, s.previous, can_assign),
            named_variable(unbounded(s), s.previous, can_assign),
        ),
{
    lemma_named_is(s, can_assign);
    lemma_named_is(unbounded(s), can_assign);
    lemma_used(s, can_assign);
    let t = used(s, can_assign);
    let u = used(unbounded(s), can_assign);
    lemma_named(s, t, can_assign, n);
    lemma_chain(
        s,
        t,
        u,
        named(s, t, can_assign),
        named(s, u, can_assign),
        named(s, unbounded(t), can_assign),
    );
    lemma_kept_back(t, named(s, t, can_assign), named(s, unbounded(t), can_assign));
    if calm(s) && within_bounds(t) {
        lemma_named_alike(s, u, can_assign);
    } else {
        lemma_passed(
            s,
            named(s, t, can_assign),
            named(s, u, can_assign),
            named(unbounded(s), u, can_assign),
        );
    }
}

/// A bound that was passed stays passed.
proof fn lemma_kept_back(s: PState, t: PState, u: PState)
    requires
        keeps(s, t, u),
    ensures
        within_bounds(t) ==> within_bounds(s),
{
    reveal(keeps);
}

/// Where a bound was passed, nothing is said of the state without bounds.
proof fn lemma_passed(s: PState, t: PState, u: PState, v: PState)
    requires
        keeps(s, t, u),
        !calm(s) || !within_bounds(t),
    ensures
        keeps(s, t, v),
{
    reveal(keeps);
}

/// One more element of a list, or the comma behind it.
#[verifier::opaque]
spec fn item(s: PState, full: bool, message: &'static str) -> PState {
    let s1 = parsed(s, Precedence::Assignment);
    let s2 = if full {
        s1.compiler_error(message)
    } else {
        s1
    };
    s2.match_token(TokenType::Comma)
}

/// There is a comma behind an element.
#[verifier::opaque]
spec fn goes_on(s: PState, full: bool, message: &'static str) -> bool {
    let s1 = parsed(s, Precedence::Assignment);
    let s2 = if full {
        s1.compiler_error(message)
    } else {
        s1
    };
    s2.at(TokenType::Comma)
}

proof fn lemma_item(s: PState, full: bool, message: &'static str, n: nat)
    requires
        smooth(n),
        s.rem() < n,
    ensures
        keeps(s, item(s, full, message), item(unbounded(s), full, message)),
        calm(s) && within_bounds(item(s, full, message)) ==> goes_on(s, full, message) == goes_on(
            unbounded(s),
            full,
            message,
        ),
{
    reveal(item);
    reveal(goes_on);
    reveal(keeps);
    lemma_parsed(s, Precedence::Assignment, n);
    let s1 = parsed(s, Precedence::Assignment);
    lemma_error(s1, message);
    let s2 = if full {
        s1.compiler_error(message)
    } else {
        s1
    };
    lemma_advance(s2);
}

spec fn list_message() -> &'static str {
    "Error processing list literal."
}

spec fn argument_message() -> &'static str {
    "Cannot have more than 255 arguments."
}

#[verifier::opaque]
spec fn listed(s: PState, count: usize) -> (PState, usize) {
    list_items(s, count)
}

#[verifier::opaque]
spec fn argued(s: PState, count: u8) -> (PState, u8) {
    argument_items(s, count)
}

proof fn lemma_listed_is(s: PState, count: usize)
    ensures
        listed(s, count) == ({
            let more = one_more(count);
            let t = item(s, more > 255, list_message());
            if goes_on(s, more > 255, list_message()) && t.rem() < s.rem() {
                listed(t, more)
            } else {
                (t, more)
            }
        }),
{
    reveal(listed);
    reveal(item);
    reveal(goes_on);
    reveal(parsed);
    assert(expression(s) == parsed(s, Precedence::Assignment));
}

proof fn lemma_argued_is(s: PState, count: u8)
    ensures
        argued(s, count) == ({
            let more = if count == 255 {
                0u8
            } else {
                (count + 1) as u8
            };
            let t = item(s, count == 255, argument_message());
            if goes_on(s, count == 255, argument_message()) && t.rem() < s.rem() {
                argued(t, more)
            } else {
                (t, more)
            }
        }),
{
    reveal(argued);
    reveal(item);
    reveal(goes_on);
    reveal(parsed);
    assert(expression(s) == parsed(s, Precedence::Assignment));
}

proof fn lemma_listed(s: PState, count: usize, n: nat)
    requires
        smooth(n),
        s.rem() < n,
    ensures
        keeps(s, listed(s, count).0, listed(unbounded(s), count).0),
        calm(s) && within_bounds(listed(s, count).0) ==> listed(s, count).1 == listed(
            unbounded(s),
            count,
        ).1,
    decreases s.rem(),
{
    lemma_listed_is(s, count);
    lemma_listed_is(unbounded(s), count);
    let more = one_more(count);
    lemma_item(s, more > 255, list_message(), n);
    let t = item(s, more > 255, list_message());
    if goes_on(s, more > 255, list_message()) && t.rem() < s.rem() {
        lemma_listed(t, more, n);
        reveal(keeps);
    } else {
        reveal(keeps);
    }
}

proof fn lemma_argued(s: PState, count: u8, n: nat)
    requires
        smooth(n),
        s.rem() < n,
    ensures
        keeps(s, argued(s, count).0, argued(unbounded(s), count).0),
        calm(s) && within_bounds(argued(s, count).0) ==> argued(s, count).1 == argued(
            unbounded(s),
            count,
        ).1,
    decreases s.rem(),
{
    lemma_argued_is(s, count);
    lemma_argued_is(unbounded(s), count);
    let more = if count == 255 {
        0u8
    } else {
        (count + 1) as u8
    };
    lemma_item(s, count == 255, argument_message(), n);
    let t = item(s, count == 255, argument_message());
    if goes_on(s, count == 255, argument_message()) && t.rem() < s.rem() {
        lemma_argued(t, more, n);
        reveal(keeps);
    } else {
        reveal(keeps);
    }
}

/// The elements of a list, if there are any.
#[verifier::opaque]
spec fn elements(s: PState) -> (PState, usize) {
    let s1 = s.enter();
    if s1.at(TokenType::RightBracket) || s1.rem() > s.rem() {
        (s1, 0)
    } else {
        listed(s1, 0)
    }
}

/// The arguments of a call, if there are any.
#[verifier::opaque]
spec fn arguments(s: PState) -> (PState, u8) {
    let s1 = s.enter();
    if s1.at(TokenType::RightParen) || s1.rem() > s.rem() {
        (s1, 0)
    } else {
        argued(s1, 0)
    }
}

proof fn lemma_elements(s: PState, n: nat)
    requires
        smooth(n),
        s.rem() < n,
    ensures
        keeps(s, elements(s).0, elements(unbounded(s)).0),
        calm(s) && within_bounds(elements(s).0) ==> elements(s).1 == elements(unbounded(s)).1,
{
    reveal(elements);
    reveal(keeps);
    lemma_enter(s);
    let s1 = s.enter();
    if !(s1.at(TokenType::RightBracket) || s1.rem() > s.rem()) {
        lemma_listed(s1, 0, n);
    }
}

proof fn lemma_arguments(s: PState, n: nat)
    requires
        smooth(n),
        s.rem() < n,
    ensures
        keeps(s, arguments(s).0, arguments(unbounded(s)).0),
        calm(s) && within_bounds(arguments(s).0) ==> arguments(s).1 == arguments(unbounded(s)).1,
{
    reveal(arguments);
    reveal(keeps);
    lemma_enter(s);
    let s1 = s.enter();
    if !(s1.at(TokenType::RightParen) || s1.rem() > s.rem()) {
        lemma_argued(s1, 0, n);
    }
}

proof fn lemma_list_is(s: PState)
    ensures
        list(s) == ({
            let (t, count) = elements(s);
            let t1 = closed(t, TokenType::RightBracket, "Expect ']' after list elements.");
            if count <= 255 {
                t1.op_byte(OpCode::BuildList, count as u8)
            } else {
                t1.op(OpCode::BuildListLong).short(count as int)
            }
        }),
{
    reveal(elements);
    reveal(listed);
    reveal(closed);
}

proof fn lemma_list(s: PState, n: nat)
    requires
        smooth(n),
        s.rem() < n,
    ensures
        keeps(s, list(s), list(unbounded(s))),
{
    lemma_list_is(s);
    lemma_list_is(unbounded(s));
    lemma_elements(s, n);
    lemma_closed(
        elements(s).0,
        TokenType::RightBracket,
        "Expect ']' after list elements.",
    );
    reveal(keeps);
}

#[verifier::opaque]
spec fn called(s: PState) -> PState {
    call(s)
}

proof fn lemma_call_is(s: PState)
    ensures
        called(s) == ({
            let (t, count) = arguments(s);
            let t1 = closed(t, TokenType::RightParen, "Expect ')' after arguments.");
            t1.op_byte_at(OpCode::Call, count, t1.merged(s.previous, t1.previous))
        }),
{
    reveal(called);
    reveal(arguments);
    reveal(argued);
    reveal(closed);
}

proof fn lemma_call(s: PState, n: nat)
    requires
        smooth(n),
        s.rem() < n,
    ensures
        keeps(s, called(s), called(unbounded(s))),
{
    lemma_call_is(s);
    lemma_call_is(unbounded(s));
    lemma_arguments(s, n);
    lemma_closed(arguments(s).0, TokenType::RightParen, "Expect ')' after arguments.");
    reveal(keeps);
}

/// What follows the index of an element: its new value, or nothing.
#[verifier::opaque]
spec fn element(s: PState, t: PState, can_assign: bool) -> PState {
    let span = t.merged(s.previous, t.previous);
    if can_assign && t.at(TokenType::Equal) {
        assigned(s, t).op_at(OpCode::SetIndex, span)
    } else {
        t.op_at(OpCode::GetIndex, span)
    }
}

proof fn lemma_element(s: PState, t: PState, can_assign: bool, n: nat)
    requires
        smooth(n),
        s.rem() < n,
    ensures
        keeps(t, element(s, t, can_assign), element(unbounded(s), unbounded(t), can_assign)),
{
    reveal(element);
    if can_assign && t.at(TokenType::Equal) {
        lemma_assigned(s, t, n);
    }
    reveal(keeps);
}

/// What stands between the brackets of an index.
#[verifier::opaque]
spec fn subscript(s: PState) -> PState {
    closed(
        delimited(s, Precedence::Assignment),
        TokenType::RightBracket,
        "Expect ']' after index.",
    )
}

proof fn lemma_subscript(s: PState, n: nat)
    requires
        smooth(n),
        s.rem() < n,
    ensures
        keeps(s, subscript(s), subscript(unbounded(s))),
{
    reveal(subscript);
    lemma_delimited(s, Precedence::Assignment, n);
    let s1 = delimited(s, Precedence::Assignment);
    let message = "Expect ']' after index.";
    lemma_closed(s1, TokenType::RightBracket, message);
    lemma_chain(
        s,
        s1,
        delimited(unbounded(s), Precedence::Assignment),
        subscript(s),
        subscript(unbounded(s)),
        closed(unbounded(s1), TokenType::RightBracket, message),
    );
}

#[verifier::opaque]
spec fn indexed(s: PState, can_assign: bool) -> PState {
    index(s, can_assign)
}

proof fn lemma_index_is(s: PState, can_assign: bool)
    ensures
        indexed(s, can_assign) == element(s, subscript(s), can_assign),
{
    reveal(indexed);
    reveal(subscript);
    reveal(element);
    reveal(delimited);
    reveal(assigned);
    reveal(parsed_within);
    reveal(parsed);
    reveal(closed);
}

proof fn lemma_index(s: PState, can_assign: bool, n: nat)
    requires
        smooth(n),
        s.rem() < n,
    ensures
        keeps(s, indexed(s, can_assign), indexed(unbounded(s), can_assign)),
{
    lemma_index_is(s, can_assign);
    lemma_index_is(unbounded(s), can_assign);
    lemma_subscript(s, n);
    let t = subscript(s);
    lemma_element(s, t, can_assign, n);
    lemma_chain(
        s,
        t,
        subscript(unbounded(s)),
        indexed(s, can_assign),
        indexed(unbounded(s), can_assign),
        element(unbounded(s), unbounded(t), can_assign),
    );
}

proof fn lemma_with_ops(s: PState, ops: (Option<OpCode>, Option<OpCode>), span: SourceSpan)
    ensures
        keeps(s, with_ops(s, ops, span), with_ops(unbounded(s), ops, span)),
{
    reveal(keeps);
}

#[verifier::opaque]
spec fn computed(s: PState) -> PState {
    binary(s)
}

proof fn lemma_binary_is(s: PState)
    ensures
        computed(s) == with_ops(
            parsed(s, tighter(rule_of(s.previous.token_type).precedence)),
            binary_ops(s.previous.token_type),
            s.span_of(s.previous),
        ),
{
    reveal(computed);
    reveal(parsed);
}

proof fn lemma_binary(s: PState, n: nat)
    requires
        smooth(n),
        s.rem() < n,
    ensures
        keeps(s, computed(s), computed(unbounded(s))),
{
    lemma_binary_is(s);
    lemma_binary_is(unbounded(s));
    let precedence = tighter(rule_of(s.previous.token_type).precedence);
    lemma_parsed(s, precedence, n);
    let t = parsed(s, precedence);
    let ops = binary_ops(s.previous.token_type);
    let span = s.span_of(s.previous);
    lemma_with_ops(t, ops, span);
    lemma_chain(
        s,
        t,
        parsed(unbounded(s), precedence),
        computed(s),
        computed(unbounded(s)),
        with_ops(unbounded(t), ops, span),
    );
}

/// The jump past the second operand of `and`.
#[verifier::opaque]
spec fn and_begun(s: PState) -> PState {
    s.emit_jump(OpCode::JumpIfFalse).op(OpCode::Pop)
}

/// The jumps around the second operand of `or`.
#[verifier::opaque]
spec fn or_begun(s: PState) -> PState {
    let s1 = s.emit_jump(OpCode::JumpIfFalse);
    s1.emit_jump(OpCode::Jump).patch_jump(s1.jump_place()).op(OpCode::Pop)
}

/// Where the operand of the last jump stands.
#[verifier::opaque]
spec fn or_end(s: PState) -> int {
    s.emit_jump(OpCode::JumpIfFalse).emit_jump(OpCode::Jump).jump_place()
}

#[verifier::opaque]
spec fn and_end(s: PState) -> int {
    s.emit_jump(OpCode::JumpIfFalse).jump_place()
}

proof fn lemma_begun(s: PState)
    ensures
        keeps(s, and_begun(s), and_begun(unbounded(s))),
        keeps(s, or_begun(s), or_begun(unbounded(s))),
        and_begun(s).rem() == s.rem(),
        or_begun(s).rem() == s.rem(),
        and_end(unbounded(s)) == and_end(s),
        or_end(unbounded(s)) == or_end(s),
{
    reveal(keeps);
    reveal(and_begun);
    reveal(or_begun);
    reveal(and_end);
    reveal(or_end);
}

/// The second operand, and the jump past it.
#[verifier::opaque]
spec fn second(s: PState, precedence: Precedence, place: int) -> PState {
    parsed(s, precedence).patch_jump(place)
}

proof fn lemma_second(s: PState, precedence: Precedence, place: int, n: nat)
    requires
        smooth(n),
        s.rem() < n,
    ensures
        keeps(s, second(s, precedence, place), second(unbounded(s), precedence, place)),
{
    reveal(second);
    lemma_parsed(s, precedence, n);
    let t = parsed(s, precedence);
    lemma_patch(t, place);
    lemma_chain(
        s,
        t,
        parsed(unbounded(s), precedence),
        second(s, precedence, place),
        second(unbounded(s), precedence, place),
        unbounded(t).patch_jump(place),
    );
}

#[verifier::opaque]
spec fn conjoined(s: PState) -> PState {
    and(s)
}

#[verifier::opaque]
spec fn disjoined(s: PState) -> PState {
    or(s)
}

proof fn lemma_logical_is(s: PState)
    ensures
        conjoined(s) == second(and_begun(s), Precedence::And, and_end(s)),
        disjoined(s) == second(or_begun(s), Precedence::Or, or_end(s)),
{
    reveal(conjoined);
    reveal(disjoined);
    reveal(second);
    reveal(and_begun);
    reveal(or_begun);
    reveal(and_end);
    reveal(or_end);
    reveal(parsed);
}

proof fn lemma_logical(s: PState, n: nat)
    requires
        smooth(n),
        s.rem() < n,
    ensures
        keeps(s, conjoined(s), conjoined(unbounded(s))),
        keeps(s, disjoined(s), disjoined(unbounded(s))),
{
    lemma_logical_is(s);
    lemma_logical_is(unbounded(s));
    lemma_begun(s);
    let a = and_begun(s);
    let o = or_begun(s);
    lemma_second(a, Precedence::And, and_end(s), n);
    lemma_second(o, Precedence::Or, or_end(s), n);
    lemma_chain(
        s,
        a,
        and_begun(unbounded(s)),
        conjoined(s),
        conjoined(unbounded(s)),
        second(unbounded(a), Precedence::And, and_end(s)),
    );
    lemma_chain(
        s,
        o,
        or_begun(unbounded(s)),
        disjoined(s),
        disjoined(unbounded(s)),
        second(unbounded(o), Precedence::Or, or_end(s)),
    );
}

#[verifier::opaque]
spec fn prefixed(s: PState, rule: Prefix, can_assign: bool) -> PState {
    prefix(s, rule, can_assign)
}

proof fn lemma_prefixed(s: PState, rule: Prefix, can_assign: bool, n: nat)
    requires
        smooth(n),
        s.rem() < n,
    ensures
        keeps(s, prefixed(s, rule, can_assign), prefixed(unbounded(s), rule, can_assign)),
{
    reveal(prefixed);
    match rule {
        Prefix::Grouping => {
            lemma_grouping(s, n);
        },
        Prefix::List => {
            lemma_list(s, n);
        },
        Prefix::Unary => {
            lemma_unary(s, n);
        },
        Prefix::Variable => {
            lemma_named_variable(s, can_assign, n);
        },
        Prefix::Text => {
            lemma_constant(s, Value::Obj(s.previous.text));
        },
        Prefix::Number => {
            lemma_constant(s, Value::Number(s.previous.number));
        },
        Prefix::Literal => {
            reveal(keeps);
        },
    }
}

/// What the operator read last makes of a state.
#[verifier::opaque]
spec fn operator(s: PState, can_assign: bool) -> PState {
    match rule_of(s.previous.token_type).infix {
        Some(rule) => infix(s, rule, can_assign),
        None => s,
    }
}

proof fn lemma_operator_is(s: PState, can_assign: bool)
    ensures
        operator(s, can_assign) == (match rule_of(s.previous.token_type).infix {
            Some(Infix::Call) => called(s),
            Some(Infix::Index) => indexed(s, can_assign),
            Some(Infix::Binary) => computed(s),
            Some(Infix::And) => conjoined(s),
            Some(Infix::Or) => disjoined(s),
            None => s,
        }),
{
    reveal(operator);
    reveal(called);
    reveal(indexed);
    reveal(computed);
    reveal(conjoined);
    reveal(disjoined);
}

proof fn lemma_operator(s: PState, can_assign: bool, n: nat)
    requires
        smooth(n),
        s.rem() < n,
    ensures
        keeps(s, operator(s, can_assign), operator(unbounded(s), can_assign)),
{
    lemma_operator_is(s, can_assign);
    lemma_operator_is(unbounded(s), can_assign);
    match rule_of(s.previous.token_type).infix {
        Some(Infix::Call) => {
            lemma_call(s, n);
        },
        Some(Infix::Index) => {
            lemma_index(s, can_assign, n);
        },
        Some(Infix::Binary) => {
            lemma_binary(s, n);
        },
        Some(_) => {
            lemma_logical(s, n);
        },
        None => {
            lemma_same(s);
        },
    }
}

/// The next operator with what it takes.
#[verifier::opaque]
spec fn one_operator(s: PState, can_assign: bool) -> PState {
    let s1 = s.advance();
    if s1.rem() < s.rem() {
        operator(s1, can_assign)
    } else {
        s1
    }
}

proof fn lemma_one_operator(s: PState, can_assign: bool, n: nat)
    requires
        smooth(n),
        s.rem() <= n,
    ensures
        keeps(s, one_operator(s, can_assign), one_operator(unbounded(s), can_assign)),
{
    reveal(one_operator);
    lemma_advance(s);
    let s1 = s.advance();
    let u1 = unbounded(s).advance();
    lemma_same(s1);
    let x = if s1.rem() < s.rem() {
        lemma_operator(s1, can_assign, n);
        operator(unbounded(s1), can_assign)
    } else {
        unbounded(s1)
    };
    lemma_chain(
        s,
        s1,
        u1,
        one_operator(s, can_assign),
        one_operator(unbounded(s), can_assign),
        x,
    );
}

#[verifier::opaque]
spec fn operated(s: PState, precedence: Precedence, can_assign: bool) -> PState {
    operators(s, precedence, can_assign)
}

/// What follows an operator.
#[verifier::opaque]
spec fn more_operators(s: PState, t: PState, precedence: Precedence, can_assign: bool) -> PState {
    if t.rem() < s.rem() {
        operated(t, precedence, can_assign)
    } else {
        t
    }
}

proof fn lemma_operated_is(s: PState, precedence: Precedence, can_assign: bool)
    ensures
        operated(s, precedence, can_assign) == (if tightness(precedence) <= tightness(
            rule_of(s.current.token_type).precedence,
        ) {
            more_operators(s, one_operator(s, can_assign), precedence, can_assign)
        } else {
            s
        }),
{
    reveal(operated);
    reveal(operator);
    reveal(one_operator);
    reveal(more_operators);
}

proof fn lemma_operated(s: PState, precedence: Precedence, can_assign: bool, n: nat)
    requires
        smooth(n),
        s.rem() <= n,
    ensures
        keeps(
            s,
            operated(s, precedence, can_assign),
            operated(unbounded(s), precedence, can_assign),
        ),
    decreases s.rem(),
{
    lemma_operated_is(s, precedence, can_assign);
    lemma_operated_is(unbounded(s), precedence, can_assign);
    lemma_same(s);
    if tightness(precedence) <= tightness(rule_of(s.current.token_type).precedence) {
        lemma_one_operator(s, can_assign, n);
        let t = one_operator(s, can_assign);
        let u = one_operator(unbounded(s), can_assign);
        reveal(more_operators);
        lemma_same(t);
        if t.rem() < s.rem() {
            lemma_operated(t, precedence, can_assign, n);
        }
        lemma_chain(
            s,
            t,
            u,
            more_operators(s, t, precedence, can_assign),
            more_operators(unbounded(s), u, precedence, can_assign),
            more_operators(unbounded(s), unbounded(t), precedence, can_assign),
        );
    }
}

/// An operand, unless there is none.
#[verifier::opaque]
spec fn operand(s: PState, rule: Prefix, can_assign: bool) -> PState {
    let s1 = s.advance();
    if s1.rem() < s.rem() {
        prefixed(s1, rule, can_assign)
    } else {
        s1
    }
}

proof fn lemma_operand(s: PState, rule: Prefix, can_assign: bool, n: nat)
    requires
        smooth(n),
        s.rem() <= n,
    ensures
        keeps(s, operand(s, rule, can_assign), operand(unbounded(s), rule, can_assign)),
{
    reveal(operand);
    lemma_advance(s);
    let s1 = s.advance();
    lemma_same(s1);
    let x = if s1.rem() < s.rem() {
        lemma_prefixed(s1, rule, can_assign, n);
        prefixed(unbounded(s1), rule, can_assign)
    } else {
        unbounded(s1)
    };
    lemma_chain(
        s,
        s1,
        unbounded(s).advance(),
        operand(s, rule, can_assign),
        operand(unbounded(s), rule, can_assign),
        x,
    );
}

/// What follows an operand.
#[verifier::opaque]
spec fn tail(s: PState, t: PState, precedence: Precedence, can_assign: bool) -> PState {
    if t.rem() < s.rem() {
        let t1 = operated(t, precedence, can_assign);
        if can_assign && t1.at(TokenType::Equal) {
            t1.advance().error("Invalid assignment target.")
        } else {
            t1
        }
    } else {
        t
    }
}

proof fn lemma_tail(s: PState, t: PState, precedence: Precedence, can_assign: bool, n: nat)
    requires
        smooth(n),
        s.rem() <= n,
    ensures
        keeps(
            t,
            tail(s, t, precedence, can_assign),
            tail(unbounded(s), unbounded(t), precedence, can_assign),
        ),
{
    reveal(tail);
    if t.rem() < s.rem() {
        lemma_operated(t, precedence, can_assign, n);
        let t1 = operated(t, precedence, can_assign);
        lemma_advance(t1);
        lemma_error(t1.advance(), "Invalid assignment target.");
    }
    reveal(keeps);
}

proof fn lemma_parsed_is(s: PState, precedence: Precedence)
    ensures
        parsed(s, precedence) == ({
            let can_assign = tightness(precedence) <= tightness(Precedence::Assignment);
            match rule_of(s.advance().previous.token_type).prefix {
                None => s.advance().error("Expect expression."),
                Some(rule) => tail(s, operand(s, rule, can_assign), precedence, can_assign),
            }
        }),
{
    reveal(parsed);
    reveal(tail);
    reveal(operand);
    reveal(operated);
    reveal(prefixed);
}

/// The token that is read last is that which was current.
proof fn lemma_advance_takes(s: PState)
    ensures
        s.advance().previous == s.current,
{
    reveal(PState::advance);
    lemma_read(PState { previous: s.current, ..s });
}

proof fn lemma_parsed_next(s: PState, precedence: Precedence, n: nat)
    requires
        smooth(n),
        s.rem() <= n,
    ensures
        keeps(s, parsed(s, precedence), parsed(unbounded(s), precedence)),
{
    lemma_parsed_is(s, precedence);
    lemma_parsed_is(unbounded(s), precedence);
    lemma_advance_takes(s);
    lemma_advance_takes(unbounded(s));
    let can_assign = tightness(precedence) <= tightness(Precedence::Assignment);
    match rule_of(s.current.token_type).prefix {
        None => {
            lemma_advance(s);
            let s1 = s.advance();
            lemma_error(s1, "Expect expression.");
            lemma_chain(
                s,
                s1,
                unbounded(s).advance(),
                parsed(s, precedence),
                parsed(unbounded(s), precedence),
                unbounded(s1).error("Expect expression."),
            );
        },
        Some(rule) => {
            lemma_operand(s, rule, can_assign, n);
            let t = operand(s, rule, can_assign);
            lemma_tail(s, t, precedence, can_assign, n);
            lemma_chain(
                s,
                t,
                operand(unbounded(s), rule, can_assign),
                parsed(s, precedence),
                parsed(unbounded(s), precedence),
                tail(unbounded(s), unbounded(t), precedence, can_assign),
            );
        },
    }
}

proof fn lemma_smooth(n: nat)
    ensures
        smooth(n),
    decreases n,
{
    reveal(smooth);
    if n > 0 {
        let m = (n - 1) as nat;
        lemma_smooth(m);
        assert forall|s: PState, precedence: Precedence| s.rem() < n implies #[trigger] keeps(
            s,
            parsed(s, precedence),
            parsed(unbounded(s), precedence),
        ) by {
            lemma_parsed_next(s, precedence, m);
        }
    }
}

pub proof fn lemma_expression(s: PState)
    ensures
        keeps(s, whole_expression(s), whole_expression(unbounded(s))),
{
    lemma_smooth(s.rem() + 1);
    lemma_parsed(s, Precedence::Assignment, s.rem() + 1);
    lemma_whole_is(s);
    lemma_whole_is(unbounded(s));
}

proof fn lemma_whole_is(s: PState)
    ensures
        whole_expression(s) == parsed(s, Precedence::Assignment),
{
    reveal(whole_expression);
    reveal(parsed);
}

} // verus!
