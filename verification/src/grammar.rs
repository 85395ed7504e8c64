//! The grammar of expressions, and the code that it stands for: the operands of
//! an operator come before it.
use vstd::prelude::*;
use crate::chunk::{byte_of, law_constant_is_found_at_its_index, with_constant, OpCode};
use crate::expressions::{
    access, and, binary, expression, grouping, index, named_variable, or, parse_precedence, unary,
    with_access, with_ops,
};
use crate::parser::{local_place, well_ended, FState, Lexed, Local, PState};
use crate::precedence_laws::level_of;
use crate::rules::{rule_of, tighter, tightness, Precedence};
use crate::scanner::TokenType;
use crate::scopes::captured;
use crate::value::{equal_values, Value};

verus! {

/// An expression by its meaning: what is an operand of what.
pub ghost enum Tree {
    Number(u64),
    Text(usize),
    /// `nil`, `true` or `false`.
    Word(TokenType),
    Name(usize),
    Group(Box<Tree>),
    Unary(TokenType, Box<Tree>),
    Binary(TokenType, Box<Tree>, Box<Tree>),
    And(Box<Tree>, Box<Tree>),
    Or(Box<Tree>, Box<Tree>),
    Index(Box<Tree>, Box<Tree>),
}

/// How tightly an expression holds together: by the operator that joins it.
pub open spec fn level(tree: Tree) -> int {
    match tree {
        Tree::Number(_) | Tree::Text(_) | Tree::Word(_) | Tree::Name(_) | Tree::Group(_) => 9,
        Tree::Index(_, _) => 8,
        Tree::Unary(_, _) => 7,
        Tree::Binary(kind, _, _) => level_of(kind),
        Tree::And(_, _) => 2,
        Tree::Or(_, _) => 1,
    }
}

/// An expression that can be written as it is. The left operand of an operator
/// holds together at least as tightly as the operator does, and the right one
/// more tightly, so that operators of one level are worked off from the left;
/// `and` and `or` are worked off from the right.
pub open spec fn is_grammatical(tree: Tree) -> bool
    decreases tree,
{
    match tree {
        Tree::Number(_) | Tree::Text(_) | Tree::Name(_) => true,
        Tree::Word(kind) => kind is Nil || kind is True || kind is False,
        Tree::Group(inner) => is_grammatical(*inner),
        Tree::Unary(kind, operand) => (kind is Minus || kind is Bang) && level(*operand) >= 7
            && is_grammatical(*operand),
        Tree::Binary(kind, left, right) => 3 <= level_of(kind) <= 6 && level(*left) >= level_of(
            kind,
        ) && level(*right) > level_of(kind) && is_grammatical(*left) && is_grammatical(*right),
        Tree::And(left, right) => level(*left) > 2 && level(*right) >= 2 && is_grammatical(*left)
            && is_grammatical(*right),
        Tree::Or(left, right) => level(*left) > 1 && level(*right) >= 1 && is_grammatical(*left)
            && is_grammatical(*right),
        Tree::Index(list, place) => level(*list) >= 8 && is_grammatical(*list) && is_grammatical(
            *place,
        ),
    }
}

/// The tokens from `i` on and before `j` spell an expression.
pub open spec fn spells(tree: Tree, tokens: Seq<Lexed>, i: int, j: int) -> bool
    decreases tree,
{
    &&& i < j
    &&& match tree {
        Tree::Number(bits) => j == i + 1 && tokens[i].token_type is Number && tokens[i].number
            == bits,
        Tree::Text(text) => j == i + 1 && tokens[i].token_type is String && tokens[i].text == text,
        Tree::Word(kind) => j == i + 1 && tokens[i].token_type == kind,
        Tree::Name(name) => j == i + 1 && tokens[i].token_type is Identifier && tokens[i].text
            == name,
        Tree::Group(inner) => tokens[i].token_type is LeftParen && spells(
            *inner,
            tokens,
            i + 1,
            j - 1,
        ) && tokens[j - 1].token_type is RightParen,
        Tree::Unary(kind, operand) => tokens[i].token_type == kind && spells(
            *operand,
            tokens,
            i + 1,
            j,
        ),
        Tree::Binary(kind, left, right) => exists|m: int|
            spells(*left, tokens, i, m) && (#[trigger] tokens[m]).token_type == kind && spells(
                *right,
                tokens,
                m + 1,
                j,
            ),
        Tree::And(left, right) => exists|m: int|
            spells(*left, tokens, i, m) && (#[trigger] tokens[m]).token_type is And && spells(
                *right,
                tokens,
                m + 1,
                j,
            ),
        Tree::Or(left, right) => exists|m: int|
            spells(*left, tokens, i, m) && (#[trigger] tokens[m]).token_type is Or && spells(
                *right,
                tokens,
                m + 1,
                j,
            ),
        Tree::Index(list, place) => exists|m: int|
            spells(*list, tokens, i, m) && (#[trigger] tokens[m]).token_type is LeftBracket
                && spells(*place, tokens, m + 1, j - 1) && tokens[j - 1].token_type is RightBracket,
    }
}

/// The code that puts a constant on the stack.
pub open spec fn loads(code: Seq<u8>, constants: Seq<Value>, value: Value) -> bool {
    exists|place: int|
        0 <= place < constants.len() && (#[trigger] constants[place] == value || equal_values(
            constants[place],
            value,
        )) && if place < 256 {
            code == seq![byte_of(OpCode::Constant), place as u8]
        } else {
            code == seq![
                byte_of(OpCode::ConstantLong),
                (place % 256) as u8,
                (place / 256 % 256) as u8,
                (place / 65536 % 256) as u8,
            ]
        }
}

/// The instructions that work off an operator between two operands that are
/// on the stack.
pub open spec fn operation(kind: TokenType) -> Seq<u8> {
    match kind {
        TokenType::Plus => seq![byte_of(OpCode::Add)],
        TokenType::Minus => seq![byte_of(OpCode::Subtract)],
        TokenType::Star => seq![byte_of(OpCode::Multiply)],
        TokenType::Slash => seq![byte_of(OpCode::Divide)],
        TokenType::Backslash => seq![byte_of(OpCode::IntDivide)],
        TokenType::EqualEqual => seq![byte_of(OpCode::Equal)],
        TokenType::BangEqual => seq![byte_of(OpCode::Equal), byte_of(OpCode::Not)],
        TokenType::Less => seq![byte_of(OpCode::Less)],
        TokenType::GreaterEqual => seq![byte_of(OpCode::Less), byte_of(OpCode::Not)],
        TokenType::Greater => seq![byte_of(OpCode::Greater)],
        TokenType::LessEqual => seq![byte_of(OpCode::Greater), byte_of(OpCode::Not)],
        _ => Seq::empty(),
    }
}

/// The variables that a name can stand for.
pub ghost struct Scope {
    pub locals: Seq<Local>,
    /// Whether the code is that of the script.
    pub outermost: bool,
}

/// The local variable `place` is the one that a name stands for: the last of
/// that name. The first slot is the function's own.
pub open spec fn is_local(locals: Seq<Local>, name: usize, place: int) -> bool {
    &&& 0 < place < locals.len()
    &&& locals[place].name == name
    &&& forall|i: int| place < i < locals.len() ==> (#[trigger] locals[i]).name != name
}

/// No local variable has a name.
pub open spec fn is_global(locals: Seq<Local>, name: usize) -> bool {
    forall|i: int| 0 < i < locals.len() ==> (#[trigger] locals[i]).name != name
}

/// The code that puts the value of a name on the stack.
pub open spec fn reads_name(code: Seq<u8>, scope: Scope, constants: Seq<Value>, name: usize) -> bool {
    ||| exists|place: int| #[trigger]
        is_local(scope.locals, name, place) && place < 256 && code == seq![
            byte_of(OpCode::GetLocal),
            place as u8,
        ]
    ||| is_global(scope.locals, name) && exists|place: int|
        0 <= place < constants.len() && place < 256 && #[trigger] constants[place] == Value::Obj(
            name,
        ) && code == seq![byte_of(OpCode::GetGlobal), place as u8]
}

/// Two bytes for a distance in the code, the low one first.
pub open spec fn distance(n: nat) -> Seq<u8> {
    seq![(n % 256) as u8, (n / 256) as u8]
}

/// The code between the operands of an operator, where the code of the right
/// one is `n` bytes long. `and` leaves its right operand out where the left one
/// is false, and `or` where it is true.
pub open spec fn between(tree: Tree, n: nat) -> Seq<u8> {
    match tree {
        Tree::And(_, _) => seq![byte_of(OpCode::JumpIfFalse)] + distance(1 + n) + seq![
            byte_of(OpCode::Pop),
        ],
        Tree::Or(_, _) => seq![byte_of(OpCode::JumpIfFalse)] + distance(3) + seq![
            byte_of(OpCode::Jump),
        ] + distance(1 + n) + seq![byte_of(OpCode::Pop)],
        _ => Seq::empty(),
    }
}

/// The code behind the operands of an operator.
pub open spec fn behind(tree: Tree) -> Seq<u8> {
    match tree {
        Tree::Unary(kind, _) => seq![
            byte_of(
                if kind is Bang {
                    OpCode::Not
                } else {
                    OpCode::Negate
                },
            ),
        ],
        Tree::Binary(kind, _, _) => operation(kind),
        Tree::Index(_, _) => seq![byte_of(OpCode::GetIndex)],
        _ => Seq::empty(),
    }
}

/// Code is made of that of the operands, the left one first.
pub open spec fn composes(tree: Tree, code: Seq<u8>, a: Seq<u8>, b: Seq<u8>) -> bool {
    code == a + between(tree, b.len()) + b + behind(tree)
}

/// The code of an expression.
pub open spec fn codes(tree: Tree, code: Seq<u8>, scope: Scope, constants: Seq<Value>) -> bool
    decreases tree,
{
    match tree {
        Tree::Number(bits) => loads(code, constants, Value::Number(bits)),
        Tree::Text(text) => loads(code, constants, Value::Obj(text)),
        Tree::Word(kind) => code == seq![
            byte_of(
                if kind is Nil {
                    OpCode::Nil
                } else if kind is True {
                    OpCode::True
                } else {
                    OpCode::False
                },
            ),
        ],
        Tree::Name(name) => reads_name(code, scope, constants, name),
        Tree::Group(inner) => codes(*inner, code, scope, constants),
        Tree::Unary(_, operand) => exists|a: Seq<u8>| #[trigger]
            composes(tree, code, a, Seq::empty()) && codes(*operand, a, scope, constants),
        Tree::Binary(_, left, right) => exists|a: Seq<u8>, b: Seq<u8>| #[trigger]
            composes(tree, code, a, b) && codes(*left, a, scope, constants) && codes(
                *right,
                b,
                scope,
                constants,
            ),
        Tree::And(left, right) => exists|a: Seq<u8>, b: Seq<u8>| #[trigger]
            composes(tree, code, a, b) && codes(*left, a, scope, constants) && codes(
                *right,
                b,
                scope,
                constants,
            ),
        Tree::Or(left, right) => exists|a: Seq<u8>, b: Seq<u8>| #[trigger]
            composes(tree, code, a, b) && codes(*left, a, scope, constants) && codes(
                *right,
                b,
                scope,
                constants,
            ),
        Tree::Index(list, place) => exists|a: Seq<u8>, b: Seq<u8>| #[trigger]
            composes(tree, code, a, b) && codes(*list, a, scope, constants) && codes(
                *place,
                b,
                scope,
                constants,
            ),
    }
}

/// No more code than this is made of an expression.
pub open spec fn size(tree: Tree) -> nat
    decreases tree,
{
    match tree {
        Tree::Number(_) | Tree::Text(_) | Tree::Word(_) | Tree::Name(_) => 4,
        Tree::Group(inner) => size(*inner),
        Tree::Unary(_, operand) => size(*operand) + 1,
        Tree::Binary(_, left, right) => size(*left) + size(*right) + 2,
        Tree::And(left, right) => size(*left) + size(*right) + 4,
        Tree::Or(left, right) => size(*left) + size(*right) + 7,
        Tree::Index(list, place) => size(*list) + size(*place) + 1,
    }
}

/// The names of an expression stand for variables that can be read: locals
/// that have been initialized, or, in the script, globals.
pub open spec fn resolves(tree: Tree, scope: Scope) -> bool
    decreases tree,
{
    match tree {
        Tree::Name(name) => {
            &&& forall|place: int| #[trigger]
                is_local(scope.locals, name, place) ==> scope.locals[place].depth != -1
            &&& is_global(scope.locals, name) ==> scope.outermost
        },
        Tree::Number(_) | Tree::Text(_) | Tree::Word(_) => true,
        Tree::Group(inner) => resolves(*inner, scope),
        Tree::Unary(_, operand) => resolves(*operand, scope),
        Tree::Binary(_, left, right) => resolves(*left, scope) && resolves(*right, scope),
        Tree::And(left, right) => resolves(*left, scope) && resolves(*right, scope),
        Tree::Or(left, right) => resolves(*left, scope) && resolves(*right, scope),
        Tree::Index(list, place) => resolves(*list, scope) && resolves(*place, scope),
    }
}

/// How many constants an expression can add.
pub open spec fn constants_in(tree: Tree) -> nat
    decreases tree,
{
    match tree {
        Tree::Word(_) => 0,
        Tree::Number(_) | Tree::Text(_) | Tree::Name(_) => 1,
        Tree::Group(inner) => constants_in(*inner),
        Tree::Unary(_, operand) => constants_in(*operand),
        Tree::Binary(_, left, right) => constants_in(*left) + constants_in(*right),
        Tree::And(left, right) => constants_in(*left) + constants_in(*right),
        Tree::Or(left, right) => constants_in(*left) + constants_in(*right),
        Tree::Index(list, place) => constants_in(*list) + constants_in(*place),
    }
}

/// Whether names of globals occur in an expression.
pub open spec fn names_globals(tree: Tree, scope: Scope) -> bool
    decreases tree,
{
    match tree {
        Tree::Name(name) => is_global(scope.locals, name),
        Tree::Number(_) | Tree::Text(_) | Tree::Word(_) => false,
        Tree::Group(inner) => names_globals(*inner, scope),
        Tree::Unary(_, operand) => names_globals(*operand, scope),
        Tree::Binary(_, left, right) => names_globals(*left, scope) || names_globals(*right, scope),
        Tree::And(left, right) => names_globals(*left, scope) || names_globals(*right, scope),
        Tree::Or(left, right) => names_globals(*left, scope) || names_globals(*right, scope),
        Tree::Index(list, place) => names_globals(*list, scope) || names_globals(*place, scope),
    }
}

/// The compiler has come to the token `i`.
pub open spec fn comes_to(s: PState, i: int) -> bool {
    &&& well_ended(s.tokens)
    &&& 0 <= i < s.tokens.len()
    &&& s.current == s.tokens[i]
    &&& s.next == if i == s.tokens.len() - 1 {
        i
    } else {
        i + 1
    }
}

pub open spec fn scope_of(s: PState) -> Scope {
    Scope { locals: s.function.locals, outermost: s.enclosing.len() == 0 }
}

/// The compiler can take in an expression here: nothing stands in its way but
/// what is written.
pub open spec fn is_ready(s: PState, tree: Tree, i: int, j: int) -> bool {
    &&& comes_to(s, i)
    &&& j < s.tokens.len()
    &&& forall|k: int| i <= k <= j ==> !((#[trigger] s.tokens[k]).token_type is Error)
    &&& s.depth_limit is None
    &&& s.function.locals.len() <= 256
    &&& is_grammatical(tree)
    &&& spells(tree, s.tokens, i, j)
    &&& resolves(tree, scope_of(s))
    &&& size(tree) <= u16::MAX
    &&& names_globals(tree, scope_of(s)) ==> s.function.constants.len() + constants_in(tree)
        <= 256
}

/// The compiler has read up to the token `j` and added code. Nothing was
/// reported, and no variable has come or gone.
pub open spec fn has_read(s: PState, t: PState, j: int, code: Seq<u8>) -> bool {
    &&& comes_to(t, j)
    &&& t == (PState {
        next: t.next,
        current: t.current,
        previous: t.previous,
        depth: t.depth,
        sightings: t.sightings,
        function: t.function,
        ..s
    })
    &&& t.function.code == s.function.code + code
    &&& s.function.constants.is_prefix_of(t.function.constants)
    &&& t.function == (FState {
        code: t.function.code,
        spans: t.function.spans,
        constants: t.function.constants,
        points: t.function.points,
        pending: t.function.pending,
        ..s.function
    })
}

/// The compiler has read an expression up to the token `j`, and added its code.
pub open spec fn makes(s: PState, t: PState, tree: Tree, j: int) -> bool {
    exists|code: Seq<u8>| #[trigger]
        has_read(s, t, j, code) && codes(tree, code, scope_of(s), t.function.constants)
            && code.len() <= size(tree) && t.function.constants.len()
            <= s.function.constants.len() + constants_in(tree)
}

pub proof fn lemma_levels(kind: TokenType)
    ensures
        level_of(kind) > 0 ==> tightness(rule_of(kind).precedence) == level_of(kind) + 1,
        level_of(kind) == 0 ==> tightness(rule_of(kind).precedence) == 0,
{
    reveal(rule_of);
}

pub proof fn lemma_step(s: PState, i: int)
    requires
        comes_to(s, i),
        i + 1 < s.tokens.len(),
        !(s.tokens[i + 1].token_type is Error),
    ensures
        has_read(s, s.advance(), i + 1, Seq::empty()),
        s.advance().previous == s.tokens[i],
        s.advance().function == s.function,
        s.advance().rem() < s.rem(),
        s.rem() == s.tokens.len() - i,
{
    reveal(PState::advance);
    assert(s.tokens[i].token_type != TokenType::Eof);
    assert(s.tokens[i + 1].token_type == TokenType::Eof <==> i + 1 == s.tokens.len() - 1);
    assert(s.advance().function.code =~= s.function.code + Seq::empty());
}

/// How much is left to read, by the place.
pub proof fn lemma_rem(s: PState, i: int)
    requires
        comes_to(s, i),
    ensures
        s.rem() == s.tokens.len() - i,
{
}

pub proof fn lemma_join(s: PState, t: PState, u: PState, j: int, k: int, a: Seq<u8>, b: Seq<u8>)
    requires
        has_read(s, t, j, a),
        has_read(t, u, k, b),
    ensures
        has_read(s, u, k, a + b),
{
    assert(u.function.code =~= s.function.code + (a + b));
    assert(u.function == FState {
        code: u.function.code,
        spans: u.function.spans,
        constants: u.function.constants,
        points: u.function.points,
        pending: u.function.pending,
        ..s.function
    });
    assert(u == PState {
        next: u.next,
        current: u.current,
        previous: u.previous,
        depth: u.depth,
        sightings: u.sightings,
        function: u.function,
        ..s
    });
}

pub proof fn lemma_quiet(s: PState, t: PState, i: int)
    requires
        comes_to(s, i),
        t == (PState { depth: t.depth, sightings: t.sightings, ..s }),
    ensures
        has_read(s, t, i, Seq::empty()),
{
    assert(t.function.code =~= s.function.code + Seq::empty());
}

pub proof fn lemma_enter(s: PState, i: int)
    requires
        comes_to(s, i),
        s.depth_limit is None,
    ensures
        has_read(s, s.enter(), i, Seq::empty()),
        s.enter().previous == s.previous,
        s.enter().function == s.function,
        has_read(s, s.leave(), i, Seq::empty()),
        s.leave().previous == s.previous,
{
    reveal(PState::enter);
    lemma_quiet(s, s.enter(), i);
    lemma_quiet(s, s.leave(), i);
}

pub proof fn lemma_op(s: PState, i: int, op: OpCode, span: crate::source::SourceSpan)
    requires
        comes_to(s, i),
    ensures
        has_read(s, s.op_at(op, span), i, seq![byte_of(op)]),
        s.op_at(op, span).function.constants == s.function.constants,
        s.op_at(op, span).previous == s.previous,
{
    reveal(FState::with_op);
    assert(s.op_at(op, span).function.code =~= s.function.code + seq![byte_of(op)]);
}

pub proof fn lemma_byte(s: PState, i: int, byte: u8, span: crate::source::SourceSpan)
    requires
        comes_to(s, i),
    ensures
        has_read(s, s.byte_at(byte, span), i, seq![byte]),
        s.byte_at(byte, span).function.constants == s.function.constants,
        s.byte_at(byte, span).previous == s.previous,
{
    reveal(FState::with_byte);
    assert(s.byte_at(byte, span).function.code =~= s.function.code + seq![byte]);
}

pub proof fn lemma_codes_on(
    tree: Tree,
    code: Seq<u8>,
    scope: Scope,
    few: Seq<Value>,
    more: Seq<Value>,
)
    requires
        codes(tree, code, scope, few),
        few.is_prefix_of(more),
    ensures
        codes(tree, code, scope, more),
    decreases tree,
{
    match tree {
        Tree::Number(bits) => {
            lemma_loads_on(code, few, more, Value::Number(bits));
        },
        Tree::Text(text) => {
            lemma_loads_on(code, few, more, Value::Obj(text));
        },
        Tree::Name(name) => {
            if is_global(scope.locals, name) && exists|place: int|
                0 <= place < few.len() && place < 256 && #[trigger] few[place] == Value::Obj(name)
                    && code == seq![byte_of(OpCode::GetGlobal), place as u8] {
                let place = choose|place: int|
                    0 <= place < few.len() && place < 256 && #[trigger] few[place] == Value::Obj(
                        name,
                    ) && code == seq![byte_of(OpCode::GetGlobal), place as u8];
                assert(more[place] == Value::Obj(name));
            }
        },
        Tree::Word(_) => {},
        Tree::Group(inner) => {
            lemma_codes_on(*inner, code, scope, few, more);
        },
        Tree::Unary(_, operand) => {
            let a = choose|a: Seq<u8>| #[trigger]
                composes(tree, code, a, Seq::empty()) && codes(*operand, a, scope, few);
            lemma_codes_on(*operand, a, scope, few, more);
            assert(composes(tree, code, a, Seq::empty()));
        },
        Tree::Binary(_, left, right) => {
            let (a, b) = choose|a: Seq<u8>, b: Seq<u8>| #[trigger]
                composes(tree, code, a, b) && codes(*left, a, scope, few) && codes(
                    *right,
                    b,
                    scope,
                    few,
                );
            lemma_codes_on(*left, a, scope, few, more);
            lemma_codes_on(*right, b, scope, few, more);
            assert(composes(tree, code, a, b));
        },
        Tree::And(left, right) => {
            let (a, b) = choose|a: Seq<u8>, b: Seq<u8>| #[trigger]
                composes(tree, code, a, b) && codes(*left, a, scope, few) && codes(
                    *right,
                    b,
                    scope,
                    few,
                );
            lemma_codes_on(*left, a, scope, few, more);
            lemma_codes_on(*right, b, scope, few, more);
            assert(composes(tree, code, a, b));
        },
        Tree::Or(left, right) => {
            let (a, b) = choose|a: Seq<u8>, b: Seq<u8>| #[trigger]
                composes(tree, code, a, b) && codes(*left, a, scope, few) && codes(
                    *right,
                    b,
                    scope,
                    few,
                );
            lemma_codes_on(*left, a, scope, few, more);
            lemma_codes_on(*right, b, scope, few, more);
            assert(composes(tree, code, a, b));
        },
        Tree::Index(list, place) => {
            let (a, b) = choose|a: Seq<u8>, b: Seq<u8>| #[trigger]
                composes(tree, code, a, b) && codes(*list, a, scope, few) && codes(
                    *place,
                    b,
                    scope,
                    few,
                );
            lemma_codes_on(*list, a, scope, few, more);
            lemma_codes_on(*place, b, scope, few, more);
            assert(composes(tree, code, a, b));
        },
    }
}

pub proof fn lemma_loads_on(code: Seq<u8>, few: Seq<Value>, more: Seq<Value>, value: Value)
    requires
        loads(code, few, value),
        few.is_prefix_of(more),
    ensures
        loads(code, more, value),
{
    let place = choose|place: int|
        0 <= place < few.len() && (#[trigger] few[place] == value || equal_values(
            few[place],
            value,
        )) && if place < 256 {
            code == seq![byte_of(OpCode::Constant), place as u8]
        } else {
            code == seq![
                byte_of(OpCode::ConstantLong),
                (place % 256) as u8,
                (place / 256 % 256) as u8,
                (place / 65536 % 256) as u8,
            ]
        };
    assert(more[place] == few[place]);
}

pub proof fn lemma_constant(s: PState, i: int, value: Value, tree: Tree)
    requires
        comes_to(s, i),
        tree == Tree::Number(value->Number_0) && value is Number || tree == Tree::Text(
            value->Obj_0,
        ) && value is Obj,
    ensures
        makes(s, s.emit_constant(value), tree, i),
{
    reveal(PState::emit_constant);
    let t = s.emit_constant(value);
    let place = s.constant_place(value);
    let constants = with_constant(s.function.constants, value);
    law_constant_is_found_at_its_index(s.function.constants, value);
    let m = s.make_constant(value);
    assert(m.function.code =~= s.function.code + Seq::empty());
    assert(has_read(s, m, i, Seq::empty()));
    let span = m.span_of(m.previous);
    if place <= 255 {
        let code = seq![byte_of(OpCode::Constant), place as u8];
        let a = m.op_at(OpCode::Constant, span);
        lemma_op(m, i, OpCode::Constant, span);
        lemma_byte(a, i, place as u8, span);
        lemma_join(s, m, a, i, i, Seq::empty(), seq![byte_of(OpCode::Constant)]);
        lemma_join(
            s,
            a,
            t,
            i,
            i,
            Seq::empty() + seq![byte_of(OpCode::Constant)],
            seq![place as u8],
        );
        assert(Seq::empty() + seq![byte_of(OpCode::Constant)] + seq![place as u8] =~= code);
        assert(constants[place] == value || equal_values(constants[place], value));
        assert(has_read(s, t, i, code));
    } else {
        let (x, y, z) = (
            (place % 256) as u8,
            (place / 256 % 256) as u8,
            (place / 65536 % 256) as u8,
        );
        let op = byte_of(OpCode::ConstantLong);
        let code = seq![op, x, y, z];
        let a = m.op_at(OpCode::ConstantLong, span);
        let b = a.byte_at(x, span);
        let c = b.byte_at(y, span);
        lemma_op(m, i, OpCode::ConstantLong, span);
        lemma_byte(a, i, x, span);
        lemma_byte(b, i, y, span);
        lemma_byte(c, i, z, span);
        lemma_join(s, m, a, i, i, Seq::empty(), seq![op]);
        lemma_join(s, a, b, i, i, Seq::empty() + seq![op], seq![x]);
        lemma_join(s, b, c, i, i, Seq::empty() + seq![op] + seq![x], seq![y]);
        lemma_join(s, c, t, i, i, Seq::empty() + seq![op] + seq![x] + seq![y], seq![z]);
        assert(Seq::empty() + seq![op] + seq![x] + seq![y] + seq![z] =~= code);
        assert(constants[place] == value || equal_values(constants[place], value));
        assert(has_read(s, t, i, code));
    }
}

pub proof fn lemma_local_place(locals: Seq<Local>, name: usize)
    ensures
        local_place(locals, name) > 0 ==> is_local(locals, name, local_place(locals, name)),
        local_place(locals, name) <= 0 ==> is_global(locals, name),
    decreases locals.len(),
{
    if locals.len() > 1 && locals.last().name != name {
        lemma_local_place(locals.drop_last(), name);
        let place = local_place(locals, name);
        assert forall|i: int| place < i < locals.len() && i > 0 implies (#[trigger] locals[i]).name
            != name by {
            if i < locals.len() - 1 {
                assert(locals.drop_last()[i] == locals[i]);
            }
        }
    }
}

pub proof fn lemma_name(s: PState, i: int, name: Lexed, ca: bool)
    requires
        comes_to(s, i),
        s.depth_limit is None,
        s.function.locals.len() <= 256,
        !s.at(TokenType::Equal),
        resolves(Tree::Name(name.text), scope_of(s)),
        is_global(s.function.locals, name.text) ==> s.function.constants.len() + 1 <= 256,
    ensures
        makes(s, named_variable(s, name, ca), Tree::Name(name.text), i),
{
    reveal(access);
    reveal(with_access);
    reveal(PState::uses);
    reveal(PState::identifier_constant);
    lemma_local_place(s.function.locals, name.text);
    let tree = Tree::Name(name.text);
    let t = named_variable(s, name, ca);
    let found = access(s, name);
    let place = local_place(s.function.locals, name.text);
    let span = s.span_of(name);
    if place > 0 {
        assert(is_local(s.function.locals, name.text, place));
        assert(found.state == s);
        let u = s.uses(name, OpCode::GetLocal, place, ca && s.at(TokenType::Equal));
        lemma_quiet(s, u, i);
        assert(t == u.op_byte_at(OpCode::GetLocal, (place % 256) as u8, span));
        let a = u.op_at(OpCode::GetLocal, span);
        let op = byte_of(OpCode::GetLocal);
        lemma_op(u, i, OpCode::GetLocal, span);
        lemma_byte(a, i, place as u8, span);
        lemma_join(s, u, a, i, i, Seq::empty(), seq![op]);
        lemma_join(s, a, t, i, i, Seq::empty() + seq![op], seq![place as u8]);
        let code = seq![op, place as u8];
        assert(Seq::empty() + seq![op] + seq![place as u8] =~= code);
        assert(has_read(s, t, i, code));
    } else {
        let value = Value::Obj(name.text);
        law_constant_is_found_at_its_index(s.function.constants, value);
        assert(captured(s.enclosing, s.function, name.text) == (
            s.enclosing,
            s.function,
            Ok::<Option<usize>, ()>(None),
        ));
        assert(s.resolve_upvalue(name) == s);
        let m = s.make_constant(value);
        assert(m.function.code =~= s.function.code + Seq::empty());
        assert(has_read(s, m, i, Seq::empty()));
        assert(found.state == m);
        let at = s.constant_place(value);
        let u = m.uses(name, OpCode::GetGlobal, at, ca && s.at(TokenType::Equal));
        lemma_quiet(m, u, i);
        lemma_join(s, m, u, i, i, Seq::empty(), Seq::empty());
        let op = byte_of(OpCode::GetGlobal);
        let a = u.op_at(OpCode::GetGlobal, span);
        assert(t == u.op_byte_at(OpCode::GetGlobal, at as u8, span));
        lemma_op(u, i, OpCode::GetGlobal, span);
        lemma_byte(a, i, at as u8, span);
        lemma_join(s, u, a, i, i, Seq::empty() + Seq::empty(), seq![op]);
        lemma_join(
            s,
            a,
            t,
            i,
            i,
            Seq::empty() + Seq::empty() + seq![op],
            seq![at as u8],
        );
        let code = seq![op, at as u8];
        assert(Seq::empty() + Seq::empty() + seq![op] + seq![at as u8] =~= code);
        assert(t.function.constants[at] == value);
        assert(has_read(s, t, i, code));
    }
}

/// An expression among tokens that add no code.
pub proof fn lemma_wrap(s: PState, e: PState, x: PState, y: PState, inner: Tree, k: int, m: int, j: int)
    requires
        has_read(s, e, k, Seq::empty()),
        e.function.constants == s.function.constants,
        makes(e, x, inner, m),
        has_read(x, y, j, Seq::empty()),
        y.function.constants == x.function.constants,
    ensures
        makes(s, y, inner, j),
{
    let code = choose|code: Seq<u8>| #[trigger]
        has_read(e, x, m, code) && codes(inner, code, scope_of(e), x.function.constants)
            && code.len() <= size(inner) && x.function.constants.len()
            <= e.function.constants.len() + constants_in(inner);
    lemma_join(s, e, x, k, m, Seq::empty(), code);
    lemma_join(s, x, y, m, j, Seq::empty() + code, Seq::empty());
    assert(Seq::empty() + code + Seq::empty() =~= code);
    assert(has_read(s, y, j, code));
}

pub proof fn lemma_consume(s: PState, i: int, kind: TokenType, message: &'static str)
    requires
        comes_to(s, i),
        i + 1 < s.tokens.len(),
        !(s.tokens[i + 1].token_type is Error),
        s.tokens[i].token_type == kind,
        s.depth_limit is None,
    ensures
        has_read(s, s.consume(kind, message).leave(), i + 1, Seq::empty()),
        s.consume(kind, message).leave().function == s.function,
        s.consume(kind, message).leave() == s.advance().leave(),
{
    reveal(PState::consume);
    lemma_step(s, i);
    lemma_enter(s.advance(), i + 1);
    lemma_join(s, s.advance(), s.advance().leave(), i + 1, i + 1, Seq::empty(), Seq::empty());
    assert(Seq::<u8>::empty() + Seq::empty() =~= Seq::empty());
}

/// A group, once what is in it has been read.
pub proof fn lemma_group(s: PState, tree: Tree, inner: Tree, i: int, j: int)
    requires
        is_ready(s, tree, i, j),
        tree == Tree::Group(Box::new(inner)),
        makes(
            s.advance().enter(),
            parse_precedence(s.advance().enter(), Precedence::Assignment),
            inner,
            j - 1,
        ),
    ensures
        makes(s, grouping(s.advance()), tree, j),
{
    lemma_step(s, i);
    let s1 = s.advance();
    let e = s1.enter();
    let x = parse_precedence(e, Precedence::Assignment);
    lemma_enter(s1, i + 1);
    lemma_join(s, s1, e, i + 1, i + 1, Seq::empty(), Seq::empty());
    assert(Seq::<u8>::empty() + Seq::empty() =~= Seq::empty());
    reveal(PState::enter);
    lemma_rem(e, i + 1);
    lemma_rem(s1, i + 1);
    let y = grouping(s1);
    assert(s.tokens[j - 1].token_type == TokenType::RightParen);
    lemma_consume(x, j - 1, TokenType::RightParen, "Expect ')' after expression.");
    lemma_wrap(s, e, x, y, inner, i + 1, j - 1, j);
    let code = choose|code: Seq<u8>| #[trigger]
        has_read(s, y, j, code) && codes(inner, code, scope_of(s), y.function.constants)
            && code.len() <= size(inner) && y.function.constants.len()
            <= s.function.constants.len() + constants_in(inner);
    assert(codes(tree, code, scope_of(s), y.function.constants));
}

/// An operator in front of its operand, once that has been read.
pub proof fn lemma_unary(s: PState, tree: Tree, kind: TokenType, operand: Tree, i: int, j: int)
    requires
        is_ready(s, tree, i, j),
        tree == Tree::Unary(kind, Box::new(operand)),
        makes(
            s.advance().enter(),
            parse_precedence(s.advance().enter(), Precedence::Unary),
            operand,
            j,
        ),
    ensures
        makes(s, unary(s.advance()), tree, j),
{
    lemma_step(s, i);
    let s1 = s.advance();
    let e = s1.enter();
    let x = parse_precedence(e, Precedence::Unary);
    lemma_enter(s1, i + 1);
    lemma_join(s, s1, e, i + 1, i + 1, Seq::empty(), Seq::empty());
    assert(Seq::<u8>::empty() + Seq::empty() =~= Seq::empty());
    reveal(PState::enter);
    lemma_rem(e, i + 1);
    lemma_rem(s1, i + 1);
    lemma_enter(x, j);
    let y = x.leave();
    lemma_wrap(s, e, x, y, operand, i + 1, j, j);
    let op = if kind == TokenType::Bang {
        OpCode::Not
    } else {
        OpCode::Negate
    };
    let span = s1.span_of(s1.previous);
    let z = unary(s1);
    assert(z == y.op_at(op, span));
    lemma_op(y, j, op, span);
    let a = choose|code: Seq<u8>| #[trigger]
        has_read(s, y, j, code) && codes(operand, code, scope_of(s), y.function.constants)
            && code.len() <= size(operand) && y.function.constants.len()
            <= s.function.constants.len() + constants_in(operand);
    lemma_join(s, y, z, j, j, a, seq![byte_of(op)]);
    let code = a + seq![byte_of(op)];
    assert(code =~= a + between(tree, 0) + Seq::empty() + behind(tree));
    assert(composes(tree, code, a, Seq::empty()));
    assert(codes(tree, code, scope_of(s), z.function.constants));
    assert(has_read(s, z, j, code));
}

/// Two operands with code behind them.
pub proof fn lemma_pair(
    s: PState,
    t: PState,
    u: PState,
    x: PState,
    y: PState,
    tree: Tree,
    left: Tree,
    right: Tree,
    m: int,
    k: int,
    j: int,
)
    requires
        tree is Binary && tree->Binary_1 == left && tree->Binary_2 == right || tree is Index
            && tree->Index_0 == left && tree->Index_1 == right,
        makes(s, t, left, m),
        has_read(t, u, m + 1, Seq::empty()),
        u.function.constants == t.function.constants,
        makes(u, x, right, k),
        has_read(x, y, j, behind(tree)),
        y.function.constants == x.function.constants,
        behind(tree).len() <= size(tree) - size(left) - size(right),
    ensures
        makes(s, y, tree, j),
{
    let a = choose|code: Seq<u8>| #[trigger]
        has_read(s, t, m, code) && codes(left, code, scope_of(s), t.function.constants)
            && code.len() <= size(left) && t.function.constants.len()
            <= s.function.constants.len() + constants_in(left);
    let b = choose|code: Seq<u8>| #[trigger]
        has_read(u, x, k, code) && codes(right, code, scope_of(u), x.function.constants)
            && code.len() <= size(right) && x.function.constants.len()
            <= u.function.constants.len() + constants_in(right);
    lemma_join(s, t, u, m, m + 1, a, Seq::empty());
    lemma_join(s, u, x, m + 1, k, a + Seq::empty(), b);
    lemma_join(s, x, y, k, j, a + Seq::empty() + b, behind(tree));
    let code = a + Seq::empty() + b + behind(tree);
    assert(code =~= a + between(tree, b.len()) + b + behind(tree));
    assert(composes(tree, code, a, b));
    lemma_codes_on(left, a, scope_of(s), t.function.constants, y.function.constants);
    assert(codes(tree, code, scope_of(s), y.function.constants));
    assert(has_read(s, y, j, code));
}

pub proof fn lemma_binary(s: PState, t: PState, tree: Tree, kind: TokenType, left: Tree, right: Tree, m: int, j: int)
    requires
        tree == Tree::Binary(kind, Box::new(left), Box::new(right)),
        makes(s, t, left, m),
        3 <= level_of(kind) <= 6,
        t.tokens[m].token_type == kind,
        m + 1 < t.tokens.len(),
        !(t.tokens[m + 1].token_type is Error),
        makes(
            t.advance(),
            parse_precedence(t.advance(), tighter(rule_of(kind).precedence)),
            right,
            j,
        ),
    ensures
        makes(s, binary(t.advance()), tree, j),
{
    lemma_step(t, m);
    let u = t.advance();
    let x = parse_precedence(u, tighter(rule_of(kind).precedence));
    let y = binary(u);
    let span = u.span_of(u.previous);
    let ops = crate::rules::binary_ops(kind);
    assert(y == with_ops(x, ops, span));
    let op = ops.0->0;
    lemma_op(x, j, op, span);
    let z = x.op_at(op, span);
    if ops.1 is Some {
        let last = ops.1->0;
        lemma_op(z, j, last, span);
        lemma_join(x, z, y, j, j, seq![byte_of(op)], seq![byte_of(last)]);
        assert(seq![byte_of(op)] + seq![byte_of(last)] =~= operation(kind));
    } else {
        assert(seq![byte_of(op)] =~= operation(kind));
    }
    lemma_pair(s, t, u, x, y, tree, left, right, m, j, j);
}

pub proof fn lemma_index(
    s: PState,
    t: PState,
    tree: Tree,
    left: Tree,
    right: Tree,
    m: int,
    j: int,
    ca: bool,
)
    requires
        tree == Tree::Index(Box::new(left), Box::new(right)),
        makes(s, t, left, m),
        t.depth_limit is None,
        t.tokens[m].token_type is LeftBracket,
        m + 1 < j < t.tokens.len(),
        !(t.tokens[m + 1].token_type is Error),
        t.tokens[j - 1].token_type is RightBracket,
        !(t.tokens[j].token_type is Error),
        !(t.tokens[j].token_type is Equal),
        makes(
            t.advance().enter(),
            parse_precedence(t.advance().enter(), Precedence::Assignment),
            right,
            j - 1,
        ),
    ensures
        makes(s, index(t.advance(), ca), tree, j),
{
    lemma_step(t, m);
    let t1 = t.advance();
    let u = t1.enter();
    lemma_enter(t1, m + 1);
    lemma_join(t, t1, u, m + 1, m + 1, Seq::empty(), Seq::empty());
    assert(Seq::<u8>::empty() + Seq::empty() =~= Seq::empty());
    reveal(PState::enter);
    lemma_rem(u, m + 1);
    lemma_rem(t1, m + 1);
    let x = parse_precedence(u, Precedence::Assignment);
    lemma_consume(x, j - 1, TokenType::RightBracket, "Expect ']' after index.");
    let w = x.consume(TokenType::RightBracket, "Expect ']' after index.").leave();
    let y = index(t1, ca);
    let span = w.merged(t1.previous, w.previous);
    assert(!w.at(TokenType::Equal));
    assert(y == w.op_at(OpCode::GetIndex, span));
    lemma_op(w, j, OpCode::GetIndex, span);
    lemma_join(x, w, y, j, j, Seq::empty(), seq![byte_of(OpCode::GetIndex)]);
    assert(Seq::empty() + seq![byte_of(OpCode::GetIndex)] =~= behind(tree));
    lemma_pair(s, t, u, x, y, tree, left, right, m, j - 1, j);
}

pub proof fn lemma_jump(s: PState, i: int, op: OpCode)
    requires
        comes_to(s, i),
    ensures
        has_read(s, s.emit_jump(op), i, seq![byte_of(op), 255u8, 255u8]),
        s.emit_jump(op).function.constants == s.function.constants,
{
    let span = s.span_of(s.previous);
    let a = s.op_at(op, span);
    let b = a.byte_at(255, span);
    let c = b.byte_at(255, span);
    lemma_op(s, i, op, span);
    lemma_byte(a, i, 255, span);
    lemma_byte(b, i, 255, span);
    lemma_join(s, a, b, i, i, seq![byte_of(op)], seq![255u8]);
    lemma_join(s, b, c, i, i, seq![byte_of(op)] + seq![255u8], seq![255u8]);
    assert(seq![byte_of(op)] + seq![255u8] + seq![255u8] =~= seq![byte_of(op), 255u8, 255u8]);
    assert(u16::MAX as int % 256 == 255 && u16::MAX as int / 256 % 256 == 255);
    assert(s.emit_jump(op) == c);
}

/// A jump that is patched goes to the end of the code.
pub proof fn lemma_patched(
    s: PState,
    x: PState,
    j: int,
    before: Seq<u8>,
    p: u8,
    q: u8,
    after: Seq<u8>,
    place: int,
)
    requires
        has_read(s, x, j, before + seq![p, q] + after),
        place == s.function.code.len() + before.len(),
        after.len() <= u16::MAX,
    ensures
        has_read(s, x.patch_jump(place), j, before + distance(after.len()) + after),
        x.patch_jump(place).function.constants == x.function.constants,
{
    reveal(FState::with_operand);
    let y = x.patch_jump(place);
    let n = after.len() as int;
    assert(x.function.code.len() - place - 2 == n);
    assert(n / 256 % 256 == n / 256);
    assert(y.function.code =~= s.function.code + (before + distance(after.len()) + after));
}

pub proof fn lemma_and(s: PState, t: PState, tree: Tree, left: Tree, right: Tree, m: int, j: int)
    requires
        tree == Tree::And(Box::new(left), Box::new(right)),
        size(tree) <= u16::MAX,
        makes(s, t, left, m),
        t.tokens[m].token_type is And,
        m + 1 < t.tokens.len(),
        !(t.tokens[m + 1].token_type is Error),
        makes(
            t.advance().emit_jump(OpCode::JumpIfFalse).op(OpCode::Pop),
            parse_precedence(
                t.advance().emit_jump(OpCode::JumpIfFalse).op(OpCode::Pop),
                Precedence::And,
            ),
            right,
            j,
        ),
    ensures
        makes(s, and(t.advance()), tree, j),
{
    lemma_step(t, m);
    let u = t.advance();
    let s1 = u.emit_jump(OpCode::JumpIfFalse);
    let s2 = s1.op(OpCode::Pop);
    let s3 = parse_precedence(s2, Precedence::And);
    let jump = byte_of(OpCode::JumpIfFalse);
    let pop = byte_of(OpCode::Pop);
    lemma_jump(u, m + 1, OpCode::JumpIfFalse);
    lemma_op(s1, m + 1, OpCode::Pop, s1.span_of(s1.previous));
    let a = choose|code: Seq<u8>| #[trigger]
        has_read(s, t, m, code) && codes(left, code, scope_of(s), t.function.constants)
            && code.len() <= size(left) && t.function.constants.len()
            <= s.function.constants.len() + constants_in(left);
    let b = choose|code: Seq<u8>| #[trigger]
        has_read(s2, s3, j, code) && codes(right, code, scope_of(s2), s3.function.constants)
            && code.len() <= size(right) && s3.function.constants.len()
            <= s2.function.constants.len() + constants_in(right);
    lemma_join(s, t, u, m, m + 1, a, Seq::empty());
    lemma_join(s, u, s1, m + 1, m + 1, a + Seq::empty(), seq![jump, 255u8, 255u8]);
    let head = a + Seq::empty() + seq![jump, 255u8, 255u8];
    lemma_join(s, s1, s2, m + 1, m + 1, head, seq![pop]);
    lemma_join(s, s2, s3, m + 1, j, head + seq![pop], b);
    let before = a + seq![jump];
    let after = seq![pop] + b;
    assert(head + seq![pop] + b =~= before + seq![255u8, 255u8] + after);
    let place = s1.jump_place();
    lemma_patched(s, s3, j, before, 255, 255, after, place);
    let y = and(u);
    assert(y == s3.patch_jump(place));
    let code = before + distance(after.len()) + after;
    assert(code =~= a + between(tree, b.len()) + b + behind(tree));
    assert(composes(tree, code, a, b));
    lemma_codes_on(left, a, scope_of(s), t.function.constants, y.function.constants);
    assert(codes(tree, code, scope_of(s), y.function.constants));
    assert(has_read(s, y, j, code));
}

/// The state in which `or` reads its right operand.
pub open spec fn or_begun(u: PState) -> PState {
    let s1 = u.emit_jump(OpCode::JumpIfFalse);
    s1.emit_jump(OpCode::Jump).patch_jump(s1.jump_place()).op(OpCode::Pop)
}

pub proof fn lemma_or_begun(u: PState, i: int)
    requires
        comes_to(u, i),
    ensures
        has_read(
            u,
            or_begun(u),
            i,
            seq![byte_of(OpCode::JumpIfFalse)] + distance(3) + seq![
                byte_of(OpCode::Jump),
                255u8,
                255u8,
                byte_of(OpCode::Pop),
            ],
        ),
        or_begun(u).function.constants == u.function.constants,
        u.emit_jump(OpCode::JumpIfFalse).emit_jump(OpCode::Jump).jump_place()
            == u.function.code.len() + 4,
{
    let s1 = u.emit_jump(OpCode::JumpIfFalse);
    let s2 = s1.emit_jump(OpCode::Jump);
    let s3 = s2.patch_jump(s1.jump_place());
    let s4 = s3.op(OpCode::Pop);
    let first = byte_of(OpCode::JumpIfFalse);
    let second = byte_of(OpCode::Jump);
    let pop = byte_of(OpCode::Pop);
    lemma_jump(u, i, OpCode::JumpIfFalse);
    lemma_jump(s1, i, OpCode::Jump);
    lemma_join(u, s1, s2, i, i, seq![first, 255u8, 255u8], seq![second, 255u8, 255u8]);
    let after = seq![second, 255u8, 255u8];
    assert(seq![first, 255u8, 255u8] + after =~= seq![first] + seq![255u8, 255u8] + after);
    lemma_patched(u, s2, i, seq![first], 255, 255, after, s1.jump_place());
    lemma_op(s3, i, OpCode::Pop, s3.span_of(s3.previous));
    lemma_join(u, s3, s4, i, i, seq![first] + distance(3) + after, seq![pop]);
    assert(seq![first] + distance(3) + after + seq![pop] =~= seq![first] + distance(3) + seq![
        second,
        255u8,
        255u8,
        pop,
    ]);
}

pub proof fn lemma_or(s: PState, t: PState, tree: Tree, left: Tree, right: Tree, m: int, j: int)
    requires
        tree == Tree::Or(Box::new(left), Box::new(right)),
        size(tree) <= u16::MAX,
        makes(s, t, left, m),
        t.tokens[m].token_type is Or,
        m + 1 < t.tokens.len(),
        !(t.tokens[m + 1].token_type is Error),
        makes(
            or_begun(t.advance()),
            parse_precedence(or_begun(t.advance()), Precedence::Or),
            right,
            j,
        ),
    ensures
        makes(s, or(t.advance()), tree, j),
{
    lemma_step(t, m);
    let u = t.advance();
    let s2 = or_begun(u);
    let s3 = parse_precedence(s2, Precedence::Or);
    let first = byte_of(OpCode::JumpIfFalse);
    let second = byte_of(OpCode::Jump);
    let pop = byte_of(OpCode::Pop);
    lemma_or_begun(u, m + 1);
    let a = choose|code: Seq<u8>| #[trigger]
        has_read(s, t, m, code) && codes(left, code, scope_of(s), t.function.constants)
            && code.len() <= size(left) && t.function.constants.len()
            <= s.function.constants.len() + constants_in(left);
    let b = choose|code: Seq<u8>| #[trigger]
        has_read(s2, s3, j, code) && codes(right, code, scope_of(s2), s3.function.constants)
            && code.len() <= size(right) && s3.function.constants.len()
            <= s2.function.constants.len() + constants_in(right);
    let glue = seq![first] + distance(3) + seq![second, 255u8, 255u8, pop];
    lemma_join(s, t, u, m, m + 1, a, Seq::empty());
    lemma_join(s, u, s2, m + 1, m + 1, a + Seq::empty(), glue);
    lemma_join(s, s2, s3, m + 1, j, a + Seq::empty() + glue, b);
    let before = a + seq![first] + distance(3) + seq![second];
    let after = seq![pop] + b;
    assert(a + Seq::empty() + glue + b =~= before + seq![255u8, 255u8] + after);
    let place = u.emit_jump(OpCode::JumpIfFalse).emit_jump(OpCode::Jump).jump_place();
    lemma_patched(s, s3, j, before, 255, 255, after, place);
    let y = or(u);
    assert(y == s3.patch_jump(place));
    let code = before + distance(after.len()) + after;
    assert(code =~= a + between(tree, b.len()) + b + behind(tree));
    assert(composes(tree, code, a, b));
    lemma_codes_on(left, a, scope_of(s), t.function.constants, y.function.constants);
    assert(codes(tree, code, scope_of(s), y.function.constants));
    assert(has_read(s, y, j, code));
}

/// An expression can be followed by an operator that takes it as an operand.
pub open spec fn can_precede(tree: Tree, kind: TokenType) -> bool {
    &&& level_of(kind) <= level(tree)
    &&& tree is And || tree is Or ==> level_of(kind) < level(tree)
    &&& !(kind is Equal)
}

/// The left operand of an operator.
pub open spec fn left_of(tree: Tree) -> Tree {
    match tree {
        Tree::Binary(_, left, _) => *left,
        Tree::And(left, _) => *left,
        Tree::Or(left, _) => *left,
        Tree::Index(list, _) => *list,
        _ => tree,
    }
}

pub open spec fn right_of(tree: Tree) -> Tree {
    match tree {
        Tree::Binary(_, _, right) => *right,
        Tree::And(_, right) => *right,
        Tree::Or(_, right) => *right,
        Tree::Index(_, place) => *place,
        _ => tree,
    }
}

/// The operator that joins an expression.
pub open spec fn joined_by(tree: Tree) -> TokenType {
    match tree {
        Tree::Binary(kind, _, _) => kind,
        Tree::And(_, _) => TokenType::And,
        Tree::Or(_, _) => TokenType::Or,
        _ => TokenType::LeftBracket,
    }
}

pub open spec fn joins(tree: Tree) -> bool {
    tree is Binary || tree is And || tree is Or || tree is Index
}

/// Where the right operand ends.
pub open spec fn right_end(tree: Tree, j: int) -> int {
    if tree is Index {
        j - 1
    } else {
        j
    }
}

/// The operator stands at `m`.
pub open spec fn splits(tree: Tree, tokens: Seq<Lexed>, i: int, m: int, j: int) -> bool {
    &&& spells(left_of(tree), tokens, i, m)
    &&& tokens[m].token_type == joined_by(tree)
    &&& spells(right_of(tree), tokens, m + 1, right_end(tree, j))
    &&& tree is Index ==> tokens[j - 1].token_type is RightBracket
}

pub proof fn lemma_splits(tree: Tree, tokens: Seq<Lexed>, i: int, j: int) -> (m: int)
    requires
        joins(tree),
        spells(tree, tokens, i, j),
    ensures
        splits(tree, tokens, i, m, j),
        i < m < j - 1,
{
    match tree {
        Tree::Binary(kind, left, right) => {
            let m = choose|m: int|
                spells(*left, tokens, i, m) && (#[trigger] tokens[m]).token_type == kind && spells(
                    *right,
                    tokens,
                    m + 1,
                    j,
                );
            m
        },
        Tree::And(left, right) => {
            let m = choose|m: int|
                spells(*left, tokens, i, m) && (#[trigger] tokens[m]).token_type is And && spells(
                    *right,
                    tokens,
                    m + 1,
                    j,
                );
            m
        },
        Tree::Or(left, right) => {
            let m = choose|m: int|
                spells(*left, tokens, i, m) && (#[trigger] tokens[m]).token_type is Or && spells(
                    *right,
                    tokens,
                    m + 1,
                    j,
                );
            m
        },
        Tree::Index(list, place) => {
            let m = choose|m: int|
                spells(*list, tokens, i, m) && (#[trigger] tokens[m]).token_type is LeftBracket
                    && spells(*place, tokens, m + 1, j - 1) && tokens[j - 1].token_type
                    is RightBracket;
            m
        },
        _ => 0,
    }
}

} // verus!
