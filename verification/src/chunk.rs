//! Bytecode and its constants.
use vstd::prelude::*;
use crate::source::SourceSpan;
use crate::value::{equal_values, values_equal, Value};

verus! {

/// The instructions of the machine. Operands follow in the code: slots,
/// counts and constants as one byte, long forms and jumps as little-endian
/// bytes.
#[derive(Debug, Clone, Copy, PartialEq, Eq, Structural)]
pub enum OpCode {
    Constant,
    ConstantLong,
    Nil,
    True,
    False,
    Pop,
    Dup,
    GetLocal,
    SetLocal,
    GetLocalLong,
    SetLocalLong,
    GetGlobal,
    DefineGlobal,
    SetGlobal,
    GetUpvalue,
    SetUpvalue,
    BuildList,
    BuildListLong,
    GetIndex,
    SetIndex,
    Equal,
    Greater,
    Less,
    Add,
    Subtract,
    Multiply,
    Divide,
    IntDivide,
    Not,
    Negate,
    Print,
    Jump,
    JumpIfFalse,
    Loop,
    Call,
    Closure,
    CloseUpvalue,
    Return,
    ClosureLong,
    GetProperty,
    SetProperty,
    GetSuper,
    Invoke,
    SuperInvoke,
    Class,
    Inherit,
    Method,
}

/// The byte of an instruction.
pub open spec fn byte_of(op: OpCode) -> u8 {
    match op {
        OpCode::Constant => 0,
        OpCode::ConstantLong => 1,
        OpCode::Nil => 2,
        OpCode::True => 3,
        OpCode::False => 4,
        OpCode::Pop => 5,
        OpCode::Dup => 6,
        OpCode::GetLocal => 7,
        OpCode::SetLocal => 8,
        OpCode::GetLocalLong => 9,
        OpCode::SetLocalLong => 10,
        OpCode::GetGlobal => 11,
        OpCode::DefineGlobal => 12,
        OpCode::SetGlobal => 13,
        OpCode::GetUpvalue => 14,
        OpCode::SetUpvalue => 15,
        OpCode::BuildList => 16,
        OpCode::BuildListLong => 17,
        OpCode::GetIndex => 18,
        OpCode::SetIndex => 19,
        OpCode::Equal => 20,
        OpCode::Greater => 21,
        OpCode::Less => 22,
        OpCode::Add => 23,
        OpCode::Subtract => 24,
        OpCode::Multiply => 25,
        OpCode::Divide => 26,
        OpCode::IntDivide => 27,
        OpCode::Not => 28,
        OpCode::Negate => 29,
        OpCode::Print => 30,
        OpCode::Jump => 31,
        OpCode::JumpIfFalse => 32,
        OpCode::Loop => 33,
        OpCode::Call => 34,
        OpCode::Closure => 35,
        OpCode::CloseUpvalue => 36,
        OpCode::Return => 37,
        OpCode::ClosureLong => 38,
        OpCode::GetProperty => 39,
        OpCode::SetProperty => 40,
        OpCode::GetSuper => 41,
        OpCode::Invoke => 42,
        OpCode::SuperInvoke => 43,
        OpCode::Class => 44,
        OpCode::Inherit => 45,
        OpCode::Method => 46,
    }
}

/// The instruction of a byte, if it is one.
pub open spec fn op_of(byte: u8) -> Option<OpCode> {
    match byte {
        0 => Some(OpCode::Constant),
        1 => Some(OpCode::ConstantLong),
        2 => Some(OpCode::Nil),
        3 => Some(OpCode::True),
        4 => Some(OpCode::False),
        5 => Some(OpCode::Pop),
        6 => Some(OpCode::Dup),
        7 => Some(OpCode::GetLocal),
        8 => Some(OpCode::SetLocal),
        9 => Some(OpCode::GetLocalLong),
        10 => Some(OpCode::SetLocalLong),
        11 => Some(OpCode::GetGlobal),
        12 => Some(OpCode::DefineGlobal),
        13 => Some(OpCode::SetGlobal),
        14 => Some(OpCode::GetUpvalue),
        15 => Some(OpCode::SetUpvalue),
        16 => Some(OpCode::BuildList),
        17 => Some(OpCode::BuildListLong),
        18 => Some(OpCode::GetIndex),
        19 => Some(OpCode::SetIndex),
        20 => Some(OpCode::Equal),
        21 => Some(OpCode::Greater),
        22 => Some(OpCode::Less),
        23 => Some(OpCode::Add),
        24 => Some(OpCode::Subtract),
        25 => Some(OpCode::Multiply),
        26 => Some(OpCode::Divide),
        27 => Some(OpCode::IntDivide),
        28 => Some(OpCode::Not),
        29 => Some(OpCode::Negate),
        30 => Some(OpCode::Print),
        31 => Some(OpCode::Jump),
        32 => Some(OpCode::JumpIfFalse),
        33 => Some(OpCode::Loop),
        34 => Some(OpCode::Call),
        35 => Some(OpCode::Closure),
        36 => Some(OpCode::CloseUpvalue),
        37 => Some(OpCode::Return),
        38 => Some(OpCode::ClosureLong),
        39 => Some(OpCode::GetProperty),
        40 => Some(OpCode::SetProperty),
        41 => Some(OpCode::GetSuper),
        42 => Some(OpCode::Invoke),
        43 => Some(OpCode::SuperInvoke),
        44 => Some(OpCode::Class),
        45 => Some(OpCode::Inherit),
        46 => Some(OpCode::Method),
        _ => None,
    }
}

/// Every instruction is read back from its byte, and no two share one.
pub proof fn law_instructions_round_trip(op: OpCode, byte: u8)
    ensures
        op_of(byte_of(op)) == Some(op),
        op_of(byte) matches Some(read) ==> byte_of(read) == byte,
{
}

impl OpCode {
    pub fn byte(self) -> (byte: u8)
        ensures
            byte == byte_of(self),
    {
        match self {
            OpCode::Constant => 0,
            OpCode::ConstantLong => 1,
            OpCode::Nil => 2,
            OpCode::True => 3,
            OpCode::False => 4,
            OpCode::Pop => 5,
            OpCode::Dup => 6,
            OpCode::GetLocal => 7,
            OpCode::SetLocal => 8,
            OpCode::GetLocalLong => 9,
            OpCode::SetLocalLong => 10,
            OpCode::GetGlobal => 11,
            OpCode::DefineGlobal => 12,
            OpCode::SetGlobal => 13,
            OpCode::GetUpvalue => 14,
            OpCode::SetUpvalue => 15,
            OpCode::BuildList => 16,
            OpCode::BuildListLong => 17,
            OpCode::GetIndex => 18,
            OpCode::SetIndex => 19,
            OpCode::Equal => 20,
            OpCode::Greater => 21,
            OpCode::Less => 22,
            OpCode::Add => 23,
            OpCode::Subtract => 24,
            OpCode::Multiply => 25,
            OpCode::Divide => 26,
            OpCode::IntDivide => 27,
            OpCode::Not => 28,
            OpCode::Negate => 29,
            OpCode::Print => 30,
            OpCode::Jump => 31,
            OpCode::JumpIfFalse => 32,
            OpCode::Loop => 33,
            OpCode::Call => 34,
            OpCode::Closure => 35,
            OpCode::CloseUpvalue => 36,
            OpCode::Return => 37,
            OpCode::ClosureLong => 38,
            OpCode::GetProperty => 39,
            OpCode::SetProperty => 40,
            OpCode::GetSuper => 41,
            OpCode::Invoke => 42,
            OpCode::SuperInvoke => 43,
            OpCode::Class => 44,
            OpCode::Inherit => 45,
            OpCode::Method => 46,
        }
    }

    pub fn from_byte(byte: u8) -> (op: Option<OpCode>)
        ensures
            op == op_of(byte),
    {
        match byte {
            0 => Some(OpCode::Constant),
            1 => Some(OpCode::ConstantLong),
            2 => Some(OpCode::Nil),
            3 => Some(OpCode::True),
            4 => Some(OpCode::False),
            5 => Some(OpCode::Pop),
            6 => Some(OpCode::Dup),
            7 => Some(OpCode::GetLocal),
            8 => Some(OpCode::SetLocal),
            9 => Some(OpCode::GetLocalLong),
            10 => Some(OpCode::SetLocalLong),
            11 => Some(OpCode::GetGlobal),
            12 => Some(OpCode::DefineGlobal),
            13 => Some(OpCode::SetGlobal),
            14 => Some(OpCode::GetUpvalue),
            15 => Some(OpCode::SetUpvalue),
            16 => Some(OpCode::BuildList),
            17 => Some(OpCode::BuildListLong),
            18 => Some(OpCode::GetIndex),
            19 => Some(OpCode::SetIndex),
            20 => Some(OpCode::Equal),
            21 => Some(OpCode::Greater),
            22 => Some(OpCode::Less),
            23 => Some(OpCode::Add),
            24 => Some(OpCode::Subtract),
            25 => Some(OpCode::Multiply),
            26 => Some(OpCode::Divide),
            27 => Some(OpCode::IntDivide),
            28 => Some(OpCode::Not),
            29 => Some(OpCode::Negate),
            30 => Some(OpCode::Print),
            31 => Some(OpCode::Jump),
            32 => Some(OpCode::JumpIfFalse),
            33 => Some(OpCode::Loop),
            34 => Some(OpCode::Call),
            35 => Some(OpCode::Closure),
            36 => Some(OpCode::CloseUpvalue),
            37 => Some(OpCode::Return),
            38 => Some(OpCode::ClosureLong),
            39 => Some(OpCode::GetProperty),
            40 => Some(OpCode::SetProperty),
            41 => Some(OpCode::GetSuper),
            42 => Some(OpCode::Invoke),
            43 => Some(OpCode::SuperInvoke),
            44 => Some(OpCode::Class),
            45 => Some(OpCode::Inherit),
            46 => Some(OpCode::Method),
            _ => None,
        }
    }
}

/// The code of one function: a byte and its span for each place, and the
/// constants that the code names by index.
#[derive(Debug)]
pub struct Chunk {
    pub code: Vec<u8>,
    pub spans: Vec<SourceSpan>,
    pub constants: Vec<Value>,
}

/// The first constant from `i` on that equals `value`, or the end.
pub open spec fn constant_place(constants: Seq<Value>, value: Value, i: int) -> int
    decreases constants.len() - i,
{
    if 0 <= i < constants.len() && !equal_values(constants[i], value) {
        constant_place(constants, value, i + 1)
    } else {
        i
    }
}

/// Where a constant is or is put.
pub open spec fn constant_index(constants: Seq<Value>, value: Value) -> int {
    constant_place(constants, value, 0)
}

/// The constants with one more among them, which is shared if it is there.
pub open spec fn with_constant(constants: Seq<Value>, value: Value) -> Seq<Value> {
    if constant_index(constants, value) < constants.len() {
        constants
    } else {
        constants.push(value)
    }
}

pub proof fn lemma_constant_place(constants: Seq<Value>, value: Value, i: int)
    requires
        0 <= i <= constants.len(),
    ensures
        i <= constant_place(constants, value, i) <= constants.len(),
        constant_place(constants, value, i) < constants.len() ==> equal_values(
            constants[constant_place(constants, value, i)],
            value,
        ),
        forall|j: int|
            i <= j < constant_place(constants, value, i) ==> !equal_values(
                #[trigger] constants[j],
                value,
            ),
    decreases constants.len() - i,
{
    if i < constants.len() && !equal_values(constants[i], value) {
        lemma_constant_place(constants, value, i + 1);
    }
}

/// A constant is found again at the index that it was given.
pub proof fn law_constant_is_found_at_its_index(constants: Seq<Value>, value: Value)
    ensures
        0 <= constant_index(constants, value) < with_constant(constants, value).len(),
        with_constant(constants, value)[constant_index(constants, value)] == value || equal_values(
            with_constant(constants, value)[constant_index(constants, value)],
            value,
        ),
        constants.is_prefix_of(with_constant(constants, value)),
{
    lemma_constant_place(constants, value, 0);
}

/// The three bytes of a long operand, lowest first.
pub open spec fn long_bytes(index: int) -> Seq<u8> {
    seq![
        (index % 256) as u8,
        (index / 256 % 256) as u8,
        (index / 65536 % 256) as u8,
    ]
}

/// The number that three bytes spell, lowest first.
pub open spec fn long_operand(low: u8, middle: u8, high: u8) -> int {
    low + middle * 256 + high * 65536
}

/// The number that two bytes spell, lowest first.
pub open spec fn short_operand(low: u8, high: u8) -> int {
    low + high * 256
}

/// Long operands are read back as they were written.
pub proof fn law_long_operands_round_trip(index: int)
    requires
        0 <= index < 0x100_0000,
    ensures
        long_operand(long_bytes(index)[0], long_bytes(index)[1], long_bytes(index)[2]) == index,
        index < 0x1_0000 ==> short_operand(long_bytes(index)[0], long_bytes(index)[1]) == index,
{
}

/// The code that pushes the constant at `index`.
pub open spec fn constant_code(index: int) -> Seq<u8> {
    if index < 256 {
        seq![byte_of(OpCode::Constant), index as u8]
    } else {
        seq![byte_of(OpCode::ConstantLong)] + long_bytes(index)
    }
}

pub open spec fn repeated(span: SourceSpan, n: nat) -> Seq<SourceSpan> {
    Seq::new(n, |i: int| span)
}

impl Chunk {
    pub fn new() -> (chunk: Self)
        ensures
            chunk.code@.len() == 0,
            chunk.spans@.len() == 0,
            chunk.constants@.len() == 0,
    {
        Chunk { code: Vec::new(), spans: Vec::new(), constants: Vec::new() }
    }

    pub fn write(&mut self, byte: u8, span: SourceSpan)
        ensures
            final(self).code@ == old(self).code@.push(byte),
            final(self).spans@ == old(self).spans@.push(span),
            final(self).constants@ == old(self).constants@,
    {
        self.code.push(byte);
        self.spans.push(span);
    }

    pub fn span_at(&self, index: usize) -> (span: SourceSpan)
        requires
            index < self.spans@.len(),
        ensures
            span == self.spans@[index as int],
    {
        self.spans[index]
    }

    pub fn get_line(&self, index: usize) -> (line: usize)
        requires
            index < self.spans@.len(),
        ensures
            line == self.spans@[index as int].start.line,
    {
        self.span_at(index).start.line
    }

    /// Puts a constant among the constants, unless an equal one is there.
    pub fn add_constant(&mut self, value: Value) -> (index: usize)
        ensures
            index == constant_index(old(self).constants@, value),
            final(self).constants@ == with_constant(old(self).constants@, value),
            index < final(self).constants@.len(),
            final(self).code@ == old(self).code@,
            final(self).spans@ == old(self).spans@,
    {
        proof {
            lemma_constant_place(self.constants@, value, 0);
        }
        let mut i: usize = 0;
        while i < self.constants.len()
            invariant
                i <= self.constants@.len(),
                *self == *old(self),
                constant_place(self.constants@, value, i as int) == constant_index(
                    self.constants@,
                    value,
                ),
            decreases self.constants@.len() - i,
        {
            if values_equal(self.constants[i], value) {
                return i;
            }
            i += 1;
        }
        self.constants.push(value);
        i
    }

    /// Appends the code that pushes a constant.
    pub fn write_constant(&mut self, value: Value, span: SourceSpan)
        ensures
            final(self).constants@ == with_constant(old(self).constants@, value),
            final(self).code@ == old(self).code@ + constant_code(
                constant_index(old(self).constants@, value),
            ),
            final(self).spans@ == old(self).spans@ + repeated(
                span,
                constant_code(constant_index(old(self).constants@, value)).len(),
            ),
    {
        let ghost before = *self;
        let index: usize = self.add_constant(value);
        if index < 256 {
            self.write(OpCode::Constant.byte(), span);
            self.write(index as u8, span);
        } else {
            self.write(OpCode::ConstantLong.byte(), span);
            self.write((index % 256) as u8, span);
            self.write((index / 256 % 256) as u8, span);
            self.write((index / 65536 % 256) as u8, span);
        }
        assert(self.code@ =~= before.code@ + constant_code(index as int));
        assert(self.spans@ =~= before.spans@ + repeated(span, constant_code(index as int).len()));
    }
}

} // verus!
