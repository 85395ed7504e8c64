//! Reading bytecode: where instructions begin, and how they are listed.
use vstd::prelude::*;
use crate::chunk::{long_operand, op_of, short_operand, Chunk, OpCode};
use crate::compiler::contents;
use crate::faults::{decimal, decimal_text};
use crate::format::{format_value, shown, NumberTexts};
use crate::object::{Content, Heap, HeapState, Object};
use crate::value::Value;
use vstd::string::*;

verus! {

/// What follows an instruction in the code.
#[derive(Debug, Clone, Copy, PartialEq, Eq, Structural)]
pub enum Operands {
    Nothing,
    Byte,
    Short,
    Constant,
    LongConstant,
    /// A jump, forward or back.
    Jump { forward: bool },
    /// A name and a count.
    Invocation,
    /// A function, and two bytes for each variable that it captures.
    Closure,
    LongClosure,
}

pub open spec fn operands_of(op: OpCode) -> Operands {
    match op {
        OpCode::Constant | OpCode::GetGlobal | OpCode::DefineGlobal | OpCode::SetGlobal => {
            Operands::Constant
        },
        OpCode::GetProperty | OpCode::SetProperty | OpCode::GetSuper | OpCode::Class
        | OpCode::Method => Operands::Constant,
        OpCode::ConstantLong => Operands::LongConstant,
        OpCode::GetLocal | OpCode::SetLocal | OpCode::GetUpvalue | OpCode::SetUpvalue => {
            Operands::Byte
        },
        OpCode::BuildList | OpCode::Call => Operands::Byte,
        OpCode::GetLocalLong | OpCode::SetLocalLong | OpCode::BuildListLong => Operands::Short,
        OpCode::Jump | OpCode::JumpIfFalse => Operands::Jump { forward: true },
        OpCode::Loop => Operands::Jump { forward: false },
        OpCode::Invoke | OpCode::SuperInvoke => Operands::Invocation,
        OpCode::Closure => Operands::Closure,
        OpCode::ClosureLong => Operands::LongClosure,
        _ => Operands::Nothing,
    }
}

fn operands(op: OpCode) -> (result: Operands)
    ensures
        result == operands_of(op),
{
    match op {
        OpCode::Constant | OpCode::GetGlobal | OpCode::DefineGlobal | OpCode::SetGlobal => {
            Operands::Constant
        },
        OpCode::GetProperty | OpCode::SetProperty | OpCode::GetSuper | OpCode::Class
        | OpCode::Method => Operands::Constant,
        OpCode::ConstantLong => Operands::LongConstant,
        OpCode::GetLocal | OpCode::SetLocal | OpCode::GetUpvalue | OpCode::SetUpvalue => {
            Operands::Byte
        },
        OpCode::BuildList | OpCode::Call => Operands::Byte,
        OpCode::GetLocalLong | OpCode::SetLocalLong | OpCode::BuildListLong => Operands::Short,
        OpCode::Jump | OpCode::JumpIfFalse => Operands::Jump { forward: true },
        OpCode::Loop => Operands::Jump { forward: false },
        OpCode::Invoke | OpCode::SuperInvoke => Operands::Invocation,
        OpCode::Closure => Operands::Closure,
        OpCode::ClosureLong => Operands::LongClosure,
        _ => Operands::Nothing,
    }
}

/// How many variables the function at a constant captures.
pub open spec fn captured_by(heap: HeapState, constants: Seq<Value>, index: int) -> nat {
    if 0 <= index < constants.len() {
        match constants[index] {
            Value::Obj(object) => match heap.get(object) {
                Content::Function(f) => f.upvalue_count as nat,
                _ => 0,
            },
            _ => 0,
        }
    } else {
        0
    }
}

pub open spec fn byte_at(code: Seq<u8>, i: int) -> u8 {
    if 0 <= i < code.len() {
        code[i]
    } else {
        0
    }
}

/// The index of the function of a closure instruction.
pub open spec fn closure_index(code: Seq<u8>, offset: int, long: bool) -> int {
    if long {
        long_operand(byte_at(code, offset + 1), byte_at(code, offset + 2), byte_at(code, offset + 3))
    } else {
        byte_at(code, offset + 1) as int
    }
}

/// How many bytes operands take.
pub open spec fn operand_length(
    heap: HeapState,
    code: Seq<u8>,
    constants: Seq<Value>,
    offset: int,
    operands: Operands,
) -> nat {
    match operands {
        Operands::Nothing => 0,
        Operands::Byte | Operands::Constant => 1,
        Operands::Short | Operands::Jump { .. } | Operands::Invocation => 2,
        Operands::LongConstant => 3,
        Operands::Closure => 1 + 2 * captured_by(
            heap,
            constants,
            closure_index(code, offset, false),
        ),
        Operands::LongClosure => 3 + 2 * captured_by(
            heap,
            constants,
            closure_index(code, offset, true),
        ),
    }
}

/// How many bytes an instruction takes. A byte that is no instruction takes one.
pub open spec fn instruction_length(
    heap: HeapState,
    code: Seq<u8>,
    constants: Seq<Value>,
    offset: int,
) -> nat {
    match op_of(byte_at(code, offset)) {
        None => 1,
        Some(op) => 1 + operand_length(heap, code, constants, offset, operands_of(op)),
    }
}

/// An instruction begins at `offset`, when one begins at `from`.
pub open spec fn begins_at(
    heap: HeapState,
    code: Seq<u8>,
    constants: Seq<Value>,
    from: int,
    offset: int,
) -> bool
    decreases (if from <= offset { offset - from } else { 0 }),
{
    if from >= offset {
        from == offset
    } else {
        begins_at(
            heap,
            code,
            constants,
            from + instruction_length(heap, code, constants, from),
            offset,
        )
    }
}

fn read(code: &Vec<u8>, offset: usize, k: usize) -> (byte: u8)
    requires
        k < 10,
    ensures
        byte == byte_at(code@, offset + k),
{
    if offset < code.len() && k < code.len() - offset {
        code[offset + k]
    } else {
        0
    }
}

fn closure_constant(code: &Vec<u8>, offset: usize, long: bool) -> (index: usize)
    ensures
        index == closure_index(code@, offset as int, long),
{
    if long {
        read(code, offset, 1) as usize + (read(code, offset, 2) as usize) * 256 + (read(
            code,
            offset,
            3,
        ) as usize) * 65536
    } else {
        read(code, offset, 1) as usize
    }
}

fn capture_count(heap: &Heap, constants: &Vec<Value>, index: usize) -> (count: usize)
    requires
        heap.wf(),
    ensures
        count == captured_by(heap@, constants@, index as int),
{
    if index < constants.len() {
        if let Value::Obj(object) = constants[index] {
            if object < heap.len() {
                if let Object::Function(f) = heap.get(object) {
                    return f.upvalue_count;
                }
            }
        }
    }
    0
}

/// Where the next instruction begins, as far as that can be told.
pub fn next_instruction(heap: &Heap, chunk: &Chunk, offset: usize) -> (next: Option<usize>)
    requires
        heap.wf(),
    ensures
        ({
            let sum = offset + instruction_length(
                heap@,
                chunk.code@,
                chunk.constants@,
                offset as int,
            );
            next == (if sum <= usize::MAX {
                Some(sum as usize)
            } else {
                None
            })
        }),
{
    let op = match OpCode::from_byte(read(&chunk.code, offset, 0)) {
        Some(op) => op,
        None => return offset.checked_add(1),
    };
    match operands(op) {
        Operands::Nothing => offset.checked_add(1),
        Operands::Byte | Operands::Constant => offset.checked_add(2),
        Operands::Short | Operands::Jump { .. } | Operands::Invocation => offset.checked_add(3),
        Operands::LongConstant => offset.checked_add(4),
        Operands::Closure => {
            let index: usize = closure_constant(&chunk.code, offset, false);
            let count: usize = capture_count(heap, &chunk.constants, index);
            match count.checked_mul(2) {
                Some(bytes) => match offset.checked_add(bytes) {
                    Some(sum) => sum.checked_add(2),
                    None => None,
                },
                None => None,
            }
        },
        Operands::LongClosure => {
            let index: usize = closure_constant(&chunk.code, offset, true);
            let count: usize = capture_count(heap, &chunk.constants, index);
            match count.checked_mul(2) {
                Some(bytes) => match offset.checked_add(bytes) {
                    Some(sum) => sum.checked_add(4),
                    None => None,
                },
                None => None,
            }
        },
    }
}

/// Whether an instruction begins at an offset.
pub fn is_opcode_start(heap: &Heap, chunk: &Chunk, offset: usize) -> (begins: bool)
    requires
        heap.wf(),
    ensures
        begins == begins_at(heap@, chunk.code@, chunk.constants@, 0, offset as int),
{
    let mut from: usize = 0;
    while from < offset
        invariant
            heap.wf(),
            begins_at(heap@, chunk.code@, chunk.constants@, from as int, offset as int)
                == begins_at(heap@, chunk.code@, chunk.constants@, 0, offset as int),
        decreases (if from <= offset { offset - from } else { 0 }),
    {
        match next_instruction(heap, chunk, from) {
            Some(next) => {
                from = next;
            },
            None => {
                proof {
                    reveal_with_fuel(begins_at, 2);
                }
                return false;
            },
        }
    }
    from == offset
}

/// The name of an instruction in listings; some have none.
pub open spec fn listed_name(op: OpCode) -> Option<Seq<char>> {
    match op {
        OpCode::Constant => Some("OP_CONSTANT"@),
        OpCode::ConstantLong => Some("OP_CONSTANT_LONG"@),
        OpCode::Nil => Some("OP_NIL"@),
        OpCode::True => Some("OP_TRUE"@),
        OpCode::False => Some("OP_FALSE"@),
        OpCode::Equal => Some("OP_EQUAL"@),
        OpCode::Greater => Some("OP_GREATER"@),
        OpCode::Less => Some("OP_LESS"@),
        OpCode::Add => Some("OP_ADD"@),
        OpCode::Subtract => Some("OP_SUBTRACT"@),
        OpCode::Multiply => Some("OP_MULTIPLY"@),
        OpCode::Divide => Some("OP_DIVIDE"@),
        OpCode::IntDivide => Some("OP_INT_DIVIDE"@),
        OpCode::Not => Some("OP_NOT"@),
        OpCode::Negate => Some("OP_NEGATE"@),
        OpCode::Pop => Some("OP_POP"@),
        OpCode::Dup => Some("OP_DUP"@),
        OpCode::GetLocal => Some("OP_GET_LOCAL"@),
        OpCode::SetLocal => Some("OP_SET_LOCAL"@),
        OpCode::GetLocalLong => Some("OP_GET_LOCAL_LONG"@),
        OpCode::SetLocalLong => Some("OP_SET_LOCAL_LONG"@),
        OpCode::GetGlobal => Some("OP_GET_GLOBAL"@),
        OpCode::DefineGlobal => Some("OP_DEFINE_GLOBAL"@),
        OpCode::SetGlobal => Some("OP_SET_GLOBAL"@),
        OpCode::GetUpvalue => Some("OP_GET_UPVALUE"@),
        OpCode::SetUpvalue => Some("OP_SET_UPVALUE"@),
        OpCode::BuildList => Some("OP_BUILD_LIST"@),
        OpCode::BuildListLong => Some("OP_BUILD_LIST_LONG"@),
        OpCode::GetIndex => Some("OP_GET_INDEX"@),
        OpCode::SetIndex => Some("OP_SET_INDEX"@),
        OpCode::Print => Some("OP_PRINT"@),
        OpCode::Jump => Some("OP_JUMP"@),
        OpCode::JumpIfFalse => Some("OP_JUMP_IF_FALSE"@),
        OpCode::Loop => Some("OP_LOOP"@),
        OpCode::Call => Some("OP_CALL"@),
        OpCode::Closure => Some("OP_CLOSURE"@),
        OpCode::ClosureLong => Some("OP_CLOSURE_LONG"@),
        OpCode::CloseUpvalue => Some("OP_CLOSE_UPVALUE"@),
        OpCode::Return => Some("OP_RETURN"@),
        _ => None,
    }
}

fn name_of(op: OpCode) -> (name: Option<&'static str>)
    ensures
        match name {
            Some(name) => listed_name(op) == Some(name@),
            None => listed_name(op) is None,
        },
{
    match op {
        OpCode::Constant => Some("OP_CONSTANT"),
        OpCode::ConstantLong => Some("OP_CONSTANT_LONG"),
        OpCode::Nil => Some("OP_NIL"),
        OpCode::True => Some("OP_TRUE"),
        OpCode::False => Some("OP_FALSE"),
        OpCode::Equal => Some("OP_EQUAL"),
        OpCode::Greater => Some("OP_GREATER"),
        OpCode::Less => Some("OP_LESS"),
        OpCode::Add => Some("OP_ADD"),
        OpCode::Subtract => Some("OP_SUBTRACT"),
        OpCode::Multiply => Some("OP_MULTIPLY"),
        OpCode::Divide => Some("OP_DIVIDE"),
        OpCode::IntDivide => Some("OP_INT_DIVIDE"),
        OpCode::Not => Some("OP_NOT"),
        OpCode::Negate => Some("OP_NEGATE"),
        OpCode::Pop => Some("OP_POP"),
        OpCode::Dup => Some("OP_DUP"),
        OpCode::GetLocal => Some("OP_GET_LOCAL"),
        OpCode::SetLocal => Some("OP_SET_LOCAL"),
        OpCode::GetLocalLong => Some("OP_GET_LOCAL_LONG"),
        OpCode::SetLocalLong => Some("OP_SET_LOCAL_LONG"),
        OpCode::GetGlobal => Some("OP_GET_GLOBAL"),
        OpCode::DefineGlobal => Some("OP_DEFINE_GLOBAL"),
        OpCode::SetGlobal => Some("OP_SET_GLOBAL"),
        OpCode::GetUpvalue => Some("OP_GET_UPVALUE"),
        OpCode::SetUpvalue => Some("OP_SET_UPVALUE"),
        OpCode::BuildList => Some("OP_BUILD_LIST"),
        OpCode::BuildListLong => Some("OP_BUILD_LIST_LONG"),
        OpCode::GetIndex => Some("OP_GET_INDEX"),
        OpCode::SetIndex => Some("OP_SET_INDEX"),
        OpCode::Print => Some("OP_PRINT"),
        OpCode::Jump => Some("OP_JUMP"),
        OpCode::JumpIfFalse => Some("OP_JUMP_IF_FALSE"),
        OpCode::Loop => Some("OP_LOOP"),
        OpCode::Call => Some("OP_CALL"),
        OpCode::Closure => Some("OP_CLOSURE"),
        OpCode::ClosureLong => Some("OP_CLOSURE_LONG"),
        OpCode::CloseUpvalue => Some("OP_CLOSE_UPVALUE"),
        OpCode::Return => Some("OP_RETURN"),
        _ => None,
    }
}

/// `n` times the same scalar.
pub open spec fn filling(c: char, n: nat) -> Seq<char> {
    Seq::new(n, |i: int| c)
}

/// A text with a filling in front, as wide as it has to be.
pub open spec fn padded(text: Seq<char>, width: int, c: char) -> Seq<char> {
    if text.len() < width {
        filling(c, (width - text.len()) as nat) + text
    } else {
        text
    }
}

/// A text with spaces behind it, as wide as it has to be.
pub open spec fn spaced(text: Seq<char>, width: int) -> Seq<char> {
    if text.len() < width {
        text + filling(' ', (width - text.len()) as nat)
    } else {
        text
    }
}

fn fill(text: &mut String, c: char, n: usize)
    ensures
        final(text)@ == old(text)@ + filling(c, n as nat),
{
    let ghost before = text@;
    let mut i: usize = 0;
    assert(before + filling(c, 0) =~= before);
    while i < n
        invariant
            i <= n,
            text@ == before + filling(c, i as nat),
        decreases n - i,
    {
        text.push(c);
        i += 1;
        assert(text@ =~= before + filling(c, i as nat));
    }
}

fn append_number(text: &mut String, n: usize, width: usize, c: char)
    requires
        width < 100,
    ensures
        final(text)@ == old(text)@ + padded(decimal(n as nat), width as int, c),
{
    let ghost before = text@;
    let digits = decimal_text(n);
    let len: usize = crate::text::chars_of(digits.as_str()).len();
    if len < width {
        fill(text, c, width - len);
    }
    text.append(digits.as_str());
    assert(text@ =~= before + padded(decimal(n as nat), width as int, c));
}

fn append_name(text: &mut String, name: &str)
    ensures
        final(text)@ == old(text)@ + spaced(name@, 16),
{
    let ghost before = text@;
    text.append(name);
    let len: usize = crate::text::chars_of(name).len();
    if len < 16 {
        fill(text, ' ', 16 - len);
    }
    assert(text@ =~= before + spaced(name@, 16));
}

/// The beginning of a line: the offset, and the source line unless it is that
/// of the byte before.
pub open spec fn line_start(chunk: Chunk, offset: int) -> Seq<char> {
    let line = chunk.spans@[offset].start.line;
    padded(decimal(offset as nat), 4, '0') + " "@ + (if offset > 0 && chunk.spans@[offset
        - 1].start.line == line {
        "   | "@
    } else {
        padded(decimal(line as nat), 4, '0') + " "@
    })
}

/// Where a jump goes.
pub open spec fn jump_target(offset: int, distance: int, forward: bool) -> int {
    if forward {
        offset + 3 + distance
    } else {
        offset + 3 - distance
    }
}

/// A name and a number, in columns.
pub open spec fn operand_text(name: Seq<char>, n: nat) -> Seq<char> {
    spaced(name, 16) + " "@ + padded(decimal(n), 4, ' ')
}

fn append_operand(text: &mut String, name: &str, n: usize)
    ensures
        final(text)@ == old(text)@ + operand_text(name@, n as nat),
{
    let ghost before = text@;
    append_name(text, name);
    text.append(" ");
    append_number(text, n, 4, ' ');
    assert(text@ =~= before + operand_text(name@, n as nat));
}

/// The rest of the first line of an instruction.
pub open spec fn line_rest(
    heap: HeapState,
    texts: NumberTexts,
    chunk: Chunk,
    offset: int,
) -> Seq<char> {
    let code = chunk.code@;
    let byte = byte_at(code, offset);
    match op_of(byte) {
        None => "Unknown opcode "@ + decimal(byte as nat),
        Some(op) => match listed_name(op) {
            None => "Unknown opcode "@ + decimal(byte as nat),
            Some(name) => {
                let short = short_operand(byte_at(code, offset + 1), byte_at(code, offset + 2));
                let first = byte_at(code, offset + 1) as nat;
                let long = closure_index(code, offset, true) as nat;
                match operands_of(op) {
                    Operands::Byte => operand_text(name, first),
                    Operands::Short => operand_text(name, short as nat),
                    Operands::Constant => operand_text(name, first) + (" '"@ + shown(
                        heap,
                        texts,
                        chunk.constants@[first as int],
                    ) + "'"@),
                    Operands::LongConstant => operand_text(name, long) + (" '"@ + shown(
                        heap,
                        texts,
                        chunk.constants@[long as int],
                    ) + "'"@),
                    Operands::Jump { forward } => operand_text(name, offset as nat) + (" -> "@
                        + decimal(jump_target(offset, short, forward) as nat)),
                    Operands::Closure => operand_text(name, first) + (" "@ + shown(
                        heap,
                        texts,
                        chunk.constants@[first as int],
                    )),
                    Operands::LongClosure => operand_text(name, long) + (" "@ + shown(
                        heap,
                        texts,
                        chunk.constants@[long as int],
                    )),
                    _ => name,
                }
            },
        },
    }
}

/// The line of a captured variable.
pub open spec fn capture_line(code: Seq<u8>, at: int) -> Seq<char> {
    padded(decimal(at as nat), 4, '0') + "      |                     "@ + (if byte_at(code, at)
        == 1 {
        "local"@
    } else {
        "upvalue"@
    }) + " "@ + decimal(byte_at(code, at + 1) as nat)
}

/// The operands of an instruction are there, and so is the constant that it names.
pub open spec fn can_list(heap: HeapState, chunk: Chunk, offset: int) -> bool {
    let code = chunk.code@;
    let byte = byte_at(code, offset);
    &&& 0 <= offset < code.len()
    &&& code.len() == chunk.spans@.len()
    &&& match op_of(byte) {
        Some(op) => listed_name(op) is None || {
            &&& offset + instruction_length(heap, code, chunk.constants@, offset) <= code.len()
            &&& match operands_of(op) {
                Operands::Constant | Operands::Closure => byte_at(code, offset + 1)
                    < chunk.constants@.len(),
                Operands::LongConstant | Operands::LongClosure => closure_index(
                    code,
                    offset,
                    true,
                ) < chunk.constants@.len(),
                Operands::Jump { forward } => 0 <= jump_target(
                    offset,
                    short_operand(byte_at(code, offset + 1), byte_at(code, offset + 2)),
                    forward,
                ) <= usize::MAX,
                _ => true,
            }
        },
        None => true,
    }
}

/// Where the listing goes on.
pub open spec fn listed_next(heap: HeapState, chunk: Chunk, offset: int) -> int {
    match op_of(byte_at(chunk.code@, offset)) {
        Some(op) if listed_name(op) is Some => offset + instruction_length(
            heap,
            chunk.code@,
            chunk.constants@,
            offset,
        ),
        _ => offset + 1,
    }
}

/// How many captured variables an instruction lists, and where the first is.
pub open spec fn listed_captures(heap: HeapState, chunk: Chunk, offset: int) -> (nat, int) {
    match op_of(byte_at(chunk.code@, offset)) {
        Some(OpCode::Closure) => (
            captured_by(heap, chunk.constants@, closure_index(chunk.code@, offset, false)),
            offset + 2,
        ),
        Some(OpCode::ClosureLong) => (
            captured_by(heap, chunk.constants@, closure_index(chunk.code@, offset, true)),
            offset + 4,
        ),
        _ => (0, offset + 1),
    }
}

/// The lines of an instruction.
pub open spec fn listing(
    heap: HeapState,
    texts: NumberTexts,
    chunk: Chunk,
    offset: int,
) -> Seq<Seq<char>> {
    let (count, first) = listed_captures(heap, chunk, offset);
    seq![line_start(chunk, offset) + line_rest(heap, texts, chunk, offset)] + Seq::new(
        count,
        |i: int| capture_line(chunk.code@, first + 2 * i),
    )
}

fn append_shown(
    text: &mut String,
    heap: &Heap,
    texts: &NumberTexts,
    value: Value,
    before: &str,
    after: &str,
)
    requires
        heap.wf(),
    ensures
        final(text)@ == old(text)@ + (before@ + shown(heap@, *texts, value) + after@),
{
    let ghost start = text@;
    text.append(before);
    text.append(format_value(heap, texts, value).as_str());
    text.append(after);
    assert(text@ =~= start + (before@ + shown(heap@, *texts, value) + after@));
}

#[verifier::rlimit(40)]
fn list_rest(line: &mut String, heap: &Heap, texts: &NumberTexts, chunk: &Chunk, offset: usize)
    requires
        heap.wf(),
        can_list(heap@, *chunk, offset as int),
    ensures
        final(line)@ == old(line)@ + line_rest(heap@, *texts, *chunk, offset as int),
{
    let ghost before = line@;
    let code = &chunk.code;
    let byte: u8 = read(code, offset, 0);
    let op = OpCode::from_byte(byte);
    let name = match op {
        Some(op) => name_of(op),
        None => None,
    };
    let (op, name) = match (op, name) {
        (Some(op), Some(name)) => (op, name),
        _ => {
            line.append("Unknown opcode ");
            line.append(decimal_text(byte as usize).as_str());
            assert(line@ =~= before + ("Unknown opcode "@ + decimal(byte as nat)));
            return ;
        },
    };
    let first: usize = read(code, offset, 1) as usize;
    let short: usize = first + (read(code, offset, 2) as usize) * 256;
    let long: usize = closure_constant(code, offset, true);
    let ghost shown_first = shown(heap@, *texts, chunk.constants@[first as int]);
    let ghost shown_long = shown(heap@, *texts, chunk.constants@[long as int]);
    match operands(op) {
        Operands::Byte => {
            append_operand(line, name, first);
        },
        Operands::Short => {
            append_operand(line, name, short);
        },
        Operands::Constant => {
            append_operand(line, name, first);
            append_shown(line, heap, texts, chunk.constants[first], " '", "'");
            assert(line@ =~= before + (operand_text(name@, first as nat) + (" '"@ + shown_first
                + "'"@)));
        },
        Operands::LongConstant => {
            append_operand(line, name, long);
            append_shown(line, heap, texts, chunk.constants[long], " '", "'");
            assert(line@ =~= before + (operand_text(name@, long as nat) + (" '"@ + shown_long
                + "'"@)));
        },
        Operands::Jump { forward } => {
            append_operand(line, name, offset);
            line.append(" -> ");
            let target: usize = if forward {
                offset + 3 + short
            } else {
                if offset > short {
                    offset - short + 3
                } else {
                    3 - (short - offset)
                }
            };
            line.append(decimal_text(target).as_str());
            assert(line@ =~= before + (operand_text(name@, offset as nat) + (" -> "@ + decimal(
                target as nat,
            ))));
        },
        Operands::Closure => {
            append_operand(line, name, first);
            append_shown(line, heap, texts, chunk.constants[first], " ", "");
            proof {
                reveal_strlit("");
            }
            assert(line@ =~= before + (operand_text(name@, first as nat) + (" "@ + shown_first)));
        },
        Operands::LongClosure => {
            append_operand(line, name, long);
            append_shown(line, heap, texts, chunk.constants[long], " ", "");
            proof {
                reveal_strlit("");
            }
            assert(line@ =~= before + (operand_text(name@, long as nat) + (" "@ + shown_long)));
        },
        _ => {
            line.append(name);
        },
    }
}

/// Lists an instruction and tells where the next one begins. It does not
/// where operands or a constant are missing.
pub fn disassemble_instruction(heap: &Heap, texts: &NumberTexts, chunk: &Chunk, offset: usize) -> (listed:
    Option<(Vec<String>, usize)>)
    requires
        heap.wf(),
    ensures
        match listed {
            Some((lines, next)) => can_list(heap@, *chunk, offset as int) && contents(lines@)
                == listing(heap@, *texts, *chunk, offset as int) && next == listed_next(
                heap@,
                *chunk,
                offset as int,
            ),
            None => !can_list(heap@, *chunk, offset as int),
        },
{
    if !is_listable(heap, chunk, offset) {
        return None;
    }
    let size: usize = chunk.code.len();
    let mut line = String::new();
    append_number(&mut line, offset, 4, '0');
    line.append(" ");
    let number: usize = chunk.get_line(offset);
    if offset > 0 && chunk.get_line(offset - 1) == number {
        line.append("   | ");
    } else {
        append_number(&mut line, number, 4, '0');
        line.append(" ");
    }
    assert(line@ =~= line_start(*chunk, offset as int));
    list_rest(&mut line, heap, texts, chunk, offset);
    let mut lines: Vec<String> = Vec::new();
    lines.push(line);
    let op = OpCode::from_byte(read(&chunk.code, offset, 0));
    let (count, first): (usize, usize) = match op {
        Some(OpCode::Closure) => (
            capture_count(heap, &chunk.constants, closure_constant(&chunk.code, offset, false)),
            offset + 2,
        ),
        Some(OpCode::ClosureLong) => (
            capture_count(heap, &chunk.constants, closure_constant(&chunk.code, offset, true)),
            offset + 4,
        ),
        _ => (0, offset + 1),
    };
    let ghost all = listing(heap@, *texts, *chunk, offset as int);
    assert(contents(lines@) =~= all.take(1));
    let mut i: usize = 0;
    let mut at: usize = first;
    while i < count
        invariant
            i <= count,
            at == first + 2 * i,
            size == chunk.code@.len(),
            first + 2 * count <= size || count == 0,
            all == listing(heap@, *texts, *chunk, offset as int),
            (count as nat, first as int) == listed_captures(heap@, *chunk, offset as int),
            contents(lines@) == all.take(1 + i),
        decreases count - i,
    {
        let mut line = String::new();
        append_number(&mut line, at, 4, '0');
        line.append("      |                     ");
        if read(&chunk.code, at, 0) == 1 {
            line.append("local");
        } else {
            line.append("upvalue");
        }
        line.append(" ");
        line.append(decimal_text(read(&chunk.code, at, 1) as usize).as_str());
        assert(line@ =~= capture_line(chunk.code@, at as int));
        let ghost before = contents(lines@);
        lines.push(line);
        assert(contents(lines@) =~= before.push(line@));
        assert(all[1 + i] == capture_line(chunk.code@, first + 2 * i));
        assert(contents(lines@) =~= all.take(1 + i + 1));
        at += 2;
        i += 1;
    }
    assert(all.take(1 + i) =~= all);
    let known = match op {
        Some(op) => name_of(op).is_some(),
        None => false,
    };
    let next: usize = if known {
        match next_instruction(heap, chunk, offset) {
            Some(next) => next,
            None => return None,
        }
    } else {
        offset + 1
    };
    Some((lines, next))
}

fn is_listable(heap: &Heap, chunk: &Chunk, offset: usize) -> (yes: bool)
    requires
        heap.wf(),
    ensures
        yes == can_list(heap@, *chunk, offset as int),
{
    let code = &chunk.code;
    if offset >= code.len() || code.len() != chunk.spans.len() {
        return false;
    }
    let op = match OpCode::from_byte(read(code, offset, 0)) {
        Some(op) => op,
        None => return true,
    };
    if name_of(op).is_none() {
        return true;
    }
    match next_instruction(heap, chunk, offset) {
        Some(next) => {
            if next > code.len() {
                return false;
            }
        },
        None => return false,
    }
    let first: usize = read(code, offset, 1) as usize;
    match operands(op) {
        Operands::Constant | Operands::Closure => first < chunk.constants.len(),
        Operands::LongConstant | Operands::LongClosure => closure_constant(code, offset, true)
            < chunk.constants.len(),
        Operands::Jump { forward } => {
            let short: usize = first + (read(code, offset, 2) as usize) * 256;
            if forward {
                offset <= usize::MAX - 3 && short <= usize::MAX - 3 - offset
            } else {
                short <= 3 || short - 3 <= offset
            }
        },
        _ => true,
    }
}

/// The lines of a chunk from an offset on.
pub open spec fn listing_from(
    heap: HeapState,
    texts: NumberTexts,
    chunk: Chunk,
    offset: int,
) -> Seq<Seq<char>>
    decreases chunk.code@.len() - offset,
{
    if offset < 0 || offset >= chunk.code@.len() || !can_list(heap, chunk, offset) || listed_next(
        heap,
        chunk,
        offset,
    ) <= offset || listed_next(heap, chunk, offset) > chunk.code@.len() {
        Seq::empty()
    } else {
        listing(heap, texts, chunk, offset) + listing_from(
            heap,
            texts,
            chunk,
            listed_next(heap, chunk, offset),
        )
    }
}

/// Lists a chunk under a name, as far as its code can be listed.
pub fn disassemble_chunk(heap: &Heap, texts: &NumberTexts, chunk: &Chunk, name: &str) -> (lines: Vec<
    String,
>)
    requires
        heap.wf(),
    ensures
        contents(lines@) == seq!["== "@ + name@ + " =="@] + listing_from(heap@, *texts, *chunk, 0),
{
    let mut title = "== ".to_owned();
    title.append(name);
    title.append(" ==");
    let ghost head = seq![title@];
    let mut lines: Vec<String> = Vec::new();
    lines.push(title);
    let mut offset: usize = 0;
    let ghost all = listing_from(heap@, *texts, *chunk, 0);
    assert(contents(lines@) + all =~= head + all);
    while offset < chunk.code.len()
        invariant_except_break
            contents(lines@) + listing_from(heap@, *texts, *chunk, offset as int) == head + all,
        invariant
            heap.wf(),
        ensures
            contents(lines@) == head + all,
        decreases chunk.code@.len() - offset,
    {
        match disassemble_instruction(heap, texts, chunk, offset) {
            Some((more, next)) => {
                if next > chunk.code.len() || next <= offset {
                    assert(listing_from(heap@, *texts, *chunk, offset as int) =~= Seq::empty());
                    assert(contents(lines@) + Seq::empty() =~= contents(lines@));
                    break;
                }
                let ghost before = contents(lines@);
                let ghost rest = listing_from(heap@, *texts, *chunk, next as int);
                let mut more = more;
                let ghost added = contents(more@);
                let ghost kept = lines@;
                lines.append(&mut more);
                assert(contents(lines@) =~= before + added);
                assert(before + (added + rest) =~= before + added + rest);
                offset = next;
            },
            None => {
                assert(listing_from(heap@, *texts, *chunk, offset as int) =~= Seq::empty());
                assert(contents(lines@) + Seq::empty() =~= contents(lines@));
                break;
            },
        }
        if offset >= chunk.code.len() {
            assert(listing_from(heap@, *texts, *chunk, offset as int) =~= Seq::empty());
            assert(contents(lines@) + Seq::empty() =~= contents(lines@));
            break;
        }
    }
    lines
}

} // verus!
