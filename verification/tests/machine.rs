use rlox::chunk::{Chunk, OpCode};
use rlox::debug_info::FunctionDebugInfo;
use rlox::disassembly::{disassemble_chunk, disassemble_instruction};
use rlox::format::{format_value, NumberTexts};
use rlox::interpreter::advance;
use rlox::machine::{CallFrame, Fault};
use rlox::object::{Function, Object, UpvalueCell};
use rlox::value::Value;
use rlox::vm::{Step, VM};
use rlox::{
    ActivationId, Arithmetic, ArithmeticOp, InterpretResult, Interpreter, RecordingHost,
    RevisionId, SourceDocument, SourceId, SourceSpan, TextPosition,
};

struct Floats;

impl Arithmetic for Floats {
    fn parse(&self, lexeme: &str) -> u64 {
        lexeme.parse::<f64>().unwrap().to_bits()
    }

    fn compute(&self, op: ArithmeticOp, left: u64, right: u64) -> u64 {
        let (a, b) = (f64::from_bits(left), f64::from_bits(right));
        let result = match op {
            ArithmeticOp::Add => a + b,
            ArithmeticOp::Subtract => a - b,
            ArithmeticOp::Multiply => a * b,
            ArithmeticOp::Divide => a / b,
            ArithmeticOp::IntDivide => (a / b).trunc(),
        };
        result.to_bits()
    }

    fn text(&self, bits: u64) -> String {
        f64::from_bits(bits).to_string()
    }

    fn clock(&self) -> u64 {
        1.5f64.to_bits()
    }
}

fn span(line: usize) -> SourceSpan {
    let position = TextPosition {
        byte_offset: 0,
        line,
        column: 1,
    };
    SourceSpan {
        source_id: SourceId(1),
        revision: RevisionId(1),
        start: position,
        end: position,
    }
}

fn number(value: f64) -> Value {
    Value::Number(value.to_bits())
}

fn text(vm: &mut VM, value: &str) -> Value {
    Value::Obj(vm.heap.intern(value.to_string()))
}

fn function(vm: &mut VM, arity: usize, code: Vec<u8>, constants: Vec<Value>) -> usize {
    let spans = vec![span(3); code.len()];
    vm.heap.allocate(Object::Function(Function {
        arity,
        upvalue_count: 0,
        chunk: Chunk {
            code,
            spans,
            constants,
        },
        debug_info: FunctionDebugInfo::default(),
        name: None,
    }))
}

fn closure(vm: &mut VM, function: usize) -> usize {
    vm.heap.allocate(Object::Closure {
        function,
        upvalues: Vec::new(),
    })
}

/// A machine about to run some code, with values on its stack.
fn machine(vm: &mut VM, code: Vec<u8>, constants: Vec<Value>, stack: Vec<Value>) {
    let function = function(vm, 0, code, constants);
    let closure = closure(vm, function);
    vm.stack.push(Value::Obj(closure));
    vm.frames.push(CallFrame {
        closure,
        ip: 0,
        base: 0,
        activation_id: ActivationId(1),
        call_site: None,
        call_site_offset: None,
    });
    vm.stack.extend(stack);
}

fn step(vm: &mut VM) {
    let result = advance(vm, &Floats).0;
    assert!(matches!(result, Ok(Step::Continue)), "{result:?}");
}

fn fault(vm: &mut VM) -> String {
    match advance(vm, &Floats).0 {
        Err(fault) => vm.fault_text(fault),
        other => panic!("expected a fault, got {other:?}"),
    }
}

fn items(vm: &VM, list: Value) -> Vec<Value> {
    match vm.heap.get(list.as_obj()) {
        Object::List(items) => items.clone(),
        other => panic!("not a list: {other:?}"),
    }
}

fn list(vm: &mut VM, values: &[f64]) -> Value {
    let items = values.iter().map(|value| number(*value)).collect();
    Value::Obj(vm.heap.allocate(Object::List(items)))
}

/// Calls a method of a list with arguments.
fn call(vm: &mut VM, method: &str, list: Value, arguments: Vec<Value>) {
    let name = text(vm, method);
    let count = arguments.len() as u8;
    let mut stack = vec![list];
    stack.extend(arguments);
    machine(vm, vec![OpCode::Invoke.byte(), 0, count], vec![name], stack);
}

#[test]
fn list_methods_change_the_list_and_leave_a_result() {
    let mut vm = VM::new();
    let values = list(&mut vm, &[1.0, 2.0]);
    call(&mut vm, "append", values, vec![number(3.0)]);
    step(&mut vm);
    assert_eq!(vm.peek(0), Some(Value::Nil));
    assert_eq!(items(&vm, values), [number(1.0), number(2.0), number(3.0)]);

    let mut vm = VM::new();
    let values = list(&mut vm, &[1.0, 2.0]);
    call(&mut vm, "pop", values, Vec::new());
    step(&mut vm);
    assert_eq!(vm.peek(0), Some(number(2.0)));
    assert_eq!(items(&vm, values), [number(1.0)]);

    let mut vm = VM::new();
    let values = list(&mut vm, &[]);
    call(&mut vm, "pop", values, Vec::new());
    step(&mut vm);
    assert_eq!(vm.peek(0), Some(Value::Nil));

    let mut vm = VM::new();
    let values = list(&mut vm, &[5.0; 7]);
    call(&mut vm, "len", values, Vec::new());
    step(&mut vm);
    assert_eq!(vm.peek(0), Some(number(7.0)));

    for (index, left) in [
        (0.0, [2.0, 3.0]),
        (1.9, [1.0, 3.0]),
        (-1.0, [1.0, 2.0]),
        (-3.0, [2.0, 3.0]),
        (f64::NAN, [2.0, 3.0]),
    ] {
        let mut vm = VM::new();
        let values = list(&mut vm, &[1.0, 2.0, 3.0]);
        call(&mut vm, "delete", values, vec![number(index)]);
        step(&mut vm);
        assert_eq!(vm.peek(0), Some(Value::Nil));
        assert_eq!(items(&vm, values), left.map(number), "{index}");
    }
}

#[test]
fn list_methods_check_their_arguments() {
    for (method, arguments, message) in [
        ("append", vec![], "append() takes 1 argument."),
        ("pop", vec![Value::Nil], "pop() takes 0 arguments."),
        ("len", vec![Value::Nil], "len() takes 0 arguments."),
        ("delete", vec![], "delete() takes 1 argument."),
        (
            "delete",
            vec![Value::Nil],
            "delete() index must be a number.",
        ),
        ("delete", vec![number(2.0)], "List index out of bounds."),
        ("delete", vec![number(-3.0)], "List index out of bounds."),
        ("sort", vec![], "List has no method 'sort'."),
    ] {
        let mut vm = VM::new();
        let values = list(&mut vm, &[1.0, 2.0]);
        call(&mut vm, method, values, arguments);
        let before = vm.stack.clone();
        assert_eq!(fault(&mut vm), message);
        assert_eq!(vm.stack, before);
        assert_eq!(items(&vm, values), [number(1.0), number(2.0)]);
    }
}

#[test]
fn lists_are_joined_and_repeated() {
    let mut vm = VM::new();
    let a = list(&mut vm, &[1.0]);
    let b = list(&mut vm, &[2.0, 3.0]);
    machine(&mut vm, vec![OpCode::Add.byte()], vec![], vec![a, b]);
    step(&mut vm);
    let joined = vm.peek(0).unwrap();
    assert_eq!(items(&vm, joined), [1.0, 2.0, 3.0].map(number));

    for (count, expected) in [(2.9, 4), (0.0, 0), (-1.0, 0), (f64::NAN, 0)] {
        let mut vm = VM::new();
        let a = list(&mut vm, &[1.0, 2.0]);
        machine(
            &mut vm,
            vec![OpCode::Multiply.byte()],
            vec![],
            vec![a, number(count)],
        );
        step(&mut vm);
        let repeated = vm.peek(0).unwrap();
        assert_eq!(items(&vm, repeated).len(), expected, "{count}");
    }

    let mut vm = VM::new();
    let a = list(&mut vm, &[1.0, 2.0]);
    machine(
        &mut vm,
        vec![OpCode::Multiply.byte()],
        vec![],
        vec![a, number(f64::INFINITY)],
    );
    assert_eq!(fault(&mut vm), "List is too long.");
}

#[test]
fn classes_make_instances_with_fields_and_methods() {
    let mut vm = VM::new();
    let method = function(
        &mut vm,
        0,
        vec![OpCode::GetLocal.byte(), 0, OpCode::Return.byte()],
        vec![],
    );
    let method = closure(&mut vm, method);
    let class_name = text(&mut vm, "Point");
    let method_name = text(&mut vm, "me");
    let field_name = text(&mut vm, "x");
    let code = vec![
        OpCode::Class.byte(),
        0,
        OpCode::Constant.byte(),
        3,
        OpCode::Method.byte(),
        1,
        OpCode::Call.byte(),
        0,
        OpCode::Dup.byte(),
        OpCode::Constant.byte(),
        4,
        OpCode::SetProperty.byte(),
        2,
        OpCode::Pop.byte(),
        OpCode::Dup.byte(),
        OpCode::GetProperty.byte(),
        2,
        OpCode::Pop.byte(),
        OpCode::Invoke.byte(),
        1,
        0,
    ];
    machine(
        &mut vm,
        code,
        vec![
            class_name,
            method_name,
            field_name,
            Value::Obj(method),
            number(9.0),
        ],
        vec![],
    );
    for _ in 0..4 {
        step(&mut vm);
    }
    let instance = vm.peek(0).unwrap();
    assert!(matches!(
        vm.heap.get(instance.as_obj()),
        Object::Instance { .. }
    ));
    assert_eq!(
        format_value(&vm.heap, &NumberTexts::new(), instance),
        "Point instance"
    );
    for _ in 0..5 {
        step(&mut vm);
    }
    step(&mut vm);
    assert_eq!(vm.peek(0), Some(number(9.0)));
    step(&mut vm);
    step(&mut vm);
    assert_eq!(vm.frames.len(), 2);
    step(&mut vm);
    step(&mut vm);
    assert_eq!(vm.frames.len(), 1);
    assert_eq!(vm.peek(0), Some(instance));
}

#[test]
fn inherited_methods_are_bound_through_the_superclass() {
    let mut vm = VM::new();
    let method = function(&mut vm, 0, vec![OpCode::Nil.byte()], vec![]);
    let method = closure(&mut vm, method);
    let base = text(&mut vm, "Base");
    let derived = text(&mut vm, "Derived");
    let name = text(&mut vm, "m");
    let code = vec![
        OpCode::Class.byte(),
        0,
        OpCode::Constant.byte(),
        3,
        OpCode::Method.byte(),
        2,
        OpCode::Class.byte(),
        1,
        OpCode::Inherit.byte(),
        OpCode::GetSuper.byte(),
        2,
    ];
    machine(
        &mut vm,
        code,
        vec![base, derived, name, Value::Obj(method)],
        vec![],
    );
    for _ in 0..5 {
        step(&mut vm);
    }
    vm.stack.insert(1, number(1.0));
    step(&mut vm);
    let bound = vm.peek(0).unwrap();
    assert!(matches!(
        vm.heap.get(bound.as_obj()),
        Object::BoundMethod { method: found, .. } if *found == method
    ));

    let mut vm = VM::new();
    machine(
        &mut vm,
        vec![OpCode::Inherit.byte()],
        vec![],
        vec![Value::Nil, Value::Nil],
    );
    assert_eq!(fault(&mut vm), "Superclass must be a class.");
}

#[test]
fn faults_of_objects_name_what_is_missing() {
    for (code, stack, message) in [
        (
            vec![OpCode::GetProperty.byte(), 0],
            vec![Value::Nil],
            "Only instances have properties.",
        ),
        (
            vec![OpCode::SetProperty.byte(), 0],
            vec![Value::Nil, Value::Nil],
            "Only instances have fields.",
        ),
        (
            vec![OpCode::Invoke.byte(), 0, 0],
            vec![Value::Nil],
            "Only instances have methods.",
        ),
        (
            vec![OpCode::Call.byte(), 0],
            vec![Value::Nil],
            "Can only call functions and classes.",
        ),
        (
            vec![OpCode::Negate.byte()],
            vec![Value::Nil],
            "Operand must be a number.",
        ),
        (
            vec![OpCode::Less.byte()],
            vec![Value::Nil, number(1.0)],
            "Operands must be numbers.",
        ),
        (
            vec![OpCode::Add.byte()],
            vec![Value::Nil, number(1.0)],
            "Operands must be two numbers or two strings.",
        ),
        (
            vec![OpCode::GetIndex.byte()],
            vec![Value::Nil, number(1.0)],
            "Only lists can be subscripted.",
        ),
        (
            vec![OpCode::GetGlobal.byte(), 0],
            vec![],
            "Undefined variable 'name'.",
        ),
        (vec![255], vec![], "Malformed bytecode."),
        (vec![OpCode::Constant.byte()], vec![], "Malformed bytecode."),
    ] {
        let mut vm = VM::new();
        let name = text(&mut vm, "name");
        machine(&mut vm, code, vec![name], stack);
        assert_eq!(fault(&mut vm), message);
    }
    let mut vm = VM::new();
    let class_name = text(&mut vm, "C");
    let name = text(&mut vm, "name");
    machine(
        &mut vm,
        vec![
            OpCode::Class.byte(),
            0,
            OpCode::Call.byte(),
            0,
            OpCode::GetProperty.byte(),
            1,
        ],
        vec![class_name, name],
        vec![],
    );
    step(&mut vm);
    step(&mut vm);
    assert_eq!(fault(&mut vm), "Undefined property 'name'.");
    assert_eq!(
        vm.fault_text(Fault::WrongArity {
            expected: 10,
            got: 0
        }),
        "Expected 10 arguments but got 0."
    );
}

#[test]
fn garbage_is_what_cannot_be_reached() {
    let mut vm = VM::new();
    let inner = list(&mut vm, &[1.0]);
    let outer = Value::Obj(vm.heap.allocate(Object::List(vec![inner])));
    let lost = list(&mut vm, &[2.0]);
    let cell = vm
        .heap
        .allocate(Object::Upvalue(UpvalueCell::Closed { value: inner }));
    let lost_text = text(&mut vm, "lost");
    machine(&mut vm, vec![OpCode::Nil.byte()], vec![], vec![outer]);
    let closure = vm.frames[0].closure;
    let places = vm.heap.len();

    vm.collect_garbage();

    assert_eq!(vm.heap.len(), places);
    assert!(matches!(vm.heap.get(outer.as_obj()), Object::List(_)));
    assert!(matches!(vm.heap.get(inner.as_obj()), Object::List(_)));
    assert!(matches!(vm.heap.get(closure), Object::Closure { .. }));
    assert!(matches!(vm.heap.get(lost.as_obj()), Object::Free));
    assert!(matches!(vm.heap.get(lost_text.as_obj()), Object::Free));
    assert!(matches!(vm.heap.get(cell), Object::Free));
    assert!(matches!(vm.heap.get(vm.init), Object::Text { .. }));
    let again = text(&mut vm, "lost");
    assert_ne!(again, lost_text);
    assert_eq!(text(&mut vm, "lost"), again);
    step(&mut vm);
}

#[test]
fn chunks_are_listed_line_by_line() {
    let mut vm = VM::new();
    let name = text(&mut vm, "greeting");
    let captured = vm.heap.allocate(Object::Function(Function {
        arity: 0,
        upvalue_count: 2,
        chunk: Chunk::new(),
        debug_info: FunctionDebugInfo::default(),
        name: Some(name.as_obj()),
    }));
    let code = vec![
        OpCode::Constant.byte(),
        0,
        OpCode::GetLocal.byte(),
        12,
        OpCode::JumpIfFalse.byte(),
        2,
        1,
        OpCode::Loop.byte(),
        4,
        0,
        OpCode::Closure.byte(),
        1,
        1,
        3,
        0,
        4,
        255,
        OpCode::Return.byte(),
    ];
    let mut spans = vec![span(3); code.len()];
    spans[17] = span(12);
    let chunk = Chunk {
        code,
        spans,
        constants: vec![name, Value::Obj(captured)],
    };
    let texts = NumberTexts::new();
    assert_eq!(
        disassemble_chunk(&vm.heap, &texts, &chunk, "test"),
        [
            "== test ==",
            "0000 0003 OP_CONSTANT         0 'greeting'",
            "0002    | OP_GET_LOCAL       12",
            "0004    | OP_JUMP_IF_FALSE    4 -> 265",
            "0007    | OP_LOOP             7 -> 6",
            "0010    | OP_CLOSURE          1 <fn greeting>",
            "0012      |                     local 3",
            "0014      |                     upvalue 4",
            "0016    | Unknown opcode 255",
            "0017 0012 OP_RETURN",
        ]
    );
    assert_eq!(
        disassemble_instruction(&vm.heap, &texts, &chunk, 10).map(|(_, next)| next),
        Some(16)
    );
    assert!(disassemble_instruction(&vm.heap, &texts, &chunk, 18).is_none());
}

fn run(source: &str) -> (InterpretResult, Vec<String>) {
    let mut host = RecordingHost::default();
    let document = SourceDocument::new(SourceId(1), RevisionId(1), "test.lox", source);
    let status = Interpreter::new().run(document, &Floats, &mut host);
    (status, host.output().to_vec())
}

#[test]
fn values_are_shown_within_bounds() {
    let (status, output) = run(
        "var a = [nil]; a[0] = a; print a; print [1, 2.5, \"x\", nil, true]; \
         fun f() {} print f; print clock; print 1 / 0; print 7 \\ 2;",
    );
    assert_eq!(status, InterpretResult::Completed);
    assert_eq!(
        output,
        [
            "[<cycle>]",
            "[1, 2.5, x, nil, true]",
            "<fn f>",
            "<native fn>",
            "inf",
            "3"
        ]
    );

    let mut nested = String::from("var a = [1];");
    for _ in 0..70 {
        nested.push_str("a = [a];");
    }
    nested.push_str("print a;");
    let (_, output) = run(&nested);
    assert_eq!(
        output,
        [format!("{}<depth-limit>{}", "[".repeat(64), "]".repeat(64))]
    );

    let mut long = String::from("var s = \"0123456789abcdef\";");
    for _ in 0..10 {
        long.push_str("s = s + s;");
    }
    long.push_str("print s; print [s, s];");
    let (_, output) = run(&long);
    for text in output {
        assert_eq!(text.len(), 8192);
        assert!(text.ends_with("<truncated>"));
    }
}

#[test]
fn globals_stay_between_runs_and_closures_keep_their_variables() {
    let mut interpreter = Interpreter::new();
    let mut host = RecordingHost::default();
    for source in [
        "fun make() { var i = 0; fun count() { i = i + 1; return i; } return count; }",
        "var a = make(); var b = make();",
        "print a(); print a(); print b();",
        "print missing;",
        "print a();",
    ] {
        interpreter.interpret(source, &Floats, &mut host);
    }
    assert_eq!(host.output(), ["1", "2", "1", "3"]);
    assert_eq!(host.diagnostics().len(), 1);
}
