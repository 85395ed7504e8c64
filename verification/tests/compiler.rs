use std::collections::HashSet;

use rlox::chunk::{Chunk, OpCode};
use rlox::compiler::{compile, number_lexemes};
use rlox::disassembly::next_instruction;
use rlox::object::{Function, Object};
use rlox::value::Value;
use rlox::vm::VM;
use rlox::{
    Arithmetic, ArithmeticOp, BindingKind, DebugPointKind, Diagnostic, InterpretResult,
    Interpreter, RecordingHost, RevisionId, SourceDocument, SourceId, SourceSpan, TextPosition,
};

struct Floats;

impl Arithmetic for Floats {
    fn parse(&self, lexeme: &str) -> u64 {
        lexeme.parse::<f64>().unwrap().to_bits()
    }

    fn compute(&self, op: ArithmeticOp, left: u64, right: u64) -> u64 {
        let (a, b) = (f64::from_bits(left), f64::from_bits(right));
        let result = match op {
            ArithmeticOp::Add => a + b,
            ArithmeticOp::Subtract => a - b,
            ArithmeticOp::Multiply => a * b,
            ArithmeticOp::Divide => a / b,
            ArithmeticOp::IntDivide => (a / b).trunc(),
        };
        result.to_bits()
    }

    fn text(&self, bits: u64) -> String {
        f64::from_bits(bits).to_string()
    }

    fn clock(&self) -> u64 {
        1.5f64.to_bits()
    }
}

fn compile_result(source: &str) -> (VM, Option<usize>, Vec<Diagnostic>) {
    let document = SourceDocument::new(SourceId(41), RevisionId(7), "test.lox", source);
    let numbers = number_lexemes(&document)
        .iter()
        .map(|lexeme| Floats.parse(lexeme))
        .collect();
    let outcome = compile(&document, &numbers);
    let mut vm = VM::new();
    let script = outcome.program.map(|program| {
        assert!(vm.load_program(program));
        match vm.heap.get(vm.frames[0].closure) {
            Object::Closure { function, .. } => *function,
            other => panic!("not a closure: {other:?}"),
        }
    });
    (vm, script, outcome.diagnostics)
}

fn compile_success(source: &str) -> (VM, usize) {
    let (vm, function, diagnostics) = compile_result(source);
    assert!(
        diagnostics.is_empty(),
        "unexpected diagnostics: {diagnostics:?}"
    );
    (vm, function.expect("source should compile"))
}

fn function_ref(vm: &VM, function: usize) -> &Function {
    match vm.heap.get(function) {
        Object::Function(function) => function,
        other => panic!("not a function: {other:?}"),
    }
}

fn function_name(vm: &VM, function: usize) -> &str {
    match function_ref(vm, function).name {
        None => "<script>",
        Some(name) => match vm.heap.get(name) {
            Object::Text { text, .. } => text,
            other => panic!("not a string: {other:?}"),
        },
    }
}

fn direct_function(vm: &VM, function: usize, name: &str) -> usize {
    function_ref(vm, function)
        .chunk
        .constants
        .iter()
        .filter_map(|value| match value {
            Value::Obj(object) if matches!(vm.heap.get(*object), Object::Function(_)) => {
                Some(*object)
            }
            _ => None,
        })
        .find(|candidate| function_name(vm, *candidate) == name)
        .unwrap_or_else(|| panic!("missing function {name}"))
}

fn chunk_starts(vm: &VM, chunk: &Chunk) -> HashSet<usize> {
    let mut starts = HashSet::new();
    let mut offset = 0;
    while offset < chunk.code.len() {
        starts.insert(offset);
        offset = next_instruction(&vm.heap, chunk, offset).unwrap();
    }
    assert_eq!(offset, chunk.code.len(), "invalid compiler bytecode");
    starts
}

fn opcode_starts(vm: &VM, function: &Function) -> HashSet<usize> {
    chunk_starts(vm, &function.chunk)
}

fn assert_points_are_opcode_starts(vm: &VM, function: usize) {
    let starts = opcode_starts(vm, function_ref(vm, function));
    for point in &function_ref(vm, function).debug_info.points {
        assert!(
            starts.contains(&point.offset),
            "point {:?} is not at an opcode start",
            point
        );
    }
}

fn assert_golden_code(vm: &VM, function: usize, expected: &[u8]) {
    let chunk = &function_ref(vm, function).chunk;
    assert_eq!(chunk.code, expected);
    assert_eq!(chunk.spans.len(), chunk.code.len());
    chunk_starts(vm, chunk);
}

fn position_at(source: &str, byte_offset: usize) -> TextPosition {
    let mut line = 1;
    let mut column = 1;
    for scalar in source[..byte_offset].chars() {
        if scalar == '\n' {
            line += 1;
            column = 1;
        } else {
            column += 1;
        }
    }
    TextPosition {
        byte_offset,
        line,
        column,
    }
}

fn assert_point_span(
    vm: &VM,
    function: usize,
    source: &str,
    kind: DebugPointKind,
    expected: &str,
) {
    let start = source
        .find(expected)
        .unwrap_or_else(|| panic!("missing expected construct {expected:?}"));
    let end = start + expected.len();
    let point = function_ref(vm, function)
        .debug_info
        .points
        .iter()
        .find(|point| point.kind == kind && point.span.start.byte_offset == start)
        .unwrap_or_else(|| panic!("missing {kind:?} point at byte {start}"));
    assert_eq!(point.span.start, position_at(source, start));
    assert_eq!(point.span.end, position_at(source, end));
    assert_eq!(&source[start..end], expected);
}

#[test]
fn debug_points_preserve_distinct_same_line_statement_spans() {
    let source = "var a=1; a=a+1; print a;";
    let (vm, function) = compile_success(source);
    let points = &function_ref(&vm, function).debug_info.points;
    let statements: Vec<_> = points
        .iter()
        .filter(|point| point.kind == DebugPointKind::Statement)
        .collect();

    assert_eq!(statements.len(), 3);
    assert_eq!(
        statements
            .iter()
            .map(|point| &source[point.span.start.byte_offset..point.span.end.byte_offset])
            .collect::<Vec<_>>(),
        ["var a=1;", "a=a+1;", "print a;"]
    );
    assert!(statements.iter().all(|point| point.span.start.line == 1));
    assert_eq!(
        points
            .iter()
            .filter(|point| point.kind == DebugPointKind::FunctionEntry)
            .count(),
        1
    );
    assert_eq!(points[0].offset, 0);
    assert_eq!(points[1].offset, 0);
    assert_ne!(points[0].id, points[1].id);
    assert!(points.iter().all(|point| {
        point.span.source_id == SourceId(41) && point.span.revision == RevisionId(7)
    }));
    assert_points_are_opcode_starts(&vm, function);
}

#[test]
fn empty_function_has_only_an_entry_point() {
    let (vm, script) = compile_success("fun empty() {}\n");
    let empty = direct_function(&vm, script, "empty");

    assert_eq!(function_ref(&vm, empty).debug_info.points.len(), 1);
    assert_eq!(
        function_ref(&vm, empty).debug_info.points[0].kind,
        DebugPointKind::FunctionEntry
    );
    assert_eq!(function_ref(&vm, empty).debug_info.points[0].offset, 0);
}

#[test]
fn multiline_expression_has_one_statement_point() {
    let source = "\n// lead\nprint (1 +\n  2);\n";
    let (vm, function) = compile_success(source);
    let points = &function_ref(&vm, function).debug_info.points;
    let statements: Vec<_> = points
        .iter()
        .filter(|point| point.kind == DebugPointKind::Statement)
        .collect();

    assert_eq!(statements.len(), 1);
    assert_point_span(
        &vm, function,
        source,
        DebugPointKind::Statement,
        "print (1 +\n  2);",
    );
    assert_points_are_opcode_starts(&vm, function);
}

#[test]
fn declarations_functions_and_returns_use_full_construct_spans() {
    let source = "var global =\n  1;\nfun f(p) {\n  var local;\n  return\n    p;\n}\n";
    let (vm, script) = compile_success(source);
    let function = direct_function(&vm, script, "f");

    assert_point_span(
        &vm, script,
        source,
        DebugPointKind::Statement,
        "var global =\n  1;",
    );
    let function_construct = "fun f(p) {\n  var local;\n  return\n    p;\n}";
    assert_point_span(
        &vm, script,
        source,
        DebugPointKind::Statement,
        function_construct,
    );
    assert_point_span(
        &vm, function,
        source,
        DebugPointKind::FunctionEntry,
        function_construct,
    );
    assert_point_span(&vm, function, source, DebugPointKind::Statement, "var local;");
    assert_point_span(
        &vm, function,
        source,
        DebugPointKind::Statement,
        "return\n    p;",
    );
}

#[test]
fn assignment_if_else_and_nested_statement_spans_are_complete() {
    let source = "var a=0;\na = a +\n  1;\nif (a)\n  print 1;\nelse\n  print 2;\n";
    let (vm, function) = compile_success(source);

    assert_point_span(&vm, function, source, DebugPointKind::Statement, "a = a +\n  1;");
    assert_point_span(
        &vm, function,
        source,
        DebugPointKind::Statement,
        "if (a)\n  print 1;\nelse\n  print 2;",
    );
    assert_point_span(&vm, function, source, DebugPointKind::Statement, "print 1;");
    assert_point_span(&vm, function, source, DebugPointKind::Statement, "print 2;");
}

#[test]
fn while_switch_and_nested_block_spans_exclude_comments_and_braces() {
    let source = "while (false) {\n  // loop comment\n  print 1;\n}\nswitch (1) {\n  case 1: print 2;\n  default: {\n    // empty\n  }\n}\n{\n  // blank block\n}\n";
    let (vm, function) = compile_success(source);

    assert_point_span(
        &vm, function,
        source,
        DebugPointKind::Statement,
        "while (false) {\n  // loop comment\n  print 1;\n}",
    );
    assert_point_span(&vm, function, source, DebugPointKind::Statement, "print 1;");
    assert_point_span(
        &vm, function,
        source,
        DebugPointKind::Statement,
        "switch (1) {\n  case 1: print 2;\n  default: {\n    // empty\n  }\n}",
    );
    assert_point_span(&vm, function, source, DebugPointKind::Statement, "print 2;");
    assert_eq!(
        function_ref(&vm, function)
            .debug_info
            .points
            .iter()
            .filter(|point| point.kind == DebugPointKind::Statement)
            .count(),
        4
    );
}

#[test]
fn for_clause_and_body_spans_cover_only_present_executable_constructs() {
    let source = "for (var i = 0;\n     i < 2;\n     i = i + 1)\n  print i;\nfor (;;) {\n  // omitted\n}\n";
    let (vm, function) = compile_success(source);

    assert_point_span(
        &vm, function,
        source,
        DebugPointKind::LoopInitializer,
        "var i = 0;",
    );
    assert_point_span(&vm, function, source, DebugPointKind::LoopCondition, "i < 2;");
    assert_point_span(&vm, function, source, DebugPointKind::LoopIncrement, "i = i + 1");
    assert_point_span(&vm, function, source, DebugPointKind::Statement, "print i;");
    assert_eq!(
        function_ref(&vm, function)
            .debug_info
            .points
            .iter()
            .filter(|point| matches!(
                point.kind,
                DebugPointKind::LoopInitializer
                    | DebugPointKind::LoopCondition
                    | DebugPointKind::LoopIncrement
            ))
            .count(),
        3
    );
}

#[test]
fn for_clauses_and_body_have_distinct_semantic_points() {
    let (vm, function) = compile_success("for (var i=0; i<2; i=i+1) print i;\n");
    let points = &function_ref(&vm, function).debug_info.points;
    let kinds: Vec<_> = points.iter().map(|point| point.kind).collect();

    assert_eq!(
        kinds,
        [
            DebugPointKind::FunctionEntry,
            DebugPointKind::LoopInitializer,
            DebugPointKind::LoopCondition,
            DebugPointKind::LoopIncrement,
            DebugPointKind::Statement,
        ]
    );
    for point in points.iter().skip(1) {
        let opcode = function_ref(&vm, function).chunk.code[point.offset];
        assert!(!matches!(
            opcode,
            x if x == OpCode::Jump.byte()
                || x == OpCode::JumpIfFalse.byte()
                || x == OpCode::Loop.byte()
                || x == OpCode::Pop.byte()
                || x == OpCode::CloseUpvalue.byte()
        ));
    }
    assert_points_are_opcode_starts(&vm, function);
}

#[test]
fn omitted_for_clauses_do_not_create_points() {
    let (vm, function) = compile_success("for (;;) print 1;\n");
    let kinds: Vec<_> = function_ref(&vm, function).debug_info.points
        .iter()
        .map(|point| point.kind)
        .collect();

    assert_eq!(
        kinds,
        [DebugPointKind::FunctionEntry, DebugPointKind::Statement]
    );
}

#[test]
fn debug_points_decode_across_long_and_variable_width_instructions() {
    let mut source = String::from("fun outer(p) { fun inner() { print p; } return inner; }\n");
    for value in 0..260 {
        source.push_str(&format!("print {};\n", value + 1000));
    }
    let (vm, script) = compile_success(&source);
    let outer = direct_function(&vm, script, "outer");
    let inner = direct_function(&vm, outer, "inner");

    assert!(function_ref(&vm, script).chunk.code.contains(&(OpCode::ConstantLong.byte())));
    assert_points_are_opcode_starts(&vm, script);
    assert_points_are_opcode_starts(&vm, outer);
    assert_points_are_opcode_starts(&vm, inner);
}

#[test]
fn shadowed_and_reused_slots_have_distinct_binding_ids_and_exact_lifetimes() {
    let (vm, script) =
        compile_success("fun f(p) { { var a=1; print a; } { var a=2; print a; } }\n");
    let function = direct_function(&vm, script, "f");
    let info = &function_ref(&vm, function).debug_info;
    let parameter = info
        .bindings
        .iter()
        .find(|binding| binding.name == "p")
        .unwrap();
    let locals: Vec<_> = info
        .bindings
        .iter()
        .filter(|binding| binding.name == "a")
        .collect();

    assert_eq!(parameter.kind, BindingKind::Parameter);
    assert_eq!(parameter.live_start, 0);
    assert_eq!(locals.len(), 2);
    assert_eq!(locals[0].slot, locals[1].slot);
    assert_ne!(locals[0].id, locals[1].id);
    assert!(
        locals
            .iter()
            .all(|binding| binding.kind == BindingKind::Local)
    );
    assert!(locals.iter().all(|binding| {
        function_ref(&vm, function).chunk.code[binding.live_end] == OpCode::Pop.byte()
    }));
    assert_eq!(
        function_ref(&vm, function).chunk.code[parameter.live_end],
        OpCode::Nil.byte()
    );
}

#[test]
fn empty_function_parameters_include_the_entry_offset_only() {
    let (vm, script) = compile_success("fun empty(parameter) {}\n");
    let function = direct_function(&vm, script, "empty");
    let parameter = function_ref(&vm, function)
        .debug_info
        .bindings
        .iter()
        .find(|binding| binding.name == "parameter")
        .unwrap();

    assert_eq!(parameter.live_start, 0);
    assert_eq!(parameter.live_end, 1);
    assert_eq!(function_ref(&vm, function).chunk.code[0], OpCode::Nil.byte());
    assert_eq!(function_ref(&vm, function).chunk.code[1], OpCode::Return.byte());
}

#[test]
fn recursive_local_starts_after_complete_closure_and_keeps_capture_provenance() {
    let source = "fun outer() { var seed=1; fun recurse(n) { print seed; if (n>0) recurse(n-1); } recurse(1); }\n";
    let (vm, script) = compile_success(source);
    let outer = direct_function(&vm, script, "outer");
    let recurse = direct_function(&vm, outer, "recurse");
    let binding = function_ref(&vm, outer).debug_info.bindings
        .iter()
        .find(|binding| binding.name == "recurse")
        .unwrap();
    let closure_offset = opcode_starts(&vm, function_ref(&vm, outer))
        .into_iter()
        .find(|offset| function_ref(&vm, outer).chunk.code[*offset] == OpCode::Closure.byte())
        .unwrap();

    assert_eq!(function_ref(&vm, recurse).upvalue_count, 2);
    assert_eq!(binding.live_start, closure_offset + 6);
    let local_function_point = function_ref(&vm, outer).debug_info.points
        .iter()
        .find(|point| point.kind == DebugPointKind::Statement && point.offset == closure_offset)
        .expect("local function point should survive nested compilation");
    assert_eq!(
        &source[local_function_point.span.start.byte_offset
            ..local_function_point.span.end.byte_offset],
        "fun recurse(n) { print seed; if (n>0) recurse(n-1); }"
    );
    let upvalue = function_ref(&vm, recurse).debug_info.upvalues
        .iter()
        .find(|upvalue| upvalue.name == "recurse")
        .unwrap();
    assert_eq!(upvalue.binding_id, binding.id);
    assert_eq!(upvalue.name, "recurse");
    assert_eq!(upvalue.declaration, binding.declaration);
}

#[test]
fn transitive_open_and_closed_captures_keep_original_binding_metadata() {
    let (vm, script) = compile_success(
        "fun outer(p) { var a=1; fun middle() { fun inner() { print p; print a; } return inner; } return middle; }\n",
    );
    let outer = direct_function(&vm, script, "outer");
    let middle = direct_function(&vm, outer, "middle");
    let inner = direct_function(&vm, middle, "inner");
    let outer_bindings = &function_ref(&vm, outer).debug_info.bindings;
    let inner_upvalues = &function_ref(&vm, inner).debug_info.upvalues;

    for name in ["p", "a"] {
        let binding = outer_bindings
            .iter()
            .find(|binding| binding.name == name)
            .unwrap();
        let middle_capture = function_ref(&vm, middle).debug_info.upvalues
            .iter()
            .find(|upvalue| upvalue.name == name)
            .unwrap();
        let inner_capture = inner_upvalues
            .iter()
            .find(|upvalue| upvalue.name == name)
            .unwrap();
        assert_eq!(middle_capture.binding_id, binding.id);
        assert_eq!(inner_capture.binding_id, binding.id);
        assert_eq!(inner_capture.declaration, binding.declaration);
    }
}

fn capture_boundary_source(grandparent_bindings: usize) -> String {
    let mut source = String::from("fun grand() {");
    for index in 0..grandparent_bindings {
        source.push_str(&format!("var g{index}={index};"));
    }
    source.push_str("fun parent() {");
    for index in 0..254 {
        source.push_str(&format!("var p{index}={index};"));
    }
    source.push_str("fun child() {");
    for index in 0..grandparent_bindings {
        source.push_str(&format!("print g{index};"));
    }
    for index in 0..254 {
        source.push_str(&format!("print p{index};"));
    }
    source.push_str("print child;");
    source.push_str("} return child; } return parent; }");
    source
}

#[test]
fn capture_table_accepts_256_entries_and_slot_255_without_wrapping() {
    let source = capture_boundary_source(1);
    let (vm, script) = compile_success(&source);
    let grand = direct_function(&vm, script, "grand");
    let parent = direct_function(&vm, grand, "parent");
    let child = direct_function(&vm, parent, "child");

    assert_eq!(function_ref(&vm, child).upvalue_count, 256);
    assert_eq!(function_ref(&vm, child).debug_info.upvalues.len(), 256);
    assert_eq!(function_ref(&vm, child).debug_info.upvalues[255].index, 255);
    let closure_offset = opcode_starts(&vm, function_ref(&vm, parent))
        .into_iter()
        .find(|offset| function_ref(&vm, parent).chunk.code[*offset] == OpCode::Closure.byte())
        .unwrap();
    assert_eq!(
        function_ref(&vm, parent).chunk.code[closure_offset + 2 + 255 * 2],
        1
    );
    assert_eq!(
        function_ref(&vm, parent).chunk.code[closure_offset + 3 + 255 * 2],
        255
    );
}

#[test]
fn duplicate_capture_at_the_limit_reuses_the_existing_entry() {
    let mut source = capture_boundary_source(1);
    source = source.replacen("} return child;", "print p253; } return child;", 1);
    let (vm, script) = compile_success(&source);
    let grand = direct_function(&vm, script, "grand");
    let parent = direct_function(&vm, grand, "parent");
    let child = direct_function(&vm, parent, "child");

    assert_eq!(function_ref(&vm, child).upvalue_count, 256);
    assert_eq!(function_ref(&vm, child).debug_info.upvalues.len(), 256);
}

#[test]
fn captured_local_ends_immediately_before_close_upvalue() {
    let (vm, script) =
        compile_success("fun outer() { { var captured=1; fun inner(){ print captured; } } }\n");
    let outer = direct_function(&vm, script, "outer");
    let binding = function_ref(&vm, outer).debug_info.bindings
        .iter()
        .find(|binding| binding.name == "captured")
        .unwrap();

    assert_eq!(
        function_ref(&vm, outer).chunk.code[binding.live_end],
        OpCode::CloseUpvalue.byte()
    );
}

#[test]
fn capture_table_rejects_the_257th_entry_before_u8_conversion() {
    let source = capture_boundary_source(2);
    let (_, function, diagnostics) = compile_result(&source);

    assert!(function.is_none());
    assert!(
        diagnostics
            .iter()
            .any(|diagnostic| diagnostic.message == "Too many closure variables in function.")
    );
}

#[test]
fn captured_slot_rejects_first_index_beyond_u8() {
    let mut source = String::from("fun outer() {");
    for index in 0..256 {
        source.push_str(&format!("var v{index}={index};"));
    }
    source.push_str("fun inner() { print v255; }}");
    let (_, function, diagnostics) = compile_result(&source);

    assert!(function.is_none());
    assert!(
        diagnostics
            .iter()
            .any(|diagnostic| diagnostic.message == "Too many local variables in function.")
    );
}

#[test]
fn metadata_does_not_change_bytecode_or_runtime_output() {
    let source = "var a=1; a=a+1; print a;";
    let (vm, function) = compile_success(source);
    assert_eq!(
        &function_ref(&vm, function).chunk.code,
        &[
            OpCode::Constant.byte(),
            1,
            OpCode::DefineGlobal.byte(),
            0,
            OpCode::GetGlobal.byte(),
            0,
            OpCode::Constant.byte(),
            1,
            OpCode::Add.byte(),
            OpCode::SetGlobal.byte(),
            0,
            OpCode::Pop.byte(),
            OpCode::GetGlobal.byte(),
            0,
            OpCode::Print.byte(),
            OpCode::Nil.byte(),
            OpCode::Return.byte(),
        ]
    );

    let document = SourceDocument::new(SourceId(41), RevisionId(7), "test.lox", source);
    let mut host = RecordingHost::default();
    assert_eq!(
        Interpreter::new().run(document, &Floats, &mut host),
        InterpretResult::Completed
    );
    assert_eq!(host.output(), ["2"]);
    assert!(host.diagnostics().is_empty());
}

#[test]
fn golden_jumps_loops_and_logical_operators_preserve_exact_bytes() {
    let (vm, while_function) = compile_success("while (false) print 1;");
    assert_golden_code(
        &vm, while_function,
        &[
            OpCode::False.byte(),
            OpCode::JumpIfFalse.byte(),
            7,
            0,
            OpCode::Pop.byte(),
            OpCode::Constant.byte(),
            0,
            OpCode::Print.byte(),
            OpCode::Loop.byte(),
            11,
            0,
            OpCode::Pop.byte(),
            OpCode::Nil.byte(),
            OpCode::Return.byte(),
        ],
    );

    let (vm, if_function) = compile_success("if (true) print 1; else print 2;");
    assert_golden_code(
        &vm, if_function,
        &[
            OpCode::True.byte(),
            OpCode::JumpIfFalse.byte(),
            7,
            0,
            OpCode::Pop.byte(),
            OpCode::Constant.byte(),
            0,
            OpCode::Print.byte(),
            OpCode::Jump.byte(),
            4,
            0,
            OpCode::Pop.byte(),
            OpCode::Constant.byte(),
            1,
            OpCode::Print.byte(),
            OpCode::Nil.byte(),
            OpCode::Return.byte(),
        ],
    );

    let (vm, logical_function) = compile_success("print true and false or true;");
    assert_golden_code(
        &vm, logical_function,
        &[
            OpCode::True.byte(),
            OpCode::JumpIfFalse.byte(),
            2,
            0,
            OpCode::Pop.byte(),
            OpCode::False.byte(),
            OpCode::JumpIfFalse.byte(),
            3,
            0,
            OpCode::Jump.byte(),
            2,
            0,
            OpCode::Pop.byte(),
            OpCode::True.byte(),
            OpCode::Print.byte(),
            OpCode::Nil.byte(),
            OpCode::Return.byte(),
        ],
    );
}

#[test]
fn golden_calls_lists_indexing_and_returns_preserve_exact_bytes() {
    let source = "fun id(x){ return x; } var a=[1,2]; a[0]=id(a[1]); print a[0];";
    let (vm, script) = compile_success(source);
    let identity = direct_function(&vm, script, "id");

    assert_golden_code(
        &vm, script,
        &[
            OpCode::Closure.byte(),
            1,
            OpCode::DefineGlobal.byte(),
            0,
            OpCode::Constant.byte(),
            3,
            OpCode::Constant.byte(),
            4,
            OpCode::BuildList.byte(),
            2,
            OpCode::DefineGlobal.byte(),
            2,
            OpCode::GetGlobal.byte(),
            2,
            OpCode::Constant.byte(),
            5,
            OpCode::GetGlobal.byte(),
            0,
            OpCode::GetGlobal.byte(),
            2,
            OpCode::Constant.byte(),
            3,
            OpCode::GetIndex.byte(),
            OpCode::Call.byte(),
            1,
            OpCode::SetIndex.byte(),
            OpCode::Pop.byte(),
            OpCode::GetGlobal.byte(),
            2,
            OpCode::Constant.byte(),
            5,
            OpCode::GetIndex.byte(),
            OpCode::Print.byte(),
            OpCode::Nil.byte(),
            OpCode::Return.byte(),
        ],
    );
    assert_golden_code(
        &vm, identity,
        &[
            OpCode::GetLocal.byte(),
            1,
            OpCode::Return.byte(),
            OpCode::Nil.byte(),
            OpCode::Return.byte(),
        ],
    );
}

#[test]
fn golden_long_constants_and_lists_preserve_exact_bytes() {
    let mut constants_source = String::new();
    let mut constants_expected = Vec::new();
    for index in 0..=256usize {
        constants_source.push_str(&format!("print {index};"));
        if index <= u8::MAX as usize {
            constants_expected.extend([OpCode::Constant.byte(), index as u8]);
        } else {
            constants_expected.extend([OpCode::ConstantLong.byte(), 0, 1, 0]);
        }
        constants_expected.push(OpCode::Print.byte());
    }
    constants_expected.extend([OpCode::Nil.byte(), OpCode::Return.byte()]);
    let (vm, constants_function) = compile_success(&constants_source);
    assert_golden_code(&vm, constants_function, &constants_expected);

    let list_source = format!("print [{}];", vec!["nil"; 255].join(","));
    let mut list_expected = vec![OpCode::Nil.byte(); 255];
    list_expected.extend([
        OpCode::BuildList.byte(),
        255,
        OpCode::Print.byte(),
        OpCode::Nil.byte(),
        OpCode::Return.byte(),
    ]);
    let (vm, list_function) = compile_success(&list_source);
    assert_golden_code(&vm, list_function, &list_expected);

    let long_list_source = format!("print [{}];", vec!["nil"; 256].join(","));
    let (_, function, diagnostics) = compile_result(&long_list_source);
    assert!(function.is_none());
    assert!(
        diagnostics
            .iter()
            .any(|diagnostic| diagnostic.message == "Error processing list literal.")
    );

    let span = SourceSpan {
        source_id: SourceId(41),
        revision: RevisionId(7),
        start: position_at("", 0),
        end: position_at("", 0),
    };
    let mut encoded_long_list = Chunk::new();
    encoded_long_list.code = vec![
        OpCode::BuildListLong.byte(),
        0,
        1,
        OpCode::Nil.byte(),
        OpCode::Return.byte(),
    ];
    encoded_long_list.spans = vec![span; encoded_long_list.code.len()];
    assert_eq!(
        chunk_starts(&VM::new(), &encoded_long_list),
        HashSet::from([0, 3, 4])
    );
    assert_eq!(encoded_long_list.spans.len(), encoded_long_list.code.len());
}

#[test]
fn golden_long_closure_uses_a_three_byte_constant_operand() {
    let mut source = String::from("fun outer() { var captured; fun first() {}");
    for value in 0..=254 {
        source.push_str(&format!("{value};"));
    }
    source.push_str("fun later() { print captured; } later(); } outer();");

    let (vm, script) = compile_success(&source);
    let outer = direct_function(&vm, script, "outer");
    let offset = opcode_starts(&vm, function_ref(&vm, outer))
        .into_iter()
        .find(|offset| function_ref(&vm, outer).chunk.code[*offset] == OpCode::ClosureLong.byte())
        .expect("the second nested function should use a long closure operand");

    assert_eq!(
        function_ref(&vm, outer).chunk.code[offset..offset + 6],
        [OpCode::ClosureLong.byte(), 0, 1, 0, 1, 1]
    );
    assert_points_are_opcode_starts(&vm, outer);
    let Value::Obj(later) = function_ref(&vm, outer).chunk.constants[256] else {
        panic!("long closure constant should contain a function");
    };
    assert_eq!(
        function_name(&vm, later),
        "later"
    );
}

#[test]
fn golden_maximum_local_slot_uses_the_exact_byte_operand() {
    let mut source = String::from("fun f(){");
    let mut expected = Vec::new();
    for index in 0..255usize {
        source.push_str(&format!("var v{index}={index};"));
        expected.extend([OpCode::Constant.byte(), index as u8]);
    }
    source.push_str("print v254;}");
    expected.extend([
        OpCode::GetLocal.byte(),
        255,
        OpCode::Print.byte(),
        OpCode::Nil.byte(),
        OpCode::Return.byte(),
    ]);

    let (vm, script) = compile_success(&source);
    let function = direct_function(&vm, script, "f");
    assert_golden_code(&vm, function, &expected);
    let starts = opcode_starts(&vm, function_ref(&vm, function));
    assert!(starts.iter().all(|offset| {
        function_ref(&vm, function).chunk.code[*offset] != OpCode::GetLocalLong.byte()
    }));
}

#[test]
fn golden_closure_descriptors_and_cleanup_preserve_exact_bytes() {
    let source = "fun outer(){ {var x=1; fun inner(){print x;} } }";
    let (vm, script) = compile_success(source);
    let outer = direct_function(&vm, script, "outer");
    let inner = direct_function(&vm, outer, "inner");

    assert_golden_code(
        &vm, script,
        &[
            OpCode::Closure.byte(),
            1,
            OpCode::DefineGlobal.byte(),
            0,
            OpCode::Nil.byte(),
            OpCode::Return.byte(),
        ],
    );
    assert_golden_code(
        &vm, outer,
        &[
            OpCode::Constant.byte(),
            0,
            OpCode::Closure.byte(),
            1,
            1,
            1,
            OpCode::Pop.byte(),
            OpCode::CloseUpvalue.byte(),
            OpCode::Nil.byte(),
            OpCode::Return.byte(),
        ],
    );
    assert_golden_code(
        &vm, inner,
        &[
            OpCode::GetUpvalue.byte(),
            0,
            OpCode::Print.byte(),
            OpCode::Nil.byte(),
            OpCode::Return.byte(),
        ],
    );
}
