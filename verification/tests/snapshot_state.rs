use rlox::format::NumberTexts;
use rlox::interpreter::{advance, fetch_texts, prepare};
use rlox::object::{Object, UpvalueCell};
use rlox::snapshot::SnapshotBuildError;
use rlox::snapshot_builder::SnapshotRequest;
use rlox::table::Key;
use rlox::value::Value;
use rlox::vm::{Step, VM};
use rlox::{
    Arithmetic, ArithmeticOp, DebugValue, PauseReason, RevisionId, SnapshotLimits, SnapshotReason,
    SourceDocument, SourceId, SourceSpan, TextPosition, VmSnapshot,
};

struct Floats;

impl Arithmetic for Floats {
    fn parse(&self, lexeme: &str) -> u64 {
        lexeme.parse::<f64>().unwrap().to_bits()
    }

    fn compute(&self, op: ArithmeticOp, left: u64, right: u64) -> u64 {
        let (a, b) = (f64::from_bits(left), f64::from_bits(right));
        let result = match op {
            ArithmeticOp::Add => a + b,
            ArithmeticOp::Subtract => a - b,
            ArithmeticOp::Multiply => a * b,
            ArithmeticOp::Divide => a / b,
            ArithmeticOp::IntDivide => (a / b).trunc(),
        };
        result.to_bits()
    }

    fn text(&self, bits: u64) -> String {
        f64::from_bits(bits).to_string()
    }

    fn clock(&self) -> u64 {
        1.5f64.to_bits()
    }
}

fn span() -> SourceSpan {
    let start = TextPosition {
        byte_offset: 0,
        line: 1,
        column: 1,
    };
    SourceSpan {
        source_id: SourceId(1),
        revision: RevisionId(1),
        start,
        end: start,
    }
}

fn prepared_vm(source: &str) -> (VM, SourceDocument) {
    let document = SourceDocument::new(SourceId(10), RevisionId(4), "state.lox", source);
    let mut vm = VM::new();
    assert!(prepare(&mut vm, &document, &Floats).0.is_ok());
    (vm, document)
}

fn active_request(vm: &VM, fallback: SourceSpan) -> SnapshotRequest {
    SnapshotRequest {
        reason: SnapshotReason::Paused(PauseReason::Step),
        active_offset: vm.current_offset(),
        current_span: vm.current_span().unwrap_or(fallback),
    }
}

fn build(
    vm: &VM,
    request: SnapshotRequest,
    limits: &SnapshotLimits,
) -> Result<VmSnapshot, SnapshotBuildError> {
    let (_, numbers) = vm.build_snapshot(request, limits, &NumberTexts::new());
    let texts = fetch_texts(&numbers, &Floats);
    vm.build_snapshot(request, limits, &texts).0
}

fn idle_request() -> SnapshotRequest {
    SnapshotRequest {
        reason: SnapshotReason::Faulted,
        active_offset: None,
        current_span: span(),
    }
}

/// Runs until `frames` calls are under way and the innermost is on `line`.
fn run_to(vm: &mut VM, frames: usize, line: usize) {
    for _ in 0..128 {
        if vm.frames.len() == frames
            && vm
                .current_semantic_point()
                .is_some_and(|(_, point)| point.span.start.line == line)
        {
            return;
        }
        assert!(matches!(advance(vm, &Floats).0, Ok(Step::Continue)));
    }
    panic!("line {line} was not reached");
}

fn clock_key(vm: &mut VM) -> Key {
    let name = vm.heap.intern("clock".to_string());
    vm.key(name).unwrap()
}

#[test]
fn object_values_require_exact_registered_allocation_bases() {
    let mut vm = VM::new();
    let key = clock_key(&mut vm);
    let missing = vm.heap.len() + 7;
    vm.globals.set(key, Value::Obj(missing));
    assert_eq!(
        build(&vm, idle_request(), &SnapshotLimits::default()),
        Err(SnapshotBuildError::ObjectState)
    );

    let alien = vm.heap.allocate(Object::Free);
    vm.globals.set(key, Value::Obj(alien));
    assert_eq!(
        build(&vm, idle_request(), &SnapshotLimits::default()),
        Err(SnapshotBuildError::ObjectState)
    );
}

#[test]
fn frame_kind_and_stack_base_are_validated_before_use() {
    let (mut vm, document) = prepared_vm("print 1;");
    let request = active_request(&vm, document.eof_span());
    let key = clock_key(&mut vm);
    let native = vm.globals.get(key).unwrap().as_obj();
    let original = vm.frames[0];
    vm.frames[0].closure = native;
    assert_eq!(
        build(&vm, request, &SnapshotLimits::default()),
        Err(SnapshotBuildError::FrameState)
    );
    vm.frames[0] = original;

    vm.frames[0].base = vm.stack.len();
    assert_eq!(
        build(&vm, request, &SnapshotLimits::default()),
        Err(SnapshotBuildError::StackState)
    );
    vm.frames[0] = original;
    assert!(build(&vm, request, &SnapshotLimits::default()).is_ok());
    vm.cleanup_execution();
}

#[test]
fn active_liveness_offset_must_be_an_opcode_start() {
    let (mut vm, document) = prepared_vm("print 1;");
    let request = active_request(&vm, document.eof_span());
    let function = vm.function_of(vm.frames[0].closure).unwrap();
    assert!(function.chunk.code.len() > 1);
    assert!(!rlox::disassembly::is_opcode_start(&vm.heap, &function.chunk, 1));

    let result = build(
        &vm,
        SnapshotRequest {
            active_offset: Some(1),
            ..request
        },
        &SnapshotLimits::default(),
    );

    assert_eq!(result, Err(SnapshotBuildError::FrameState));
    vm.cleanup_execution();
}

#[test]
fn alien_open_upvalue_locations_and_metadata_indexes_are_rejected() {
    let source = "fun outer() {\n  var value = 1;\n  fun inner() {\n    print value;\n  }\n  inner();\n}\nouter();";
    let (mut vm, document) = prepared_vm(source);
    run_to(&mut vm, 3, 4);
    assert_eq!(vm.frames.len(), 3);
    let request = active_request(&vm, document.eof_span());
    assert!(build(&vm, request, &SnapshotLimits::default()).is_ok());
    let closure = vm.frames[2].closure;
    let (function, cell) = match vm.heap.get(closure) {
        Object::Closure { function, upvalues } => (*function, upvalues[0]),
        other => panic!("not a closure: {other:?}"),
    };
    let original = vm.heap.take(cell);
    let alien = vm.stack.len() + 100;
    vm.heap
        .replace(cell, Object::Upvalue(UpvalueCell::Open { slot: alien }));
    assert_eq!(
        build(&vm, request, &SnapshotLimits::default()),
        Err(SnapshotBuildError::UpvalueState)
    );
    vm.heap.replace(cell, original);

    let Object::Function(mut inner) = vm.heap.take(function) else {
        panic!("not a function")
    };
    inner.debug_info.upvalues[0].index = u8::MAX;
    vm.heap.replace(function, Object::Function(inner));
    assert_eq!(
        build(&vm, request, &SnapshotLimits::default()),
        Err(SnapshotBuildError::UpvalueState)
    );
    vm.cleanup_execution();
}

#[test]
fn repeated_builds_restart_ids_and_preserve_the_same_snapshot() {
    let source = "var leaf = [1];\nvar graph = [leaf, leaf];\nprint 0;";
    let (mut vm, document) = prepared_vm(source);
    run_to(&mut vm, 1, 3);
    let request = active_request(&vm, document.eof_span());

    let first = build(&vm, request, &SnapshotLimits::default()).unwrap();
    let second = build(&vm, request, &SnapshotLimits::default()).unwrap();

    assert_eq!(first, second);
    assert!(matches!(
        first
            .globals
            .iter()
            .find(|value| value.name == "graph")
            .unwrap()
            .value,
        DebugValue::List { object_id: 1, .. }
    ));
    vm.cleanup_execution();
}

fn install_graph(vm: &mut VM, order: &[&str]) {
    let a = vm
        .heap
        .allocate(Object::List(vec![Value::Number(1.0f64.to_bits())]));
    let z = vm
        .heap
        .allocate(Object::List(vec![Value::Number(2.0f64.to_bits())]));
    let root = vm.heap.allocate(Object::List(vec![
        Value::Obj(a),
        Value::Obj(z),
        Value::Obj(a),
    ]));
    for name in order {
        let value = match *name {
            "a" => Value::Obj(a),
            "root" => Value::Obj(root),
            "z" => Value::Obj(z),
            _ => unreachable!(),
        };
        let text = vm.heap.intern(name.to_string());
        let key = vm.key(text).unwrap();
        vm.globals.set(key, value);
    }
}

#[test]
fn global_table_history_does_not_change_sorted_values_or_ids() {
    let mut first = VM::new();
    install_graph(&mut first, &["z", "a", "root"]);
    let mut temporary_keys = Vec::new();
    for index in 0..16 {
        let text = first.heap.intern(format!("temporary{index:02}"));
        let key = first.key(text).unwrap();
        first.globals.set(key, Value::Nil);
        temporary_keys.push(key);
    }
    for key in temporary_keys {
        assert!(first.globals.delete(key));
    }

    let mut second = VM::new();
    install_graph(&mut second, &["root", "a", "z"]);
    assert_ne!(first.globals.slot_count(), second.globals.slot_count());

    let first = build(&first, idle_request(), &SnapshotLimits::default()).unwrap();
    let second = build(&second, idle_request(), &SnapshotLimits::default()).unwrap();

    assert_eq!(first, second);
    assert_eq!(
        first
            .globals
            .iter()
            .map(|binding| binding.name.as_str())
            .collect::<Vec<_>>(),
        ["a", "clock", "root", "z"]
    );
    assert!(matches!(
        first.globals[0].value,
        DebugValue::List { object_id: 1, .. }
    ));
    assert!(matches!(
        first.globals[2].value,
        DebugValue::List { object_id: 2, .. }
    ));
    assert!(matches!(
        first.globals[3].value,
        DebugValue::List { object_id: 3, .. }
    ));
}

#[test]
fn aggregate_node_exhaustion_omits_an_upvalue_without_reading_its_cell() {
    let source = "fun outer() {\n  var captured = 1;\n  fun inner(p) {\n    print captured;\n  }\n  inner(2);\n}\nouter();";
    let (mut vm, document) = prepared_vm(source);
    run_to(&mut vm, 3, 4);
    let closure = vm.frames[2].closure;
    let Object::Closure { function, upvalues } = vm.heap.take(closure) else {
        panic!("not a closure")
    };
    assert_eq!(upvalues.len(), 1);
    let missing = vm.heap.len() + 9;
    vm.heap.replace(
        closure,
        Object::Closure {
            function,
            upvalues: vec![missing],
        },
    );
    let mut limits = SnapshotLimits::default();
    limits.max_value_nodes = 1;

    let snapshot = build(&vm, active_request(&vm, document.eof_span()), &limits).unwrap();

    assert_eq!(snapshot.frames[0].parameters.len(), 1);
    assert!(snapshot.frames[0].upvalues.is_empty());
    assert!(snapshot.frames[0].upvalues_truncated);
    assert!(snapshot.frames_truncated);
    vm.cleanup_execution();
}
