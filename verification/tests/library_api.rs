use rlox::{Arithmetic, ArithmeticOp, InterpretResult, Interpreter, RecordingHost};

struct Floats;

impl Arithmetic for Floats {
    fn parse(&self, lexeme: &str) -> u64 {
        lexeme.parse::<f64>().unwrap().to_bits()
    }

    fn compute(&self, op: ArithmeticOp, left: u64, right: u64) -> u64 {
        let (a, b) = (f64::from_bits(left), f64::from_bits(right));
        let result = match op {
            ArithmeticOp::Add => a + b,
            ArithmeticOp::Subtract => a - b,
            ArithmeticOp::Multiply => a * b,
            ArithmeticOp::Divide => a / b,
            ArithmeticOp::IntDivide => (a / b).trunc(),
        };
        result.to_bits()
    }

    fn text(&self, bits: u64) -> String {
        f64::from_bits(bits).to_string()
    }

    fn clock(&self) -> u64 {
        1.5f64.to_bits()
    }
}

fn interpret(interpreter: &mut Interpreter, source: &str) -> InterpretResult {
    interpreter.interpret(source, &Floats, &mut RecordingHost::default())
}

#[test]
fn library_interprets_a_source_string() {
    let mut interpreter = Interpreter::new();

    assert_eq!(
        interpret(&mut interpreter, "var answer = 42;"),
        InterpretResult::Completed
    );
}

#[test]
fn invalid_list_get_indexes_return_runtime_errors() {
    for index in [
        "-1",
        "1.5",
        "2",
        "0/0",
        "1/0",
        "99999999999999999999999999999999999999999999",
    ] {
        let mut interpreter = Interpreter::new();
        let source = format!("var a=[10,20]; print a[{index}];");

        assert_eq!(
            interpret(&mut interpreter, &source),
            InterpretResult::RuntimeError,
            "index {index}"
        );
    }
}

#[test]
fn invalid_list_set_indexes_return_runtime_errors() {
    for index in [
        "-1",
        "1.5",
        "2",
        "0/0",
        "1/0",
        "99999999999999999999999999999999999999999999",
    ] {
        let mut interpreter = Interpreter::new();
        let source = format!("var a=[10,20]; a[{index}]=30;");

        assert_eq!(
            interpret(&mut interpreter, &source),
            InterpretResult::RuntimeError,
            "index {index}"
        );
    }
}

#[test]
fn list_index_boundaries_are_valid() {
    let mut interpreter = Interpreter::new();

    assert_eq!(
        interpret(&mut interpreter, "var a=[10,20]; print a[0]; print a[1]; a[0]=30; a[1]=40;"),
        InterpretResult::Completed
    );
}

#[test]
fn safety_limits_reject_excess_live_locals() {
    let declarations = (0..257)
        .map(|index| format!("var local{index};"))
        .collect::<String>();
    let source = format!("fun crowded() {{{declarations}}}");
    let mut interpreter = Interpreter::new();

    assert_eq!(
        interpret(&mut interpreter, &source),
        InterpretResult::CompileError
    );
}

#[test]
fn safety_limits_recover_after_recursion_overflow() {
    let mut interpreter = Interpreter::new();

    assert_eq!(
        interpret(&mut interpreter, "fun recurse() { recurse(); } recurse();"),
        InterpretResult::RuntimeError
    );
    assert_eq!(interpret(&mut interpreter, "print 1;"), InterpretResult::Completed);
}

#[test]
fn runtime_stack_boundary_recovers_for_the_next_run() {
    let declarations = (0..255)
        .map(|index| format!("var local{index};"))
        .collect::<String>();
    let source = format!("fun recurse() {{{declarations} return 1 + recurse();}} recurse();");
    let mut interpreter = Interpreter::new();

    assert_eq!(
        interpret(&mut interpreter, &source),
        InterpretResult::RuntimeError
    );
    assert_eq!(interpret(&mut interpreter, "print 1;"), InterpretResult::Completed);
}

#[test]
fn safety_limits_reject_excess_upvalues() {
    let middle_declarations = (0..254)
        .map(|index| format!("var middle{index};"))
        .collect::<String>();
    let middle_captures = (0..254)
        .map(|index| format!("print middle{index};"))
        .collect::<String>();
    let source = format!(
        "fun outer() {{
            var outer0;
            var outer1;
            var outer2;
            fun middle() {{
                {middle_declarations}
                fun inner() {{
                    {middle_captures}
                    print outer0;
                    print outer1;
                    print outer2;
                }}
            }}
        }}"
    );
    let mut interpreter = Interpreter::new();

    assert_eq!(
        interpret(&mut interpreter, &source),
        InterpretResult::CompileError
    );
}
