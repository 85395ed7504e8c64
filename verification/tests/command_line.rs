use rlox::command_line::{
    exit_code, parse_arguments, parse_worker_session, Command, WorkerSessionId,
};
use rlox::InterpretResult;

#[test]
fn worker_sessions_are_canonical_positive_numbers() {
    assert_eq!(parse_worker_session("1"), Some(WorkerSessionId(1)));
    assert_eq!(parse_worker_session("907"), Some(WorkerSessionId(907)));
    assert_eq!(
        parse_worker_session("18446744073709551615"),
        Some(WorkerSessionId(u64::MAX))
    );
    for invalid in [
        "",
        "0",
        "01",
        "-1",
        "+1",
        " 1",
        "1 ",
        "1a",
        "٣",
        "18446744073709551616",
        "99999999999999999999",
    ] {
        assert_eq!(parse_worker_session(invalid), None, "{invalid}");
    }
}

fn arguments(args: &[&str]) -> Vec<String> {
    args.iter().map(|arg| arg.to_string()).collect()
}

#[test]
fn arguments_choose_a_prompt_a_file_or_a_worker() {
    assert_eq!(parse_arguments(&arguments(&["lox"])), Command::Repl);
    assert_eq!(
        parse_arguments(&arguments(&["lox", "program.lox"])),
        Command::RunFile {
            path: "program.lox".to_owned()
        }
    );
    assert_eq!(
        parse_arguments(&arguments(&["lox", "--debug-worker", "--worker-session", "12"])),
        Command::Worker {
            session: WorkerSessionId(12)
        }
    );
    for wrong in [
        &["lox", "a", "b"][..],
        &["lox", "--debug-worker"],
        &["lox", "--debug-worker", "--worker-session"],
        &["lox", "--debug-worker", "--worker-session", "0"],
        &["lox", "--debug-worker", "--session", "12"],
        &["lox", "--debug-worker", "--worker-session", "12", "x"],
        &[],
    ] {
        assert_eq!(parse_arguments(&arguments(wrong)), Command::Usage, "{wrong:?}");
    }
}

#[test]
fn exit_codes_tell_the_failures_apart() {
    assert_eq!(exit_code(InterpretResult::Completed), 0);
    assert_eq!(exit_code(InterpretResult::CompileError), 65);
    assert_eq!(exit_code(InterpretResult::RuntimeError), 70);
}
