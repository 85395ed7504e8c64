//! What a command line asks for.
use vstd::prelude::*;
use crate::faults::{decimal, digit};
use crate::interpreter::InterpretResult;
use crate::text::{chars_of, same_text};

verus! {

#[derive(Debug, Clone, Copy, PartialEq, Eq, Hash, Structural)]
pub struct WorkerSessionId(pub u64);

pub open spec fn is_digit(c: char) -> bool {
    '0' <= c && c <= '9'
}

pub open spec fn digit_value(c: char) -> int {
    c as int - '0' as int
}

/// The number that decimal digits spell.
pub open spec fn number_of(digits: Seq<char>) -> int
    decreases digits.len(),
{
    if digits.len() == 0 {
        0
    } else {
        number_of(digits.drop_last()) * 10 + digit_value(digits.last())
    }
}

pub open spec fn all_digits(text: Seq<char>) -> bool {
    forall|i: int| 0 <= i < text.len() ==> is_digit(#[trigger] text[i])
}

/// The number that a text names: decimal digits without a leading zero,
/// as far as the number fits.
pub fn parse_worker_session(value: &str) -> (session: Option<WorkerSessionId>)
    ensures
        match session {
            Some(id) => id.0 > 0 && value@ == decimal(id.0 as nat),
            None => forall|n: nat| 0 < n <= u64::MAX ==> value@ != #[trigger] decimal(n),
        },
{
    let digits = chars_of(value);
    let ghost text = value@;
    proof {
        assert forall|n: nat| 0 < n <= u64::MAX && text == #[trigger] decimal(n) implies text.len()
            > 0 && all_digits(text) && text[0] != '0' && number_of(text) == n by {
            lemma_decimal(n);
        }
    }
    if digits.len() == 0 || digits[0] == '0' {
        return None;
    }
    let mut number: u64 = 0;
    let mut i: usize = 0;
    assert(text.take(0) =~= Seq::empty());
    while i < digits.len()
        invariant
            i <= digits@.len(),
            digits@ == text,
            text == value@,
            all_digits(text.take(i as int)),
            number == number_of(text.take(i as int)),
            forall|n: nat|
                0 < n <= u64::MAX && text == #[trigger] decimal(n) ==> all_digits(text)
                    && number_of(text) == n,
        decreases digits@.len() - i,
    {
        let c = digits[i];
        if !('0' <= c && c <= '9') {
            assert(!is_digit(text[i as int]));
            return None;
        }
        let digit: u64 = c as u64 - '0' as u64;
        assert(text.take(i + 1).drop_last() =~= text.take(i as int));
        assert(text.take(i + 1).last() == c);
        assert forall|j: int| 0 <= j < i + 1 implies is_digit(#[trigger] text.take(i + 1)[j]) by {
            if j < i {
                assert(is_digit(text.take(i as int)[j]));
            }
        }
        let grown = match number.checked_mul(10) {
            Some(tens) => tens.checked_add(digit),
            None => None,
        };
        match grown {
            Some(next) => {
                number = next;
            },
            None => {
                proof {
                    assert forall|n: nat| 0 < n <= u64::MAX implies text != #[trigger] decimal(n) by {
                        if text == decimal(n) {
                            lemma_number_grows(text, i + 1);
                        }
                    }
                }
                return None;
            },
        }
        i += 1;
    }
    assert(text.take(i as int) =~= text);
    proof {
        lemma_number_is_decimal(text);
    }
    Some(WorkerSessionId(number))
}

/// A number's digits spell it, and the first is no zero.
proof fn lemma_decimal(n: nat)
    requires
        0 < n,
    ensures
        decimal(n).len() > 0,
        all_digits(decimal(n)),
        decimal(n)[0] != '0',
        number_of(decimal(n)) == n,
    decreases n,
{
    let text = decimal(n);
    if n < 10 {
        assert(text.drop_last() =~= Seq::empty());
        reveal_with_fuel(number_of, 2);
    } else {
        lemma_decimal(n / 10);
        assert(text.drop_last() =~= decimal(n / 10));
        assert forall|i: int| 0 <= i < text.len() implies is_digit(#[trigger] text[i]) by {
            if i < text.len() - 1 {
                assert(is_digit(decimal(n / 10)[i]));
            }
        }
    }
}

/// Digits without a leading zero are those of the number that they spell.
proof fn lemma_number_is_decimal(text: Seq<char>)
    requires
        text.len() > 0,
        all_digits(text),
        text[0] != '0',
    ensures
        number_of(text) > 0,
        decimal(number_of(text) as nat) == text,
    decreases text.len(),
{
    let last = text.last();
    let front = text.drop_last();
    assert(is_digit(last));
    if text.len() == 1 {
        assert(front =~= Seq::empty());
        reveal_with_fuel(number_of, 2);
        assert(digit(digit_value(last)) == last);
        assert(decimal(number_of(text) as nat) =~= text);
    } else {
        assert forall|i: int| 0 <= i < front.len() implies is_digit(#[trigger] front[i]) by {
            assert(is_digit(text[i]));
        }
        lemma_number_is_decimal(front);
        let n = number_of(text);
        assert(n / 10 == number_of(front) && n % 10 == digit_value(last));
        assert(digit(digit_value(last)) == last);
        assert(decimal(n as nat) =~= text);
    }
}

/// More digits spell no smaller number.
proof fn lemma_number_grows(text: Seq<char>, k: int)
    requires
        0 <= k <= text.len(),
        all_digits(text),
    ensures
        0 <= number_of(text.take(k)) <= number_of(text),
    decreases text.len(),
{
    if k == text.len() {
        assert(text.take(k) =~= text);
        if text.len() > 0 {
            let front = text.drop_last();
            assert forall|i: int| 0 <= i < front.len() implies is_digit(#[trigger] front[i]) by {
                assert(is_digit(text[i]));
            }
            lemma_number_grows(front, front.len() as int);
            assert(front.take(front.len() as int) =~= front);
            assert(is_digit(text.last()));
        }
    } else {
        let front = text.drop_last();
        assert forall|i: int| 0 <= i < front.len() implies is_digit(#[trigger] front[i]) by {
            assert(is_digit(text[i]));
        }
        lemma_number_grows(front, k);
        assert(front.take(k) =~= text.take(k));
        assert(is_digit(text.last()));
    }
}

#[derive(Debug, PartialEq, Eq)]
pub enum Command {
    /// Run what is typed in, line by line.
    Repl,
    RunFile { path: String },
    Worker { session: WorkerSessionId },
    /// The command line is not understood.
    Usage,
}

/// A text names a session.
pub open spec fn names_session(text: Seq<char>, session: WorkerSessionId) -> bool {
    session.0 > 0 && text == decimal(session.0 as nat)
}

pub open spec fn asks_for(args: Seq<String>, command: Command) -> bool {
    if args.len() > 1 && args[1]@ == "--debug-worker"@ {
        match command {
            Command::Worker { session } => args.len() == 4 && args[2]@ == "--worker-session"@
                && names_session(args[3]@, session),
            Command::Usage => args.len() != 4 || args[2]@ != "--worker-session"@ || forall|
                session: WorkerSessionId,
            | !#[trigger] names_session(args[3]@, session),
            _ => false,
        }
    } else if args.len() == 1 {
        command is Repl
    } else if args.len() == 2 {
        command matches Command::RunFile { path } && path@ == args[1]@
    } else {
        command is Usage
    }
}

/// What the arguments of a program ask for; the first is its own name.
pub fn parse_arguments(args: &Vec<String>) -> (command: Command)
    ensures
        asks_for(args@, command),
{
    if args.len() > 1 && same_text(args[1].as_str(), "--debug-worker") {
        if args.len() == 4 && same_text(args[2].as_str(), "--worker-session") {
            if let Some(session) = parse_worker_session(args[3].as_str()) {
                return Command::Worker { session };
            }
            assert forall|session: WorkerSessionId| !#[trigger] names_session(
                args@[3]@,
                session,
            ) by {
                if session.0 > 0 {
                    assert(args@[3]@ != decimal(session.0 as nat));
                }
            }
        }
        return Command::Usage;
    }
    if args.len() == 1 {
        Command::Repl
    } else if args.len() == 2 {
        Command::RunFile { path: args[1].clone() }
    } else {
        Command::Usage
    }
}

/// With what a program ends after it has run a file.
pub fn exit_code(status: InterpretResult) -> (code: i32)
    ensures
        code == (match status {
            InterpretResult::Completed => 0i32,
            InterpretResult::CompileError => 65,
            InterpretResult::RuntimeError => 70,
        }),
{
    match status {
        InterpretResult::Completed => 0,
        InterpretResult::CompileError => 65,
        InterpretResult::RuntimeError => 70,
    }
}

} // verus!
