//! Running whole programs.
use vstd::prelude::*;
use crate::compiler::{
    at_end, compile, contents, lexed, number_lexemes, number_texts, report_of, reports,
    CompileOptions,
};
use crate::diagnostic::{Diagnostic, Report};
use crate::format::{numbers_of, numbers_shown, NumberTexts};
use crate::loader::{partly_loaded, started};
use crate::machine::{played, Fault, Input, Outcome, Request, VmState};
use crate::parser::{views, Note, PState};
use crate::runtime_host::{record_of, Arithmetic, Record, RuntimeHost};
use crate::source::{canonical_text, RevisionId, SourceDocument, SourceId};
use crate::text::utf8_len;
use crate::vm::{done, Step, VM};

verus! {

#[derive(Debug, Clone, Copy, PartialEq, Eq, Structural)]
pub enum InterpretResult {
    Completed,
    CompileError,
    RuntimeError,
}

/// The compiler when it has read a document to the end.
pub open spec fn compiled_state(document: SourceDocument, numbers: Seq<u64>) -> PState {
    at_end(document, numbers, CompileOptions { diagnostic_limit: None, recursion_limit: None })
}

/// A document compiles, and the machine has been set up to run it.
pub open spec fn prepared(
    before: VmState,
    document: SourceDocument,
    numbers: Seq<u64>,
    after: VmState,
) -> bool {
    let s = compiled_state(document, numbers);
    !s.had_error && started(
        before,
        lexed(document.text@, numbers).texts,
        s.finished.push(s.function),
        after,
    )
}

/// A number is what `arithmetic` gives for a lexeme.
pub open spec fn spells<A: Arithmetic>(arithmetic: A, lexeme: Seq<char>, number: u64) -> bool {
    exists|text: &str|
        text@ == lexeme && #[trigger] call_ensures(A::parse, (&arithmetic, text), number)
}

/// The numbers are what `arithmetic` gives for the number tokens of a
/// document, in their order.
pub open spec fn parses<A: Arithmetic>(
    arithmetic: A,
    document: SourceDocument,
    numbers: Seq<u64>,
) -> bool {
    let lexemes = number_texts(document.text@, 0, Seq::empty());
    &&& numbers.len() == lexemes.len()
    &&& forall|i: int|
        0 <= i < numbers.len() ==> spells(arithmetic, lexemes[i], #[trigger] numbers[i])
}

/// The texts are what `arithmetic` gives for their numbers.
pub open spec fn tells<A: Arithmetic>(arithmetic: A, texts: NumberTexts) -> bool {
    forall|i: int|
        0 <= i < texts.entries@.len() ==> call_ensures(
            A::text,
            (&arithmetic, (#[trigger] texts.entries@[i]).0),
            texts.entries@[i].1,
        )
}

/// What comes from outside for an instruction is what `arithmetic` gives for
/// what the instruction asks.
pub open spec fn answers<A: Arithmetic>(arithmetic: A, s: VmState, input: Input) -> bool {
    match s.request() {
        Request::Nothing => true,
        Request::Compute { op, left, right } => call_ensures(
            A::compute,
            (&arithmetic, op, left, right),
            input.number,
        ),
        Request::Clock => call_ensures(A::clock, (&arithmetic,), input.number),
        Request::Show { value } => tells(arithmetic, input.texts) && forall|none: NumberTexts|
            none.entries@.len() == 0 ==> covers(
                input.texts,
                #[trigger] numbers_shown(s.heap, none, value),
            ),
    }
}

/// Every instruction of an execution got what it asked for.
pub open spec fn answered<A: Arithmetic>(
    arithmetic: A,
    start: VmState,
    inputs: Seq<Input>,
) -> bool {
    forall|k: int, s: VmState|
        0 <= k < inputs.len() && #[trigger] reaches(start, inputs.take(k), s) ==> answers(
            arithmetic,
            s,
            inputs[k],
        )
}

/// One more instruction that got what it asked for.
pub proof fn lemma_answered<A: Arithmetic>(
    arithmetic: A,
    start: VmState,
    inputs: Seq<Input>,
    s: VmState,
    input: Input,
)
    requires
        answered(arithmetic, start, inputs),
        reaches(start, inputs, s),
        answers(arithmetic, s, input),
    ensures
        answered(arithmetic, start, inputs.push(input)),
{
    let longer = inputs.push(input);
    assert forall|k: int, t: VmState|
        0 <= k < longer.len() && #[trigger] reaches(start, longer.take(k), t) implies answers(
        arithmetic,
        t,
        longer[k],
    ) by {
        assert(longer.take(k) =~= inputs.take(k));
        if k == inputs.len() {
            assert(inputs.take(k) =~= inputs);
        } else {
            assert(longer[k] == inputs[k]);
        }
    }
}

/// The numbers that the number tokens of a document spell. What number a
/// token spells is left to `arithmetic`.
pub fn parse_numbers<A: Arithmetic>(document: &SourceDocument, arithmetic: &A) -> (numbers: Vec<u64>)
    requires
        document.wf(),
    ensures
        parses(*arithmetic, *document, numbers@),
{
    let lexemes = number_lexemes(document);
    let mut numbers: Vec<u64> = Vec::new();
    let mut i: usize = 0;
    while i < lexemes.len()
        invariant
            i <= lexemes@.len(),
            numbers@.len() == i,
            forall|j: int|
                0 <= j < i ==> spells(*arithmetic, contents(lexemes@)[j], #[trigger] numbers@[j]),
        decreases lexemes@.len() - i,
    {
        let lexeme = lexemes[i].as_str();
        let number: u64 = arithmetic.parse(lexeme);
        assert(spells(*arithmetic, contents(lexemes@)[i as int], number));
        numbers.push(number);
        i += 1;
    }
    numbers
}

/// The texts of the numbers that are needed to show a value.
pub fn fetch_texts<A: Arithmetic>(numbers: &Vec<u64>, arithmetic: &A) -> (texts: NumberTexts)
    ensures
        texts.entries@.len() == numbers@.len(),
        forall|i: int| 0 <= i < numbers@.len() ==> (#[trigger] texts.entries@[i]).0 == numbers@[i],
        tells(*arithmetic, texts),
{
    let mut texts = NumberTexts::new();
    let mut i: usize = 0;
    while i < numbers.len()
        invariant
            i <= numbers@.len(),
            texts.entries@.len() == i,
            forall|j: int| 0 <= j < i ==> (#[trigger] texts.entries@[j]).0 == numbers@[j],
            tells(*arithmetic, texts),
        decreases numbers@.len() - i,
    {
        let ghost before = texts;
        let text = arithmetic.text(numbers[i]);
        texts.entries.push((numbers[i], text));
        proof {
            assert(texts.entries@.drop_last() =~= before.entries@);
            lemma_tells(*arithmetic, before, texts);
        }
        i += 1;
    }
    texts
}

/// One more text that `arithmetic` gives.
proof fn lemma_tells<A: Arithmetic>(arithmetic: A, before: NumberTexts, after: NumberTexts)
    requires
        tells(arithmetic, before),
        after.entries@.len() == before.entries@.len() + 1,
        after.entries@.drop_last() == before.entries@,
        call_ensures(
            A::text,
            (&arithmetic, after.entries@.last().0),
            after.entries@.last().1,
        ),
    ensures
        tells(arithmetic, after),
{
    assert forall|i: int| 0 <= i < after.entries@.len() implies call_ensures(
        A::text,
        (&arithmetic, (#[trigger] after.entries@[i]).0),
        after.entries@[i].1,
    ) by {
        if i < before.entries@.len() {
            assert(after.entries@.drop_last()[i] == after.entries@[i]);
            assert(before.entries@[i] == after.entries@[i]);
        }
    }
}

pub open spec fn has_text(texts: NumberTexts, bits: u64) -> bool {
    exists|i: int| 0 <= i < texts.entries@.len() && (#[trigger] texts.entries@[i]).0 == bits
}

/// Every one of these numbers has a text.
pub open spec fn covers(texts: NumberTexts, numbers: Seq<u64>) -> bool {
    forall|i: int| 0 <= i < numbers.len() ==> has_text(texts, #[trigger] numbers[i])
}

/// No number has two texts.
pub open spec fn texts_differ(texts: NumberTexts) -> bool {
    forall|i: int, j: int|
        #![trigger texts.entries@[i], texts.entries@[j]]
        0 <= i < j < texts.entries@.len() ==> texts.entries@[i].0 != texts.entries@[j].0
}

/// There are only so many numbers that can have a text.
pub proof fn lemma_texts_are_few(texts: NumberTexts)
    requires
        texts_differ(texts),
    ensures
        texts.entries@.len() <= 0x1_0000_0000_0000_0000,
{
    let keys = texts.entries@.map_values(|entry: (u64, String)| entry.0 as int);
    assert(keys.no_duplicates());
    keys.unique_seq_to_set();
    let all = vstd::set_lib::set_int_range(0, 0x1_0000_0000_0000_0000);
    vstd::set_lib::lemma_int_range(0, 0x1_0000_0000_0000_0000);
    assert(keys.to_set().subset_of(all));
    vstd::set_lib::lemma_len_subset(keys.to_set(), all);
}

fn is_covered(texts: &NumberTexts, bits: u64) -> (found: bool)
    ensures
        found == has_text(*texts, bits),
{
    let mut i: usize = 0;
    while i < texts.entries.len()
        invariant
            i <= texts.entries@.len(),
            forall|j: int| 0 <= j < i ==> (#[trigger] texts.entries@[j]).0 != bits,
        decreases texts.entries@.len() - i,
    {
        if texts.entries[i].0 == bits {
            return true;
        }
        i += 1;
    }
    false
}

/// Fetches the texts of those numbers that have none. It tells whether there
/// were any.
pub fn add_texts<A: Arithmetic>(
    texts: &mut NumberTexts,
    numbers: &Vec<u64>,
    arithmetic: &A,
) -> (added: bool)
    requires
        texts_differ(*old(texts)),
        tells(*arithmetic, *old(texts)),
    ensures
        texts_differ(*final(texts)),
        tells(*arithmetic, *final(texts)),
        covers(*final(texts), numbers@),
        added ==> final(texts).entries@.len() > old(texts).entries@.len(),
        !added ==> *final(texts) == *old(texts),
{
    let mut added = false;
    let mut i: usize = 0;
    while i < numbers.len()
        invariant
            i <= numbers@.len(),
            texts_differ(*texts),
            tells(*arithmetic, *texts),
            forall|j: int| 0 <= j < i ==> has_text(*texts, #[trigger] numbers@[j]),
            texts.entries@.len() >= old(texts).entries@.len(),
            added ==> texts.entries@.len() > old(texts).entries@.len(),
            !added ==> *texts == *old(texts),
        decreases numbers@.len() - i,
    {
        let bits: u64 = numbers[i];
        if !is_covered(texts, bits) {
            let ghost before = *texts;
            let text = arithmetic.text(bits);
            texts.entries.push((bits, text));
            added = true;
            proof {
                assert(texts.entries@.drop_last() =~= before.entries@);
                lemma_tells(*arithmetic, before, *texts);
                assert(texts.entries@[before.entries@.len() as int].0 == bits);
                assert forall|j: int| 0 <= j < i implies has_text(*texts, #[trigger] numbers@[j]) by {
                    let k = choose|k: int|
                        0 <= k < before.entries@.len() && (#[trigger] before.entries@[k]).0
                            == numbers@[j];
                    assert(texts.entries@[k].0 == numbers@[j]);
                }
                assert forall|j: int, k: int|
                    #![trigger texts.entries@[j], texts.entries@[k]]
                    0 <= j < k < texts.entries@.len() implies texts.entries@[j].0
                    != texts.entries@[k].0 by {
                    if k == before.entries@.len() {
                        assert(before.entries@[j].0 == texts.entries@[j].0);
                    } else {
                        assert(before.entries@[j].0 == texts.entries@[j].0);
                        assert(before.entries@[k].0 == texts.entries@[k].0);
                    }
                }
            }
        }
        i += 1;
    }
    added
}

/// Fetches what the next instruction needs and carries it out.
pub fn advance<A: Arithmetic>(vm: &mut VM, arithmetic: &A) -> (r: (Result<Step, Fault>, Ghost<Input>))
    requires
        old(vm).wf(),
    ensures
        final(vm).wf(),
        done(*old(vm), *final(vm), r.0, old(vm)@.step(r.1@.number, r.1@.texts)),
        answers(*arithmetic, old(vm)@, r.1@),
{
    let mut number: u64 = 0;
    let mut texts = NumberTexts::new();
    match vm.request() {
        Request::Nothing => {},
        Request::Compute { op, left, right } => {
            number = arithmetic.compute(op, left, right);
        },
        Request::Clock => {
            number = arithmetic.clock();
        },
        Request::Show { value } => {
            let numbers = numbers_of(&vm.heap, value);
            texts = fetch_texts(&numbers, arithmetic);
            assert forall|i: int| 0 <= i < numbers@.len() implies has_text(
                texts,
                #[trigger] numbers@[i],
            ) by {
                assert(texts.entries@[i].0 == numbers@[i]);
            }
        },
    }
    let r = vm.dispatch_one(number, &texts);
    (r, Ghost(Input { number, texts }))
}

/// How many functions a document that compiles has, with the script itself.
pub open spec fn program_size(document: SourceDocument, numbers: Seq<u64>) -> nat {
    compiled_state(document, numbers).finished.len() + 1
}

/// A machine cannot hold the program of a document: its tables cannot grow,
/// or its objects could not be numbered. It holds some texts of it at most.
pub open spec fn cannot_hold(
    before: VmState,
    document: SourceDocument,
    numbers: Seq<u64>,
    has_room: bool,
    s: VmState,
) -> bool {
    &&& !has_room || s.heap.objects.len() + program_size(document, numbers) + 1 > usize::MAX
    &&& partly_loaded(before, lexed(document.text@, numbers).texts, s)
}

/// Why a program cannot be started.
#[derive(Debug)]
pub enum StartError {
    Compile(Vec<Diagnostic>),
    Runtime(Fault),
}

/// Compiles a document and sets up a machine to run it. The second result is
/// the numbers that were parsed.
pub fn prepare<A: Arithmetic>(vm: &mut VM, document: &SourceDocument, arithmetic: &A) -> (r: (
    Result<(), StartError>,
    Ghost<Seq<u64>>,
))
    requires
        old(vm).wf(),
        document.wf(),
    ensures
        final(vm).wf(),
        match r.0 {
            Ok(_) => prepared(old(vm)@, *document, r.1@, final(vm)@),
            Err(StartError::Compile(diagnostics)) => *final(vm) == *old(vm) && compiled_state(
                *document,
                r.1@,
            ).had_error && reports(diagnostics@) == compiled_state(
                *document,
                r.1@,
            ).notes.map_values(|note: Note| report_of(note)),
            Err(StartError::Runtime(fault)) => !compiled_state(*document, r.1@).had_error && fault
                == Fault::Message("Out of memory.") && cannot_hold(
                old(vm)@,
                *document,
                r.1@,
                final(vm).has_room(),
                final(vm)@,
            ),
        },
        parses(*arithmetic, *document, r.1@),
{
    let numbers = parse_numbers(document, arithmetic);
    let outcome = compile(document, &numbers);
    match outcome.program {
        Some(program) => {
            let ghost s = compiled_state(*document, numbers@);
            assert(views(program.functions@).len() == s.finished.len() + 1);
            if vm.load_program(program) {
                (Ok(()), Ghost(numbers@))
            } else {
                (
                    Err(StartError::Runtime(Fault::Message("Out of memory."))),
                    Ghost(numbers@),
                )
            }
        },
        None => (Err(StartError::Compile(outcome.diagnostics)), Ghost(numbers@)),
    }
}

/// An execution has come to a state, with what came from outside for each
/// instruction.
pub open spec fn reaches(start: VmState, inputs: Seq<Input>, s: VmState) -> bool {
    match played(start, inputs).outcome {
        Outcome::Next(t) | Outcome::Printed(t, _) => t == s,
        _ => false,
    }
}

/// The state that an execution has come to.
pub open spec fn state_after(start: VmState, inputs: Seq<Input>) -> VmState {
    match played(start, inputs).outcome {
        Outcome::Next(t) | Outcome::Printed(t, _) => t,
        _ => start,
    }
}

/// One more instruction.
pub proof fn lemma_played(start: VmState, inputs: Seq<Input>, s: VmState, input: Input)
    requires
        reaches(start, inputs, s),
    ensures
        played(start, inputs.push(input)).outcome == s.step(input.number, input.texts),
        played(start, inputs.push(input)).output == (match s.step(input.number, input.texts) {
            Outcome::Printed(_, text) => played(start, inputs).output.push(text),
            _ => played(start, inputs).output,
        }),
{
    assert(inputs.push(input).drop_last() =~= inputs);
}

/// The last instruction fails, in the state that those before it lead to.
pub open spec fn failed(start: VmState, inputs: Seq<Input>, t: VmState, fault: Fault) -> bool {
    &&& inputs.len() > 0
    &&& reaches(start, inputs.drop_last(), t)
    &&& played(start, inputs).outcome == Outcome::Fails(fault)
}

/// There were more instructions than can be counted.
pub open spec fn endless(start: VmState, inputs: Seq<Input>, t: VmState, fault: Fault) -> bool {
    &&& inputs.len() == u64::MAX
    &&& reaches(start, inputs, t)
    &&& fault == Fault::Message("Instruction counter exhausted.")
}

/// There is no room for what an instruction makes, in the state that the
/// execution has come to.
pub open spec fn starved(
    start: VmState,
    inputs: Seq<Input>,
    t: VmState,
    fault: Fault,
    has_room: bool,
) -> bool {
    &&& reaches(start, inputs, t)
    &&& fault == Fault::Message("Out of memory.")
    &&& !has_room
}

/// An execution has come to a state in which it cannot go on.
pub open spec fn stopped(
    start: VmState,
    inputs: Seq<Input>,
    t: VmState,
    fault: Fault,
    has_room: bool,
) -> bool {
    ||| failed(start, inputs, t, fault)
    ||| endless(start, inputs, t, fault)
    ||| starved(start, inputs, t, fault, has_room)
}

/// Runs a machine until the program ends. The second result is what came from
/// outside for each instruction.
pub fn execute<A: Arithmetic, H: RuntimeHost>(vm: &mut VM, arithmetic: &A, host: &mut H) -> (r: (
    Result<(), Fault>,
    Ghost<Seq<Input>>,
))
    requires
        old(vm).wf(),
    ensures
        final(vm).wf(),
        match r.0 {
            Ok(_) => played(old(vm)@, r.1@).outcome == Outcome::Complete(final(vm)@),
            Err(fault) => stopped(old(vm)@, r.1@, final(vm)@, fault, final(vm).has_room()),
        },
        answered(*arithmetic, old(vm)@, r.1@),
        record_of(*final(host)) == record_of(*old(host)).with(
            played(old(vm)@, r.1@).output,
            Seq::empty(),
        ),
{
    let ghost start = vm@;
    let ghost first = record_of(*host);
    let ghost mut inputs: Seq<Input> = Seq::empty();
    let mut remaining: u64 = u64::MAX;
    proof {
        first.lemma_with_nothing();
    }
    while remaining > 0
        invariant
            vm.wf(),
            start == old(vm)@,
            first == record_of(*old(host)),
            reaches(start, inputs, vm@),
            answered(*arithmetic, start, inputs),
            record_of(*host) == first.with(played(start, inputs).output, Seq::empty()),
            inputs.len() + remaining == u64::MAX,
        decreases remaining,
    {
        let ghost s = vm@;
        let ghost before = inputs;
        let (r, input) = advance(vm, arithmetic);
        proof {
            lemma_played(start, inputs, s, input@);
            lemma_answered(*arithmetic, start, inputs, s, input@);
            assert(inputs.push(input@).drop_last() =~= inputs);
            inputs = inputs.push(input@);
        }
        match r {
            Ok(Step::Continue) => {},
            Ok(Step::Output(text)) => {
                let ghost line = text@;
                let ghost so_far = record_of(*host);
                host.output(text);
                proof {
                    let lines = played(start, before).output;
                    assert(first.printed + lines.push(line) =~= (first.printed + lines).push(line));
                    assert(record_of(*host) == first.with(lines.push(line), Seq::empty()));
                }
            },
            Ok(Step::Complete) => {
                return (Ok(()), Ghost(inputs));
            },
            Err(fault) => {
                let ghost given = if failed(start, inputs, vm@, fault) {
                    inputs
                } else {
                    before
                };
                assert(reaches(start, before, s));
                return (Err(fault), Ghost(given));
            },
        }
        remaining -= 1;
    }
    (Err(Fault::Message("Instruction counter exhausted.")), Ghost(inputs))
}

/// Reports diagnostics to a host, in their order.
pub fn report_all<H: RuntimeHost>(host: &mut H, diagnostics: &Vec<Diagnostic>)
    ensures
        record_of(*final(host)) == record_of(*old(host)).with(
            Seq::empty(),
            reports(diagnostics@),
        ),
{
    let ghost first = record_of(*host);
    let ghost all = reports(diagnostics@);
    let mut i: usize = 0;
    assert(all.take(0) =~= Seq::empty());
    proof {
        first.lemma_with_nothing();
    }
    while i < diagnostics.len()
        invariant
            i <= diagnostics@.len(),
            all == reports(diagnostics@),
            record_of(*host) == first.with(Seq::empty(), all.take(i as int)),
        decreases diagnostics@.len() - i,
    {
        let ghost before = record_of(*host);
        host.diagnostic(diagnostics[i].duplicate());
        i += 1;
        proof {
            assert(all.take(i as int) =~= all.take(i - 1).push(all[i - 1]));
            assert(first.reported + all.take(i as int) =~= (first.reported + all.take(i - 1)).push(
                all[i - 1],
            ));
        }
    }
    assert(all.take(i as int) =~= all);
}

pub struct Interpreter {
    vm: VM,
}

/// What is reported of a document that does not compile.
pub open spec fn compile_reports(document: SourceDocument, numbers: Seq<u64>) -> Seq<Report> {
    compiled_state(document, numbers).notes.map_values(|note: Note| report_of(note))
}

/// A run, seen from outside: the machine and the host before and after it.
pub ghost struct Run {
    pub before: VmState,
    pub after: VmState,
    /// Every table of the machine can still grow.
    pub has_room: bool,
    pub given: Record,
    pub taken: Record,
}

impl Run {
    /// The program ran to its end, and its lines were printed.
    pub open spec fn completes<A: Arithmetic>(
        self,
        arithmetic: A,
        document: SourceDocument,
        numbers: Seq<u64>,
        start: VmState,
        inputs: Seq<Input>,
    ) -> bool {
        &&& prepared(self.before, document, numbers, start)
        &&& answered(arithmetic, start, inputs)
        &&& played(start, inputs).outcome == Outcome::Complete(self.after)
        &&& self.taken == self.given.with(played(start, inputs).output, Seq::empty())
    }

    /// The program could not go on: the lines before that were printed, and
    /// why it could not was reported.
    pub open spec fn breaks<A: Arithmetic>(
        self,
        arithmetic: A,
        document: SourceDocument,
        numbers: Seq<u64>,
        start: VmState,
        inputs: Seq<Input>,
        t: VmState,
        fault: Fault,
    ) -> bool {
        &&& {
            ||| prepared(self.before, document, numbers, start) && answered(
                arithmetic,
                start,
                inputs,
            ) && stopped(start, inputs, t, fault, self.has_room)
            ||| inputs.len() == 0 && fault == Fault::Message("Out of memory.") && cannot_hold(
                self.before,
                document,
                numbers,
                self.has_room,
                t,
            )
        }
        &&& self.after == t.cleaned()
        &&& self.taken == self.given.with(
            played(start, inputs).output,
            seq![t.fault_report(fault, document.end_span())],
        )
    }

    /// What a run of a document did, with the numbers that its number tokens
    /// spell, by its status: what is wrong with the document was reported, or
    /// its instructions led to its end, or to one that fails.
    pub open spec fn did<A: Arithmetic>(
        self,
        arithmetic: A,
        document: SourceDocument,
        numbers: Seq<u64>,
        status: InterpretResult,
    ) -> bool {
        if compiled_state(document, numbers).had_error {
            &&& status is CompileError
            &&& self.after == self.before
            &&& self.taken == self.given.with(Seq::empty(), compile_reports(document, numbers))
        } else {
            match status {
                InterpretResult::Completed => exists|start: VmState, inputs: Seq<Input>| #[trigger]
                    self.completes(arithmetic, document, numbers, start, inputs),
                InterpretResult::CompileError => false,
                InterpretResult::RuntimeError => exists|
                    start: VmState,
                    inputs: Seq<Input>,
                    t: VmState,
                    fault: Fault,
                | #[trigger] self.breaks(arithmetic, document, numbers, start, inputs, t, fault),
            }
        }
    }

    /// What a run of a document did.
    pub open spec fn shows<A: Arithmetic>(
        self,
        arithmetic: A,
        document: SourceDocument,
        status: InterpretResult,
    ) -> bool {
        exists|numbers: Seq<u64>|
            parses(arithmetic, document, numbers) && #[trigger] self.did(
                arithmetic,
                document,
                numbers,
                status,
            )
    }
}

impl Interpreter {
    pub closed spec fn view(self) -> VmState {
        self.vm@
    }

    pub closed spec fn wf(self) -> bool {
        self.vm.wf()
    }

    /// Every table of the machine can still grow.
    pub closed spec fn has_room(self) -> bool {
        self.vm.has_room()
    }

    pub fn new() -> (interpreter: Self)
        ensures
            interpreter.wf(),
            interpreter@ == VmState::fresh(),
    {
        Interpreter { vm: VM::new() }
    }

    /// Runs a document that has no name. Its globals stay.
    pub fn interpret<A: Arithmetic, H: RuntimeHost>(
        &mut self,
        source: &str,
        arithmetic: &A,
        host: &mut H,
    ) -> (status: InterpretResult)
        requires
            old(self).wf(),
            utf8_len(source@) < usize::MAX,
        ensures
            final(self).wf(),
            exists|document: SourceDocument|
                document.id == SourceId(0) && document.revision == RevisionId(0)
                    && document.text@ == canonical_text(source@) && #[trigger] (Run {
                    before: old(self)@,
                    after: final(self)@,
                    has_room: final(self).has_room(),
                    given: record_of(*old(host)),
                    taken: record_of(*final(host)),
                }).shows(*arithmetic, document, status),
    {
        let document = SourceDocument::new(SourceId(0), RevisionId(0), "<memory>", source);
        self.run(document, arithmetic, host)
    }

    /// Runs a document. Its globals stay.
    pub fn run<A: Arithmetic, H: RuntimeHost>(
        &mut self,
        document: SourceDocument,
        arithmetic: &A,
        host: &mut H,
    ) -> (status: InterpretResult)
        requires
            old(self).wf(),
            document.wf(),
        ensures
            final(self).wf(),
            (Run {
                before: old(self)@,
                after: final(self)@,
                has_room: final(self).has_room(),
                given: record_of(*old(host)),
                taken: record_of(*final(host)),
            }).shows(*arithmetic, document, status),
    {
        let ghost before = self.vm@;
        let ghost given = record_of(*host);
        let ghost parsed: Seq<u64>;
        let ghost mut start = before;
        let ghost mut inputs: Seq<Input> = Seq::empty();
        let fault = match prepare(&mut self.vm, &document, arithmetic) {
            (Ok(_), numbers) => {
                proof {
                    start = self.vm@;
                    parsed = numbers@;
                }
                match execute(&mut self.vm, arithmetic, host) {
                    (Ok(_), executed) => {
                        proof {
                            let run = Run {
                                before,
                                after: self.vm@,
                                has_room: self.vm.has_room(),
                                given,
                                taken: record_of(*host),
                            };
                            assert(run.completes(
                                *arithmetic,
                                document,
                                numbers@,
                                start,
                                executed@,
                            ));
                            assert(run.did(
                                *arithmetic,
                                document,
                                numbers@,
                                InterpretResult::Completed,
                            ));
                        }
                        return InterpretResult::Completed;
                    },
                    (Err(fault), executed) => {
                        proof {
                            inputs = executed@;
                        }
                        fault
                    },
                }
            },
            (Err(StartError::Compile(diagnostics)), numbers) => {
                report_all(host, &diagnostics);
                proof {
                    let run = Run {
                        before,
                        after: self.vm@,
                        has_room: self.vm.has_room(),
                        given,
                        taken: record_of(*host),
                    };
                    assert(run.did(
                        *arithmetic,
                        document,
                        numbers@,
                        InterpretResult::CompileError,
                    ));
                }
                return InterpretResult::CompileError;
            },
            (Err(StartError::Runtime(fault)), numbers) => {
                proof {
                    parsed = numbers@;
                    given.lemma_with_nothing();
                }
                fault
            },
        };
        let ghost at = self.vm@;
        let ghost so_far = record_of(*host);
        let diagnostic = self.vm.diagnostic_for_fault(fault, document.eof_span());
        let ghost report = diagnostic@;
        host.diagnostic(diagnostic);
        self.vm.cleanup_execution();
        proof {
            let run = Run {
                before,
                after: self.vm@,
                has_room: self.vm.has_room(),
                given,
                taken: record_of(*host),
            };
            let lines = played(start, inputs).output;
            assert(so_far == given.with(lines, Seq::empty()));
            assert(given.reported + Seq::<Report>::empty() =~= given.reported);
            assert(given.reported + seq![report] =~= given.reported.push(report));
            assert(run.taken == given.with(lines, seq![report]));
            assert(run.breaks(*arithmetic, document, parsed, start, inputs, at, fault));
            assert(run.did(*arithmetic, document, parsed, InterpretResult::RuntimeError));
        }
        InterpretResult::RuntimeError
    }
}

impl Default for Interpreter {
    fn default() -> (interpreter: Self)
        ensures
            interpreter.wf(),
            interpreter@ == VmState::fresh(),
    {
        Interpreter::new()
    }
}

} // verus!
