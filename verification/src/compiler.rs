//! From a document to a program.
use vstd::prelude::*;
use crate::debug_info::empty_span;
use crate::diagnostic::{Diagnostic, DiagnosticPhase, DiagnosticSeverity, Report};
use crate::parser::{fresh_function, views, well_ended, FunctionState, FunctionType, Lexed};
use crate::parser::{Note, PState, Parser, Sighting};
use crate::parser::lemma_push_view;
use crate::scanner::{law_lex_makes_progress, lemma_token_start, lex, token_start, Scanner, TokenType};
use crate::scopes::new_function;
use crate::source::{position_after, SourceDocument, SourceSpan, TextPosition};
use crate::statements::program;
use crate::text::{chars_of, lemma_utf8_len_bounds, same_text, text_of};

verus! {

/// Bounds on a compilation. Past the first, diagnostics are only counted;
/// past the second, the compilation is given up.
#[derive(Debug, Clone, Copy, PartialEq, Eq, Structural)]
pub struct CompileOptions {
    pub diagnostic_limit: Option<usize>,
    pub recursion_limit: Option<usize>,
}

#[derive(Debug, Clone, Copy, PartialEq, Eq, Structural)]
pub enum CompileLimit {
    RecursionDepth { max: usize, actual: usize },
}

/// A compiled program: the texts that its constants name, and its functions,
/// the script last.
#[derive(Debug)]
pub struct Program {
    pub texts: Vec<String>,
    pub functions: Vec<FunctionState>,
}

#[derive(Debug)]
pub struct CompileOutcome {
    pub limit: Option<CompileLimit>,
    pub diagnostic_count: usize,
    pub diagnostics: Vec<Diagnostic>,
    pub program: Option<Program>,
    /// The names that were met, in the order of the text.
    pub sightings: Vec<Sighting>,
}

/// Where a text stands in a table of texts, or the end of the table.
pub open spec fn text_place(texts: Seq<Seq<char>>, text: Seq<char>, i: int) -> int
    decreases texts.len() - i,
{
    if 0 <= i < texts.len() && texts[i] != text {
        text_place(texts, text, i + 1)
    } else {
        i
    }
}

pub open spec fn with_text(texts: Seq<Seq<char>>, text: Seq<char>) -> Seq<Seq<char>> {
    if text_place(texts, text, 0) < texts.len() {
        texts
    } else {
        texts.push(text)
    }
}

/// The tokens read so far, the texts that they name, and the place behind them.
pub ghost struct Lexing {
    pub tokens: Seq<Lexed>,
    pub texts: Seq<Seq<char>>,
    pub at: int,
    pub numbers: nat,
}

/// The text that the compiler needs of a token: a name, or what stands
/// between the quotes of a string.
pub open spec fn content(source: Seq<char>, from: int) -> Option<Seq<char>> {
    let token = lex(source, from);
    if token.kind == TokenType::Identifier {
        Some(source.subrange(from, token.end))
    } else if token.kind == TokenType::String {
        Some(source.subrange(from + 1, token.end - 1))
    } else {
        None
    }
}

pub open spec fn number_at(numbers: Seq<u64>, i: nat) -> u64 {
    if i < numbers.len() {
        numbers[i as int]
    } else {
        0
    }
}

/// One more token. The numbers of number tokens are given, in their order.
pub open spec fn lexed_once(source: Seq<char>, numbers: Seq<u64>, l: Lexing) -> Lexing {
    let from = token_start(source, l.at);
    let token = lex(source, from);
    let is_number = token.kind == TokenType::Number;
    let lexed = Lexed {
        token_type: token.kind,
        text: match content(source, from) {
            Some(text) => text_place(l.texts, text, 0) as usize,
            None => 0,
        },
        number: if is_number {
            number_at(numbers, l.numbers)
        } else {
            0
        },
        start: position_after(source.take(from)),
        end: position_after(source.take(token.end)),
        fault: if token.kind != TokenType::Error {
            None
        } else if token.error == Some("Unterminated string."@) {
            Some("Unterminated string.")
        } else {
            Some("Unexpected character.")
        },
    };
    Lexing {
        tokens: l.tokens.push(lexed),
        texts: match content(source, from) {
            Some(text) => with_text(l.texts, text),
            None => l.texts,
        },
        at: token.end,
        numbers: if is_number {
            l.numbers + 1
        } else {
            l.numbers
        },
    }
}

/// All tokens, up to the end of the file.
pub open spec fn lexed_all(source: Seq<char>, numbers: Seq<u64>, l: Lexing) -> Lexing
    decreases source.len() - l.at,
{
    let next = lexed_once(source, numbers, l);
    if next.tokens.last().token_type == TokenType::Eof {
        next
    } else if l.at < next.at <= source.len() {
        lexed_all(source, numbers, next)
    } else {
        next
    }
}

pub open spec fn lexed(source: Seq<char>, numbers: Seq<u64>) -> Lexing {
    lexed_all(
        source,
        numbers,
        Lexing { tokens: Seq::empty(), texts: Seq::empty(), at: 0, numbers: 0 },
    )
}

proof fn lemma_lexed_once(source: Seq<char>, numbers: Seq<u64>, l: Lexing)
    requires
        0 <= l.at <= source.len(),
    ensures
        ({
            let next = lexed_once(source, numbers, l);
            let eof = next.tokens.last().token_type == TokenType::Eof;
            &&& l.at <= next.at <= source.len()
            &&& !eof ==> l.at < next.at
            &&& next.tokens.len() == l.tokens.len() + 1
        }),
{
    lemma_token_start(source, l.at);
    law_lex_makes_progress(source, token_start(source, l.at));
}

/// A place at which reading ends, before anything was read.
pub open spec fn before_all() -> Lexed {
    let position = TextPosition { byte_offset: 0, line: 0, column: 0 };
    Lexed {
        token_type: TokenType::Error,
        text: 0,
        number: 0,
        start: position,
        end: position,
        fault: None,
    }
}

/// The compiler before it has read anything.
pub open spec fn at_start(document: SourceDocument, tokens: Seq<Lexed>, options: CompileOptions) -> PState {
    let origin = crate::debug_info::origin_span(document.id, document.revision);
    let declaration = SourceSpan { end: position_after(document.text@), ..origin };
    PState {
        tokens,
        next: 0,
        current: before_all(),
        previous: before_all(),
        had_error: false,
        panic_mode: false,
        source_id: document.id,
        revision: document.revision,
        notes: Seq::empty(),
        note_count: 0,
        note_limit: options.diagnostic_limit,
        depth: 0,
        depth_limit: options.recursion_limit,
        too_deep: false,
        next_binding_id: 0,
        next_point_id: 1,
        function: fresh_function(FunctionType::Script, None, declaration, 0, origin),
        enclosing: Seq::empty(),
        finished: Seq::empty(),
        sightings: Seq::empty(),
    }
}

/// The compiler when it has read everything.
pub open spec fn at_end(document: SourceDocument, numbers: Seq<u64>, options: CompileOptions) -> PState {
    let tokens = lexed(document.text@, numbers).tokens;
    program(at_start(document, tokens, options).advance()).close_function()
}

pub open spec fn code_of(phase: DiagnosticPhase) -> Seq<char> {
    match phase {
        DiagnosticPhase::Scanner => "scanner.error"@,
        DiagnosticPhase::Parser => "parser.error"@,
        _ => "compiler.error"@,
    }
}

/// What a note says to a reader.
pub open spec fn report_of(note: Note) -> Report {
    Report {
        phase: note.phase,
        severity: DiagnosticSeverity::Error,
        code: code_of(note.phase),
        message: note.message@,
        span: note.span,
        frames: Seq::empty(),
    }
}

pub open spec fn reports(diagnostics: Seq<Diagnostic>) -> Seq<Report> {
    diagnostics.map_values(|diagnostic: Diagnostic| diagnostic@)
}

pub open spec fn contents(texts: Seq<String>) -> Seq<Seq<char>> {
    texts.map_values(|text: String| text@)
}

impl CompileOutcome {
    /// The outcome is what the compiler's last state holds.
    pub open spec fn shows(self, s: PState, texts: Seq<Seq<char>>) -> bool {
        &&& self.limit == (if s.too_deep {
            match s.depth_limit {
                Some(max) => Some(
                    CompileLimit::RecursionDepth { max, actual: crate::parser::one_more(max) },
                ),
                None => None,
            }
        } else {
            None
        })
        &&& self.diagnostic_count == s.note_count
        &&& self.sightings@ == s.sightings
        &&& reports(self.diagnostics@) == s.notes.map_values(|note: Note| report_of(note))
        &&& match self.program {
            Some(program) => !s.had_error && contents(program.texts@) == texts && views(
                program.functions@,
            ) == s.finished.push(s.function),
            None => s.had_error,
        }
    }
}

fn intern(texts: &mut Vec<String>, text: String) -> (place: usize)
    ensures
        place == text_place(contents(old(texts)@), text@, 0),
        contents(final(texts)@) == with_text(contents(old(texts)@), text@),
{
    let ghost before = contents(texts@);
    let mut i: usize = 0;
    while i < texts.len()
        invariant
            i <= texts@.len(),
            before == contents(texts@),
            *texts == *old(texts),
            text_place(before, text@, i as int) == text_place(before, text@, 0),
        decreases texts@.len() - i,
    {
        if same_text(texts[i].as_str(), text.as_str()) {
            return i;
        }
        i += 1;
    }
    texts.push(text);
    assert(contents(texts@) =~= before.push(text@));
    i
}

/// Reads a document into tokens and the texts that they name.
fn scan(document: &SourceDocument, numbers: &Vec<u64>) -> (read: (Vec<Lexed>, Vec<String>))
    requires
        document.wf(),
    ensures
        read.0@ == lexed(document.text@, numbers@).tokens,
        contents(read.1@) == lexed(document.text@, numbers@).texts,
        well_ended(read.0@),
{
    let ghost source = document.text@;
    let mut scanner = Scanner::new(document.text.as_str());
    let mut tokens: Vec<Lexed> = Vec::new();
    let mut texts: Vec<String> = Vec::new();
    let mut used: usize = 0;
    let ghost mut l = Lexing { tokens: Seq::empty(), texts: Seq::empty(), at: 0, numbers: 0 };
    assert(contents(texts@) =~= l.texts);
    proof {
        lemma_utf8_len_bounds(source);
    }
    loop
        invariant_except_break
            scanner.wf(),
            scanner.text() == source,
            scanner.at() == l.at,
            0 <= l.at <= source.len() < usize::MAX,
            tokens@ == l.tokens,
            contents(texts@) == l.texts,
            l.numbers <= l.at,
            used == l.numbers,
            lexed_all(source, numbers@, l) == lexed(source, numbers@),
            forall|i: int| 0 <= i < tokens@.len() ==> (#[trigger] tokens@[i]).token_type != TokenType::Eof,
        invariant
            source == document.text@,
        ensures
            tokens@ == lexed(source, numbers@).tokens,
            contents(texts@) == lexed(source, numbers@).texts,
            well_ended(tokens@),
        decreases source.len() - l.at,
    {
        proof {
            lemma_lexed_once(source, numbers@, l);
            lemma_token_start(source, l.at);
            law_lex_makes_progress(source, token_start(source, l.at));
        }
        let ghost from = token_start(source, l.at);
        let token = scanner.scan_token();
        let mut text: usize = 0;
        if token.token_type == TokenType::Identifier {
            text = intern(&mut texts, token.lexeme().to_owned());
        } else if token.token_type == TokenType::String {
            let scalars = chars_of(token.lexeme());
            proof {
                lemma_string_token(source, from);
                assert(scalars@.subrange(1, scalars@.len() - 1) =~= source.subrange(
                    from + 1,
                    lex(source, from).end - 1,
                ));
            }
            let inner = text_of(vstd::slice::slice_subrange(scalars.as_slice(), 1, scalars.len() - 1));
            text = intern(&mut texts, inner);
        }
        let mut number: u64 = 0;
        if token.token_type == TokenType::Number {
            if used < numbers.len() {
                number = numbers[used];
            }
            used = used + 1;
        }
        let fault = match token.error_message {
            Some(message) => if same_text(message, "Unterminated string.") {
                Some("Unterminated string.")
            } else {
                Some("Unexpected character.")
            },
            None => None,
        };
        tokens.push(
            Lexed {
                token_type: token.token_type,
                text,
                number,
                start: token.start_position,
                end: token.end_position,
                fault,
            },
        );
        proof {
            l = lexed_once(source, numbers@, l);
            assert(tokens@ =~= l.tokens);
        }
        if token.token_type == TokenType::Eof {
            break;
        }
    }
    (tokens, texts)
}

/// A string token has a quote at each end.
proof fn lemma_string_token(source: Seq<char>, from: int)
    requires
        0 <= from < source.len(),
        lex(source, from).kind == TokenType::String,
    ensures
        from + 2 <= lex(source, from).end <= source.len(),
{
    law_lex_makes_progress(source, from);
    crate::scanner::lemma_run_end(source, from + 1, |c: char| c != '"');
}

/// The texts of the number tokens of a document, in their order. Whoever
/// compiles the document parses them.
pub fn number_lexemes(document: &SourceDocument) -> (lexemes: Vec<String>)
    requires
        document.wf(),
    ensures
        contents(lexemes@) == number_texts(document.text@, 0, Seq::empty()),
{
    let ghost source = document.text@;
    let mut scanner = Scanner::new(document.text.as_str());
    let mut lexemes: Vec<String> = Vec::new();
    assert(contents(lexemes@) =~= Seq::<Seq<char>>::empty());
    loop
        invariant_except_break
            scanner.wf(),
            scanner.text() == source,
            0 <= scanner.at() <= source.len(),
            number_texts(source, scanner.at(), contents(lexemes@)) == number_texts(
                source,
                0,
                Seq::empty(),
            ),
        ensures
            contents(lexemes@) == number_texts(source, 0, Seq::empty()),
        decreases source.len() - scanner.at(),
    {
        proof {
            lemma_token_start(source, scanner.at());
            law_lex_makes_progress(source, token_start(source, scanner.at()));
        }
        let token = scanner.scan_token();
        if token.token_type == TokenType::Number {
            let ghost before = contents(lexemes@);
            let lexeme = token.lexeme().to_owned();
            lexemes.push(lexeme);
            assert(contents(lexemes@) =~= before.push(lexeme@));
        }
        if token.token_type == TokenType::Eof {
            break;
        }
    }
    lexemes
}

/// The texts of the number tokens from `at` on, behind those found before.
pub open spec fn number_texts(source: Seq<char>, at: int, found: Seq<Seq<char>>) -> Seq<Seq<char>>
    decreases source.len() - at,
{
    let from = token_start(source, at);
    let token = lex(source, from);
    let found = if token.kind == TokenType::Number {
        found.push(source.subrange(from, token.end))
    } else {
        found
    };
    if token.kind != TokenType::Eof && at < token.end <= source.len() {
        number_texts(source, token.end, found)
    } else {
        found
    }
}

fn diagnostics_of(notes: &Vec<Note>) -> (diagnostics: Vec<Diagnostic>)
    ensures
        reports(diagnostics@) == notes@.map_values(|note: Note| report_of(note)),
{
    let mut diagnostics: Vec<Diagnostic> = Vec::new();
    let mut i: usize = 0;
    let ghost all = notes@.map_values(|note: Note| report_of(note));
    assert(reports(diagnostics@) =~= all.take(0));
    while i < notes.len()
        invariant
            i <= notes@.len(),
            all == notes@.map_values(|note: Note| report_of(note)),
            reports(diagnostics@) == all.take(i as int),
        decreases notes@.len() - i,
    {
        let note = notes[i];
        let code = match note.phase {
            DiagnosticPhase::Scanner => "scanner.error",
            DiagnosticPhase::Parser => "parser.error",
            _ => "compiler.error",
        };
        let ghost before = diagnostics@;
        let diagnostic = Diagnostic {
            phase: note.phase,
            severity: DiagnosticSeverity::Error,
            code: code.to_owned(),
            message: note.message.to_owned(),
            span: note.span,
            frames: Vec::new(),
        };
        assert(diagnostic@.frames =~= Seq::empty());
        assert(diagnostic@ == report_of(note));
        diagnostics.push(diagnostic);
        assert(reports(diagnostics@) =~= reports(before).push(diagnostic@));
        assert(all.take(i + 1) =~= all.take(i as int).push(all[i as int]));
        i += 1;
    }
    assert(all.take(i as int) =~= all);
    diagnostics
}

/// Compiles a document within bounds. `numbers` are the numbers that its
/// number tokens spell, in their order.
pub fn compile_with_options(
    document: &SourceDocument,
    numbers: &Vec<u64>,
    options: CompileOptions,
) -> (outcome: CompileOutcome)
    requires
        document.wf(),
    ensures
        outcome.shows(
            at_end(*document, numbers@, options),
            lexed(document.text@, numbers@).texts,
        ),
{
    let (tokens, texts) = scan(document, numbers);
    let position = TextPosition { byte_offset: 0, line: 0, column: 0 };
    let nothing = Lexed {
        token_type: TokenType::Error,
        text: 0,
        number: 0,
        start: position,
        end: position,
        fault: None,
    };
    let origin = empty_span(document.id, document.revision);
    let declaration = SourceSpan { end: document.eof_span().end, ..origin };
    let mut parser = Parser {
        tokens: &tokens,
        next: 0,
        current: nothing,
        previous: nothing,
        had_error: false,
        panic_mode: false,
        source_id: document.id,
        revision: document.revision,
        notes: Vec::new(),
        note_count: 0,
        note_limit: options.diagnostic_limit,
        depth: 0,
        depth_limit: options.recursion_limit,
        too_deep: false,
        next_binding_id: 0,
        next_point_id: 1,
        function: new_function(FunctionType::Script, None, declaration, 0, origin),
        enclosing: Vec::new(),
        finished: Vec::new(),
        sightings: Vec::new(),
    };
    proof {
        let start = at_start(*document, tokens@, options);
        assert(parser@.notes =~= start.notes);
        assert(parser@.enclosing =~= start.enclosing);
        assert(parser@.finished =~= start.finished);
        assert(parser@.sightings =~= start.sightings);
        assert(parser@ == start);
    }
    parser.advance();
    parser.program();
    parser.close_function();
    let limit = match parser.depth_limit {
        Some(max) if parser.too_deep => Some(
            CompileLimit::RecursionDepth {
                max,
                actual: if max < usize::MAX {
                    max + 1
                } else {
                    max
                },
            },
        ),
        _ => None,
    };
    let diagnostics = diagnostics_of(&parser.notes);
    let diagnostic_count: usize = parser.note_count;
    let had_error = parser.had_error;
    let Parser { function, finished, sightings, .. } = parser;
    let program = if had_error {
        None
    } else {
        let mut functions = finished;
        proof {
            lemma_push_view(functions@, function);
        }
        functions.push(function);
        Some(Program { texts, functions })
    };
    CompileOutcome { limit, diagnostic_count, diagnostics, program, sightings }
}

/// Compiles a document. `numbers` are the numbers that its number tokens
/// spell, in their order.
pub fn compile(document: &SourceDocument, numbers: &Vec<u64>) -> (outcome: CompileOutcome)
    requires
        document.wf(),
    ensures
        outcome.shows(
            at_end(
                *document,
                numbers@,
                CompileOptions { diagnostic_limit: None, recursion_limit: None },
            ),
            lexed(document.text@, numbers@).texts,
        ),
{
    compile_with_options(
        document,
        numbers,
        CompileOptions { diagnostic_limit: None, recursion_limit: None },
    )
}

} // verus!
