//! What is reported while compiling, and how the compiler goes on behind it.
use vstd::prelude::*;
use crate::compiler::report_of;
use crate::parser::{lemma_advance, Lexed, Note, PState};
use crate::scanner::TokenType;

verus! {

/// The first error of a statement is reported, at its token; until the compiler
/// has recovered from it, nothing more is but faults of the scanner.
pub proof fn law_errors_are_reported_once(s: PState, token: Lexed, message: &'static str)
    requires
        s.note_limit is None,
        s.note_count < usize::MAX,
    ensures
        !s.panic_mode || token.token_type is Error ==> {
            let t = s.error_at(token, message);
            &&& t.had_error
            &&& t.panic_mode
            &&& t.note_count == s.note_count + 1
            &&& t.notes.len() == s.notes.len() + 1
            &&& t.notes.drop_last() == s.notes
            &&& t.notes.last().message == message
            &&& t.notes.last().span.start == token.start
            &&& t.notes.last().span.end == token.end
            &&& t.notes.last().phase is Scanner <==> token.token_type is Error
            &&& t.notes.last().phase is Parser <==> !(token.token_type is Error)
        },
        s.panic_mode && !(token.token_type is Error) ==> s.error_at(token, message) == s,
        !s.panic_mode ==> {
            let t = s.compiler_error(message);
            &&& t.notes.len() == s.notes.len() + 1
            &&& t.notes.last().phase is Compiler
            &&& t.notes.last().span.start == s.previous.start
            &&& t.notes.last().span.end == s.previous.end
        },
        s.panic_mode ==> s.compiler_error(message) == s,
{
    let t = s.error_at(token, message);
    if !s.panic_mode || token.token_type is Error {
        assert(t.notes.drop_last() =~= s.notes);
    }
}

/// A report says where a note was made, in which phase, and what it says. It is
/// an error.
pub proof fn law_reports_say_what_notes_do(note: Note)
    ensures
        report_of(note).span == note.span,
        report_of(note).phase == note.phase,
        report_of(note).message == note.message@,
        report_of(note).severity is Error,
        report_of(note).frames.len() == 0,
        note.phase is Scanner ==> report_of(note).code == "scanner.error"@,
        note.phase is Parser ==> report_of(note).code == "parser.error"@,
        note.phase is Compiler ==> report_of(note).code == "compiler.error"@,
{
}

/// A token that has to be there is read; where another stands, that is reported
/// and not read.
pub proof fn law_missing_tokens_are_reported(s: PState, kind: TokenType, message: &'static str)
    ensures
        s.current.token_type == kind ==> s.consume(kind, message) == s.advance(),
        s.current.token_type != kind ==> s.consume(kind, message).current == s.current,
        s.current.token_type != kind ==> s.consume(kind, message).next == s.next,
        s.current.token_type != kind && !s.panic_mode ==> s.consume(kind, message).had_error,
{
    reveal(PState::consume);
}

/// The words that a statement begins with, which end a recovery.
pub open spec fn begins_statement(kind: TokenType) -> bool {
    kind is Class || kind is Fun || kind is Var || kind is For || kind is If || kind is While
        || kind is Print || kind is Return
}

/// Behind an error the compiler reads on to the end of a statement or to the
/// beginning of one.
pub proof fn law_recovery_ends_at_a_statement(s: PState)
    requires
        s.wf(),
        s.depth_limit is None,
    ensures
        ({
            let t = s.synchronize();
            t.current.token_type is Eof || t.previous.token_type is Semicolon || begins_statement(
                t.current.token_type,
            )
        }),
{
    reveal(PState::synchronize);
    lemma_skip(PState { panic_mode: false, ..s }, 0);
}

proof fn lemma_skip(s: PState, open: usize)
    requires
        s.wf(),
        s.depth_limit is None,
    ensures
        ({
            let t = s.skip_to_statement(open);
            t.current.token_type is Eof || t.previous.token_type is Semicolon || begins_statement(
                t.current.token_type,
            )
        }),
    decreases s.rem(),
{
    if !(s.eof() || s.previous.token_type == TokenType::Semicolon
        || crate::parser::starts_statement(s.current.token_type)) {
        let more = if crate::parser::opens_delimiter(s.current.token_type) {
            crate::parser::one_more(open)
        } else if crate::parser::closes_delimiter(s.current.token_type) {
            crate::parser::one_less(open)
        } else {
            open
        };
        lemma_advance(s);
        lemma_unlimited(s);
        lemma_skip(s.advance(), more);
    }
}

proof fn lemma_unlimited(s: PState)
    requires
        s.depth_limit is None,
    ensures
        s.advance().depth_limit is None,
{
    reveal(PState::advance);
    lemma_read_unlimited(PState { previous: s.current, ..s });
}

proof fn lemma_read_unlimited(s: PState)
    requires
        s.depth_limit is None,
    ensures
        s.read().depth_limit is None,
    decreases s.tokens.len() - s.next,
{
    let token = s.tokens[s.next];
    let taken = PState { current: token, next: s.next + 1, ..s };
    if token.token_type == TokenType::Error && 0 <= s.next < s.tokens.len() - 1 {
        lemma_read_unlimited(taken.error_at_current(crate::parser::fault_message(token)));
    }
}

} // verus!
