//! What editors and users are told.
use vstd::prelude::*;
use crate::command_line::{asks_for, Command};
use crate::console::shows_diagnostic;
use crate::diagnostic::Report;
use crate::faults::{decimal, hex_digit};
use crate::server::{
    escaped_char, hex, welcomes, Action, ClientCapabilities, Params, Reply, Server, ServerOutcome,
    Welcome,
};
use crate::text::utf8_len;
use crate::text_index::raw_position;

verus! {

/// An editor counts lines and columns from zero, and a column in UTF-16 code
/// units: a line feed begins a line, and another scalar takes one unit, or two
/// where it lies beyond the first plane. A byte order mark takes one unit of the
/// first line.
pub proof fn law_editors_count_utf16_units(prefix: Seq<char>, c: char, marked: bool)
    requires
        prefix.len() < 0x4000_0000,
    ensures
        raw_position(Seq::empty(), marked).line == 0,
        raw_position(Seq::empty(), false).character == 0,
        raw_position(Seq::empty(), true).character == 1,
        ({
            let before = raw_position(prefix, marked);
            let after = raw_position(prefix.push(c), marked);
            &&& c == '\n' ==> after.line == before.line + 1 && after.character == 0
            &&& c != '\n' ==> after.line == before.line && after.character == before.character
                + if (c as u32) < 0x10000 {
                1int
            } else {
                2
            }
        }),
{
    let all = prefix.push(c);
    assert(all.drop_last() =~= prefix);
    crate::source::lemma_position_bounds(prefix);
    lemma_columns_are_bounded(prefix);
}

proof fn lemma_columns_are_bounded(s: Seq<char>)
    ensures
        crate::text_index::last_line_utf16(s) <= 2 * s.len(),
    decreases s.len(),
{
    if s.len() > 0 {
        lemma_columns_are_bounded(s.drop_last());
    }
}

/// After a shutdown every request is refused. Before it, a request for one is
/// answered and remembered, a request that is not known is refused by its name,
/// and one that cannot be read with the reason. No request changes a document.
pub proof fn law_requests(before: Server, after: Server, method: Seq<char>, params: Params, action: Action)
    requires
        before.requested(after, method, params, action),
    ensures
        after.documents == before.documents,
        before.shutdown_received ==> after.shutdown_received && (action matches Action::Respond(
            Reply::Error { code, message: _ },
        ) && code == -32600),
        !before.shutdown_received && method == "shutdown"@ && params is Nothing
            ==> after.shutdown_received && action == Action::Respond(Reply::Null),
        !before.shutdown_received && method != "shutdown"@ ==> !after.shutdown_received,
        !before.shutdown_received && method != "shutdown"@ && method
            != "textDocument/definition"@ && method != "textDocument/semanticTokens/full"@ ==> (
        action matches Action::Respond(Reply::Error { code, message }) && code == -32601
            && message@ == "unknown request method: "@ + method),
        !before.shutdown_received && (method == "textDocument/definition"@ || method
            == "textDocument/semanticTokens/full"@) ==> (params matches Params::Malformed {
            reason,
        } ==> (action matches Action::Respond(Reply::Error { code, message }) && code == -32602
            && message@ == reason@)),
        !before.shutdown_received && method == "textDocument/definition"@ && params is Definition
            ==> (action matches Action::Respond(Reply::Locations(_))),
        !before.shutdown_received && method == "textDocument/semanticTokens/full"@ && params
            is Tokens ==> (action matches Action::Respond(Reply::Tokens(_))),
{
    reveal_strlit("shutdown");
    reveal_strlit("textDocument/definition");
    reveal_strlit("textDocument/semanticTokens/full");
    assert("shutdown"@.len() != "textDocument/definition"@.len());
    assert("shutdown"@.len() != "textDocument/semanticTokens/full"@.len());
    assert("textDocument/definition"@.len() != "textDocument/semanticTokens/full"@.len());
}

/// An exit ends the conversation, and is a clean one only after a shutdown.
/// After a shutdown nothing else does anything.
pub proof fn law_notifications(
    before: Server,
    after: Server,
    method: Seq<char>,
    params: Params,
    action: Action,
)
    requires
        before.notified(after, method, params, action),
    ensures
        after.shutdown_received == before.shutdown_received,
        method == "exit"@ && before.shutdown_received ==> action == Action::Stop(
            ServerOutcome::CleanExit,
        ),
        method == "exit"@ && !before.shutdown_received ==> action == Action::Stop(
            ServerOutcome::ExitWithoutShutdown,
        ),
        method != "exit"@ ==> !(action is Stop) && !(action is Respond),
        method != "exit"@ && before.shutdown_received ==> after.documents == before.documents
            && action is Nothing,
        !(params is Open) && !(params is Change) && !(params is Close) ==> after.documents
            == before.documents,
{
}

/// A client is accepted if it can count in UTF-16 code units, or does not say
/// how it counts.
pub proof fn law_clients_are_accepted(welcome: Welcome, client: ClientCapabilities)
    requires
        welcomes(welcome, Ok(client)),
    ensures
        client.position_encodings is None ==> welcome is Accept,
        client.position_encodings matches Some(encodings) ==> (welcome is Accept <==> exists|i: int|
            0 <= i < encodings@.len() && (#[trigger] encodings@[i])@ == "utf-16"@),
        welcome matches Welcome::Accept { diagnostic_data_support } ==> (diagnostic_data_support
            <==> client.diagnostic_data_support == Some(true)),
{
}

/// The number that a hexadecimal digit stands for.
pub open spec fn hex_value(c: char) -> int {
    if '0' <= c && c <= '9' {
        c as int - '0' as int
    } else {
        c as int - 'a' as int + 10
    }
}

pub open spec fn hex_number(digits: Seq<char>) -> int
    decreases digits.len(),
{
    if digits.len() == 0 {
        0
    } else {
        hex_number(digits.drop_last()) * 16 + hex_value(digits.last())
    }
}

/// The hexadecimal digits of a number spell it.
pub proof fn law_hexadecimal_digits_spell_their_number(n: nat)
    ensures
        hex_number(hex(n)) == n,
        hex(n).len() > 0,
    decreases n,
{
    if n < 16 {
        assert(hex(n).drop_last() =~= Seq::empty());
        assert(hex_number(Seq::empty()) == 0);
        assert(hex(n).last() == hex_digit(n as int));
    } else {
        law_hexadecimal_digits_spell_their_number(n / 16);
        assert(hex(n).drop_last() =~= hex(n / 16));
    }
}

/// Letters and digits are shown in messages as they are, and what could not be
/// seen by its number.
pub proof fn law_escapes(c: char)
    ensures
        ('a' <= c && c <= 'z') || ('A' <= c && c <= 'Z') || ('0' <= c && c <= '9') || c == ' '
            ==> escaped_char(c) == seq![c],
        c == '"' ==> escaped_char(c) == seq!['\\', '"'],
        c == '\n' ==> escaped_char(c) == seq!['\\', 'n'],
        c > '~' ==> {
            let shown = escaped_char(c);
            &&& shown.len() > 4
            &&& shown.take(3) == seq!['\\', 'u', '{']
            &&& shown.last() == '}'
            &&& hex_number(shown.subrange(3, shown.len() - 1)) == (c as u32) as int
        },
{
    if c > '~' {
        let n = (c as u32) as nat;
        law_hexadecimal_digits_spell_their_number(n);
        let shown = escaped_char(c);
        assert(shown.take(3) =~= seq!['\\', 'u', '{']);
        assert(shown.subrange(3, shown.len() - 1) =~= hex(n));
    }
}

/// A failed program is told of in one line for its fault and one for each call
/// under way, by its line and its name.
pub proof fn law_failures_are_told_line_by_line(report: Report, source: Seq<char>, lines: Seq<Seq<char>>, i: int)
    requires
        report.phase is Runtime,
        shows_diagnostic(report, source, lines),
        0 <= i < report.frames.len(),
    ensures
        lines.len() == report.frames.len() + 1,
        lines[0] == report.message,
        report.frames[i].0 != "<script>"@ ==> lines[i + 1] == "[line "@ + decimal(
            report.frames[i].1.start.line as nat,
        ) + "] in "@ + report.frames[i].0 + "()"@,
        report.frames[i].0 == "<script>"@ ==> lines[i + 1] == "[line "@ + decimal(
            report.frames[i].1.start.line as nat,
        ) + "] in "@ + "script"@,
{
}

/// A program that was not compiled is told of by the line, the text that is
/// wrong, and what is wrong with it.
pub proof fn law_errors_are_told_with_their_text(
    report: Report,
    source: Seq<char>,
    lines: Seq<Seq<char>>,
    i: int,
    k: int,
)
    requires
        report.phase is Parser || report.phase is Compiler,
        shows_diagnostic(report, source, lines),
        0 <= i < k <= source.len(),
        report.span.start.byte_offset == utf8_len(source.take(i)),
        report.span.end.byte_offset == utf8_len(source.take(k)),
        forall|a: int, b: int|
            0 <= a <= source.len() && 0 <= b <= source.len() && #[trigger] utf8_len(source.take(a))
                == #[trigger] utf8_len(source.take(b)) ==> a == b,
    ensures
        lines.len() == 1,
        lines[0] == "[line "@ + decimal(report.span.start.line as nat) + "] Error"@ + (" at '"@
            + source.subrange(i, k) + "'"@) + ": "@ + report.message,
{
    assert(crate::console::is_between(
        source,
        report.span.start.byte_offset,
        report.span.end.byte_offset,
        source.subrange(i, k),
    ));
    if report.span.start == report.span.end {
        assert(utf8_len(source.take(i)) == utf8_len(source.take(k)));
    }
}

/// Without arguments what is typed in is run, and with one a file.
pub proof fn law_commands(args: Seq<String>, command: Command)
    requires
        asks_for(args, command),
    ensures
        args.len() == 1 ==> command is Repl,
        args.len() == 2 && args[1]@ != "--debug-worker"@ ==> (command matches Command::RunFile {
            path,
        } && path@ == args[1]@),
        args.len() > 4 || args.len() == 3 ==> command is Usage,
        command matches Command::Worker { session } ==> args.len() == 4 && session.0 > 0
            && crate::printing_laws::number_of(args[3]@) == session.0,
{
    if let Command::Worker { session } = command {
        crate::printing_laws::law_digits_spell_their_number(session.0 as nat);
    }
}

} // verus!
