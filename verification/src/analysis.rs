//! What an editor shows of a document: highlights and diagnostics, within bounds.
use vstd::prelude::*;
use crate::compiler::{
    at_end, compile_with_options, lexed, report_of, reports, CompileLimit, CompileOptions,
    CompileOutcome,
};
use crate::compiling_laws::{
    law_bounds_change_nothing, law_errors_are_noted, law_failures_are_reported,
    law_names_are_met_in_order, lemma_bounds_are_set, no_bounds,
};
use crate::diagnostic::Diagnostic;
use crate::interpreter::{compile_reports, parses, InterpretResult, Run};
use crate::parser::{Note, PState};
use crate::runtime_host::Arithmetic;
use crate::scanner::{blank, comment_at, lemma_run_end, lex, line_end, skip_blanks, Scanner};
use crate::scanner::{law_lex_makes_progress, ScannerItemKind, TokenType};
use crate::source::{position_after, RevisionId, SourceDocument, SourceId, SourceSpan};
use crate::symbols::{shows_sighting, shows_sightings, symbol_occurrences, SymbolOccurrence};
use crate::text::{byte_len, first_char, lemma_utf8_len_monotone, utf8_len};

verus! {

pub const MAX_ANALYSIS_SOURCE_BYTES: usize = 262_144;

pub const MAX_ANALYSIS_LEXICAL_ITEMS: usize = 4_096;

pub const MAX_ANALYSIS_DIAGNOSTICS: usize = 128;

pub const MAX_ANALYSIS_NESTING_DEPTH: usize = 128;

#[derive(Debug, Clone, Copy, PartialEq, Eq, Structural)]
pub enum HighlightKind {
    Keyword,
    Comment,
    String,
    Number,
    Identifier,
    Operator,
    Punctuation,
    Invalid,
}

#[derive(Debug, Clone, Copy, PartialEq, Eq, Structural)]
pub struct HighlightSpan {
    pub kind: HighlightKind,
    pub span: SourceSpan,
}

/// Whether the meaning of names could be told: it can where a document compiles.
#[derive(Debug, Clone, Copy, PartialEq, Eq, Structural)]
pub enum SemanticStatus {
    Available,
    Unavailable,
}

#[derive(Debug, Clone, PartialEq, Eq)]
pub struct LanguageAnalysis {
    pub source_id: SourceId,
    pub revision: RevisionId,
    pub diagnostics: Vec<Diagnostic>,
    pub highlights: Vec<HighlightSpan>,
    pub semantic_status: SemanticStatus,
    pub symbol_occurrences: Vec<SymbolOccurrence>,
}

#[derive(Debug, Clone, Copy, PartialEq, Eq, Structural)]
pub enum AnalysisLimit {
    SourceBytes,
    LexicalItems,
    Diagnostics,
    NestingDepth,
}

#[derive(Debug, Clone, Copy, PartialEq, Eq, Structural)]
pub enum AnalysisError {
    LimitExceeded { limit: AnalysisLimit, max: usize, actual: usize },
}

/// How a token is highlighted. The end of the text is not.
pub open spec fn kind_of(token_type: TokenType) -> HighlightKind {
    match token_type {
        TokenType::Identifier => HighlightKind::Identifier,
        TokenType::String => HighlightKind::String,
        TokenType::Number => HighlightKind::Number,
        TokenType::Error => HighlightKind::Invalid,
        TokenType::LeftParen | TokenType::RightParen | TokenType::LeftBracket
        | TokenType::RightBracket | TokenType::LeftBrace | TokenType::RightBrace
        | TokenType::Comma | TokenType::Dot | TokenType::Semicolon | TokenType::Colon => {
            HighlightKind::Punctuation
        },
        TokenType::Minus | TokenType::Plus | TokenType::Slash | TokenType::Backslash
        | TokenType::Star | TokenType::Bang | TokenType::BangEqual | TokenType::Equal
        | TokenType::EqualEqual | TokenType::Greater | TokenType::GreaterGreater
        | TokenType::GreaterGreaterGreater | TokenType::GreaterEqual | TokenType::Less
        | TokenType::LessEqual => HighlightKind::Operator,
        _ => HighlightKind::Keyword,
    }
}

fn highlight_kind(token_type: TokenType) -> (kind: HighlightKind)
    ensures
        kind == kind_of(token_type),
{
    match token_type {
        TokenType::Identifier => HighlightKind::Identifier,
        TokenType::String => HighlightKind::String,
        TokenType::Number => HighlightKind::Number,
        TokenType::Error => HighlightKind::Invalid,
        TokenType::LeftParen | TokenType::RightParen | TokenType::LeftBracket
        | TokenType::RightBracket | TokenType::LeftBrace | TokenType::RightBrace
        | TokenType::Comma | TokenType::Dot | TokenType::Semicolon | TokenType::Colon => {
            HighlightKind::Punctuation
        },
        TokenType::Minus | TokenType::Plus | TokenType::Slash | TokenType::Backslash
        | TokenType::Star | TokenType::Bang | TokenType::BangEqual | TokenType::Equal
        | TokenType::EqualEqual | TokenType::Greater | TokenType::GreaterGreater
        | TokenType::GreaterGreaterGreater | TokenType::GreaterEqual | TokenType::Less
        | TokenType::LessEqual => HighlightKind::Operator,
        _ => HighlightKind::Keyword,
    }
}

/// A token or a comment, by the places of its first scalar and of the scalar
/// behind it.
pub ghost struct Item {
    pub kind: HighlightKind,
    pub from: int,
    pub to: int,
}

/// The item at a place that is in no white space. An error that begins like a
/// string is shown as one.
pub open spec fn item_at(s: Seq<char>, from: int) -> Item {
    if comment_at(s, from) {
        Item { kind: HighlightKind::Comment, from, to: line_end(s, from) }
    } else {
        let token = lex(s, from);
        Item {
            kind: if token.kind is Error && s[from] == '"' {
                HighlightKind::String
            } else {
                kind_of(token.kind)
            },
            from,
            to: token.end,
        }
    }
}

/// The items of a text from `i` on.
pub open spec fn items_from(s: Seq<char>, i: int) -> Seq<Item>
    decreases s.len() - i,
{
    let from = skip_blanks(s, i);
    let item = item_at(s, from);
    if from >= s.len() || item.to <= i || item.to > s.len() {
        Seq::empty()
    } else {
        seq![item] + items_from(s, item.to)
    }
}

pub open spec fn highlight_of(document: SourceDocument, item: Item) -> HighlightSpan {
    HighlightSpan {
        kind: item.kind,
        span: SourceSpan {
            source_id: document.id,
            revision: document.revision,
            start: position_after(document.text@.take(item.from)),
            end: position_after(document.text@.take(item.to)),
        },
    }
}

pub open spec fn highlights_of(document: SourceDocument, items: Seq<Item>) -> Seq<HighlightSpan> {
    items.map_values(|item: Item| highlight_of(document, item))
}

pub open spec fn analysis_options() -> CompileOptions {
    CompileOptions {
        diagnostic_limit: Some(MAX_ANALYSIS_DIAGNOSTICS),
        recursion_limit: Some(MAX_ANALYSIS_NESTING_DEPTH),
    }
}

/// The first bound that a document goes beyond, if it does.
pub open spec fn limit_exceeded(document: SourceDocument, s: PState) -> Option<AnalysisError> {
    if utf8_len(document.text@) > MAX_ANALYSIS_SOURCE_BYTES {
        Some(
            AnalysisError::LimitExceeded {
                limit: AnalysisLimit::SourceBytes,
                max: MAX_ANALYSIS_SOURCE_BYTES,
                actual: utf8_len(document.text@) as usize,
            },
        )
    } else if items_from(document.text@, 0).len() > MAX_ANALYSIS_LEXICAL_ITEMS {
        Some(
            AnalysisError::LimitExceeded {
                limit: AnalysisLimit::LexicalItems,
                max: MAX_ANALYSIS_LEXICAL_ITEMS,
                actual: (MAX_ANALYSIS_LEXICAL_ITEMS + 1) as usize,
            },
        )
    } else if s.too_deep && s.depth_limit is Some {
        Some(
            AnalysisError::LimitExceeded {
                limit: AnalysisLimit::NestingDepth,
                max: s.depth_limit->0,
                actual: crate::parser::one_more(s.depth_limit->0),
            },
        )
    } else if s.note_count > MAX_ANALYSIS_DIAGNOSTICS {
        Some(
            AnalysisError::LimitExceeded {
                limit: AnalysisLimit::Diagnostics,
                max: MAX_ANALYSIS_DIAGNOSTICS,
                actual: s.note_count,
            },
        )
    } else {
        None
    }
}

/// What an analysis shows, where the compiler ended in a state.
pub open spec fn shows_analysis(
    analysis: LanguageAnalysis,
    document: SourceDocument,
    s: PState,
    texts: Seq<Seq<char>>,
) -> bool {
    &&& analysis.source_id == document.id
    &&& analysis.revision == document.revision
    &&& reports(analysis.diagnostics@) == s.notes.map_values(|note: Note| report_of(note))
    &&& analysis.highlights@ == highlights_of(document, items_from(document.text@, 0))
    &&& (analysis.semantic_status is Available) == !s.had_error
    &&& if s.had_error {
        analysis.symbol_occurrences@.len() == 0
    } else {
        shows_sightings(analysis.symbol_occurrences@, texts, s.sightings)
    }
}

fn limit_error(limit: AnalysisLimit, max: usize, actual: usize) -> (error: AnalysisError)
    ensures
        error == (AnalysisError::LimitExceeded { limit, max, actual }),
{
    AnalysisError::LimitExceeded { limit, max, actual }
}

/// Scanning goes on behind an item.
proof fn lemma_item(s: Seq<char>, i: int)
    requires
        0 <= i <= s.len(),
    ensures
        ({
            let from = skip_blanks(s, i);
            &&& i <= from <= s.len()
            &&& from < s.len() ==> from < item_at(s, from).to <= s.len()
            &&& from == s.len() ==> !comment_at(s, from)
        }),
{
    let from = skip_blanks(s, i);
    lemma_run_end(s, i, |c: char| crate::scanner::blank(c));
    law_lex_makes_progress(s, from);
    if comment_at(s, from) {
        lemma_run_end(s, from, |c: char| c != '\n');
        reveal_with_fuel(crate::scanner::run_end, 2);
    }
}

/// The highlights of a document, unless there are too many of them.
fn highlight(document: &SourceDocument) -> (result: Option<Vec<HighlightSpan>>)
    requires
        document.wf(),
    ensures
        match result {
            Some(highlights) => items_from(document.text@, 0).len() <= MAX_ANALYSIS_LEXICAL_ITEMS
                && highlights@ == highlights_of(*document, items_from(document.text@, 0)),
            None => items_from(document.text@, 0).len() > MAX_ANALYSIS_LEXICAL_ITEMS,
        },
{
    let ghost s = document.text@;
    let ghost all = items_from(s, 0);
    let mut scanner = Scanner::new(document.text.as_str());
    let mut highlights: Vec<HighlightSpan> = Vec::new();
    let ghost mut done: Seq<Item> = Seq::empty();
    assert(highlights@ =~= highlights_of(*document, done));
    assert(done + items_from(s, 0) =~= all);
    loop
        invariant
            document.wf(),
            s == document.text@,
            scanner.wf(),
            scanner.text() == s,
            0 <= scanner.at() <= s.len(),
            all == items_from(s, 0),
            all == done + items_from(s, scanner.at()),
            highlights@ == highlights_of(*document, done),
            done.len() <= MAX_ANALYSIS_LEXICAL_ITEMS,
        decreases s.len() - scanner.at(),
    {
        let ghost at = scanner.at();
        let ghost from = skip_blanks(s, at);
        let ghost item_here = item_at(s, from);
        proof {
            lemma_item(s, at);
            law_lex_makes_progress(s, from);
        }
        let item = scanner.scan_item();
        let kind = match item.kind {
            ScannerItemKind::Comment => HighlightKind::Comment,
            ScannerItemKind::Token(token_type) => {
                if token_type == TokenType::Eof {
                    assert(all =~= done);
                    return Some(highlights);
                }
                if token_type == TokenType::Error && starts_with_quote(item.token.lexeme()) {
                    HighlightKind::String
                } else {
                    highlight_kind(token_type)
                }
            },
        };
        proof {
            if !comment_at(s, from) {
                assert(item.token.lexeme_view()[0] == s[from]);
            }
            assert(kind == item_here.kind);
        }
        if highlights.len() >= MAX_ANALYSIS_LEXICAL_ITEMS {
            return None;
        }
        let ghost before = highlights@;
        highlights.push(
            HighlightSpan { kind, span: item.token.span(document.id, document.revision) },
        );
        proof {
            let one = seq![item_here];
            assert(items_from(s, at) == one + items_from(s, item_here.to));
            assert(done + (one + items_from(s, item_here.to)) =~= done.push(item_here)
                + items_from(s, item_here.to));
            done = done.push(item_here);
            assert(highlights@ =~= highlights_of(*document, done));
        }
    }
}

fn starts_with_quote(text: &str) -> (yes: bool)
    ensures
        yes == (text@.len() > 0 && text@[0] == '"'),
{
    match first_char(text) {
        Some(c) => c == '"',
        None => false,
    }
}

/// Analyzes a document. `numbers` are the numbers that its number tokens
/// spell, in their order.
pub fn analyze(document: &SourceDocument, numbers: &Vec<u64>) -> (result: Result<
    LanguageAnalysis,
    AnalysisError,
>)
    requires
        document.wf(),
    ensures
        ({
            let s = at_end(*document, numbers@, analysis_options());
            match result {
                Ok(analysis) => limit_exceeded(*document, s) is None && shows_analysis(
                    analysis,
                    *document,
                    s,
                    lexed(document.text@, numbers@).texts,
                ),
                Err(error) => limit_exceeded(*document, s) == Some(error),
            }
        }),
{
    let bytes: usize = byte_len(document.text.as_str());
    if bytes > MAX_ANALYSIS_SOURCE_BYTES {
        return Err(limit_error(AnalysisLimit::SourceBytes, MAX_ANALYSIS_SOURCE_BYTES, bytes));
    }
    let highlights = match highlight(document) {
        Some(highlights) => highlights,
        None => {
            return Err(
                limit_error(
                    AnalysisLimit::LexicalItems,
                    MAX_ANALYSIS_LEXICAL_ITEMS,
                    MAX_ANALYSIS_LEXICAL_ITEMS + 1,
                ),
            );
        },
    };
    let outcome = compile_with_options(
        document,
        numbers,
        CompileOptions {
            diagnostic_limit: Some(MAX_ANALYSIS_DIAGNOSTICS),
            recursion_limit: Some(MAX_ANALYSIS_NESTING_DEPTH),
        },
    );
    if let Some(CompileLimit::RecursionDepth { max, actual }) = outcome.limit {
        return Err(limit_error(AnalysisLimit::NestingDepth, max, actual));
    }
    if outcome.diagnostic_count > MAX_ANALYSIS_DIAGNOSTICS {
        return Err(
            limit_error(
                AnalysisLimit::Diagnostics,
                MAX_ANALYSIS_DIAGNOSTICS,
                outcome.diagnostic_count,
            ),
        );
    }
    let (semantic_status, symbol_occurrences) = match &outcome.program {
        Some(program) => (
            SemanticStatus::Available,
            symbol_occurrences(&program.texts, &outcome.sightings),
        ),
        None => (SemanticStatus::Unavailable, Vec::new()),
    };
    Ok(
        LanguageAnalysis {
            source_id: document.id,
            revision: document.revision,
            diagnostics: outcome.diagnostics,
            highlights,
            semantic_status,
            symbol_occurrences,
        },
    )
}

/// An analysis reports what compiling the document reports, and it knows the
/// names of the document exactly if there is a program.
pub proof fn law_analysis_agrees_with_compiling(
    document: SourceDocument,
    numbers: Seq<u64>,
    analysis: LanguageAnalysis,
    outcome: CompileOutcome,
)
    requires
        document.wf(),
        limit_exceeded(document, at_end(document, numbers, analysis_options())) is None,
        shows_analysis(
            analysis,
            document,
            at_end(document, numbers, analysis_options()),
            lexed(document.text@, numbers).texts,
        ),
        outcome.shows(
            at_end(document, numbers, no_bounds()),
            lexed(document.text@, numbers).texts,
        ),
    ensures
        reports(analysis.diagnostics@) == reports(outcome.diagnostics@),
        analysis.semantic_status is Available <==> outcome.program is Some,
        analysis.semantic_status is Available <==> analysis.diagnostics@.len() == 0,
{
    lemma_bounds_are_set(document, numbers, analysis_options());
    law_bounds_change_nothing(document, numbers, analysis_options());
    law_failures_are_reported(document, numbers, no_bounds(), outcome);
    assert(reports(analysis.diagnostics@).len() == reports(outcome.diagnostics@).len());
}

/// A document that an analysis finds fault with is not run: what is reported
/// of a run of it is what the analysis reports. Any other document is run.
pub proof fn law_runs_report_what_analysis_reports<A: Arithmetic>(
    arithmetic: A,
    document: SourceDocument,
    numbers: Seq<u64>,
    analysis: LanguageAnalysis,
    run: Run,
    status: InterpretResult,
)
    requires
        document.wf(),
        limit_exceeded(document, at_end(document, numbers, analysis_options())) is None,
        shows_analysis(
            analysis,
            document,
            at_end(document, numbers, analysis_options()),
            lexed(document.text@, numbers).texts,
        ),
        run.did(arithmetic, document, numbers, status),
    ensures
        analysis.diagnostics@.len() > 0 <==> status is CompileError,
        analysis.diagnostics@.len() > 0 ==> run.after == run.before && run.taken == run.given.with(
            Seq::empty(),
            reports(analysis.diagnostics@),
        ),
{
    lemma_bounds_are_set(document, numbers, analysis_options());
    law_bounds_change_nothing(document, numbers, analysis_options());
    law_errors_are_noted(document, numbers, no_bounds());
    assert(reports(analysis.diagnostics@).len() == analysis.diagnostics@.len());
    assert(reports(analysis.diagnostics@) == compile_reports(document, numbers));
}

/// An analysis of a document says what a run of it would report. Where the
/// analysis finds fault, the document is not run and exactly that is reported;
/// where it finds none, the names of the document are known. `numbers` are
/// those that `arithmetic` gives for the number tokens, and no others.
pub proof fn law_analysis_tells_what_a_run_reports<A: Arithmetic>(
    arithmetic: A,
    document: SourceDocument,
    numbers: Seq<u64>,
    analysis: LanguageAnalysis,
    run: Run,
    status: InterpretResult,
)
    requires
        document.wf(),
        limit_exceeded(document, at_end(document, numbers, analysis_options())) is None,
        shows_analysis(
            analysis,
            document,
            at_end(document, numbers, analysis_options()),
            lexed(document.text@, numbers).texts,
        ),
        forall|other: Seq<u64>| #[trigger] parses(arithmetic, document, other) ==> other == numbers,
        run.shows(arithmetic, document, status),
    ensures
        analysis.source_id == document.id,
        analysis.revision == document.revision,
        analysis.semantic_status is Available <==> analysis.diagnostics@.len() == 0,
        analysis.semantic_status is Unavailable ==> analysis.symbol_occurrences@.len() == 0,
        analysis.diagnostics@.len() > 0 <==> status is CompileError,
        analysis.diagnostics@.len() > 0 ==> run.after == run.before && run.taken == run.given.with(
            Seq::empty(),
            reports(analysis.diagnostics@),
        ),
{
    let parsed = choose|parsed: Seq<u64>|
        parses(arithmetic, document, parsed) && #[trigger] run.did(
            arithmetic,
            document,
            parsed,
            status,
        );
    law_runs_report_what_analysis_reports(arithmetic, document, numbers, analysis, run, status);
    lemma_bounds_are_set(document, numbers, analysis_options());
    law_errors_are_noted(document, numbers, analysis_options());
    assert(reports(analysis.diagnostics@).len() == analysis.diagnostics@.len());
}

/// The occurrences of names come in the order of the source.
pub proof fn law_occurrences_are_in_order(
    document: SourceDocument,
    numbers: Seq<u64>,
    analysis: LanguageAnalysis,
    i: int,
    j: int,
)
    requires
        document.wf(),
        shows_analysis(
            analysis,
            document,
            at_end(document, numbers, analysis_options()),
            lexed(document.text@, numbers).texts,
        ),
        0 <= i <= j < analysis.symbol_occurrences@.len(),
    ensures
        analysis.symbol_occurrences@[i].span.start.byte_offset
            <= analysis.symbol_occurrences@[j].span.start.byte_offset,
{
    law_names_are_met_in_order(document, numbers, analysis_options());
    let s = at_end(document, numbers, analysis_options());
    assert(s.sightings[i].span.start.byte_offset <= s.sightings[j].span.start.byte_offset);
    assert(shows_sighting(
        analysis.symbol_occurrences@[i],
        lexed(document.text@, numbers).texts,
        s.sightings,
        s.sightings[i],
    ));
    assert(shows_sighting(
        analysis.symbol_occurrences@[j],
        lexed(document.text@, numbers).texts,
        s.sightings,
        s.sightings[j],
    ));
}

/// Highlights come in the order of the text, do not overlap, and lie within it.
pub proof fn law_highlights_are_in_order(document: SourceDocument, i: int, j: int)
    requires
        document.wf(),
        0 <= i < j < highlights_of(document, items_from(document.text@, 0)).len(),
    ensures
        ({
            let shown = highlights_of(document, items_from(document.text@, 0));
            &&& shown[i].span.start.byte_offset < shown[i].span.end.byte_offset
            &&& shown[i].span.end.byte_offset <= shown[j].span.start.byte_offset
            &&& shown[j].span.end.byte_offset <= utf8_len(document.text@)
        }),
{
    let s = document.text@;
    let items = items_from(s, 0);
    lemma_items_in_order(s, 0, i, j);
    lemma_utf8_len_monotone(s, items[i].from, items[i].to);
    lemma_utf8_len_monotone(s, items[i].to, items[j].from);
    lemma_utf8_len_monotone(s, items[j].from, items[j].to);
    assert(s.take(s.len() as int) =~= s);
    lemma_utf8_len_monotone(s, items[j].to, s.len() as int);
}

/// Every highlight shows something, and lies within the text.
pub proof fn law_highlights_are_not_empty(document: SourceDocument, i: int)
    requires
        document.wf(),
        0 <= i < highlights_of(document, items_from(document.text@, 0)).len(),
    ensures
        ({
            let shown = highlights_of(document, items_from(document.text@, 0))[i];
            shown.span.start.byte_offset < shown.span.end.byte_offset <= utf8_len(document.text@)
        }),
{
    let s = document.text@;
    let item = items_from(s, 0)[i];
    lemma_item_at(s, 0, i);
    lemma_utf8_len_monotone(s, item.from, item.to);
    lemma_utf8_len_monotone(s, item.to, s.len() as int);
    assert(s.take(s.len() as int) =~= s);
}

/// A highlight shows the scalar at a place of the text.
pub open spec fn shows_scalar(highlight: HighlightSpan, text: Seq<char>, k: int) -> bool {
    highlight.span.start.byte_offset <= utf8_len(text.take(k)) < highlight.span.end.byte_offset
}

/// Nothing but white space is left out: every other scalar of the text is
/// shown by a highlight.
pub proof fn law_highlights_leave_out_white_space(document: SourceDocument, k: int)
    requires
        document.wf(),
        0 <= k < document.text@.len(),
        !blank(document.text@[k]),
    ensures
        exists|i: int|
            0 <= i < highlights_of(document, items_from(document.text@, 0)).len() && shows_scalar(
                #[trigger] highlights_of(document, items_from(document.text@, 0))[i],
                document.text@,
                k,
            ),
{
    let s = document.text@;
    let items = items_from(s, 0);
    lemma_items_cover(s, 0, k);
    let i = choose|i: int| 0 <= i < items.len() && (#[trigger] items[i]).from <= k < items[i].to;
    lemma_item_at(s, 0, i);
    lemma_utf8_len_monotone(s, items[i].from, k);
    lemma_utf8_len_monotone(s, k, items[i].to);
    lemma_utf8_len_monotone(s, items[i].to, s.len() as int);
    assert(s.take(s.len() as int) =~= s);
    assert(shows_scalar(highlights_of(document, items)[i], s, k));
}

/// Every scalar that is no white space lies in an item.
proof fn lemma_items_cover(s: Seq<char>, at: int, k: int)
    requires
        0 <= at <= k < s.len(),
        !blank(s[k]),
    ensures
        exists|i: int|
            0 <= i < items_from(s, at).len() && (#[trigger] items_from(s, at)[i]).from <= k
                < items_from(s, at)[i].to,
    decreases s.len() - at,
{
    lemma_item(s, at);
    lemma_run_end(s, at, |c: char| blank(c));
    let from = skip_blanks(s, at);
    let item = item_at(s, from);
    let rest = items_from(s, item.to);
    let all = items_from(s, at);
    assert(from <= k);
    assert(all == seq![item] + rest);
    if k < item.to {
        assert(all[0] == item);
    } else {
        lemma_items_cover(s, item.to, k);
        let i = choose|i: int| 0 <= i < rest.len() && (#[trigger] rest[i]).from <= k < rest[i].to;
        assert(all[i + 1] == rest[i]);
    }
}

/// Items come in the order of the text and do not overlap.
proof fn lemma_items_in_order(s: Seq<char>, at: int, i: int, j: int)
    requires
        0 <= at <= s.len(),
        0 <= i < j < items_from(s, at).len(),
    ensures
        ({
            let items = items_from(s, at);
            &&& at <= items[i].from < items[i].to <= items[j].from < items[j].to <= s.len()
        }),
    decreases s.len() - at,
{
    lemma_item(s, at);
    let from = skip_blanks(s, at);
    let item = item_at(s, from);
    let rest = items_from(s, item.to);
    assert(items_from(s, at) == seq![item] + rest);
    if i > 0 {
        lemma_items_in_order(s, item.to, i - 1, j - 1);
    } else {
        lemma_item_at(s, item.to, j - 1);
    }
}

/// Every item lies within the text.
proof fn lemma_item_at(s: Seq<char>, at: int, i: int)
    requires
        0 <= at <= s.len(),
        0 <= i < items_from(s, at).len(),
    ensures
        at <= items_from(s, at)[i].from < items_from(s, at)[i].to <= s.len(),
    decreases s.len() - at,
{
    lemma_item(s, at);
    let from = skip_blanks(s, at);
    let item = item_at(s, from);
    assert(items_from(s, at) == seq![item] + items_from(s, item.to));
    if i > 0 {
        lemma_item_at(s, item.to, i - 1);
    }
}

} // verus!
