//! The documents that an editor has open, and what it is told of them.
use vstd::prelude::*;
use crate::analysis::{
    analysis_options, analyze, limit_exceeded, shows_analysis, AnalysisError, AnalysisLimit,
    HighlightKind, HighlightSpan, LanguageAnalysis, MAX_ANALYSIS_SOURCE_BYTES,
};
use crate::compiler::{at_end, lexed};
use crate::diagnostic::{Diagnostic, DiagnosticPhase, DiagnosticSeverity};
use crate::faults::{decimal, decimal_text};
use crate::source::{
    canonical_text, line_feeds, uniform_line_ends, without_byte_order_mark, RevisionId,
    SourceDocument, SourceId,
};
use crate::text::{byte_len, lemma_utf8_len_bounds, utf8_len};
use crate::text_index::{
    has_byte_order_mark, last_line_utf16, positions_fit, raw_column, segments_of, Position, Range,
    TextIndex,
};
use vstd::string::*;

verus! {

pub const MAX_OPEN_DOCUMENTS: usize = 32;

pub const MAX_URI_BYTES: usize = 4_096;

pub struct OpenDocument {
    pub uri: String,
    pub version: i32,
    pub source_id: SourceId,
    pub revision: RevisionId,
    pub content: DocumentContent,
}

pub enum DocumentContent {
    Ready(ReadyDocument),
    Oversized(AnalysisError),
}

pub struct ReadyDocument {
    pub source: SourceDocument,
    pub index: TextIndex,
    pub analysis: Result<LanguageAnalysis, AnalysisError>,
}

/// What is published about one place of a document. The phase goes with it
/// only to clients that take further data.
#[derive(Debug, Clone, PartialEq, Eq)]
pub struct PublishedDiagnostic {
    pub range: Range,
    pub severity: DiagnosticSeverity,
    pub code: String,
    pub message: String,
    pub phase: Option<DiagnosticPhase>,
}

#[derive(Debug, Clone, PartialEq, Eq)]
pub struct Published {
    pub uri: String,
    pub diagnostics: Vec<PublishedDiagnostic>,
    pub version: i32,
}

/// A token by its distance from the one before it.
#[derive(Debug, Clone, Copy, PartialEq, Eq, Structural)]
pub struct SemanticToken {
    pub delta_line: u32,
    pub delta_start: u32,
    pub length: u32,
    pub token_type: u32,
}

#[derive(Debug, Clone, PartialEq, Eq)]
pub struct Location {
    pub uri: String,
    pub range: Range,
}

pub open spec fn zero_range() -> Range {
    Range { start: Position { line: 0, character: 0 }, end: Position { line: 0, character: 0 } }
}

fn no_range() -> (range: Range)
    ensures
        range == zero_range(),
{
    Range { start: Position { line: 0, character: 0 }, end: Position { line: 0, character: 0 } }
}

pub open spec fn uri_fits(uri: Seq<char>) -> bool {
    utf8_len(uri) <= MAX_URI_BYTES
}

pub fn uri_is_bounded(uri: &str) -> (yes: bool)
    ensures
        yes == uri_fits(uri@),
{
    byte_len(uri) <= MAX_URI_BYTES
}

impl DocumentContent {
    pub open spec fn wf(self) -> bool {
        match self {
            DocumentContent::Ready(ready) => ready.source.wf() && ready.index.wf(),
            DocumentContent::Oversized(_) => true,
        }
    }

    /// The content is what a raw text gives. `numbers` are the numbers that
    /// its number tokens spell.
    pub open spec fn is_from(
        self,
        uri: Seq<char>,
        source_id: SourceId,
        revision: RevisionId,
        raw: Seq<char>,
        numbers: Seq<u64>,
    ) -> bool {
        match self {
            DocumentContent::Oversized(error) => utf8_len(raw) > MAX_ANALYSIS_SOURCE_BYTES && error
                == (AnalysisError::LimitExceeded {
                limit: AnalysisLimit::SourceBytes,
                max: MAX_ANALYSIS_SOURCE_BYTES,
                actual: utf8_len(raw) as usize,
            }),
            DocumentContent::Ready(ready) => {
                let s = at_end(ready.source, numbers, analysis_options());
                &&& utf8_len(raw) <= MAX_ANALYSIS_SOURCE_BYTES
                &&& ready.source.id == source_id
                &&& ready.source.revision == revision
                &&& ready.source.name@ == uri
                &&& ready.source.text@ == canonical_text(raw)
                &&& ready.index.text() == ready.source.text@
                &&& ready.index.marked() == has_byte_order_mark(raw)
                &&& ready.index.source_id() == source_id
                &&& ready.index.revision() == revision
                &&& match ready.analysis {
                    Ok(analysis) => limit_exceeded(ready.source, s) is None && shows_analysis(
                        analysis,
                        ready.source,
                        s,
                        lexed(ready.source.text@, numbers).texts,
                    ),
                    Err(error) => limit_exceeded(ready.source, s) == Some(error),
                }
            },
        }
    }
}

proof fn lemma_uniform_len(s: Seq<char>)
    ensures
        uniform_line_ends(s).len() <= s.len(),
    decreases s.len(),
{
    if s.len() > 0 {
        lemma_uniform_len(s.drop_first());
        if s.len() > 1 {
            lemma_uniform_len(s.skip(2));
        }
    }
}

proof fn lemma_columns(s: Seq<char>)
    ensures
        last_line_utf16(s) <= 2 * s.len(),
        line_feeds(s) <= s.len(),
    decreases s.len(),
{
    if s.len() > 0 {
        lemma_columns(s.drop_last());
    }
}

/// The positions of a short text fit.
proof fn lemma_short_text_fits(raw: Seq<char>)
    requires
        utf8_len(raw) <= MAX_ANALYSIS_SOURCE_BYTES,
    ensures
        positions_fit(canonical_text(raw), has_byte_order_mark(raw)),
{
    lemma_utf8_len_bounds(raw);
    let text = canonical_text(raw);
    lemma_uniform_len(without_byte_order_mark(raw));
    lemma_columns(text);
    assert forall|k: int| 0 <= k <= text.len() implies #[trigger] raw_column(
        text.take(k),
        has_byte_order_mark(raw),
    ) <= u32::MAX by {
        lemma_columns(text.take(k));
    }
}

/// Builds the content of a document from its raw text.
pub fn build_content(
    uri: &str,
    source_id: SourceId,
    revision: RevisionId,
    raw: &str,
    numbers: &Vec<u64>,
) -> (content: DocumentContent)
    ensures
        content.wf(),
        content.is_from(uri@, source_id, revision, raw@, numbers@),
{
    let bytes: usize = byte_len(raw);
    if bytes > MAX_ANALYSIS_SOURCE_BYTES {
        return DocumentContent::Oversized(
            AnalysisError::LimitExceeded {
                limit: AnalysisLimit::SourceBytes,
                max: MAX_ANALYSIS_SOURCE_BYTES,
                actual: bytes,
            },
        );
    }
    let source = SourceDocument::new(source_id, revision, uri, raw);
    proof {
        lemma_short_text_fits(raw@);
    }
    let index = TextIndex::new(raw, &source);
    let analysis = analyze(&source, numbers);
    DocumentContent::Ready(ReadyDocument { source, index, analysis })
}

pub open spec fn limit_name(limit: AnalysisLimit) -> (Seq<char>, Seq<char>) {
    match limit {
        AnalysisLimit::SourceBytes => ("analysis.limit.source_bytes"@, "source byte"@),
        AnalysisLimit::LexicalItems => ("analysis.limit.lexical_items"@, "lexical item"@),
        AnalysisLimit::Diagnostics => ("analysis.limit.diagnostics"@, "diagnostic"@),
        AnalysisLimit::NestingDepth => ("analysis.limit.nesting_depth"@, "nesting depth"@),
    }
}

/// A bound that a document goes beyond is published at its start.
pub open spec fn publishes_limit(p: PublishedDiagnostic, error: AnalysisError) -> bool {
    let AnalysisError::LimitExceeded { limit, max, actual } = error;
    &&& p.range == zero_range()
    &&& p.severity == DiagnosticSeverity::Error
    &&& p.code@ == limit_name(limit).0
    &&& p.message@ == "Analysis "@ + limit_name(limit).1 + " limit exceeded: maximum "@ + decimal(
        max as nat,
    ) + ", got "@ + decimal(actual as nat) + "."@
    &&& p.phase is None
}

pub fn limit_diagnostic(error: &AnalysisError) -> (diagnostic: PublishedDiagnostic)
    ensures
        publishes_limit(diagnostic, *error),
{
    let AnalysisError::LimitExceeded { limit, max, actual } = *error;
    let (code, label) = match limit {
        AnalysisLimit::SourceBytes => ("analysis.limit.source_bytes", "source byte"),
        AnalysisLimit::LexicalItems => ("analysis.limit.lexical_items", "lexical item"),
        AnalysisLimit::Diagnostics => ("analysis.limit.diagnostics", "diagnostic"),
        AnalysisLimit::NestingDepth => ("analysis.limit.nesting_depth", "nesting depth"),
    };
    let mut message = "Analysis ".to_owned();
    message.append(label);
    message.append(" limit exceeded: maximum ");
    message.append(decimal_text(max).as_str());
    message.append(", got ");
    message.append(decimal_text(actual).as_str());
    message.append(".");
    PublishedDiagnostic {
        range: no_range(),
        severity: DiagnosticSeverity::Error,
        code: code.to_owned(),
        message,
        phase: None,
    }
}

/// A diagnostic is published where it stands in the editor's text.
pub open spec fn publishes(p: PublishedDiagnostic, index: TextIndex, d: Diagnostic, data: bool) -> bool {
    &&& p.range == (match index.range_of(d.span) {
        Some(range) => range,
        None => zero_range(),
    })
    &&& p.severity == d.severity
    &&& p.code@ == d.code@
    &&& p.message@ == d.message@
    &&& p.phase == (if data {
        Some(d.phase)
    } else {
        None
    })
}

impl OpenDocument {
    pub open spec fn wf(self) -> bool {
        self.content.wf()
    }

    /// What is published about the document.
    pub open spec fn publishes(self, ps: Seq<PublishedDiagnostic>, data: bool) -> bool {
        match self.content {
            DocumentContent::Oversized(error) => ps.len() == 1 && publishes_limit(ps[0], error),
            DocumentContent::Ready(ready) => match ready.analysis {
                Err(error) => ps.len() == 1 && publishes_limit(ps[0], error),
                Ok(analysis) => ps.len() == analysis.diagnostics@.len() && forall|i: int|
                    0 <= i < ps.len() ==> publishes(
                        #[trigger] ps[i],
                        ready.index,
                        analysis.diagnostics@[i],
                        data,
                    ),
            },
        }
    }

    pub fn diagnostics(&self, data_support: bool) -> (published: Vec<PublishedDiagnostic>)
        requires
            self.wf(),
        ensures
            self.publishes(published@, data_support),
    {
        let mut published: Vec<PublishedDiagnostic> = Vec::new();
        match &self.content {
            DocumentContent::Oversized(error) => {
                published.push(limit_diagnostic(error));
            },
            DocumentContent::Ready(ready) => match &ready.analysis {
                Err(error) => {
                    published.push(limit_diagnostic(error));
                },
                Ok(analysis) => {
                    let mut i: usize = 0;
                    while i < analysis.diagnostics.len()
                        invariant
                            ready.index.wf(),
                            i <= analysis.diagnostics@.len(),
                            published@.len() == i,
                            forall|j: int|
                                0 <= j < i ==> publishes(
                                    #[trigger] published@[j],
                                    ready.index,
                                    analysis.diagnostics@[j],
                                    data_support,
                                ),
                        decreases analysis.diagnostics@.len() - i,
                    {
                        let diagnostic = &analysis.diagnostics[i];
                        published.push(
                            PublishedDiagnostic {
                                range: match ready.index.span_to_range(diagnostic.span) {
                                    Some(range) => range,
                                    None => no_range(),
                                },
                                severity: diagnostic.severity,
                                code: diagnostic.code.clone(),
                                message: diagnostic.message.clone(),
                                phase: if data_support {
                                    Some(diagnostic.phase)
                                } else {
                                    None
                                },
                            },
                        );
                        i += 1;
                    }
                },
            },
        }
        published
    }
}

/// A token by its line, its column, its length and its type.
pub type AbsoluteToken = (u32, u32, u32, u32);

/// The number of a highlight among the token types; punctuation and what is
/// not valid have none.
pub open spec fn token_type_of(kind: HighlightKind) -> Option<u32> {
    match kind {
        HighlightKind::Keyword => Some(0),
        HighlightKind::Comment => Some(1),
        HighlightKind::String => Some(2),
        HighlightKind::Number => Some(3),
        HighlightKind::Identifier => Some(4),
        HighlightKind::Operator => Some(5),
        HighlightKind::Punctuation | HighlightKind::Invalid => None,
    }
}

fn token_type(kind: HighlightKind) -> (number: Option<u32>)
    ensures
        number == token_type_of(kind),
{
    match kind {
        HighlightKind::Keyword => Some(0),
        HighlightKind::Comment => Some(1),
        HighlightKind::String => Some(2),
        HighlightKind::Number => Some(3),
        HighlightKind::Identifier => Some(4),
        HighlightKind::Operator => Some(5),
        HighlightKind::Punctuation | HighlightKind::Invalid => None,
    }
}

/// The first `n` segments that are not empty, with a type.
pub open spec fn typed(segments: Seq<(u32, u32, u32)>, n: int, token_type: u32) -> Seq<AbsoluteToken>
    decreases n,
{
    if n <= 0 {
        Seq::empty()
    } else {
        let before = typed(segments, n - 1, token_type);
        let (line, start, length) = segments[n - 1];
        if length != 0 {
            before.push((line, start, length, token_type))
        } else {
            before
        }
    }
}

/// The tokens of the first `n` highlights, each cut at line ends. There are
/// none at all where a highlight is not in the text.
pub open spec fn absolute_tokens(index: TextIndex, highlights: Seq<HighlightSpan>, n: int) -> Option<
    Seq<AbsoluteToken>,
>
    decreases n,
{
    if n <= 0 {
        Some(Seq::empty())
    } else {
        match absolute_tokens(index, highlights, n - 1) {
            None => None,
            Some(before) => match token_type_of(highlights[n - 1].kind) {
                None => Some(before),
                Some(token_type) => match index.range_of(highlights[n - 1].span) {
                    None => None,
                    Some(range) => {
                        let segments = segments_of(index.text(), index.marked(), range);
                        Some(before + typed(segments, segments.len() as int, token_type))
                    },
                },
            },
        }
    }
}

/// Tokens by their distances: each line from the line before, and on one line
/// each column from the column before. It fails where tokens go back.
pub open spec fn encoded(tokens: Seq<AbsoluteToken>, n: int) -> Option<Seq<SemanticToken>>
    decreases n,
{
    if n <= 0 {
        Some(Seq::empty())
    } else {
        match encoded(tokens, n - 1) {
            None => None,
            Some(before) => {
                let (line, start, length, token_type) = tokens[n - 1];
                let (last_line, last_start) = if n > 1 {
                    (tokens[n - 2].0, tokens[n - 2].1)
                } else {
                    (0u32, 0u32)
                };
                if line < last_line || (line == last_line && start < last_start) {
                    None
                } else {
                    Some(
                        before.push(
                            SemanticToken {
                                delta_line: (line - last_line) as u32,
                                delta_start: if line == last_line {
                                    (start - last_start) as u32
                                } else {
                                    start
                                },
                                length,
                                token_type,
                            },
                        ),
                    )
                }
            },
        }
    }
}

/// What a reader makes of the first `n` encoded tokens.
pub open spec fn decoded(tokens: Seq<SemanticToken>, n: int) -> Seq<AbsoluteToken>
    decreases n,
{
    if n <= 0 {
        Seq::empty()
    } else {
        let before = decoded(tokens, n - 1);
        let token = tokens[n - 1];
        let (last_line, last_start) = if n > 1 {
            (before.last().0, before.last().1)
        } else {
            (0u32, 0u32)
        };
        before.push(
            (
                (last_line + token.delta_line) as u32,
                if token.delta_line == 0 {
                    (last_start + token.delta_start) as u32
                } else {
                    token.delta_start
                },
                token.length,
                token.token_type,
            ),
        )
    }
}

/// A reader gets back the tokens that were encoded.
pub proof fn law_tokens_round_trip(tokens: Seq<AbsoluteToken>)
    requires
        encoded(tokens, tokens.len() as int) is Some,
    ensures
        ({
            let wire = encoded(tokens, tokens.len() as int)->0;
            decoded(wire, wire.len() as int) == tokens
        }),
{
    lemma_decode(tokens, tokens.len() as int);
    assert(tokens.take(tokens.len() as int) =~= tokens);
}

proof fn lemma_decode(tokens: Seq<AbsoluteToken>, n: int)
    requires
        0 <= n <= tokens.len(),
        encoded(tokens, n) is Some,
    ensures
        ({
            let wire = encoded(tokens, n)->0;
            wire.len() == n && decoded(wire, n) == tokens.take(n)
        }),
    decreases n,
{
    if n > 0 {
        lemma_decode(tokens, n - 1);
        let before = encoded(tokens, n - 1)->0;
        let wire = encoded(tokens, n)->0;
        assert(wire.drop_last() =~= before);
        lemma_decode_prefix(before, wire, n - 1);
        if n > 1 {
            assert(tokens.take(n - 1).last() == tokens[n - 2]);
        }
        assert(decoded(wire, n) =~= tokens.take(n));
    } else {
        assert(tokens.take(0) =~= Seq::empty());
    }
}

proof fn lemma_decode_prefix(a: Seq<SemanticToken>, b: Seq<SemanticToken>, n: int)
    requires
        0 <= n <= a.len() <= b.len(),
        forall|i: int| 0 <= i < n ==> a[i] == b[i],
    ensures
        decoded(a, n) == decoded(b, n),
    decreases n,
{
    if n > 0 {
        lemma_decode_prefix(a, b, n - 1);
    }
}

pub open spec fn tokens_of(index: TextIndex, highlights: Seq<HighlightSpan>) -> Option<
    Seq<SemanticToken>,
> {
    match absolute_tokens(index, highlights, highlights.len() as int) {
        Some(tokens) => encoded(tokens, tokens.len() as int),
        None => None,
    }
}

fn locate_tokens(index: &TextIndex, highlights: &Vec<HighlightSpan>) -> (tokens: Option<
    Vec<AbsoluteToken>,
>)
    requires
        index.wf(),
    ensures
        match tokens {
            Some(tokens) => absolute_tokens(*index, highlights@, highlights@.len() as int) == Some(
                tokens@,
            ),
            None => absolute_tokens(*index, highlights@, highlights@.len() as int) is None,
        },
{
    let mut tokens: Vec<AbsoluteToken> = Vec::new();
    let mut i: usize = 0;
    assert(tokens@ =~= Seq::empty());
    while i < highlights.len()
        invariant
            index.wf(),
            i <= highlights@.len(),
            absolute_tokens(*index, highlights@, i as int) == Some(tokens@),
        decreases highlights@.len() - i,
    {
        if let Some(number) = token_type(highlights[i].kind) {
            let segments = match index.span_segments(highlights[i].span) {
                Some(segments) => segments,
                None => {
                    proof {
                        lemma_absolute_none(*index, highlights@, i + 1, highlights@.len() as int);
                    }
                    return None;
                },
            };
            let ghost before = tokens@;
            let mut k: usize = 0;
            assert(tokens@ =~= before + typed(segments@, 0, number));
            while k < segments.len()
                invariant
                    k <= segments@.len(),
                    tokens@ == before + typed(segments@, k as int, number),
                decreases segments@.len() - k,
            {
                let (line, start, length) = segments[k];
                if length != 0 {
                    tokens.push((line, start, length, number));
                }
                k += 1;
                assert(tokens@ =~= before + typed(segments@, k as int, number));
            }
        }
        i += 1;
    }
    Some(tokens)
}

proof fn lemma_absolute_none(index: TextIndex, highlights: Seq<HighlightSpan>, i: int, n: int)
    requires
        0 <= i <= n,
        absolute_tokens(index, highlights, i) is None,
    ensures
        absolute_tokens(index, highlights, n) is None,
    decreases n,
{
    if i < n {
        lemma_absolute_none(index, highlights, i, n - 1);
    }
}

proof fn lemma_encoded_none(tokens: Seq<AbsoluteToken>, i: int, n: int)
    requires
        0 <= i <= n,
        encoded(tokens, i) is None,
    ensures
        encoded(tokens, n) is None,
    decreases n,
{
    if i < n {
        lemma_encoded_none(tokens, i, n - 1);
    }
}

pub fn encode_tokens(tokens: &Vec<AbsoluteToken>) -> (wire: Option<Vec<SemanticToken>>)
    ensures
        match wire {
            Some(wire) => encoded(tokens@, tokens@.len() as int) == Some(wire@),
            None => encoded(tokens@, tokens@.len() as int) is None,
        },
{
    let mut wire: Vec<SemanticToken> = Vec::new();
    let mut previous_line: u32 = 0;
    let mut previous_start: u32 = 0;
    let mut i: usize = 0;
    assert(wire@ =~= Seq::empty());
    while i < tokens.len()
        invariant
            i <= tokens@.len(),
            encoded(tokens@, i as int) == Some(wire@),
            (previous_line, previous_start) == (if i > 0 {
                (tokens@[i - 1].0, tokens@[i - 1].1)
            } else {
                (0u32, 0u32)
            }),
        decreases tokens@.len() - i,
    {
        let (line, start, length, token_type) = tokens[i];
        if line < previous_line || (line == previous_line && start < previous_start) {
            proof {
                lemma_encoded_none(tokens@, i + 1, tokens@.len() as int);
            }
            return None;
        }
        let delta_start: u32 = if line == previous_line {
            start - previous_start
        } else {
            start
        };
        wire.push(
            SemanticToken { delta_line: line - previous_line, delta_start, length, token_type },
        );
        previous_line = line;
        previous_start = start;
        i += 1;
    }
    Some(wire)
}

impl OpenDocument {
    /// The tokens of the document; none where it could not be analyzed.
    pub open spec fn tokens(self) -> Seq<SemanticToken> {
        match self.content {
            DocumentContent::Ready(ready) => match ready.analysis {
                Ok(analysis) => match tokens_of(ready.index, analysis.highlights@) {
                    Some(tokens) => tokens,
                    None => Seq::empty(),
                },
                Err(_) => Seq::empty(),
            },
            DocumentContent::Oversized(_) => Seq::empty(),
        }
    }

    pub fn semantic_tokens(&self) -> (tokens: Vec<SemanticToken>)
        requires
            self.wf(),
        ensures
            tokens@ == self.tokens(),
    {
        if let DocumentContent::Ready(ready) = &self.content {
            if let Ok(analysis) = &ready.analysis {
                if let Some(tokens) = locate_tokens(&ready.index, &analysis.highlights) {
                    if let Some(wire) = encode_tokens(&tokens) {
                        return wire;
                    }
                }
            }
        }
        let none: Vec<SemanticToken> = Vec::new();
        assert(none@ =~= Seq::empty());
        none
    }
}

} // verus!
