//! Translates between positions in a text as an editor holds it (lines and
//! UTF-16 columns, any line ends, perhaps a byte order mark) and positions in
//! the canonical text that is compiled.
use vstd::prelude::*;
use crate::source::{RevisionId, SourceDocument, SourceId, SourceSpan, TextPosition};
use crate::source::{canonical_text, last_line_len, line_feeds, position_after};
use crate::source::{uniform_line_ends, without_byte_order_mark};
use crate::source::{lemma_position_bounds, lemma_position_push};
use crate::text::{char_utf16_width, char_width, chars_of, utf16_width, utf8_len};
use crate::text::{lemma_utf8_len_bounds, lemma_utf8_len_monotone, lemma_utf8_len_take};

verus! {

/// A place in an editor's text: a line from zero, and UTF-16 code units from
/// the start of that line.
#[derive(Debug, Clone, Copy, PartialEq, Eq, Structural)]
pub struct Position {
    pub line: u32,
    pub character: u32,
}

#[derive(Debug, Clone, Copy, PartialEq, Eq, Structural)]
pub struct Range {
    pub start: Position,
    pub end: Position,
}

#[derive(Debug, Clone, Copy, PartialEq, Eq, Structural)]
pub enum PositionMapping {
    Offset(usize),
    OutsideCompilerText,
}

#[derive(Debug, Clone, Copy, PartialEq, Eq, Structural)]
struct CanonicalBoundary {
    byte_offset: usize,
    compiler_line: usize,
    compiler_column: usize,
    raw_position: Position,
}

#[derive(Debug, Clone, Copy, PartialEq, Eq, Structural)]
struct RawBoundary {
    utf16_column: u32,
    canonical_byte: Option<usize>,
}

#[derive(Debug, Clone, Copy, PartialEq, Eq, Structural)]
struct RawLine {
    first: usize,
    end: usize,
    utf16_len: u32,
}

/// UTF-16 code units behind the last line feed of a text.
pub open spec fn last_line_utf16(s: Seq<char>) -> nat
    decreases s.len(),
{
    if s.len() == 0 || s.last() == '\n' {
        0
    } else {
        last_line_utf16(s.drop_last()) + utf16_width(s.last())
    }
}

/// The editor's column behind `prefix`: a byte order mark takes one code
/// unit of the first line.
pub open spec fn raw_column(prefix: Seq<char>, marked: bool) -> nat {
    last_line_utf16(prefix) + (if marked && line_feeds(prefix) == 0 {
        1nat
    } else {
        0
    })
}

/// The editor's position behind `prefix` of the canonical text.
pub open spec fn raw_position(prefix: Seq<char>, marked: bool) -> Position {
    Position { line: line_feeds(prefix) as u32, character: raw_column(prefix, marked) as u32 }
}

/// Every line number and column fits the protocol's integers.
pub open spec fn positions_fit(text: Seq<char>, marked: bool) -> bool {
    &&& line_feeds(text) < u32::MAX
    &&& forall|k: int| 0 <= k <= text.len() ==> #[trigger] raw_column(text.take(k), marked) <= u32::MAX
}

pub open spec fn has_byte_order_mark(raw: Seq<char>) -> bool {
    raw.len() > 0 && raw[0] == '\u{feff}'
}

/// The UTF-16 length of a line: the greatest column of a place on it.
pub open spec fn is_line_len(text: Seq<char>, marked: bool, line: nat, len: nat) -> bool {
    exists|k: int| #[trigger] ends_line(text, line, k) && len == raw_column(text.take(k), marked)
}

/// `k` is the last place on a line.
pub open spec fn ends_line(text: Seq<char>, line: nat, k: int) -> bool {
    &&& 0 <= k <= text.len()
    &&& line_feeds(text.take(k)) == line
    &&& k == text.len() || text[k] == '\n'
}

/// The place `k` of the canonical text is shown at this line and column.
pub open spec fn shown_at(text: Seq<char>, marked: bool, line: nat, column: nat, k: int) -> bool {
    &&& 0 <= k <= text.len()
    &&& line_feeds(text.take(k)) == line
    &&& raw_column(text.take(k), marked) == column
}

/// The place `k` of the canonical text has this compiler position.
pub open spec fn placed_at(text: Seq<char>, position: TextPosition, k: int) -> bool {
    0 <= k <= text.len() && position == #[trigger] position_after(text.take(k))
}

/// A stretch of one line, if it is not empty.
pub open spec fn segment(line: int, start: int, len: int) -> Seq<(u32, u32, u32)> {
    if len == 0 {
        Seq::empty()
    } else {
        seq![(line as u32, start as u32, len as u32)]
    }
}

pub open spec fn line_len(text: Seq<char>, marked: bool, line: nat) -> nat {
    choose|len: nat| is_line_len(text, marked, line, len)
}

/// The lines from `from` up to `to`, each whole.
pub open spec fn whole_lines(text: Seq<char>, marked: bool, from: int, to: int) -> Seq<(u32, u32, u32)>
    decreases to - from,
{
    if from >= to {
        Seq::empty()
    } else {
        whole_lines(text, marked, from, to - 1) + segment(
            to - 1,
            0,
            line_len(text, marked, (to - 1) as nat) as int,
        )
    }
}

/// A range cut at its line ends: line, first column and length of each part.
pub open spec fn segments_of(text: Seq<char>, marked: bool, range: Range) -> Seq<(u32, u32, u32)> {
    let first = range.start.line as int;
    let last = range.end.line as int;
    if first == last {
        segment(first, range.start.character as int, range.end.character - range.start.character)
    } else {
        segment(
            first,
            range.start.character as int,
            line_len(text, marked, first as nat) - range.start.character,
        ) + whole_lines(text, marked, first + 1, last) + segment(
            last,
            0,
            range.end.character as int,
        )
    }
}

pub proof fn lemma_line_len_unique(text: Seq<char>, marked: bool, line: nat, len: nat)
    requires
        is_line_len(text, marked, line, len),
    ensures
        line_len(text, marked, line) == len,
{
    let other = line_len(text, marked, line);
    let j = choose|k: int| #[trigger] ends_line(text, line, k) && len == raw_column(text.take(k), marked);
    let k = choose|k: int| #[trigger] ends_line(text, line, k) && other == raw_column(text.take(k), marked);
    if j < k {
        lemma_past_line_end(text, marked, j, k);
    } else if k < j {
        lemma_past_line_end(text, marked, k, j);
    }
}

proof fn lemma_past_line_end(text: Seq<char>, marked: bool, j: int, k: int)
    requires
        0 <= j < k <= text.len(),
        text[j] == '\n',
    ensures
        line_feeds(text.take(j)) < line_feeds(text.take(k)),
{
    assert(text.take(j + 1) =~= text.take(j).push(text[j]));
    lemma_raw_push(text.take(j), text[j], marked);
    if j + 1 < k {
        lemma_raw_order(text, marked, j + 1, k);
    }
}

/// No place on a line stands past the line's end.
pub proof fn lemma_column_within_line(text: Seq<char>, marked: bool, k: int)
    requires
        0 <= k <= text.len(),
    ensures
        forall|len: nat|
            #[trigger] is_line_len(text, marked, line_feeds(text.take(k)), len) ==> raw_column(
                text.take(k),
                marked,
            ) <= len,
{
    let line = line_feeds(text.take(k));
    assert forall|len: nat| #[trigger] is_line_len(text, marked, line, len) implies raw_column(
        text.take(k),
        marked,
    ) <= len by {
        let end = choose|e: int| #[trigger] ends_line(text, line, e) && len == raw_column(text.take(e), marked);
        if k < end {
            lemma_raw_order(text, marked, k, end);
        } else if end < k {
            lemma_past_line_end(text, marked, end, k);
        }
    }
}

pub proof fn lemma_raw_push(s: Seq<char>, c: char, marked: bool)
    ensures
        last_line_utf16(s.push(c)) == (if c == '\n' {
            0
        } else {
            last_line_utf16(s) + utf16_width(c)
        }),
        line_feeds(s.push(c)) == line_feeds(s) + (if c == '\n' {
            1nat
        } else {
            0
        }),
        raw_column(s.push(c), marked) == (if c == '\n' {
            0
        } else {
            raw_column(s, marked) + utf16_width(c)
        }),
{
    assert(s.push(c).drop_last() =~= s);
}

/// Lines never go back, and columns grow within a line.
pub proof fn lemma_raw_order(text: Seq<char>, marked: bool, j: int, k: int)
    requires
        0 <= j < k <= text.len(),
    ensures
        line_feeds(text.take(j)) <= line_feeds(text.take(k)),
        line_feeds(text.take(j)) == line_feeds(text.take(k)) ==> raw_column(text.take(j), marked)
            < raw_column(text.take(k), marked),
    decreases k - j,
{
    assert(text.take(k) =~= text.take(k - 1).push(text[k - 1]));
    lemma_raw_push(text.take(k - 1), text[k - 1], marked);
    if j < k - 1 {
        lemma_raw_order(text, marked, j, k - 1);
    }
}

/// Two positions are the same place only where the places are the same.
pub proof fn lemma_position_unique(text: Seq<char>, j: int, k: int)
    requires
        0 <= j <= text.len(),
        0 <= k <= text.len(),
        utf8_len(text) < usize::MAX,
        position_after(text.take(j)).byte_offset == position_after(text.take(k)).byte_offset,
    ensures
        j == k,
{
    lemma_utf8_len_take(text, j);
    lemma_utf8_len_take(text, k);
    if j < k {
        lemma_utf8_len_monotone(text, j, k);
    } else if k < j {
        lemma_utf8_len_monotone(text, k, j);
    }
}

/// The index of one text. It keeps, for every place of the canonical text,
/// where the compiler and the editor see it.
pub struct TextIndex {
    source_id: SourceId,
    revision: RevisionId,
    canonical_len: usize,
    canonical_boundaries: Vec<CanonicalBoundary>,
    raw_boundaries: Vec<RawBoundary>,
    raw_lines: Vec<RawLine>,
    text: Ghost<Seq<char>>,
    marked: Ghost<bool>,
}

spec fn boundary_of(text: Seq<char>, marked: bool, k: int) -> CanonicalBoundary {
    let position = position_after(text.take(k));
    CanonicalBoundary {
        byte_offset: position.byte_offset,
        compiler_line: position.line,
        compiler_column: position.column,
        raw_position: raw_position(text.take(k), marked),
    }
}

/// Boundaries of the raw text: one per place, behind one for the byte order mark.
spec fn raw_boundary_of(text: Seq<char>, marked: bool, j: int) -> RawBoundary {
    if marked && j == 0 {
        RawBoundary { utf16_column: 0, canonical_byte: None }
    } else {
        let prefix = text.take(place_of(marked, j));
        RawBoundary {
            utf16_column: raw_column(prefix, marked) as u32,
            canonical_byte: Some(utf8_len(prefix) as usize),
        }
    }
}

spec fn mark_count(marked: bool) -> int {
    if marked {
        1
    } else {
        0
    }
}

spec fn place_of(marked: bool, j: int) -> int {
    j - mark_count(marked)
}

spec fn raw_line_of(text: Seq<char>, marked: bool, j: int) -> nat {
    if marked && j == 0 {
        0
    } else {
        line_feeds(text.take(place_of(marked, j)))
    }
}

/// The boundaries `first..end` are those of one line, among the first `count`.
spec fn line_covers(text: Seq<char>, marked: bool, count: int, line: nat, first: int, end: int) -> bool {
    &&& 0 <= first < end <= count
    &&& forall|j: int| 0 <= j < count ==> ((first <= j < end) <==> #[trigger] raw_line_of(text, marked, j) == line)
}

/// Every finished line knows its boundaries and its length.
spec fn lines_ok(text: Seq<char>, marked: bool, boundaries: Seq<RawBoundary>, lines: Seq<RawLine>) -> bool {
    forall|l: int| 0 <= l < lines.len() ==> #[trigger] line_ok(text, marked, boundaries, lines[l], l)
}

spec fn line_ok(text: Seq<char>, marked: bool, boundaries: Seq<RawBoundary>, line: RawLine, l: int) -> bool {
    &&& line_covers(text, marked, boundaries.len() as int, l as nat, line.first as int, line.end as int)
    &&& line.utf16_len == boundaries[line.end - 1].utf16_column
}

proof fn lemma_same_line(
    text: Seq<char>,
    marked: bool,
    boundaries: Seq<RawBoundary>,
    lines: Seq<RawLine>,
    first: int,
    b: RawBoundary,
)
    requires
        lines_ok(text, marked, boundaries, lines),
        line_covers(text, marked, boundaries.len() as int, lines.len(), first, boundaries.len() as int),
        raw_line_of(text, marked, boundaries.len() as int) == lines.len(),
    ensures
        lines_ok(text, marked, boundaries.push(b), lines),
        line_covers(text, marked, boundaries.len() as int + 1, lines.len(), first, boundaries.len() as int + 1),
{
    assert forall|l: int| 0 <= l < lines.len() implies #[trigger] line_ok(
        text,
        marked,
        boundaries.push(b),
        lines[l],
        l,
    ) by {
        assert(line_ok(text, marked, boundaries, lines[l], l));
    }
}

proof fn lemma_new_line(
    text: Seq<char>,
    marked: bool,
    boundaries: Seq<RawBoundary>,
    lines: Seq<RawLine>,
    line: RawLine,
    b: RawBoundary,
)
    requires
        lines_ok(text, marked, boundaries, lines),
        line.end == boundaries.len(),
        line.utf16_len == boundaries.last().utf16_column,
        line_covers(text, marked, boundaries.len() as int, lines.len(), line.first as int, line.end as int),
        0 < place_of(marked, boundaries.len() as int) <= text.len(),
        raw_line_of(text, marked, boundaries.len() as int) == lines.len() + 1,
        raw_line_of(text, marked, boundaries.len() - 1) == lines.len(),
    ensures
        lines_ok(text, marked, boundaries.push(b), lines.push(line)),
        line_covers(
            text,
            marked,
            boundaries.len() as int + 1,
            lines.len() + 1,
            boundaries.len() as int,
            boundaries.len() as int + 1,
        ),
{
    let count = boundaries.len() as int;
    assert forall|j: int| 0 <= j < count implies #[trigger] raw_line_of(text, marked, j)
        <= lines.len() by {
        if !(marked && j == 0) && j < count - 1 {
            lemma_raw_order(text, marked, place_of(marked, j), place_of(marked, count - 1));
        }
    }
    assert forall|l: int| 0 <= l < lines.push(line).len() implies #[trigger] line_ok(
        text,
        marked,
        boundaries.push(b),
        lines.push(line)[l],
        l,
    ) by {
        if l < lines.len() {
            assert(line_ok(text, marked, boundaries, lines[l], l));
        }
    }
}

impl TextIndex {
    /// The canonical text that was indexed.
    pub closed spec fn text(self) -> Seq<char> {
        self.text@
    }

    /// Whether the raw text started with a byte order mark.
    pub closed spec fn marked(self) -> bool {
        self.marked@
    }

    pub closed spec fn source_id(self) -> SourceId {
        self.source_id
    }

    pub closed spec fn revision(self) -> RevisionId {
        self.revision
    }

    pub closed spec fn wf(self) -> bool {
        let text = self.text@;
        let marked = self.marked@;
        &&& utf8_len(text) < usize::MAX
        &&& positions_fit(text, marked)
        &&& self.canonical_len == utf8_len(text)
        &&& self.canonical_boundaries@.len() == text.len() + 1
        &&& forall|k: int|
            0 <= k <= text.len() ==> #[trigger] self.canonical_boundaries@[k] == boundary_of(text, marked, k)
        &&& self.raw_boundaries@.len() == text.len() + 1 + mark_count(marked)
        &&& forall|j: int|
            0 <= j < self.raw_boundaries@.len() ==> #[trigger] self.raw_boundaries@[j] == raw_boundary_of(text, marked, j)
        &&& self.raw_lines@.len() == line_feeds(text) + 1
        &&& forall|l: int|
            0 <= l < self.raw_lines@.len() ==> #[trigger] self.line_wf(l)
    }

    spec fn line_wf(self, l: int) -> bool {
        let line = self.raw_lines@[l];
        &&& line_covers(self.text@, self.marked@, self.raw_boundaries@.len() as int, l as nat, line.first as int, line.end as int)
        &&& line.utf16_len == self.raw_boundaries@[line.end - 1].utf16_column
    }

    /// The range that a span takes in the editor's text, where the span is
    /// one of this text.
    pub open spec fn range_of(self, span: SourceSpan) -> Option<Range> {
        if span.source_id == self.source_id() && span.revision == self.revision()
            && span.start.byte_offset <= span.end.byte_offset && (exists|k: int|
            placed_at(self.text(), span.start, k)) && (exists|k: int|
            placed_at(self.text(), span.end, k)) {
            let from = choose|k: int| placed_at(self.text(), span.start, k);
            let to = choose|k: int| placed_at(self.text(), span.end, k);
            Some(
                Range {
                    start: raw_position(self.text().take(from), self.marked()),
                    end: raw_position(self.text().take(to), self.marked()),
                },
            )
        } else {
            None
        }
    }

    /// Indexes the raw text of `source`.
    #[verifier::spinoff_prover]
    pub fn new(raw: &str, source: &SourceDocument) -> (index: Self)
        requires
            utf8_len(raw@) < usize::MAX,
            source.text@ == canonical_text(raw@),
            source.wf(),
            positions_fit(canonical_text(raw@), has_byte_order_mark(raw@)),
        ensures
            index.wf(),
            index.text() == source.text@,
            index.marked() == has_byte_order_mark(raw@),
            index.source_id() == source.id,
            index.revision() == source.revision,
    {
        let scalars = chars_of(raw);
        let marked = scalars.len() > 0 && scalars[0] == '\u{feff}';
        let ghost text = canonical_text(raw@);
        let mut canonical_boundaries: Vec<CanonicalBoundary> = Vec::new();
        let mut raw_boundaries: Vec<RawBoundary> = Vec::new();
        let mut raw_lines: Vec<RawLine> = Vec::new();
        let mut at: usize = 0;
        let mut canonical_len: usize = 0;
        let mut raw_line: u32 = 0;
        let mut raw_utf16_column: u32 = 0;
        let mut compiler_line: usize = 1;
        let mut compiler_column: usize = 1;
        if marked {
            at = 1;
            raw_utf16_column = 1;
            raw_boundaries.push(RawBoundary { utf16_column: 0, canonical_byte: None });
        }
        raw_boundaries.push(
            RawBoundary { utf16_column: raw_utf16_column, canonical_byte: Some(0) },
        );
        canonical_boundaries.push(
            CanonicalBoundary {
                byte_offset: 0,
                compiler_line,
                compiler_column,
                raw_position: Position { line: raw_line, character: raw_utf16_column },
            },
        );
        let mut line_boundary_start: usize = 0;
        // The places of the canonical text seen so far.
        let ghost mut k: int = 0;
        proof {
            assert(scalars@.skip(at as int) =~= without_byte_order_mark(raw@));
            assert(text.take(0) =~= Seq::<char>::empty());
            assert(text.skip(0) =~= text);
            lemma_utf8_len_bounds(text);
            lemma_utf8_len_bounds(raw@);
            assert(raw_column(text.take(0), marked) <= u32::MAX);
        }
        while at < scalars.len()
            invariant
                at <= scalars@.len() < usize::MAX,
                0 <= k <= text.len() < usize::MAX,
                k <= at,
                utf8_len(text) < usize::MAX,
                positions_fit(text, marked),
                text.skip(k) == uniform_line_ends(scalars@.skip(at as int)),
                canonical_len == utf8_len(text.take(k)),
                raw_line == line_feeds(text.take(k)),
                raw_utf16_column == raw_column(text.take(k), marked),
                compiler_line == 1 + line_feeds(text.take(k)),
                compiler_column == 1 + last_line_len(text.take(k)),
                canonical_boundaries@.len() == k + 1,
                forall|i: int|
                    0 <= i <= k ==> #[trigger] canonical_boundaries@[i] == boundary_of(text, marked, i),
                raw_boundaries@.len() == k + 1 + mark_count(marked),
                forall|j: int|
                    0 <= j < raw_boundaries@.len() ==> #[trigger] raw_boundaries@[j] == raw_boundary_of(text, marked, j),
                raw_lines@.len() == raw_line,
                line_covers(text, marked, raw_boundaries@.len() as int, raw_line as nat, line_boundary_start as int, raw_boundaries@.len() as int),
                lines_ok(text, marked, raw_boundaries@, raw_lines@),
            decreases scalars@.len() - at,
        {
            let ghost rest = scalars@.skip(at as int);
            let c = scalars[at];
            let ghost next = if c == '\r' { '\n' } else { c };
            let ghost count = raw_boundaries@.len() as int;
            let ghost lines_before = raw_lines@;
            let ghost boundaries_before = raw_boundaries@;
            proof {
                assert(rest[0] == c);
                assert(uniform_line_ends(rest).len() > 0);
                assert(text.skip(k)[0] == next);
                assert(text[k] == next);
                assert(text.take(k + 1) =~= text.take(k).push(next));
                lemma_position_push(text.take(k), next);
                lemma_position_bounds(text.take(k));
                lemma_raw_push(text.take(k), next, marked);
                lemma_utf8_len_take(text, k + 1);
                assert(raw_column(text.take(k + 1), marked) <= u32::MAX);
                if k + 1 < text.len() {
                    lemma_raw_order(text, marked, k + 1, text.len() as int);
                }
                assert(text.take(text.len() as int) =~= text);
                assert(place_of(marked, count) == k + 1);
            }
            if c == '\r' || c == '\n' {
                let paired = c == '\r' && at + 1 < scalars.len() && scalars[at + 1] == '\n';
                raw_lines.push(
                    RawLine {
                        first: line_boundary_start,
                        end: raw_boundaries.len(),
                        utf16_len: raw_utf16_column,
                    },
                );
                proof {
                    assert(text.skip(k + 1) =~= text.skip(k).skip(1));
                    if paired {
                        assert(rest.skip(2) =~= scalars@.skip(at + 2));
                        assert(text.skip(k).skip(1) =~= uniform_line_ends(rest.skip(2)));
                    } else {
                        assert(rest.skip(1) =~= scalars@.skip(at + 1));
                        assert(text.skip(k).skip(1) =~= uniform_line_ends(rest.skip(1)));
                    }
                }
                at = if paired {
                    at + 2
                } else {
                    at + 1
                };
                canonical_len += 1;
                raw_line += 1;
                raw_utf16_column = 0;
                compiler_line += 1;
                compiler_column = 1;
                line_boundary_start = raw_boundaries.len();
            } else {
                proof {
                    assert(text.skip(k + 1) =~= text.skip(k).skip(1));
                    assert(rest.skip(1) =~= scalars@.skip(at + 1));
                    assert(text.skip(k).skip(1) =~= uniform_line_ends(rest.skip(1)));
                }
                at += 1;
                canonical_len += char_width(c);
                raw_utf16_column += char_utf16_width(c);
                compiler_column += 1;
            }
            raw_boundaries.push(
                RawBoundary {
                    utf16_column: raw_utf16_column,
                    canonical_byte: Some(canonical_len),
                },
            );
            canonical_boundaries.push(
                CanonicalBoundary {
                    byte_offset: canonical_len,
                    compiler_line,
                    compiler_column,
                    raw_position: Position { line: raw_line, character: raw_utf16_column },
                },
            );
            proof {
                assert(raw_line_of(text, marked, count) == raw_line);
                assert(raw_line_of(text, marked, count - 1) == line_feeds(text.take(k)));
                if next == '\n' {
                    lemma_new_line(text, marked, boundaries_before, lines_before, raw_lines@.last(), raw_boundaries@.last());
                } else {
                    lemma_same_line(text, marked, boundaries_before, lines_before, line_boundary_start as int, raw_boundaries@.last());
                }
                assert(boundary_of(text, marked, k + 1) == canonical_boundaries@.last());
                assert(raw_boundary_of(text, marked, count) == raw_boundaries@.last());
                k = k + 1;
            }
        }
        proof {
            assert(scalars@.skip(at as int) =~= Seq::<char>::empty());
            assert(text.skip(k).len() == 0);
            assert(text.take(k) =~= text);
        }
        raw_lines.push(
            RawLine {
                first: line_boundary_start,
                end: raw_boundaries.len(),
                utf16_len: raw_utf16_column,
            },
        );
        let index = TextIndex {
            source_id: source.id,
            revision: source.revision,
            canonical_len,
            canonical_boundaries,
            raw_boundaries,
            raw_lines,
            text: Ghost(text),
            marked: Ghost(marked),
        };
        assert forall|l: int| 0 <= l < index.raw_lines@.len() implies #[trigger] index.line_wf(l) by {
            if l < index.raw_lines@.len() - 1 {
                assert(line_ok(text, marked, raw_boundaries@, raw_lines@[l], l));
            }
        }
        index
    }

    /// What a position of the editor means: a place in the text, the place of
    /// the byte order mark, or nothing.
    pub open spec fn maps_to(self, position: Position, mapping: Option<PositionMapping>) -> bool {
        &&& match mapping {
            Some(PositionMapping::OutsideCompilerText) => self.marked() && position.line == 0
                && position.character == 0,
            Some(PositionMapping::Offset(byte_offset)) => exists|len: nat, k: int|
                #![trigger is_line_len(self.text(), self.marked(), position.line as nat, len), self.text().take(k)]
                {
                    let column = if position.character <= len {
                        position.character as nat
                    } else {
                        len
                    };
                    &&& is_line_len(self.text(), self.marked(), position.line as nat, len)
                    &&& shown_at(self.text(), self.marked(), position.line as nat, column, k)
                    &&& byte_offset == utf8_len(self.text().take(k))
                },
            None => position.line > line_feeds(self.text()) || exists|len: nat|
                #![trigger is_line_len(self.text(), self.marked(), position.line as nat, len)]
                {
                    &&& is_line_len(self.text(), self.marked(), position.line as nat, len)
                    &&& position.character <= len
                    &&& forall|k: int| !#[trigger] shown_at(
                        self.text(),
                        self.marked(),
                        position.line as nat,
                        position.character as nat,
                        k,
                    )
                },
        }
        &&& mapping == Some(PositionMapping::OutsideCompilerText) <==> self.marked()
            && position.line == 0 && position.character == 0
    }

    /// The place of an editor's position in the canonical text. A column
    /// past the end of its line means the end of the line; a column inside a
    /// scalar, and a line that is not there, mean nothing.
    pub fn raw_to_canonical(&self, position: Position) -> (mapping: Option<PositionMapping>)
        requires
            self.wf(),
        ensures
            self.maps_to(position, mapping),
    {
        let ghost text = self.text@;
        let ghost marked = self.marked@;
        if position.line as usize >= self.raw_lines.len() {
            return None;
        }
        let line = self.raw_lines[position.line as usize];
        assert(self.line_wf(position.line as int));
        let character = if position.character <= line.utf16_len {
            position.character
        } else {
            line.utf16_len
        };
        proof {
            self.lemma_line_len(position.line as int);
        }
        let mut low: usize = line.first;
        let mut high: usize = line.end;
        while low < high
            invariant
                self.wf(),
                text == self.text@,
                marked == self.marked@,
                line_covers(text, marked, self.raw_boundaries@.len() as int, position.line as nat, line.first as int, line.end as int),
                line.first <= low <= high <= line.end <= self.raw_boundaries@.len(),
                forall|j: int|
                    line.first <= j < low ==> (#[trigger] self.raw_boundaries@[j]).utf16_column < character,
                forall|j: int|
                    high <= j < line.end ==> (#[trigger] self.raw_boundaries@[j]).utf16_column > character,
                line.utf16_len == self.raw_boundaries@[line.end - 1].utf16_column,
                is_line_len(text, marked, position.line as nat, line.utf16_len as nat),
                character == (if position.character <= line.utf16_len {
                    position.character
                } else {
                    line.utf16_len
                }),
            decreases high - low,
        {
            let middle: usize = low + (high - low) / 2;
            let boundary = self.raw_boundaries[middle];
            let ghost place = place_of(marked, middle as int);
            proof {
                self.lemma_line_sorted(position.line as int, line.first as int, line.end as int);
                if !(marked && middle == 0) {
                    lemma_utf8_len_take(text, place);
                    assert(raw_column(text.take(place), marked) <= u32::MAX);
                }
                assert(raw_line_of(text, marked, middle as int) == position.line);
            }
            if boundary.utf16_column == character {
                return match boundary.canonical_byte {
                    Some(byte_offset) => {
                        proof {
                            assert(shown_at(text, marked, position.line as nat, character as nat, place));
                            assert(is_line_len(self.text(), self.marked(), position.line as nat, line.utf16_len as nat));
                            assert(utf8_len(self.text().take(place)) == byte_offset);
                            if marked && position.line == 0 && position.character == 0 {
                                assert(raw_column(text.take(place), marked) >= 1);
                            }
                        }
                        Some(PositionMapping::Offset(byte_offset))
                    },
                    None => {
                        proof {
                            if position.character != 0 {
                                // The line would be empty, but the mark is on it.
                                assert(line.utf16_len == 0);
                                let k = place_of(marked, line.end - 1);
                                assert(raw_line_of(text, marked, 1) == 0) by {
                                    assert(text.take(0) =~= Seq::<char>::empty());
                                }
                                assert(self.raw_boundaries@[line.end - 1].utf16_column == 0);
                                assert(raw_column(text.take(k), marked) <= u32::MAX);
                                assert(false);
                            }
                        }
                        Some(PositionMapping::OutsideCompilerText)
                    },
                };
            } else if boundary.utf16_column < character {
                low = middle + 1;
            } else {
                high = middle;
            }
        }
        proof {
            assert(self.raw_boundaries@[line.end - 1].utf16_column == line.utf16_len);
            assert(character != line.utf16_len);
            assert forall|k: int| !#[trigger] shown_at(
                text,
                marked,
                position.line as nat,
                position.character as nat,
                k,
            ) by {
                if shown_at(text, marked, position.line as nat, position.character as nat, k) {
                    let j = k + mark_count(marked);
                    assert(raw_line_of(text, marked, j) == position.line);
                    assert(raw_column(text.take(k), marked) <= u32::MAX);
                    assert(self.raw_boundaries@[j].utf16_column == position.character);
                }
            }
            if marked && position.line == 0 && position.character == 0 {
                assert(raw_line_of(text, marked, 0) == 0);
                assert(self.raw_boundaries@[0].utf16_column == 0);
            }
            assert(is_line_len(self.text(), self.marked(), position.line as nat, line.utf16_len as nat));
            assert(position.character <= line.utf16_len);
        }
        None
    }

    /// The last boundary of a line stands at its end.
    proof fn lemma_line_len(self, l: int)
        requires
            self.wf(),
            0 <= l < self.raw_lines@.len(),
        ensures
            is_line_len(self.text@, self.marked@, l as nat, self.raw_lines@[l].utf16_len as nat),
    {
        let text = self.text@;
        let marked = self.marked@;
        let line = self.raw_lines@[l];
        assert(self.line_wf(l));
        let last = place_of(marked, line.end - 1);
        assert(raw_line_of(text, marked, line.end - 1) == l);
        // The byte order mark is never the last boundary of its line.
        if marked && line.end - 1 == 0 {
            assert(raw_line_of(text, marked, 1) == 0) by {
                assert(text.take(0) =~= Seq::<char>::empty());
            }
            assert(line.first <= 1 < line.end);
        }
        assert(raw_column(text.take(last), marked) <= u32::MAX);
        if last < text.len() {
            assert(raw_line_of(text, marked, line.end as int) != l);
            assert(text.take(last + 1) =~= text.take(last).push(text[last]));
            lemma_raw_push(text.take(last), text[last], marked);
        }
        assert(ends_line(text, l as nat, last));
    }

    /// The columns of a line's boundaries are strictly increasing.
    proof fn lemma_line_sorted(self, l: int, first: int, end: int)
        requires
            self.wf(),
            line_covers(self.text@, self.marked@, self.raw_boundaries@.len() as int, l as nat, first, end),
            0 <= l,
        ensures
            forall|i: int, j: int|
                first <= i < j < end ==> (#[trigger] self.raw_boundaries@[i]).utf16_column < (
                #[trigger] self.raw_boundaries@[j]).utf16_column,
    {
        let text = self.text@;
        let marked = self.marked@;
        assert forall|i: int, j: int| first <= i < j < end implies (
        #[trigger] self.raw_boundaries@[i]).utf16_column < (
        #[trigger] self.raw_boundaries@[j]).utf16_column by {
            assert(raw_line_of(text, marked, i) == l);
            assert(raw_line_of(text, marked, j) == l);
            let q = place_of(marked, j);
            assert(raw_column(text.take(q), marked) <= u32::MAX);
            if !(marked && i == 0) {
                let p = place_of(marked, i);
                assert(raw_column(text.take(p), marked) <= u32::MAX);
                lemma_raw_order(text, marked, p, q);
            }
        }
    }

    /// The index of the boundary with this byte offset, if there is one.
    fn boundary_at(&self, byte_offset: usize) -> (found: Option<usize>)
        requires
            self.wf(),
        ensures
            match found {
                Some(k) => k <= self.text().len() && byte_offset == utf8_len(
                    self.text().take(k as int),
                ),
                None => forall|k: int|
                    0 <= k <= self.text().len() ==> byte_offset != #[trigger] utf8_len(
                        self.text().take(k),
                    ),
            },
    {
        let ghost text = self.text@;
        let mut low: usize = 0;
        let mut high: usize = self.canonical_boundaries.len();
        while low < high
            invariant
                self.wf(),
                text == self.text@,
                low <= high <= text.len() + 1,
                forall|k: int| 0 <= k < low ==> #[trigger] utf8_len(text.take(k)) < byte_offset,
                forall|k: int|
                    high <= k <= text.len() ==> #[trigger] utf8_len(text.take(k)) > byte_offset,
            decreases high - low,
        {
            let middle: usize = low + (high - low) / 2;
            let boundary = self.canonical_boundaries[middle];
            proof {
                lemma_utf8_len_take(text, middle as int);
                assert forall|k: int| 0 <= k <= text.len() && k != middle implies (k < middle
                    ==> utf8_len(text.take(k)) < utf8_len(text.take(middle as int))) && (k > middle
                    ==> #[trigger] utf8_len(text.take(k)) > utf8_len(text.take(middle as int))) by {
                    if k < middle {
                        lemma_utf8_len_monotone(text, k, middle as int);
                    } else {
                        lemma_utf8_len_monotone(text, middle as int, k);
                    }
                }
            }
            if boundary.byte_offset == byte_offset {
                return Some(middle);
            } else if boundary.byte_offset < byte_offset {
                low = middle + 1;
            } else {
                high = middle;
            }
        }
        None
    }

    fn compiler_position_to_raw(&self, position: TextPosition) -> (raw: Option<Position>)
        requires
            self.wf(),
        ensures
            raw is Some <==> exists|k: int| placed_at(self.text(), position, k),
            raw is Some ==> raw == Some(
                raw_position(
                    self.text().take(choose|k: int| placed_at(self.text(), position, k)),
                    self.marked(),
                ),
            ),
    {
        let ghost text = self.text@;
        proof {
            assert forall|k: int| 0 <= k <= text.len() implies #[trigger] utf8_len(text.take(k))
                <= utf8_len(text) by {
                lemma_utf8_len_take(text, k);
            }
        }
        match self.boundary_at(position.byte_offset) {
            None => {
                proof {
                    assert forall|k: int| !#[trigger] placed_at(text, position, k) by {
                        if placed_at(text, position, k) {
                            lemma_utf8_len_take(text, k);
                            assert(utf8_len(self.text().take(k)) == position.byte_offset);
                        }
                    }
                }
                None
            },
            Some(at) => {
                let boundary = self.canonical_boundaries[at];
                proof {
                    lemma_utf8_len_take(text, at as int);
                    assert forall|k: int| #[trigger] placed_at(text, position, k) implies k == at by {
                        lemma_utf8_len_take(text, k);
                        lemma_position_unique(text, k, at as int);
                    }
                }
                if boundary.compiler_line == position.line && boundary.compiler_column
                    == position.column {
                    assert(placed_at(text, position, at as int));
                    Some(boundary.raw_position)
                } else {
                    None
                }
            },
        }
    }

    /// Where a span of this text stands in the editor's text.
    pub fn span_to_range(&self, span: SourceSpan) -> (range: Option<Range>)
        requires
            self.wf(),
        ensures
            range == self.range_of(span),
    {
        proof {
            assert forall|k: int| #[trigger] placed_at(self.text(), span.end, k) implies span.end.byte_offset <= self.canonical_len by {
                lemma_utf8_len_take(self.text@, k);
            }
        }
        if span.source_id != self.source_id || span.revision != self.revision
            || span.start.byte_offset > span.end.byte_offset || span.end.byte_offset
            > self.canonical_len {
            return None;
        }
        match (self.compiler_position_to_raw(span.start), self.compiler_position_to_raw(span.end)) {
            (Some(start), Some(end)) => Some(Range { start, end }),
            _ => None,
        }
    }

    /// A span of this text, cut at the line ends of the editor's text.
    pub fn span_segments(&self, span: SourceSpan) -> (segments: Option<Vec<(u32, u32, u32)>>)
        requires
            self.wf(),
        ensures
            match segments {
                Some(parts) => self.range_of(span) is Some && parts@ == segments_of(
                    self.text(),
                    self.marked(),
                    self.range_of(span)->0,
                ),
                None => self.range_of(span) is None,
            },
    {
        let ghost text = self.text@;
        let ghost marked = self.marked@;
        let range = match self.span_to_range(span) {
            Some(range) => range,
            None => return None,
        };
        let start = range.start;
        let end = range.end;
        proof {
            let from = choose|k: int| placed_at(text, span.start, k);
            let to = choose|k: int| placed_at(text, span.end, k);
            lemma_utf8_len_take(text, from);
            lemma_utf8_len_take(text, to);
            if to < from {
                lemma_utf8_len_monotone(text, to, from);
            }
            if from < to {
                lemma_raw_order(text, marked, from, to);
            }
            if to < text.len() {
                lemma_raw_order(text, marked, to, text.len() as int);
            }
            assert(text.take(text.len() as int) =~= text);
            assert(raw_column(text.take(from), marked) <= u32::MAX);
            assert(raw_column(text.take(to), marked) <= u32::MAX);
            lemma_column_within_line(text, marked, from);
            self.lemma_line_len(start.line as int);
            lemma_line_len_unique(text, marked, start.line as nat, self.raw_lines@[start.line as int].utf16_len as nat);
        }
        let mut segments: Vec<(u32, u32, u32)> = Vec::new();
        if start.line == end.line {
            let length = end.character - start.character;
            if length != 0 {
                segments.push((start.line, start.character, length));
            }
            assert(segments@ =~= segments_of(text, marked, range));
            return Some(segments);
        }
        let first_length = self.raw_lines[start.line as usize].utf16_len - start.character;
        if first_length != 0 {
            segments.push((start.line, start.character, first_length));
        }
        let ghost head = segment(start.line as int, start.character as int, first_length as int);
        assert(segments@ =~= head + whole_lines(text, marked, start.line + 1, start.line + 1));
        let mut line_number: u32 = start.line + 1;
        while line_number < end.line
            invariant
                self.wf(),
                text == self.text@,
                marked == self.marked@,
                start.line + 1 <= line_number <= end.line < self.raw_lines@.len(),
                segments@ == head + whole_lines(text, marked, start.line + 1, line_number as int),
            decreases end.line - line_number,
        {
            let utf16_len: u32 = self.raw_lines[line_number as usize].utf16_len;
            proof {
                self.lemma_line_len(line_number as int);
                lemma_line_len_unique(text, marked, line_number as nat, utf16_len as nat);
            }
            let ghost before = segments@;
            if utf16_len != 0 {
                segments.push((line_number, 0, utf16_len));
            }
            assert(segments@ =~= before + segment(line_number as int, 0, utf16_len as int));
            assert(segments@ =~= head + whole_lines(text, marked, start.line + 1, line_number + 1));
            line_number += 1;
        }
        let ghost before = segments@;
        if end.character != 0 {
            segments.push((end.line, 0, end.character));
        }
        assert(segments@ =~= before + segment(end.line as int, 0, end.character as int));
        Some(segments)
    }
}

/// Every stretch of the canonical text, named by its compiler positions, has
/// the editor's positions of its two ends as its range.
pub proof fn law_spans_of_the_text_have_ranges(index: TextIndex, from: int, to: int)
    requires
        index.wf(),
        0 <= from <= to <= index.text().len(),
    ensures
        index.range_of(
            SourceSpan {
                source_id: index.source_id(),
                revision: index.revision(),
                start: position_after(index.text().take(from)),
                end: position_after(index.text().take(to)),
            },
        ) == Some(
            Range {
                start: raw_position(index.text().take(from), index.marked()),
                end: raw_position(index.text().take(to), index.marked()),
            },
        ),
{
    let text = index.text();
    let start = position_after(text.take(from));
    let end = position_after(text.take(to));
    lemma_utf8_len_take(text, from);
    lemma_utf8_len_take(text, to);
    lemma_utf8_len_monotone(text, from, to);
    assert(placed_at(text, start, from));
    assert(placed_at(text, end, to));
    let i = choose|k: int| placed_at(text, start, k);
    let j = choose|k: int| placed_at(text, end, k);
    lemma_position_unique(text, i, from);
    lemma_position_unique(text, j, to);
}

} // verus!
