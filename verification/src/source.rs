//! Source documents, their identities, and positions within their text.
use vstd::prelude::*;
use crate::text::{byte_len, chars_of, scalar_width, utf8_len};
use crate::text::{lemma_utf8_len_bounds, lemma_utf8_len_concat, lemma_utf8_len_monotone, lemma_utf8_len_take};

verus! {

#[derive(Debug, Clone, Copy, PartialEq, Eq, Hash, Structural)]
pub struct SourceId(pub u64);

#[derive(Debug, Clone, Copy, PartialEq, Eq, Hash, Structural)]
pub struct RevisionId(pub u64);

#[derive(Debug, Clone, Copy, PartialEq, Eq, Structural)]
pub struct TextPosition {
    pub byte_offset: usize,
    pub line: usize,
    pub column: usize,
}

#[derive(Debug, Clone, Copy, PartialEq, Eq, Structural)]
pub struct SourceSpan {
    pub source_id: SourceId,
    pub revision: RevisionId,
    pub start: TextPosition,
    pub end: TextPosition,
}

/// A text to compile, with its line ends made uniform.
#[derive(Debug, Clone)]
pub struct SourceDocument {
    pub id: SourceId,
    pub revision: RevisionId,
    pub name: String,
    pub text: String,
}

/// The number of line feeds in a text.
pub open spec fn line_feeds(s: Seq<char>) -> nat
    decreases s.len(),
{
    if s.len() == 0 {
        0
    } else {
        line_feeds(s.drop_last()) + (if s.last() == '\n' {
            1nat
        } else {
            0
        })
    }
}

/// The number of scalars behind the last line feed of a text.
pub open spec fn last_line_len(s: Seq<char>) -> nat
    decreases s.len(),
{
    if s.len() == 0 || s.last() == '\n' {
        0
    } else {
        last_line_len(s.drop_last()) + 1
    }
}

/// The position just behind `prefix` in a text that starts with it: a byte
/// offset from zero, a line and a column in scalars, both from one.
pub open spec fn position_after(prefix: Seq<char>) -> TextPosition {
    TextPosition {
        byte_offset: utf8_len(prefix) as usize,
        line: (1 + line_feeds(prefix)) as usize,
        column: (1 + last_line_len(prefix)) as usize,
    }
}

pub proof fn lemma_position_bounds(s: Seq<char>)
    ensures
        line_feeds(s) <= s.len(),
        last_line_len(s) <= s.len(),
    decreases s.len(),
{
    if s.len() > 0 {
        lemma_position_bounds(s.drop_last());
    }
}

/// How a position moves past one more scalar.
pub proof fn lemma_position_push(s: Seq<char>, c: char)
    ensures
        line_feeds(s.push(c)) == line_feeds(s) + (if c == '\n' {
            1nat
        } else {
            0
        }),
        last_line_len(s.push(c)) == (if c == '\n' {
            0
        } else {
            last_line_len(s) + 1
        }),
        utf8_len(s.push(c)) == utf8_len(s) + scalar_width(c),
{
    assert(s.push(c).drop_last() =~= s);
}

/// A text without the byte order mark that it may start with.
pub open spec fn without_byte_order_mark(raw: Seq<char>) -> Seq<char> {
    if raw.len() > 0 && raw[0] == '\u{feff}' {
        raw.skip(1)
    } else {
        raw
    }
}

/// A text whose line ends (`\r\n`, `\r`, `\n`) are all written `\n`.
pub open spec fn uniform_line_ends(s: Seq<char>) -> Seq<char>
    decreases s.len(),
{
    if s.len() == 0 {
        Seq::empty()
    } else if s[0] == '\r' && s.len() > 1 && s[1] == '\n' {
        seq!['\n'] + uniform_line_ends(s.skip(2))
    } else if s[0] == '\r' {
        seq!['\n'] + uniform_line_ends(s.skip(1))
    } else {
        seq![s[0]] + uniform_line_ends(s.skip(1))
    }
}

/// The text that is compiled for a text as it was given.
pub open spec fn canonical_text(raw: Seq<char>) -> Seq<char> {
    uniform_line_ends(without_byte_order_mark(raw))
}

/// No carriage return is left in a canonical text, and it has no more bytes than the given one.
pub proof fn law_canonical_text_has_no_carriage_return(raw: Seq<char>)
    ensures
        !canonical_text(raw).contains('\r'),
        utf8_len(canonical_text(raw)) <= utf8_len(raw),
{
    let body = without_byte_order_mark(raw);
    lemma_uniform_line_ends(body);
    if body != raw {
        lemma_utf8_len_take(raw, 1);
    }
}

pub proof fn lemma_uniform_line_ends(s: Seq<char>)
    ensures
        !uniform_line_ends(s).contains('\r'),
        utf8_len(uniform_line_ends(s)) <= utf8_len(s),
    decreases s.len(),
{
    if s.len() > 0 {
        let n: int = if s[0] == '\r' && s.len() > 1 && s[1] == '\n' {
            2
        } else {
            1
        };
        let first = if s[0] == '\r' {
            '\n'
        } else {
            s[0]
        };
        let rest = uniform_line_ends(s.skip(n));
        lemma_uniform_line_ends(s.skip(n));
        assert(uniform_line_ends(s) == seq![first] + rest);
        assert forall|i: int| 0 <= i < (seq![first] + rest).len() implies (seq![first] + rest)[i]
            != '\r' by {
            if i > 0 {
                assert((seq![first] + rest)[i] == rest[i - 1]);
                assert(rest.contains(rest[i - 1]));
            }
        }
        lemma_utf8_len_concat(seq![first], rest);
        assert(seq![first].drop_last() =~= Seq::<char>::empty());
        assert(utf8_len(seq![first]) == utf8_len(Seq::<char>::empty()) + scalar_width(first));
        lemma_utf8_len_take(s, n);
        lemma_utf8_len_take(s, 0);
        lemma_utf8_len_monotone(s, 1, n);
        assert(s.take(0) =~= Seq::<char>::empty());
    }
}

/// Making the line ends of a text uniform a second time changes nothing.
pub proof fn law_uniform_line_ends_is_idempotent(s: Seq<char>)
    ensures
        uniform_line_ends(uniform_line_ends(s)) == uniform_line_ends(s),
{
    lemma_uniform_line_ends(s);
    lemma_uniform_fixpoint(uniform_line_ends(s));
}

/// A text without carriage returns is left as it is.
pub proof fn lemma_uniform_fixpoint(s: Seq<char>)
    requires
        !s.contains('\r'),
    ensures
        uniform_line_ends(s) == s,
    decreases s.len(),
{
    if s.len() > 0 {
        assert(s.contains(s[0]));
        let rest = s.skip(1);
        assert forall|i: int| 0 <= i < rest.len() implies rest[i] != '\r' by {
            assert(s.contains(s[i + 1]));
        }
        lemma_uniform_fixpoint(rest);
        assert(seq![s[0]] + rest =~= s);
    } else {
        assert(uniform_line_ends(s) =~= s);
    }
}

impl SourceDocument {
    /// The text is short enough that line and column numbers fit.
    pub open spec fn wf(self) -> bool {
        utf8_len(self.text@) < usize::MAX
    }

    /// Takes a text in, without its byte order mark and with uniform line ends.
    pub fn new(id: SourceId, revision: RevisionId, name: &str, text: &str) -> (document: Self)
        requires
            utf8_len(text@) < usize::MAX,
        ensures
            document.id == id,
            document.revision == revision,
            document.name@ == name@,
            document.text@ == canonical_text(text@),
            document.wf(),
    {
        let scalars = chars_of(text);
        let mut i: usize = 0;
        if scalars.len() > 0 && scalars[0] == '\u{feff}' {
            i = 1;
        }
        let ghost body = without_byte_order_mark(text@);
        assert(scalars@.skip(i as int) =~= body);
        let mut canonical = String::new();
        assert(canonical@ + uniform_line_ends(body) =~= uniform_line_ends(body));
        while i < scalars.len()
            invariant
                i <= scalars@.len(),
                canonical@ + uniform_line_ends(scalars@.skip(i as int)) == uniform_line_ends(body),
            decreases scalars@.len() - i,
        {
            let ghost rest = scalars@.skip(i as int);
            let ghost before = canonical@;
            let c = scalars[i];
            if c == '\r' {
                canonical.push('\n');
                if i + 1 < scalars.len() && scalars[i + 1] == '\n' {
                    assert(rest.skip(2) =~= scalars@.skip(i + 2));
                    i += 2;
                } else {
                    assert(rest.skip(1) =~= scalars@.skip(i + 1));
                    i += 1;
                }
            } else {
                canonical.push(c);
                assert(rest.skip(1) =~= scalars@.skip(i + 1));
                i += 1;
            }
            assert(canonical@ + uniform_line_ends(scalars@.skip(i as int)) =~= before
                + uniform_line_ends(rest));
        }
        proof {
            assert(scalars@.skip(i as int) =~= Seq::<char>::empty());
            assert(canonical@ =~= uniform_line_ends(body));
            law_canonical_text_has_no_carriage_return(text@);
        }
        SourceDocument { id, revision, name: name.to_owned(), text: canonical }
    }

    /// The empty span at the end of the text.
    pub open spec fn end_span(self) -> SourceSpan {
        SourceSpan {
            source_id: self.id,
            revision: self.revision,
            start: position_after(self.text@),
            end: position_after(self.text@),
        }
    }

    pub fn eof_span(&self) -> (span: SourceSpan)
        requires
            self.wf(),
        ensures
            span == self.end_span(),
            span.source_id == self.id,
            span.revision == self.revision,
            span.start == position_after(self.text@),
            span.end == span.start,
    {
        let scalars = chars_of(self.text.as_str());
        let byte_offset: usize = byte_len(self.text.as_str());
        proof {
            lemma_utf8_len_bounds(self.text@);
        }
        let mut line: usize = 1;
        let mut column: usize = 1;
        let mut i: usize = 0;
        while i < scalars.len()
            invariant
                i <= scalars@.len() < usize::MAX,
                line == 1 + line_feeds(scalars@.take(i as int)),
                column == 1 + last_line_len(scalars@.take(i as int)),
            decreases scalars@.len() - i,
        {
            proof {
                lemma_position_bounds(scalars@.take(i as int));
                lemma_position_push(scalars@.take(i as int), scalars@[i as int]);
                assert(scalars@.take(i + 1) =~= scalars@.take(i as int).push(scalars@[i as int]));
            }
            if scalars[i] == '\n' {
                line += 1;
                column = 1;
            } else {
                column += 1;
            }
            i += 1;
        }
        assert(scalars@.take(i as int) =~= self.text@);
        let position = TextPosition { byte_offset, line, column };
        SourceSpan { source_id: self.id, revision: self.revision, start: position, end: position }
    }
}

} // verus!
