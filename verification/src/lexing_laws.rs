//! What the compiler and a reader are given of the tokens of a text.
use vstd::prelude::*;
use crate::analysis::{item_at, kind_of, HighlightKind};
use crate::compiler::{content, lexed_once, text_place, Lexing};
use crate::documents::token_type_of;
use crate::scanner::{lex, line_end, token_start, TokenType};
use crate::scanner_laws::{kind_is_sign, spelling};
use crate::source::{last_line_len, line_feeds, position_after};

verus! {

/// The line of a position counts the line feeds before it, and its column what
/// stands behind the last of them.
pub proof fn law_positions_count_lines_and_columns(s: Seq<char>, k: int)
    requires
        0 <= k <= s.len(),
        forall|i: int| k <= i < s.len() ==> #[trigger] s[i] != '\n',
        k > 0 ==> s[k - 1] == '\n',
        s.len() < usize::MAX,
    ensures
        position_after(s).column == s.len() - k + 1,
        position_after(s).line == position_after(s.take(k)).line,
        k > 0 ==> position_after(s).line == position_after(s.take(k - 1)).line + 1,
    decreases s.len() - k,
{
    crate::source::lemma_position_bounds(s);
    lemma_last_line(s, k);
    if k > 0 {
        let t = s.take(k);
        assert(t.drop_last() =~= s.take(k - 1));
        assert(t.last() == '\n');
        crate::source::lemma_position_bounds(s.take(k - 1));
        crate::source::lemma_position_bounds(t);
    }
}

proof fn lemma_last_line(s: Seq<char>, k: int)
    requires
        0 <= k <= s.len(),
        forall|i: int| k <= i < s.len() ==> #[trigger] s[i] != '\n',
        k > 0 ==> s[k - 1] == '\n',
    ensures
        last_line_len(s) == s.len() - k,
        line_feeds(s) == line_feeds(s.take(k)),
    decreases s.len() - k,
{
    if k == s.len() {
        assert(s.take(k) =~= s);
        if k > 0 {
            assert(s.last() == '\n');
        }
    } else {
        let t = s.drop_last();
        assert forall|i: int| k <= i < t.len() implies #[trigger] t[i] != '\n' by {
            assert(t[i] == s[i]);
        }
        lemma_last_line(t, k);
        assert(t.take(k) =~= s.take(k));
    }
}

proof fn lemma_text_place(texts: Seq<Seq<char>>, text: Seq<char>, i: int)
    requires
        0 <= i <= texts.len(),
    ensures
        i <= text_place(texts, text, i) <= texts.len(),
        text_place(texts, text, i) < texts.len() ==> texts[text_place(texts, text, i)] == text,
        forall|j: int| i <= j < text_place(texts, text, i) ==> #[trigger] texts[j] != text,
    decreases texts.len() - i,
{
    if i < texts.len() && texts[i] != text {
        lemma_text_place(texts, text, i + 1);
    }
}

/// The next token begins behind white space and comments. A name is known by its
/// text, and a string by what stands between its quotes; equal texts are one.
/// Texts that are known stay. A number token gets the next number.
pub proof fn law_tokens_are_given_to_the_compiler(source: Seq<char>, numbers: Seq<u64>, l: Lexing)
    requires
        0 <= l.at <= source.len(),
        l.texts.len() < usize::MAX,
        forall|i: int, j: int|
            0 <= i < j < l.texts.len() ==> #[trigger] l.texts[i] != #[trigger] l.texts[j],
    ensures
        ({
            let next = lexed_once(source, numbers, l);
            let token = next.tokens.last();
            let from = token_start(source, l.at);
            let end = lex(source, from).end;
            &&& next.tokens.drop_last() == l.tokens
            &&& next.at == end
            &&& token.token_type == lex(source, from).kind
            &&& token.start == position_after(source.take(from))
            &&& token.end == position_after(source.take(end))
            &&& token.token_type is Identifier ==> token.text < next.texts.len()
                && next.texts[token.text as int] == source.subrange(from, end)
            &&& token.token_type is String ==> token.text < next.texts.len()
                && next.texts[token.text as int] == source.subrange(from + 1, end - 1)
            &&& l.texts.is_prefix_of(next.texts)
            &&& forall|i: int, j: int|
                0 <= i < j < next.texts.len() ==> #[trigger] next.texts[i]
                    != #[trigger] next.texts[j]
            &&& token.token_type is Number && l.numbers < numbers.len() ==> token.number
                == numbers[l.numbers as int] && next.numbers == l.numbers + 1
            &&& !(token.token_type is Number) ==> next.numbers == l.numbers
            &&& token.fault is Some <==> token.token_type is Error
        }),
{
    let from = token_start(source, l.at);
    let next = lexed_once(source, numbers, l);
    assert(next.tokens.drop_last() =~= l.tokens);
    if let Some(text) = content(source, from) {
        lemma_text_place(l.texts, text, 0);
    }
}

/// Keywords are highlighted as such, and signs as operators, but for brackets
/// and what parts and ends things.
pub proof fn law_highlights_go_by_spelling(kind: TokenType)
    ensures
        kind_of(kind) is Identifier <==> kind is Identifier,
        kind_of(kind) is String <==> kind is String,
        kind_of(kind) is Number <==> kind is Number,
        kind_of(kind) is Invalid <==> kind is Error,
        !(kind is Eof) ==> (kind_of(kind) is Keyword <==> spelling(kind) is Some && !kind_is_sign(
            kind,
        )),
        kind_is_sign(kind) ==> kind_of(kind) is Operator || kind_of(kind) is Punctuation,
        kind_of(kind) is Punctuation <==> kind_is_sign(kind) && is_mark(spelling(kind)->0[0]),
        !(kind_of(kind) is Comment),
{
}

pub open spec fn is_mark(c: char) -> bool {
    c == '(' || c == ')' || c == '[' || c == ']' || c == '{' || c == '}' || c == ',' || c == '.'
        || c == ';' || c == ':'
}

/// A comment is highlighted up to the end of its line, and a string without an
/// end as a string.
pub proof fn law_comments_and_open_strings_are_highlighted(s: Seq<char>, from: int)
    requires
        0 <= from < s.len(),
    ensures
        item_at(s, from).kind is Comment <==> from + 1 < s.len() && s[from] == '/' && s[from + 1]
            == '/',
        item_at(s, from).kind is Comment ==> item_at(s, from).to == line_end(s, from),
        s[from] == '"' ==> item_at(s, from).kind is String,
        item_at(s, from).kind is Invalid ==> lex(s, from).kind is Error && s[from] != '"',
{
}

/// No two kinds of highlight share a number, and those without one are the
/// marks and what is not valid.
pub proof fn law_highlights_have_numbers_of_their_own(a: HighlightKind, b: HighlightKind)
    ensures
        token_type_of(a) is Some && token_type_of(a) == token_type_of(b) ==> a == b,
        token_type_of(a) is None <==> a is Punctuation || a is Invalid,
        token_type_of(a) matches Some(n) ==> n < 6,
{
}

} // verus!
