//! How tokens are written.
use vstd::prelude::*;
use crate::scanner::{
    alpha, blank, comment_at, digit, digits_end, lemma_run_end, lemma_token_start, lex, line_end,
    peek_at, skip_blanks, token_start, word_type, TokenType,
};

verus! {

/// How a token is written that is always written the same.
pub open spec fn spelling(kind: TokenType) -> Option<Seq<char>> {
    match kind {
        TokenType::LeftParen => Some(seq!['(']),
        TokenType::RightParen => Some(seq![')']),
        TokenType::LeftBracket => Some(seq!['[']),
        TokenType::RightBracket => Some(seq![']']),
        TokenType::LeftBrace => Some(seq!['{']),
        TokenType::RightBrace => Some(seq!['}']),
        TokenType::Comma => Some(seq![',']),
        TokenType::Dot => Some(seq!['.']),
        TokenType::Minus => Some(seq!['-']),
        TokenType::Plus => Some(seq!['+']),
        TokenType::Semicolon => Some(seq![';']),
        TokenType::Colon => Some(seq![':']),
        TokenType::Slash => Some(seq!['/']),
        TokenType::Backslash => Some(seq!['\\']),
        TokenType::Star => Some(seq!['*']),
        TokenType::Bang => Some(seq!['!']),
        TokenType::BangEqual => Some(seq!['!', '=']),
        TokenType::Equal => Some(seq!['=']),
        TokenType::EqualEqual => Some(seq!['=', '=']),
        TokenType::Greater => Some(seq!['>']),
        TokenType::GreaterGreater => Some(seq!['>', '>']),
        TokenType::GreaterGreaterGreater => Some(seq!['>', '>', '>']),
        TokenType::GreaterEqual => Some(seq!['>', '=']),
        TokenType::Less => Some(seq!['<']),
        TokenType::LessEqual => Some(seq!['<', '=']),
        TokenType::And => Some("and"@),
        TokenType::Case => Some("case"@),
        TokenType::Class => Some("class"@),
        TokenType::Default => Some("default"@),
        TokenType::Else => Some("else"@),
        TokenType::False => Some("false"@),
        TokenType::For => Some("for"@),
        TokenType::Fun => Some("fun"@),
        TokenType::If => Some("if"@),
        TokenType::Nil => Some("nil"@),
        TokenType::Or => Some("or"@),
        TokenType::Print => Some("print"@),
        TokenType::Return => Some("return"@),
        TokenType::Super => Some("super"@),
        TokenType::Switch => Some("switch"@),
        TokenType::This => Some("this"@),
        TokenType::True => Some("true"@),
        TokenType::Var => Some("var"@),
        TokenType::While => Some("while"@),
        _ => None,
    }
}

/// A text stands at a place of another.
pub open spec fn stands_at(s: Seq<char>, i: int, text: Seq<char>) -> bool {
    0 <= i && i + text.len() <= s.len() && s.subrange(i, i + text.len()) == text
}

/// A token of a kind that is always written the same is written like that.
pub proof fn law_tokens_are_written_as_they_are_spelled(s: Seq<char>, i: int)
    requires
        0 <= i < s.len(),
    ensures
        spelling(lex(s, i).kind) matches Some(text) ==> stands_at(s, i, text) && lex(s, i).end == i
            + text.len(),
{
    if alpha(s[i]) {
        lemma_run_end(s, i + 1, |c: char| alpha(c) || digit(c));
    } else if digit(s[i]) {
    } else if s[i] == '"' {
    } else {
        let end = lex(s, i).end;
        if spelling(lex(s, i).kind) is Some {
            assert(s.subrange(i, end) =~= spelling(lex(s, i).kind)->0);
        }
    }
}

/// The longest operator that stands at a place is taken.
pub proof fn law_the_longest_operator_is_taken(s: Seq<char>, i: int, kind: TokenType)
    requires
        0 <= i < s.len(),
        kind_is_sign(kind),
        stands_at(s, i, spelling(kind)->0),
    ensures
        kind_is_sign(lex(s, i).kind),
        lex(s, i).end >= i + spelling(kind)->0.len(),
        lex(s, i).end == i + spelling(kind)->0.len() ==> lex(s, i).kind == kind,
{
    let text = spelling(kind)->0;
    assert(s[i] == s.subrange(i, i + text.len())[0]);
    if text.len() > 1 {
        assert(s[i + 1] == s.subrange(i, i + text.len())[1]);
    }
    if text.len() > 2 {
        assert(s[i + 2] == s.subrange(i, i + text.len())[2]);
    }
}

/// A kind that is written without letters.
pub open spec fn kind_is_sign(kind: TokenType) -> bool {
    match kind {
        TokenType::LeftParen
        | TokenType::RightParen
        | TokenType::LeftBracket
        | TokenType::RightBracket
        | TokenType::LeftBrace
        | TokenType::RightBrace
        | TokenType::Comma
        | TokenType::Dot
        | TokenType::Minus
        | TokenType::Plus
        | TokenType::Semicolon
        | TokenType::Colon
        | TokenType::Slash
        | TokenType::Backslash
        | TokenType::Star
        | TokenType::Bang
        | TokenType::BangEqual
        | TokenType::Equal
        | TokenType::EqualEqual
        | TokenType::Greater
        | TokenType::GreaterGreater
        | TokenType::GreaterGreaterGreater
        | TokenType::GreaterEqual
        | TokenType::Less
        | TokenType::LessEqual => true,
        _ => false,
    }
}

/// A word goes on as long as letters and digits do. It is the keyword that is
/// spelled like it, or else an identifier.
pub proof fn law_words(s: Seq<char>, i: int)
    requires
        0 <= i < s.len(),
        alpha(s[i]),
    ensures
        ({
            let token = lex(s, i);
            &&& i < token.end <= s.len()
            &&& forall|j: int| i <= j < token.end ==> alpha(#[trigger] s[j]) || digit(s[j])
            &&& token.end < s.len() ==> !alpha(s[token.end]) && !digit(s[token.end])
            &&& token.kind is Identifier || spelling(token.kind) == Some(
                s.subrange(i, token.end),
            )
            &&& token.error is None
        }),
{
    lemma_run_end(s, i + 1, |c: char| alpha(c) || digit(c));
}

/// A keyword that stands by itself is not an identifier.
pub proof fn law_keywords_are_no_identifiers(kind: TokenType)
    requires
        spelling(kind) is Some,
        !kind_is_sign(kind),
    ensures
        word_type(spelling(kind)->0) == kind,
{
    reveal_strlit("and");
    reveal_strlit("case");
    reveal_strlit("class");
    reveal_strlit("default");
    reveal_strlit("else");
    reveal_strlit("false");
    reveal_strlit("for");
    reveal_strlit("fun");
    reveal_strlit("if");
    reveal_strlit("nil");
    reveal_strlit("or");
    reveal_strlit("print");
    reveal_strlit("return");
    reveal_strlit("super");
    reveal_strlit("switch");
    reveal_strlit("this");
    reveal_strlit("true");
    reveal_strlit("var");
    reveal_strlit("while");
    assert("and"@[0] != "for"@[0]);
    assert("and"@[0] != "fun"@[0]);
    assert("and"@[0] != "nil"@[0]);
    assert("and"@[0] != "var"@[0]);
    assert("and"@.len() == 3);
    assert("case"@[0] != "else"@[0]);
    assert("case"@[0] != "this"@[0]);
    assert("case"@[0] != "true"@[0]);
    assert("case"@.len() == 4);
    assert("class"@[0] != "false"@[0]);
    assert("class"@[0] != "print"@[0]);
    assert("class"@[0] != "super"@[0]);
    assert("class"@[0] != "while"@[0]);
    assert("class"@.len() == 5);
    assert("default"@.len() == 7);
    assert("else"@[0] != "this"@[0]);
    assert("else"@[0] != "true"@[0]);
    assert("else"@.len() == 4);
    assert("false"@[0] != "print"@[0]);
    assert("false"@[0] != "super"@[0]);
    assert("false"@[0] != "while"@[0]);
    assert("false"@.len() == 5);
    assert("for"@[1] != "fun"@[1]);
    assert("for"@[0] != "nil"@[0]);
    assert("for"@[0] != "var"@[0]);
    assert("for"@.len() == 3);
    assert("fun"@[0] != "nil"@[0]);
    assert("fun"@[0] != "var"@[0]);
    assert("fun"@.len() == 3);
    assert("if"@[0] != "or"@[0]);
    assert("if"@.len() == 2);
    assert("nil"@[0] != "var"@[0]);
    assert("nil"@.len() == 3);
    assert("or"@.len() == 2);
    assert("print"@[0] != "super"@[0]);
    assert("print"@[0] != "while"@[0]);
    assert("print"@.len() == 5);
    assert("return"@[0] != "switch"@[0]);
    assert("return"@.len() == 6);
    assert("super"@[0] != "while"@[0]);
    assert("super"@.len() == 5);
    assert("switch"@.len() == 6);
    assert("this"@[1] != "true"@[1]);
    assert("this"@.len() == 4);
    assert("true"@.len() == 4);
    assert("var"@.len() == 3);
    assert("while"@.len() == 5);
}

/// A number is digits, and perhaps a point with digits behind it, as many as
/// there are.
pub proof fn law_numbers_are_digits(s: Seq<char>, i: int)
    requires
        0 <= i < s.len(),
        digit(s[i]),
    ensures
        ({
            let token = lex(s, i);
            &&& token.kind is Number
            &&& i < token.end <= s.len()
            &&& token.end < s.len() ==> !digit(s[token.end])
            &&& exists|point: int|
                i < point <= token.end && (forall|j: int|
                    i <= j < token.end && j != point ==> digit(#[trigger] s[j])) && #[trigger]
                is_point(s, point, token.end)
        }),
{
    let whole = digits_end(s, i + 1);
    lemma_run_end(s, i + 1, |c: char| digit(c));
    let end = lex(s, i).end;
    if peek_at(s, whole) == '.' && digit(peek_at(s, whole + 1)) {
        lemma_run_end(s, whole + 1, |c: char| digit(c));
        reveal_with_fuel(crate::scanner::run_end, 2);
        assert(end > whole + 1);
    }
    assert(is_point(s, whole, end));
}

/// The point of a number has digits behind it; a number without one has none in
/// front of more digits.
pub open spec fn is_point(s: Seq<char>, point: int, end: int) -> bool {
    if point < end {
        s[point] == '.' && point + 1 < end
    } else {
        !(peek_at(s, end) == '.' && digit(peek_at(s, end + 1)))
    }
}

/// A string goes up to the next quote; one that has none is an error.
pub proof fn law_strings_end_at_the_next_quote(s: Seq<char>, i: int)
    requires
        0 <= i < s.len(),
        s[i] == '"',
    ensures
        ({
            let token = lex(s, i);
            &&& token.kind is String ==> i + 1 < token.end <= s.len() && s[token.end - 1] == '"'
                && forall|j: int| i < j < token.end - 1 ==> #[trigger] s[j] != '"'
            &&& !(token.kind is String) ==> token.kind is Error && token.end == s.len() && forall|
                j: int,
            |
                i < j < s.len() ==> #[trigger] s[j] != '"'
        }),
{
    lemma_run_end(s, i + 1, |c: char| c != '"');
}

/// A place lies in white space or in a comment, which goes up to the end of its
/// line.
pub open spec fn is_skipped(s: Seq<char>, from: int, j: int) -> bool {
    blank(s[j]) || exists|k: int|
        from <= k <= j && #[trigger] comment_at(s, k) && forall|l: int|
            k <= l <= j ==> #[trigger] s[l] != '\n'
}

/// Only white space and comments are skipped in front of a token, and all of it.
pub proof fn law_only_blanks_and_comments_are_skipped(s: Seq<char>, i: int, j: int)
    requires
        0 <= i <= j < token_start(s, i),
        i <= s.len(),
    ensures
        j < s.len(),
        is_skipped(s, i, j),
    decreases s.len() - i,
{
    lemma_token_start(s, i);
    let k = skip_blanks(s, i);
    lemma_run_end(s, i, |c: char| blank(c));
    if comment_at(s, k) && i < line_end(s, k) <= s.len() {
        lemma_run_end(s, k, |c: char| c != '\n');
        let end = line_end(s, k);
        if j < k {
        } else if j < end {
            assert(comment_at(s, k));
            assert(is_skipped(s, i, j));
        } else {
            law_only_blanks_and_comments_are_skipped(s, end, j);
            if !blank(s[j]) {
                let from = choose|from: int|
                    end <= from <= j && #[trigger] comment_at(s, from) && forall|l: int|
                        from <= l <= j ==> #[trigger] s[l] != '\n';
                assert(comment_at(s, from));
            }
        }
    }
}

} // verus!
