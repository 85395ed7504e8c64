//! Turns source text into tokens.
use vstd::prelude::*;
use crate::source::{RevisionId, SourceId, SourceSpan, TextPosition};
use crate::source::{lemma_position_bounds, lemma_position_push, position_after};
use crate::source::{last_line_len, line_feeds};
use crate::text::{byte_len, char_width, first_char, same_text, split_text, utf8_len};
use crate::text::{lemma_utf8_len_bounds, lemma_utf8_len_monotone, lemma_utf8_len_take};
use crate::text::lemma_utf8_len_concat;

verus! {

#[derive(Debug, Clone, Copy, PartialEq, Eq, Structural)]
pub enum TokenType {
    // Single-character tokens
    LeftParen,
    RightParen,
    LeftBracket,
    RightBracket,
    LeftBrace,
    RightBrace,
    Comma,
    Dot,
    Minus,
    Plus,
    Semicolon,
    Colon,
    Slash,
    Backslash,
    Star,
    // One or two character tokens
    Bang,
    BangEqual,
    Equal,
    EqualEqual,
    Greater,
    GreaterGreater,
    GreaterGreaterGreater,
    GreaterEqual,
    Less,
    LessEqual,
    // Literals
    Identifier,
    String,
    Number,
    // Keywords
    And,
    Class,
    Case,
    Default,
    Else,
    False,
    For,
    Fun,
    If,
    Nil,
    Or,
    Print,
    Return,
    Super,
    Switch,
    This,
    True,
    Var,
    While,
    // Special
    Error,
    Eof,
}

/// A token: its text is the first `length` bytes of `start`.
#[derive(Debug, Clone, Copy)]
pub struct Token<'a> {
    pub token_type: TokenType,
    pub start: &'a str,
    pub length: usize,
    pub line: usize,
    pub column: usize,
    pub start_position: TextPosition,
    pub end_position: TextPosition,
    pub error_message: Option<&'static str>,
}

/// What a scan finds next: a token or a comment.
#[derive(Debug, Clone, Copy, PartialEq, Eq, Structural)]
pub enum ScannerItemKind {
    Token(TokenType),
    Comment,
}

#[derive(Debug, Clone, Copy)]
pub struct ScannerItem<'a> {
    pub kind: ScannerItemKind,
    pub token: Token<'a>,
}

/// What the language says about the scalars from one place in a text: the
/// kind of item, the place behind it, and the message where it is malformed.
pub ghost struct Lexeme {
    pub kind: TokenType,
    pub end: int,
    pub error: Option<Seq<char>>,
}

pub open spec fn peek_at(s: Seq<char>, i: int) -> char {
    if 0 <= i < s.len() {
        s[i]
    } else {
        '\0'
    }
}

pub open spec fn alpha(c: char) -> bool {
    ('a' <= c && c <= 'z') || ('A' <= c && c <= 'Z') || c == '_'
}

pub open spec fn digit(c: char) -> bool {
    '0' <= c && c <= '9'
}

pub open spec fn blank(c: char) -> bool {
    c == ' ' || c == '\r' || c == '\t' || c == '\n'
}

/// The first place from `i` on whose scalar fails `p`, or the end.
pub open spec fn run_end(s: Seq<char>, i: int, p: spec_fn(char) -> bool) -> int
    decreases s.len() - i,
{
    if 0 <= i < s.len() && p(s[i]) {
        run_end(s, i + 1, p)
    } else {
        i
    }
}

pub proof fn lemma_run_end(s: Seq<char>, i: int, p: spec_fn(char) -> bool)
    requires
        0 <= i <= s.len(),
    ensures
        i <= run_end(s, i, p) <= s.len(),
        run_end(s, i, p) < s.len() ==> !p(s[run_end(s, i, p)]),
        forall|j: int| i <= j < run_end(s, i, p) ==> p(#[trigger] s[j]),
    decreases s.len() - i,
{
    if i < s.len() && p(s[i]) {
        lemma_run_end(s, i + 1, p);
    }
}

pub open spec fn skip_blanks(s: Seq<char>, i: int) -> int {
    run_end(s, i, |c: char| blank(c))
}

/// Where the line that holds `i` ends.
pub open spec fn line_end(s: Seq<char>, i: int) -> int {
    run_end(s, i, |c: char| c != '\n')
}

pub open spec fn comment_at(s: Seq<char>, i: int) -> bool {
    peek_at(s, i) == '/' && peek_at(s, i + 1) == '/'
}

/// The first place from `i` on that is in no white space and no comment.
pub open spec fn token_start(s: Seq<char>, i: int) -> int
    decreases s.len() - i,
{
    let j = skip_blanks(s, i);
    if comment_at(s, j) && i < line_end(s, j) <= s.len() {
        token_start(s, line_end(s, j))
    } else {
        j
    }
}

pub proof fn lemma_token_start(s: Seq<char>, i: int)
    requires
        0 <= i <= s.len(),
    ensures
        i <= token_start(s, i) <= s.len(),
        !comment_at(s, token_start(s, i)),
        token_start(s, i) < s.len() ==> !blank(s[token_start(s, i)]),
    decreases s.len() - i,
{
    let j = skip_blanks(s, i);
    lemma_run_end(s, i, |c: char| blank(c));
    if comment_at(s, j) {
        lemma_run_end(s, j, |c: char| c != '\n');
        reveal_with_fuel(run_end, 2);
        assert(line_end(s, j) > j);
        lemma_token_start(s, line_end(s, j));
    }
}

/// The keyword that a word is, or else an identifier.
pub open spec fn word_type(w: Seq<char>) -> TokenType {
    if w == "and"@ {
        TokenType::And
    } else if w == "case"@ {
        TokenType::Case
    } else if w == "class"@ {
        TokenType::Class
    } else if w == "default"@ {
        TokenType::Default
    } else if w == "else"@ {
        TokenType::Else
    } else if w == "false"@ {
        TokenType::False
    } else if w == "for"@ {
        TokenType::For
    } else if w == "fun"@ {
        TokenType::Fun
    } else if w == "if"@ {
        TokenType::If
    } else if w == "nil"@ {
        TokenType::Nil
    } else if w == "or"@ {
        TokenType::Or
    } else if w == "print"@ {
        TokenType::Print
    } else if w == "return"@ {
        TokenType::Return
    } else if w == "super"@ {
        TokenType::Super
    } else if w == "switch"@ {
        TokenType::Switch
    } else if w == "this"@ {
        TokenType::This
    } else if w == "true"@ {
        TokenType::True
    } else if w == "var"@ {
        TokenType::Var
    } else if w == "while"@ {
        TokenType::While
    } else {
        TokenType::Identifier
    }
}

pub open spec fn word_end(s: Seq<char>, i: int) -> int {
    run_end(s, i, |c: char| alpha(c) || digit(c))
}

pub open spec fn digits_end(s: Seq<char>, i: int) -> int {
    run_end(s, i, |c: char| digit(c))
}

/// Where the number that starts at `i` ends: digits, then perhaps a point
/// with at least one digit behind it.
pub open spec fn number_end(s: Seq<char>, i: int) -> int {
    let whole = digits_end(s, i);
    if peek_at(s, whole) == '.' && digit(peek_at(s, whole + 1)) {
        digits_end(s, whole + 1)
    } else {
        whole
    }
}

pub open spec fn quote_at(s: Seq<char>, i: int) -> int {
    run_end(s, i, |c: char| c != '"')
}

pub open spec fn lexeme(kind: TokenType, end: int) -> Lexeme {
    Lexeme { kind, end, error: None }
}

/// The token whose first scalar stands at `i`.
pub open spec fn lex(s: Seq<char>, i: int) -> Lexeme {
    if i >= s.len() {
        lexeme(TokenType::Eof, i)
    } else if alpha(s[i]) {
        let end = word_end(s, i + 1);
        lexeme(word_type(s.subrange(i, end)), end)
    } else if digit(s[i]) {
        lexeme(TokenType::Number, number_end(s, i + 1))
    } else if s[i] == '"' {
        let close = quote_at(s, i + 1);
        if close >= s.len() {
            Lexeme { kind: TokenType::Error, end: close, error: Some("Unterminated string."@) }
        } else {
            lexeme(TokenType::String, close + 1)
        }
    } else {
        let second = peek_at(s, i + 1);
        match s[i] {
            '(' => lexeme(TokenType::LeftParen, i + 1),
            ')' => lexeme(TokenType::RightParen, i + 1),
            '[' => lexeme(TokenType::LeftBracket, i + 1),
            ']' => lexeme(TokenType::RightBracket, i + 1),
            '{' => lexeme(TokenType::LeftBrace, i + 1),
            '}' => lexeme(TokenType::RightBrace, i + 1),
            ';' => lexeme(TokenType::Semicolon, i + 1),
            ':' => lexeme(TokenType::Colon, i + 1),
            ',' => lexeme(TokenType::Comma, i + 1),
            '.' => lexeme(TokenType::Dot, i + 1),
            '-' => lexeme(TokenType::Minus, i + 1),
            '+' => lexeme(TokenType::Plus, i + 1),
            '/' => lexeme(TokenType::Slash, i + 1),
            '\\' => lexeme(TokenType::Backslash, i + 1),
            '*' => lexeme(TokenType::Star, i + 1),
            '!' => if second == '=' {
                lexeme(TokenType::BangEqual, i + 2)
            } else {
                lexeme(TokenType::Bang, i + 1)
            },
            '=' => if second == '=' {
                lexeme(TokenType::EqualEqual, i + 2)
            } else {
                lexeme(TokenType::Equal, i + 1)
            },
            '<' => if second == '=' {
                lexeme(TokenType::LessEqual, i + 2)
            } else {
                lexeme(TokenType::Less, i + 1)
            },
            '>' => if second == '=' {
                lexeme(TokenType::GreaterEqual, i + 2)
            } else if second == '>' && peek_at(s, i + 2) == '>' {
                lexeme(TokenType::GreaterGreaterGreater, i + 3)
            } else if second == '>' {
                lexeme(TokenType::GreaterGreater, i + 2)
            } else {
                lexeme(TokenType::Greater, i + 1)
            },
            _ => Lexeme {
                kind: TokenType::Error,
                end: i + 1,
                error: Some("Unexpected character."@),
            },
        }
    }
}

/// A token is as long as its text, and only the token at the end is empty:
/// scanning always gets ahead and never past the end.
pub proof fn law_lex_makes_progress(s: Seq<char>, i: int)
    requires
        0 <= i <= s.len(),
    ensures
        i <= lex(s, i).end <= s.len(),
        lex(s, i).kind == TokenType::Eof <==> i == s.len(),
        lex(s, i).end == i <==> i == s.len(),
        lex(s, i).error is Some <==> lex(s, i).kind == TokenType::Error,
{
    if i < s.len() {
        lemma_run_end(s, i + 1, |c: char| alpha(c) || digit(c));
        lemma_run_end(s, i + 1, |c: char| digit(c));
        let whole = digits_end(s, i + 1);
        if whole < s.len() {
            lemma_run_end(s, whole + 1, |c: char| digit(c));
        }
        lemma_run_end(s, i + 1, |c: char| c != '"');
    }
}

impl<'a> Token<'a> {
    /// `length` ends a scalar of `start`.
    pub open spec fn wf(self) -> bool {
        exists|k: int| self.cut_at(k)
    }

    pub open spec fn cut_at(self, k: int) -> bool {
        0 <= k <= self.start@.len() && self.length == #[trigger] utf8_len(self.start@.take(k))
    }

    /// The text of the token.
    pub open spec fn lexeme_view(self) -> Seq<char> {
        self.start@.take(choose|k: int| self.cut_at(k))
    }

    pub proof fn lemma_lexeme_view(self, k: int)
        requires
            self.cut_at(k),
        ensures
            self.wf(),
            self.lexeme_view() == self.start@.take(k),
    {
        let j = choose|j: int| self.cut_at(j);
        if j < k {
            lemma_utf8_len_monotone(self.start@, j, k);
        } else if k < j {
            lemma_utf8_len_monotone(self.start@, k, j);
        }
    }

    pub fn lexeme(&self) -> (text: &'a str)
        requires
            self.wf(),
        ensures
            text@ == self.lexeme_view(),
    {
        let ghost k = choose|k: int| self.cut_at(k);
        split_text(self.start, self.length, Ghost(k)).0
    }

    pub fn span(&self, source_id: SourceId, revision: RevisionId) -> (span: SourceSpan)
        ensures
            span == (SourceSpan {
                source_id,
                revision,
                start: self.start_position,
                end: self.end_position,
            }),
    {
        SourceSpan { source_id, revision, start: self.start_position, end: self.end_position }
    }

    /// The token covers the scalars of `source` from `from` to `to`, and says
    /// what `kind` and `error` say.
    pub open spec fn covers(
        self,
        source: Seq<char>,
        from: int,
        to: int,
        kind: TokenType,
        error: Option<Seq<char>>,
    ) -> bool {
        &&& 0 <= from <= to <= source.len()
        &&& self.wf()
        &&& self.token_type == kind
        &&& self.start@ == source.skip(from)
        &&& self.lexeme_view() == source.subrange(from, to)
        &&& self.length == utf8_len(source.subrange(from, to))
        &&& self.start_position == position_after(source.take(from))
        &&& self.end_position == position_after(source.take(to))
        &&& self.line == self.start_position.line
        &&& self.column == self.start_position.column
        &&& match self.error_message {
            Some(message) => error == Some(message@),
            None => error is None,
        }
    }

    /// The token is the one that the language has at `from`.
    pub open spec fn is_lexed_at(self, source: Seq<char>, from: int) -> bool {
        self.covers(source, from, lex(source, from).end, lex(source, from).kind, lex(
            source,
            from,
        ).error)
    }
}

/// A cursor over a text that hands out its tokens.
pub struct Scanner<'a> {
    source: &'a str,
    start: &'a str,
    current: &'a str,
    line: usize,
    column: usize,
    start_position: TextPosition,
}

impl<'a> Scanner<'a> {
    /// The text that is scanned.
    pub closed spec fn text(self) -> Seq<char> {
        self.source@
    }

    /// How many scalars have been read.
    pub closed spec fn at(self) -> int {
        self.source@.len() - self.current@.len()
    }

    spec fn start_at(self) -> int {
        self.source@.len() - self.start@.len()
    }

    pub closed spec fn wf(self) -> bool {
        &&& utf8_len(self.source@) < usize::MAX
        &&& 0 <= self.start_at() <= self.at() <= self.source@.len()
        &&& self.current@ == self.source@.skip(self.at())
        &&& self.start@ == self.source@.skip(self.start_at())
        &&& self.line == 1 + line_feeds(self.source@.take(self.at()))
        &&& self.column == 1 + last_line_len(self.source@.take(self.at()))
        &&& self.start_position == position_after(self.source@.take(self.start_at()))
    }

    /// Nothing but the place that has been read to differs.
    spec fn moved_from(self, before: Self) -> bool {
        &&& self.wf()
        &&& self.source@ == before.source@
        &&& self.start@ == before.start@
        &&& self.start_position == before.start_position
        &&& before.at() <= self.at()
    }

    pub fn new(source: &'a str) -> (scanner: Self)
        requires
            utf8_len(source@) < usize::MAX,
        ensures
            scanner.wf(),
            scanner.text() == source@,
            scanner.at() == 0,
    {
        proof {
            assert(source@.skip(0) =~= source@);
            assert(source@.take(0) =~= Seq::<char>::empty());
        }
        Scanner {
            source,
            start: source,
            current: source,
            line: 1,
            column: 1,
            start_position: TextPosition { byte_offset: 0, line: 1, column: 1 },
        }
    }

    fn is_alpha(c: char) -> (yes: bool)
        ensures
            yes == alpha(c),
    {
        ('a' <= c && c <= 'z') || ('A' <= c && c <= 'Z') || c == '_'
    }

    fn is_digit(c: char) -> (yes: bool)
        ensures
            yes == digit(c),
    {
        '0' <= c && c <= '9'
    }

    fn is_at_end(&self) -> (end: bool)
        requires
            self.wf(),
        ensures
            end == (self.at() == self.text().len()),
    {
        self.current.is_empty()
    }

    fn advance(&mut self) -> (c: char)
        requires
            old(self).wf(),
            old(self).at() < old(self).text().len(),
        ensures
            final(self).moved_from(*old(self)),
            final(self).at() == old(self).at() + 1,
            c == old(self).text()[old(self).at()],
    {
        let ghost at = self.at();
        let ghost text = self.source@;
        let c = first_char(self.current).unwrap();
        proof {
            assert(self.current@.take(1) =~= Seq::<char>::empty().push(c));
            lemma_position_push(Seq::<char>::empty(), c);
            assert(self.current@.skip(1) =~= text.skip(at + 1));
            assert(text.take(at + 1) =~= text.take(at).push(c));
            lemma_position_push(text.take(at), c);
            lemma_position_bounds(text.take(at));
            lemma_utf8_len_bounds(text);
        }
        self.current = split_text(self.current, char_width(c), Ghost(1)).1;
        if c == '\n' {
            self.line = self.line + 1;
            self.column = 1;
        } else {
            self.column = self.column + 1;
        }
        c
    }

    fn current_position(&self) -> (position: TextPosition)
        requires
            self.wf(),
        ensures
            position == position_after(self.text().take(self.at())),
    {
        proof {
            lemma_utf8_len_take(self.source@, self.at());
        }
        TextPosition {
            byte_offset: byte_len(self.source) - byte_len(self.current),
            line: self.line,
            column: self.column,
        }
    }

    fn peek(&self) -> (c: char)
        requires
            self.wf(),
        ensures
            c == peek_at(self.text(), self.at()),
    {
        match first_char(self.current) {
            Some(c) => c,
            None => '\0',
        }
    }

    fn peek_next(&self) -> (c: char)
        requires
            self.wf(),
        ensures
            c == peek_at(self.text(), self.at() + 1),
    {
        let mut scalars = self.current.chars();
        let first = scalars.next();
        if first.is_none() {
            return '\0';
        }
        match scalars.next() {
            Some(c) => c,
            None => '\0',
        }
    }

    fn match_char(&mut self, expected: char) -> (matched: bool)
        requires
            old(self).wf(),
            expected != '\0',
        ensures
            final(self).moved_from(*old(self)),
            matched == (peek_at(old(self).text(), old(self).at()) == expected),
            final(self).at() == old(self).at() + (if matched {
                1int
            } else {
                0
            }),
    {
        if self.is_at_end() {
            return false;
        }
        if self.peek() != expected {
            return false;
        }
        self.advance();
        true
    }

    fn cut_token(&self, token_type: TokenType, error_message: Option<&'static str>) -> (token:
        Token<'a>)
        requires
            self.wf(),
        ensures
            token.token_type == token_type,
            token.error_message == error_message,
            token.covers(
                self.text(),
                self.start_at(),
                self.at(),
                token_type,
                match error_message {
                    Some(message) => Some(message@),
                    None => None,
                },
            ),
    {
        let ghost text = self.source@;
        let ghost from = self.start_at();
        let ghost to = self.at();
        proof {
            lemma_utf8_len_take(text, from);
            lemma_utf8_len_take(text, to);
            lemma_utf8_len_monotone(text, from, to);
            lemma_utf8_len_concat(text.take(from), text.subrange(from, to));
            assert(text.take(from) + text.subrange(from, to) =~= text.take(to));
            assert(self.start@.take(to - from) =~= text.subrange(from, to));
        }
        let length: usize = byte_len(self.start) - byte_len(self.current);
        let token = Token {
            token_type,
            start: self.start,
            length,
            line: self.start_position.line,
            column: self.start_position.column,
            start_position: self.start_position,
            end_position: self.current_position(),
            error_message,
        };
        proof {
            assert(token.cut_at(to - from));
            token.lemma_lexeme_view(to - from);
        }
        token
    }

    fn make_token(&self, token_type: TokenType) -> (token: Token<'a>)
        requires
            self.wf(),
        ensures
            token.covers(self.text(), self.start_at(), self.at(), token_type, None),
    {
        self.cut_token(token_type, None)
    }

    fn error_token(&self, message: &'static str) -> (token: Token<'a>)
        requires
            self.wf(),
        ensures
            token.covers(
                self.text(),
                self.start_at(),
                self.at(),
                TokenType::Error,
                Some(message@),
            ),
    {
        self.cut_token(TokenType::Error, Some(message))
    }

    fn begin(&mut self)
        requires
            old(self).wf(),
        ensures
            final(self).wf(),
            final(self).source@ == old(self).source@,
            final(self).at() == old(self).at(),
            final(self).start_at() == old(self).at(),
    {
        self.start_position = self.current_position();
        self.start = self.current;
    }

    fn skip_spaces(&mut self)
        requires
            old(self).wf(),
        ensures
            final(self).moved_from(*old(self)),
            final(self).at() == skip_blanks(old(self).text(), old(self).at()),
    {
        while !self.is_at_end() && (self.peek() == ' ' || self.peek() == '\r' || self.peek() == '\t'
            || self.peek() == '\n')
            invariant
                self.moved_from(*old(self)),
                skip_blanks(self.text(), self.at()) == skip_blanks(
                    old(self).text(),
                    old(self).at(),
                ),
            decreases self.text().len() - self.at(),
        {
            self.advance();
        }
    }

    fn skip_line(&mut self)
        requires
            old(self).wf(),
        ensures
            final(self).moved_from(*old(self)),
            final(self).at() == line_end(old(self).text(), old(self).at()),
    {
        while self.peek() != '\n' && !self.is_at_end()
            invariant
                self.moved_from(*old(self)),
                line_end(self.text(), self.at()) == line_end(old(self).text(), old(self).at()),
            decreases self.text().len() - self.at(),
        {
            self.advance();
        }
    }

    /// Goes past white space and comments.
    fn skip_whitespace(&mut self)
        requires
            old(self).wf(),
        ensures
            final(self).moved_from(*old(self)),
            final(self).at() == token_start(old(self).text(), old(self).at()),
    {
        loop
            invariant_except_break
                self.moved_from(*old(self)),
                token_start(self.text(), self.at()) == token_start(
                    old(self).text(),
                    old(self).at(),
                ),
            ensures
                self.moved_from(*old(self)),
                self.at() == token_start(old(self).text(), old(self).at()),
            decreases self.text().len() - self.at(),
        {
            let ghost from = self.at();
            self.skip_spaces();
            if self.peek() == '/' && self.peek_next() == '/' {
                let ghost slash = self.at();
                self.skip_line();
                proof {
                    lemma_run_end(self.text(), slash + 1, |c: char| c != '\n');
                    assert(self.at() == line_end(self.text(), slash + 1));
                }
            } else {
                break;
            }
        }
    }

    fn identifier_type(word: &str) -> (token_type: TokenType)
        ensures
            token_type == word_type(word@),
    {
        if same_text(word, "and") {
            TokenType::And
        } else if same_text(word, "case") {
            TokenType::Case
        } else if same_text(word, "class") {
            TokenType::Class
        } else if same_text(word, "default") {
            TokenType::Default
        } else if same_text(word, "else") {
            TokenType::Else
        } else if same_text(word, "false") {
            TokenType::False
        } else if same_text(word, "for") {
            TokenType::For
        } else if same_text(word, "fun") {
            TokenType::Fun
        } else if same_text(word, "if") {
            TokenType::If
        } else if same_text(word, "nil") {
            TokenType::Nil
        } else if same_text(word, "or") {
            TokenType::Or
        } else if same_text(word, "print") {
            TokenType::Print
        } else if same_text(word, "return") {
            TokenType::Return
        } else if same_text(word, "super") {
            TokenType::Super
        } else if same_text(word, "switch") {
            TokenType::Switch
        } else if same_text(word, "this") {
            TokenType::This
        } else if same_text(word, "true") {
            TokenType::True
        } else if same_text(word, "var") {
            TokenType::Var
        } else if same_text(word, "while") {
            TokenType::While
        } else {
            TokenType::Identifier
        }
    }

    fn identifier(&mut self) -> (token: Token<'a>)
        requires
            old(self).wf(),
        ensures
            final(self).moved_from(*old(self)),
            final(self).at() == word_end(old(self).text(), old(self).at()),
            token.covers(
                final(self).text(),
                final(self).start_at(),
                final(self).at(),
                word_type(final(self).text().subrange(final(self).start_at(), final(self).at())),
                None,
            ),
    {
        while Self::is_alpha(self.peek()) || Self::is_digit(self.peek())
            invariant
                self.moved_from(*old(self)),
                word_end(self.text(), self.at()) == word_end(old(self).text(), old(self).at()),
            decreases self.text().len() - self.at(),
        {
            self.advance();
        }
        let word = self.make_token(TokenType::Identifier).lexeme();
        self.make_token(Self::identifier_type(word))
    }

    fn skip_digits(&mut self)
        requires
            old(self).wf(),
        ensures
            final(self).moved_from(*old(self)),
            final(self).at() == digits_end(old(self).text(), old(self).at()),
    {
        while Self::is_digit(self.peek())
            invariant
                self.moved_from(*old(self)),
                digits_end(self.text(), self.at()) == digits_end(old(self).text(), old(self).at()),
            decreases self.text().len() - self.at(),
        {
            self.advance();
        }
    }

    fn number(&mut self) -> (token: Token<'a>)
        requires
            old(self).wf(),
        ensures
            final(self).moved_from(*old(self)),
            final(self).at() == number_end(old(self).text(), old(self).at()),
            token.covers(
                final(self).text(),
                final(self).start_at(),
                final(self).at(),
                TokenType::Number,
                None,
            ),
    {
        self.skip_digits();
        // Look for a fractional part.
        if self.peek() == '.' && Self::is_digit(self.peek_next()) {
            // Consume the ".".
            self.advance();
            self.skip_digits();
        }
        self.make_token(TokenType::Number)
    }

    fn string(&mut self) -> (token: Token<'a>)
        requires
            old(self).wf(),
            old(self).at() > 0,
            old(self).start_at() == old(self).at() - 1,
            old(self).text()[old(self).start_at()] == '"',
        ensures
            final(self).moved_from(*old(self)),
            final(self).at() == lex(old(self).text(), old(self).start_at()).end,
            token.is_lexed_at(final(self).text(), final(self).start_at()),
    {
        while self.peek() != '"' && !self.is_at_end()
            invariant
                self.moved_from(*old(self)),
                quote_at(self.text(), self.at()) == quote_at(old(self).text(), old(self).at()),
            decreases self.text().len() - self.at(),
        {
            self.advance();
        }
        if self.is_at_end() {
            return self.error_token("Unterminated string.");
        }
        self.advance();
        self.make_token(TokenType::String)
    }

    fn scan_here(&mut self) -> (token: Token<'a>)
        requires
            old(self).wf(),
        ensures
            final(self).wf(),
            final(self).text() == old(self).text(),
            token.is_lexed_at(old(self).text(), old(self).at()),
            final(self).at() == lex(old(self).text(), old(self).at()).end,
    {
        self.begin();
        if self.is_at_end() {
            return self.make_token(TokenType::Eof);
        }
        let c = self.advance();
        if Self::is_alpha(c) {
            return self.identifier();
        }
        if Self::is_digit(c) {
            return self.number();
        }
        match c {
            '(' => self.make_token(TokenType::LeftParen),
            ')' => self.make_token(TokenType::RightParen),
            '[' => self.make_token(TokenType::LeftBracket),
            ']' => self.make_token(TokenType::RightBracket),
            '{' => self.make_token(TokenType::LeftBrace),
            '}' => self.make_token(TokenType::RightBrace),
            ';' => self.make_token(TokenType::Semicolon),
            ':' => self.make_token(TokenType::Colon),
            ',' => self.make_token(TokenType::Comma),
            '.' => self.make_token(TokenType::Dot),
            '-' => self.make_token(TokenType::Minus),
            '+' => self.make_token(TokenType::Plus),
            '/' => self.make_token(TokenType::Slash),
            '\\' => self.make_token(TokenType::Backslash),
            '*' => self.make_token(TokenType::Star),
            '!' => {
                let t = if self.match_char('=') {
                    TokenType::BangEqual
                } else {
                    TokenType::Bang
                };
                self.make_token(t)
            },
            '=' => {
                let t = if self.match_char('=') {
                    TokenType::EqualEqual
                } else {
                    TokenType::Equal
                };
                self.make_token(t)
            },
            '<' => {
                let t = if self.match_char('=') {
                    TokenType::LessEqual
                } else {
                    TokenType::Less
                };
                self.make_token(t)
            },
            '>' => {
                let t = if self.match_char('=') {
                    TokenType::GreaterEqual
                } else if self.match_char('>') {
                    if self.match_char('>') {
                        TokenType::GreaterGreaterGreater
                    } else {
                        TokenType::GreaterGreater
                    }
                } else {
                    TokenType::Greater
                };
                self.make_token(t)
            },
            '"' => self.string(),
            _ => self.error_token("Unexpected character."),
        }
    }

    /// The next token behind white space and comments.
    pub fn scan_token(&mut self) -> (token: Token<'a>)
        requires
            old(self).wf(),
        ensures
            final(self).wf(),
            final(self).text() == old(self).text(),
            token.is_lexed_at(old(self).text(), token_start(old(self).text(), old(self).at())),
            final(self).at() == lex(
                old(self).text(),
                token_start(old(self).text(), old(self).at()),
            ).end,
    {
        self.skip_whitespace();
        self.scan_here()
    }

    /// The next token or comment behind white space. A comment reaches to
    /// the end of its line; its token is only a carrier of text and place.
    pub fn scan_item(&mut self) -> (item: ScannerItem<'a>)
        requires
            old(self).wf(),
        ensures
            final(self).wf(),
            final(self).text() == old(self).text(),
            ({
                let text = old(self).text();
                let from = skip_blanks(text, old(self).at());
                if comment_at(text, from) {
                    &&& item.kind == ScannerItemKind::Comment
                    &&& item.token.covers(
                        text,
                        from,
                        line_end(text, from),
                        TokenType::Identifier,
                        None,
                    )
                    &&& final(self).at() == line_end(text, from)
                } else {
                    &&& item.kind == ScannerItemKind::Token(lex(text, from).kind)
                    &&& item.token.is_lexed_at(text, from)
                    &&& final(self).at() == lex(text, from).end
                }
            }),
    {
        self.skip_spaces();
        if self.peek() == '/' && self.peek_next() == '/' {
            self.begin();
            self.skip_line();
            ScannerItem {
                kind: ScannerItemKind::Comment,
                token: self.make_token(TokenType::Identifier),
            }
        } else {
            let token = self.scan_here();
            ScannerItem { kind: ScannerItemKind::Token(token.token_type), token }
        }
    }
}

} // verus!
