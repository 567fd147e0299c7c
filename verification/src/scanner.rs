use vstd::prelude::*;
use crate::numbers::{is_digit_char, skip_digits};
use crate::token::{Token, TokenType};

verus! {

/// Whether `c` may start an identifier.
pub open spec fn is_alpha_char(c: char) -> bool {
    ('a' <= c && c <= 'z') || ('A' <= c && c <= 'Z') || c == '_'
}

/// Whether `c` may continue an identifier.
pub open spec fn is_alnum_char(c: char) -> bool {
    is_alpha_char(c) || is_digit_char(c)
}

/// The first position at or after `i` that does not hold an identifier
/// character.
pub open spec fn skip_alnum(src: Seq<char>, i: int) -> int
    decreases src.len() - i,
{
    if i < src.len() && is_alnum_char(src[i]) {
        skip_alnum(src, i + 1)
    } else {
        i
    }
}

/// The first position at or after `i` holding a newline, or the end of
/// the source.
pub open spec fn comment_end(src: Seq<char>, i: int) -> int
    decreases src.len() - i,
{
    if i < src.len() && src[i] != '\n' {
        comment_end(src, i + 1)
    } else {
        i
    }
}

/// Walk a string literal from position `i`: the position of the closing
/// quote (or the end of the source when unterminated), and the line
/// counter after the embedded newlines.
pub open spec fn string_scan(src: Seq<char>, i: int, line: int) -> (int, int)
    decreases src.len() - i,
{
    if i >= src.len() || src[i] == '"' {
        (i, line)
    } else {
        string_scan(
            src,
            i + 1,
            if src[i] == '\n' {
                line + 1
            } else {
                line
            },
        )
    }
}

/// The end of a number lexeme whose first digit sits just before `i`:
/// more digits, then optionally a dot that is followed by at least one
/// digit (a trailing dot is not consumed).
pub open spec fn number_end(src: Seq<char>, i: int) -> int {
    let j = skip_digits(src, i);
    if j < src.len() && src[j] == '.' && j + 1 < src.len() && is_digit_char(src[j + 1]) {
        skip_digits(src, j + 1)
    } else {
        j
    }
}

/// The token kind of an identifier lexeme: a keyword where it matches the
/// keyword table, `Identifier` otherwise.
pub open spec fn keyword_or_ident(lex: Seq<char>) -> TokenType {
    if lex.len() == 2 {
        if lex == seq!['i', 'f'] {
            TokenType::If
        } else if lex == seq!['o', 'r'] {
            TokenType::Or
        } else {
            TokenType::Identifier
        }
    } else if lex.len() == 3 {
        if lex == seq!['a', 'n', 'd'] {
            TokenType::And
        } else if lex == seq!['f', 'o', 'r'] {
            TokenType::For
        } else if lex == seq!['n', 'i', 'l'] {
            TokenType::Nil
        } else if lex == seq!['v', 'a', 'r'] {
            TokenType::Var
        } else {
            TokenType::Identifier
        }
    } else if lex.len() == 4 {
        if lex == seq!['e', 'l', 's', 'e'] {
            TokenType::Else
        } else if lex == seq!['t', 'h', 'i', 's'] {
            TokenType::This
        } else if lex == seq!['t', 'r', 'u', 'e'] {
            TokenType::True
        } else {
            TokenType::Identifier
        }
    } else if lex.len() == 5 {
        if lex == seq!['c', 'l', 'a', 's', 's'] {
            TokenType::Class
        } else if lex == seq!['f', 'a', 'l', 's', 'e'] {
            TokenType::False
        } else if lex == seq!['p', 'r', 'i', 'n', 't'] {
            TokenType::Print
        } else if lex == seq!['s', 'u', 'p', 'e', 'r'] {
            TokenType::Super
        } else if lex == seq!['w', 'h', 'i', 'l', 'e'] {
            TokenType::While
        } else {
            TokenType::Identifier
        }
    } else if lex.len() == 6 {
        if lex == seq!['r', 'e', 't', 'u', 'r', 'n'] {
            TokenType::Return
        } else {
            TokenType::Identifier
        }
    } else if lex.len() == 8 {
        if lex == seq!['f', 'u', 'n', 'c', 't', 'i', 'o', 'n'] {
            TokenType::Fun
        } else {
            TokenType::Identifier
        }
    } else {
        TokenType::Identifier
    }
}

/// What one scanning step produces: the token kind, the position after
/// the lexeme, and the line counter after the lexeme.
pub struct ScanOut {
    pub kind: TokenType,
    pub end: int,
    pub line: int,
}

/// One step of the scanner at position `start` on line `line`.
pub open spec fn spec_scan(src: Seq<char>, start: int, line: int) -> ScanOut {
    if start >= src.len() {
        ScanOut { kind: TokenType::Eof, end: start, line }
    } else {
        let c = src[start];
        if c == '(' {
            ScanOut { kind: TokenType::LeftParen, end: start + 1, line }
        } else if c == ')' {
            ScanOut { kind: TokenType::RightParen, end: start + 1, line }
        } else if c == '{' {
            ScanOut { kind: TokenType::LeftBrace, end: start + 1, line }
        } else if c == '}' {
            ScanOut { kind: TokenType::RightBrace, end: start + 1, line }
        } else if c == ',' {
            ScanOut { kind: TokenType::Comma, end: start + 1, line }
        } else if c == '.' {
            ScanOut { kind: TokenType::Dot, end: start + 1, line }
        } else if c == '-' {
            ScanOut { kind: TokenType::Minus, end: start + 1, line }
        } else if c == '+' {
            ScanOut { kind: TokenType::Plus, end: start + 1, line }
        } else if c == ';' {
            ScanOut { kind: TokenType::SemiColon, end: start + 1, line }
        } else if c == '*' {
            ScanOut { kind: TokenType::Star, end: start + 1, line }
        } else if c == '!' {
            if start + 1 < src.len() && src[start + 1] == '=' {
                ScanOut { kind: TokenType::BangEqual, end: start + 2, line }
            } else {
                ScanOut { kind: TokenType::Bang, end: start + 1, line }
            }
        } else if c == '=' {
            if start + 1 < src.len() && src[start + 1] == '=' {
                ScanOut { kind: TokenType::EqualEqual, end: start + 2, line }
            } else {
                ScanOut { kind: TokenType::Equal, end: start + 1, line }
            }
        } else if c == '<' {
            if start + 1 < src.len() && src[start + 1] == '=' {
                ScanOut { kind: TokenType::LessEqual, end: start + 2, line }
            } else {
                ScanOut { kind: TokenType::Less, end: start + 1, line }
            }
        } else if c == '>' {
            if start + 1 < src.len() && src[start + 1] == '=' {
                ScanOut { kind: TokenType::GreaterEqual, end: start + 2, line }
            } else {
                ScanOut { kind: TokenType::Greater, end: start + 1, line }
            }
        } else if c == '/' {
            if start + 1 < src.len() && src[start + 1] == '/' {
                ScanOut { kind: TokenType::WhiteSpace, end: comment_end(src, start + 2), line }
            } else {
                ScanOut { kind: TokenType::Slash, end: start + 1, line }
            }
        } else if c == ' ' || c == '\r' || c == '\t' {
            ScanOut { kind: TokenType::WhiteSpace, end: start + 1, line }
        } else if c == '\n' {
            ScanOut { kind: TokenType::NewLine, end: start + 1, line: line + 1 }
        } else if c == '"' {
            let (stop, line2) = string_scan(src, start + 1, line);
            if stop >= src.len() {
                ScanOut { kind: TokenType::Error, end: stop, line: line2 }
            } else {
                ScanOut { kind: TokenType::String, end: stop + 1, line: line2 }
            }
        } else if is_digit_char(c) {
            ScanOut { kind: TokenType::Number, end: number_end(src, start + 1), line }
        } else if is_alpha_char(c) {
            let j = skip_alnum(src, start + 1);
            ScanOut { kind: keyword_or_ident(src.subrange(start, j)), end: j, line }
        } else {
            ScanOut { kind: TokenType::Error, end: start + 1, line }
        }
    }
}

/// Digit scanning stays within the source and never moves backwards.
pub proof fn lemma_skip_digits_bounds(src: Seq<char>, i: int)
    requires
        0 <= i <= src.len(),
    ensures
        i <= skip_digits(src, i) <= src.len(),
    decreases src.len() - i,
{
    if i < src.len() && is_digit_char(src[i]) {
        lemma_skip_digits_bounds(src, i + 1);
    }
}

/// Identifier scanning stays within the source and never moves
/// backwards.
pub proof fn lemma_skip_alnum_bounds(src: Seq<char>, i: int)
    requires
        0 <= i <= src.len(),
    ensures
        i <= skip_alnum(src, i) <= src.len(),
    decreases src.len() - i,
{
    if i < src.len() && is_alnum_char(src[i]) {
        lemma_skip_alnum_bounds(src, i + 1);
    }
}

/// Comment scanning stays within the source and never moves backwards.
pub proof fn lemma_comment_end_bounds(src: Seq<char>, i: int)
    requires
        0 <= i <= src.len(),
    ensures
        i <= comment_end(src, i) <= src.len(),
    decreases src.len() - i,
{
    if i < src.len() && src[i] != '\n' {
        lemma_comment_end_bounds(src, i + 1);
    }
}

/// String scanning stays within the source and never moves backwards.
pub proof fn lemma_string_scan_bounds(src: Seq<char>, i: int, line: int)
    requires
        0 <= i <= src.len(),
    ensures
        ({
            let (stop, line2) = string_scan(src, i, line);
            i <= stop <= src.len()
        }),
    decreases src.len() - i,
{
    if !(i >= src.len() || src[i] == '"') {
        lemma_string_scan_bounds(
            src,
            i + 1,
            if src[i] == '\n' {
                line + 1
            } else {
                line
            },
        );
    }
}

/// A comment runs to the end of its line or of the source.
pub proof fn lemma_comment_end_stops(src: Seq<char>, i: int)
    requires
        0 <= i <= src.len(),
    ensures
        comment_end(src, i) == src.len() || src[comment_end(src, i)] == '\n',
        forall|k: int| i <= k < comment_end(src, i) ==> #[trigger] src[k] != '\n',
    decreases src.len() - i,
{
    if i < src.len() && src[i] != '\n' {
        lemma_comment_end_stops(src, i + 1);
    }
}

/// A `//` comment is ignored: the scanner folds it into a single
/// whitespace token that spans up to, but not including, the end of the
/// line (or the end of the source), and whitespace tokens never reach
/// the parser.
pub proof fn lemma_comment_ignored(src: Seq<char>, start: int, line: int)
    requires
        0 <= start,
        start + 1 < src.len(),
        src[start] == '/',
        src[start + 1] == '/',
    ensures
        spec_scan(src, start, line).kind == TokenType::WhiteSpace,
        spec_scan(src, start, line).end == comment_end(src, start + 2),
        spec_scan(src, start, line).end == src.len() || src[spec_scan(src, start, line).end]
            == '\n',
        forall|k: int|
            start + 2 <= k < spec_scan(src, start, line).end ==> #[trigger] src[k] != '\n',
        spec_scan(src, start, line).line == line,
{
    lemma_comment_end_stops(src, start + 2);
}

/// A scanning step at a position inside the source consumes at least one
/// character and stays within it; at the end it yields `Eof` in place.
pub proof fn lemma_scan_progress(src: Seq<char>, start: int, line: int)
    requires
        0 <= start <= src.len(),
    ensures
        start >= src.len() ==> spec_scan(src, start, line).kind == TokenType::Eof && spec_scan(
            src,
            start,
            line,
        ).end == start,
        start < src.len() ==> start < spec_scan(src, start, line).end <= src.len(),
{
    if start < src.len() {
        let c = src[start];
        if c == '/' && start + 1 < src.len() && src[start + 1] == '/' {
            lemma_comment_end_bounds(src, start + 2);
        }
        if c == '"' {
            lemma_string_scan_bounds(src, start + 1, line);
        }
        if is_digit_char(c) {
            lemma_skip_digits_bounds(src, start + 1);
            let j = skip_digits(src, start + 1);
            if j < src.len() && src[j] == '.' && j + 1 < src.len() && is_digit_char(src[j + 1]) {
                lemma_skip_digits_bounds(src, j + 1);
            }
        }
        if is_alpha_char(c) {
            lemma_skip_alnum_bounds(src, start + 1);
        }
    }
}

/// The single-pass lexer.  `start` and `current` are positions into the
/// source; `line` counts the newlines seen so far.
pub struct Scanner {
    pub source: Vec<char>,
    pub start: usize,
    pub current: usize,
    pub line: usize,
    pub error_msg: Vec<char>,
}

impl Scanner {
    /// Basic sanity of the cursor: the line count never exceeds the
    /// position, which never exceeds the source length.
    pub open spec fn wf(&self) -> bool {
        self.line <= self.current && self.current <= self.source@.len()
    }

    pub fn new(source: Vec<char>) -> (s: Scanner)
        ensures
            s.wf(),
            s.source@ == source@,
            s.start == 0,
            s.current == 0,
            s.line == 0,
            s.error_msg@ == Seq::<char>::empty(),
    {
        Scanner { source, start: 0, current: 0, line: 0, error_msg: Vec::new() }
    }

    /// Build a token for the lexeme between `start` and `current`.
    fn make_token(&self, t: TokenType) -> (tok: Token)
        requires
            self.start <= self.current,
        ensures
            tok == (Token {
                tokentype: t,
                start: self.start,
                length: (self.current - self.start) as usize,
                line: self.line,
            }),
    {
        Token { tokentype: t, start: self.start, length: self.current - self.start, line: self.line }
    }

    fn at_end(&self) -> (r: bool)
        ensures
            r == (self.current >= self.source@.len()),
    {
        self.current >= self.source.len()
    }

    /// Consume and return the character under the cursor.
    fn advance(&mut self) -> (c: char)
        requires
            old(self).current < old(self).source@.len(),
        ensures
            final(self).current == old(self).current + 1,
            c == old(self).source@[old(self).current as int],
            final(self).source == old(self).source,
            final(self).start == old(self).start,
            final(self).line == old(self).line,
            final(self).error_msg == old(self).error_msg,
    {
        let n = self.source.len();
        let c = self.source[self.current];
        self.current += 1;
        c
    }

    /// Consume the next character iff it equals `expected`.
    fn token_match(&mut self, expected: char) -> (r: bool)
        ensures
            r == (old(self).current < old(self).source@.len() && old(self).source@[old(
                self,
            ).current as int] == expected),
            final(self).current == if r {
                old(self).current + 1
            } else {
                old(self).current as int
            },
            final(self).source == old(self).source,
            final(self).start == old(self).start,
            final(self).line == old(self).line,
            final(self).error_msg == old(self).error_msg,
    {
        let n = self.source.len();
        if self.at_end() {
            return false;
        }
        if self.source[self.current] != expected {
            return false;
        }
        self.current += 1;
        true
    }

    /// The character under the cursor, or the null character at the end.
    fn peek(&self) -> (c: char)
        ensures
            c == if self.current < self.source@.len() {
                self.source@[self.current as int]
            } else {
                '\0'
            },
    {
        if self.at_end() {
            return '\0';
        }
        self.source[self.current]
    }

    /// The character one past the cursor, or the null character.
    fn peek_next(&self) -> (c: char)
        ensures
            c == if self.current + 1 < self.source@.len() {
                self.source@[self.current + 1]
            } else {
                '\0'
            },
    {
        let n = self.source.len();
        if n == 0 || self.current >= n - 1 {
            return '\0';
        }
        self.source[self.current + 1]
    }

    fn is_digit(&self, c: char) -> (r: bool)
        ensures
            r == is_digit_char(c),
    {
        c >= '0' && c <= '9'
    }

    fn is_alpha(&self, c: char) -> (r: bool)
        ensures
            r == is_alpha_char(c),
    {
        (c >= 'a' && c <= 'z') || (c >= 'A' && c <= 'Z') || c == '_'
    }

    fn is_alphanumeric(&self, c: char) -> (r: bool)
        ensures
            r == is_alnum_char(c),
    {
        self.is_alpha(c) || self.is_digit(c)
    }

    /// Scan the rest of a number lexeme whose first digit was consumed.
    fn number(&mut self) -> (tok: Token)
        requires
            old(self).start <= old(self).current,
            old(self).current <= old(self).source@.len(),
        ensures
            final(self).current == number_end(old(self).source@, old(self).current as int),
            old(self).current <= final(self).current <= old(self).source@.len(),
            final(self).source == old(self).source,
            final(self).start == old(self).start,
            final(self).line == old(self).line,
            final(self).error_msg == old(self).error_msg,
            tok == (Token {
                tokentype: TokenType::Number,
                start: final(self).start,
                length: (final(self).current - final(self).start) as usize,
                line: final(self).line,
            }),
    {
        while self.current < self.source.len() && self.source[self.current] >= '0'
            && self.source[self.current] <= '9'
            invariant
                old(self).start <= old(self).current,
                old(self).current <= self.current <= self.source@.len(),
                skip_digits(self.source@, self.current as int) == skip_digits(
                    old(self).source@,
                    old(self).current as int,
                ),
                self.source == old(self).source,
                self.start == old(self).start,
                self.line == old(self).line,
                self.error_msg == old(self).error_msg,
            decreases self.source@.len() - self.current,
        {
            self.current += 1;
        }
        proof {
            assert(skip_digits(self.source@, self.current as int) == self.current as int);
        }
        let j = self.current;
        if self.peek() == '.' && self.is_digit(self.peek_next()) {
            self.current += 1;
            while self.current < self.source.len() && self.source[self.current] >= '0'
                && self.source[self.current] <= '9'
                invariant
                    old(self).start <= old(self).current,
                    j + 1 <= self.current <= self.source@.len(),
                    skip_digits(self.source@, self.current as int) == skip_digits(
                        old(self).source@,
                        j + 1,
                    ),
                    self.source == old(self).source,
                    self.start == old(self).start,
                    self.line == old(self).line,
                    self.error_msg == old(self).error_msg,
                decreases self.source@.len() - self.current,
            {
                self.current += 1;
            }
            proof {
                assert(skip_digits(self.source@, self.current as int) == self.current as int);
            }
        }
        self.make_token(TokenType::Number)
    }

    /// Scan the rest of an identifier whose first character was consumed,
    /// then look the lexeme up in the keyword table.
    fn identifier(&mut self) -> (tok: Token)
        requires
            old(self).start <= old(self).current,
            old(self).current <= old(self).source@.len(),
        ensures
            final(self).current == skip_alnum(old(self).source@, old(self).current as int),
            old(self).current <= final(self).current <= old(self).source@.len(),
            final(self).source == old(self).source,
            final(self).start == old(self).start,
            final(self).line == old(self).line,
            final(self).error_msg == old(self).error_msg,
            tok == (Token {
                tokentype: keyword_or_ident(
                    old(self).source@.subrange(old(self).start as int, final(self).current as int),
                ),
                start: final(self).start,
                length: (final(self).current - final(self).start) as usize,
                line: final(self).line,
            }),
    {
        while self.current < self.source.len() && ((self.source[self.current] >= 'a'
            && self.source[self.current] <= 'z') || (self.source[self.current] >= 'A'
            && self.source[self.current] <= 'Z') || self.source[self.current] == '_' || (
        self.source[self.current] >= '0' && self.source[self.current] <= '9'))
            invariant
                old(self).start <= old(self).current,
                old(self).current <= self.current <= self.source@.len(),
                skip_alnum(self.source@, self.current as int) == skip_alnum(
                    old(self).source@,
                    old(self).current as int,
                ),
                self.source == old(self).source,
                self.start == old(self).start,
                self.line == old(self).line,
                self.error_msg == old(self).error_msg,
            decreases self.source@.len() - self.current,
        {
            self.current += 1;
        }
        proof {
            assert(skip_alnum(self.source@, self.current as int) == self.current as int);
        }
        let kind = keyword_kind(&self.source, self.start, self.current);
        self.make_token(kind)
    }

    /// Scan a string literal whose opening quote was consumed.
    fn read_string(&mut self) -> (tok: Token)
        requires
            old(self).start <= old(self).current,
            old(self).line <= old(self).current,
            old(self).current <= old(self).source@.len(),
        ensures
            ({
                let (stop, line2) = string_scan(
                    old(self).source@,
                    old(self).current as int,
                    old(self).line as int,
                );
                &&& final(self).line == line2
                &&& final(self).source == old(self).source
                &&& final(self).start == old(self).start
                &&& old(self).current <= final(self).current <= old(self).source@.len()
                &&& if stop >= old(self).source@.len() {
                    final(self).current == stop && final(self).error_msg@.len() > 0 && tok == (Token {
                        tokentype: TokenType::Error,
                        start: final(self).start,
                        length: (final(self).current - final(self).start) as usize,
                        line: final(self).line,
                    })
                } else {
                    final(self).current == stop + 1 && final(self).error_msg == old(self).error_msg
                        && tok == (Token {
                        tokentype: TokenType::String,
                        start: final(self).start,
                        length: (final(self).current - final(self).start) as usize,
                        line: final(self).line,
                    })
                }
            }),
            final(self).line <= final(self).current,
    {
        while self.current < self.source.len() && self.source[self.current] != '"'
            invariant
                old(self).start <= old(self).current,
                old(self).current <= self.current <= self.source@.len(),
                self.line <= self.current,
                string_scan(self.source@, self.current as int, self.line as int) == string_scan(
                    old(self).source@,
                    old(self).current as int,
                    old(self).line as int,
                ),
                self.source == old(self).source,
                self.start == old(self).start,
                self.error_msg == old(self).error_msg,
            decreases self.source@.len() - self.current,
        {
            if self.source[self.current] == '\n' {
                self.line += 1;
            }
            self.current += 1;
        }
        proof {
            assert(string_scan(self.source@, self.current as int, self.line as int) == (
            self.current as int,
            self.line as int,
            ));
        }
        if self.current >= self.source.len() {
            self.error_msg = vec!['u', 'n', 't', 'e', 'r', 'm', 'i', 'n', 'a', 't', 'e', 'd', ' ', 's', 't', 'r', 'i', 'n', 'g'];
            return self.make_token(TokenType::Error);
        }
        self.current += 1;
        self.make_token(TokenType::String)
    }

    /// Produce the next token.
    pub fn scan_token(&mut self) -> (tok: Token)
        requires
            old(self).wf(),
        ensures
            final(self).wf(),
            final(self).source == old(self).source,
            ({
                let o = spec_scan(old(self).source@, old(self).current as int, old(self).line as int);
                &&& final(self).current == o.end
                &&& final(self).line == o.line
                &&& final(self).start == old(self).current
                &&& old(self).current <= o.end <= old(self).source@.len() || (o.kind
                    == TokenType::Eof && o.end == old(self).current)
                &&& tok == (Token {
                    tokentype: o.kind,
                    start: old(self).current,
                    length: (o.end - old(self).current) as usize,
                    line: o.line as usize,
                })
                &&& o.kind == TokenType::Error ==> final(self).error_msg@.len() > 0
                &&& o.kind != TokenType::Error ==> final(self).error_msg == old(self).error_msg
            }),
    {
        self.start = self.current;

        if self.at_end() {
            return self.make_token(TokenType::Eof);
        }
        let c = self.advance();
        match c {
            '(' => self.make_token(TokenType::LeftParen),
            ')' => self.make_token(TokenType::RightParen),
            '{' => self.make_token(TokenType::LeftBrace),
            '}' => self.make_token(TokenType::RightBrace),
            ',' => self.make_token(TokenType::Comma),
            '.' => self.make_token(TokenType::Dot),
            '-' => self.make_token(TokenType::Minus),
            '+' => self.make_token(TokenType::Plus),
            ';' => self.make_token(TokenType::SemiColon),
            '*' => self.make_token(TokenType::Star),
            '!' => {
                if self.token_match('=') {
                    self.make_token(TokenType::BangEqual)
                } else {
                    self.make_token(TokenType::Bang)
                }
            },
            '=' => {
                if self.token_match('=') {
                    self.make_token(TokenType::EqualEqual)
                } else {
                    self.make_token(TokenType::Equal)
                }
            },
            '<' => {
                if self.token_match('=') {
                    self.make_token(TokenType::LessEqual)
                } else {
                    self.make_token(TokenType::Less)
                }
            },
            '>' => {
                if self.token_match('=') {
                    self.make_token(TokenType::GreaterEqual)
                } else {
                    self.make_token(TokenType::Greater)
                }
            },
            '/' => {
                if self.token_match('/') {
                    while self.current < self.source.len() && self.source[self.current] != '\n'
                        invariant
                            old(self).current + 2 <= self.current <= self.source@.len(),
                            comment_end(self.source@, self.current as int) == comment_end(
                                old(self).source@,
                                old(self).current + 2,
                            ),
                            self.source == old(self).source,
                            self.line == old(self).line,
                            self.error_msg == old(self).error_msg,
                            self.start == old(self).current,
                        decreases self.source@.len() - self.current,
                    {
                        self.current += 1;
                    }
                    proof {
                        assert(comment_end(self.source@, self.current as int)
                            == self.current as int);
                    }
                    self.make_token(TokenType::WhiteSpace)
                } else {
                    self.make_token(TokenType::Slash)
                }
            },
            ' ' | '\r' | '\t' => self.make_token(TokenType::WhiteSpace),
            '\n' => {
                self.line += 1;
                self.make_token(TokenType::NewLine)
            },
            '"' => self.read_string(),
            _ => {
                if self.is_digit(c) {
                    self.number()
                } else if self.is_alpha(c) {
                    self.identifier()
                } else {
                    self.error_msg = vec!['u', 'n', 'e', 'x', 'p', 'e', 'c', 't', 'e', 'd', ' ', 'c', 'h', 'a', 'r', 'a', 'c', 't', 'e', 'r'];
                    self.make_token(TokenType::Error)
                }
            },
        }
    }
}

/// Look an identifier lexeme up in the keyword table.
fn keyword_kind(src: &Vec<char>, start: usize, end: usize) -> (r: TokenType)
    requires
        start <= end <= src@.len(),
    ensures
        r == keyword_or_ident(src@.subrange(start as int, end as int)),
{
    let ghost lex = src@.subrange(start as int, end as int);
    proof {
        assert(lex.len() == end - start);
    }
    let len = end - start;
    if len == 2 {
        if src[start] == 'i' && src[start + 1] == 'f' {
            proof {
                assert(lex =~= seq!['i', 'f']);
            }
            return TokenType::If;
        }
        if src[start] == 'o' && src[start + 1] == 'r' {
            proof {
                assert(lex =~= seq!['o', 'r']);
            }
            return TokenType::Or;
        }
        return TokenType::Identifier;
    }
    if len == 3 {
        if src[start] == 'a' && src[start + 1] == 'n' && src[start + 2] == 'd' {
            proof {
                assert(lex =~= seq!['a', 'n', 'd']);
            }
            return TokenType::And;
        }
        if src[start] == 'f' && src[start + 1] == 'o' && src[start + 2] == 'r' {
            proof {
                assert(lex =~= seq!['f', 'o', 'r']);
            }
            return TokenType::For;
        }
        if src[start] == 'n' && src[start + 1] == 'i' && src[start + 2] == 'l' {
            proof {
                assert(lex =~= seq!['n', 'i', 'l']);
            }
            return TokenType::Nil;
        }
        if src[start] == 'v' && src[start + 1] == 'a' && src[start + 2] == 'r' {
            proof {
                assert(lex =~= seq!['v', 'a', 'r']);
            }
            return TokenType::Var;
        }
        return TokenType::Identifier;
    }
    if len == 4 {
        if src[start] == 'e' && src[start + 1] == 'l' && src[start + 2] == 's' && src[start + 3]
            == 'e' {
            proof {
                assert(lex =~= seq!['e', 'l', 's', 'e']);
            }
            return TokenType::Else;
        }
        if src[start] == 't' && src[start + 1] == 'h' && src[start + 2] == 'i' && src[start + 3]
            == 's' {
            proof {
                assert(lex =~= seq!['t', 'h', 'i', 's']);
            }
            return TokenType::This;
        }
        if src[start] == 't' && src[start + 1] == 'r' && src[start + 2] == 'u' && src[start + 3]
            == 'e' {
            proof {
                assert(lex =~= seq!['t', 'r', 'u', 'e']);
            }
            return TokenType::True;
        }
        return TokenType::Identifier;
    }
    if len == 5 {
        if src[start] == 'c' && src[start + 1] == 'l' && src[start + 2] == 'a' && src[start + 3]
            == 's' && src[start + 4] == 's' {
            proof {
                assert(lex =~= seq!['c', 'l', 'a', 's', 's']);
            }
            return TokenType::Class;
        }
        if src[start] == 'f' && src[start + 1] == 'a' && src[start + 2] == 'l' && src[start + 3]
            == 's' && src[start + 4] == 'e' {
            proof {
                assert(lex =~= seq!['f', 'a', 'l', 's', 'e']);
            }
            return TokenType::False;
        }
        if src[start] == 'p' && src[start + 1] == 'r' && src[start + 2] == 'i' && src[start + 3]
            == 'n' && src[start + 4] == 't' {
            proof {
                assert(lex =~= seq!['p', 'r', 'i', 'n', 't']);
            }
            return TokenType::Print;
        }
        if src[start] == 's' && src[start + 1] == 'u' && src[start + 2] == 'p' && src[start + 3]
            == 'e' && src[start + 4] == 'r' {
            proof {
                assert(lex =~= seq!['s', 'u', 'p', 'e', 'r']);
            }
            return TokenType::Super;
        }
        if src[start] == 'w' && src[start + 1] == 'h' && src[start + 2] == 'i' && src[start + 3]
            == 'l' && src[start + 4] == 'e' {
            proof {
                assert(lex =~= seq!['w', 'h', 'i', 'l', 'e']);
            }
            return TokenType::While;
        }
        return TokenType::Identifier;
    }
    if len == 6 {
        if src[start] == 'r' && src[start + 1] == 'e' && src[start + 2] == 't' && src[start + 3]
            == 'u' && src[start + 4] == 'r' && src[start + 5] == 'n' {
            proof {
                assert(lex =~= seq!['r', 'e', 't', 'u', 'r', 'n']);
            }
            return TokenType::Return;
        }
        return TokenType::Identifier;
    }
    if len == 8 {
        if src[start] == 'f' && src[start + 1] == 'u' && src[start + 2] == 'n' && src[start + 3]
            == 'c' && src[start + 4] == 't' && src[start + 5] == 'i' && src[start + 6] == 'o'
            && src[start + 7] == 'n' {
            proof {
                assert(lex =~= seq!['f', 'u', 'n', 'c', 't', 'i', 'o', 'n']);
            }
            return TokenType::Fun;
        }
        return TokenType::Identifier;
    }
    TokenType::Identifier
}

} // verus!
