use vstd::prelude::*;
use crate::memoryslice::MemorySlice;
use crate::numbers::{is_number_lexeme, parse_number};
use crate::opcodes::{word_of, OpCode, PANIC_WORD};
use crate::scanner::Scanner;
use crate::token::{Token, TokenType};
use crate::values::{chars_eq, Object, ObjectV, Value, ValueV};

verus! {

/// Binding power of an operator, lowest to highest.
#[derive(Debug, Clone, Copy, PartialEq, Eq, Structural)]
pub enum Precedence {
    Lowest,
    Assignment,
    Or,
    And,
    Equality,
    Comparison,
    Term,
    Factor,
    Unary,
    Call,
    Primary,
}

/// The numeric binding power of a precedence level.
pub open spec fn prec_of(p: Precedence) -> u16 {
    match p {
        Precedence::Lowest => 0,
        Precedence::Assignment => 1,
        Precedence::Or => 2,
        Precedence::And => 3,
        Precedence::Equality => 4,
        Precedence::Comparison => 5,
        Precedence::Term => 6,
        Precedence::Factor => 7,
        Precedence::Unary => 8,
        Precedence::Call => 9,
        Precedence::Primary => 10,
    }
}


/// The infix binding power of each token kind.
pub open spec fn rule_of(t: TokenType) -> Precedence {
    match t {
        TokenType::Minus => Precedence::Term,
        TokenType::Plus => Precedence::Term,
        TokenType::Slash => Precedence::Factor,
        TokenType::Star => Precedence::Factor,
        TokenType::BangEqual => Precedence::Equality,
        TokenType::EqualEqual => Precedence::Equality,
        TokenType::Greater => Precedence::Comparison,
        TokenType::GreaterEqual => Precedence::Comparison,
        TokenType::Less => Precedence::Comparison,
        TokenType::LessEqual => Precedence::Comparison,
        TokenType::And => Precedence::And,
        TokenType::Or => Precedence::Or,
        TokenType::LeftParen => Precedence::Call,
        _ => Precedence::Lowest,
    }
}

impl Precedence {
    /// The numeric binding power of this level.
    pub fn repr(&self) -> (r: u16)
        ensures
            r == prec_of(*self),
    {
        match *self {
            Precedence::Lowest => 0,
            Precedence::Assignment => 1,
            Precedence::Or => 2,
            Precedence::And => 3,
            Precedence::Equality => 4,
            Precedence::Comparison => 5,
            Precedence::Term => 6,
            Precedence::Factor => 7,
            Precedence::Unary => 8,
            Precedence::Call => 9,
            Precedence::Primary => 10,
        }
    }
}

/// A failure that stops compilation.
#[derive(Debug, Clone, Copy, PartialEq, Eq, Structural)]
pub enum CompileError {
    /// The token under the cursor is not the one the grammar demands.
    UnexpectedToken,
    /// An expression was required but the token cannot begin one.
    ExpectedExpression,
    /// An `=` follows an expression that is not an assignment target.
    InvalidAssignment,
    /// A `return` outside of any function body.
    ReturnOutsideFunction,
    /// The constant pool cannot grow beyond 16-bit ids.
    TooManyConstants,
    /// A jump spans more code than a 16-bit distance can express.
    CodeTooFar,
    /// A number lexeme is malformed.
    BadNumberLiteral,
    /// A call carries more arguments than a 16-bit count can express.
    TooManyArguments,
    /// Scopes or calls are nested beyond any workable depth.
    NestingTooDeep,
}

/// The text a token names, sliced out of the source.
pub open spec fn lexeme_of(src: Seq<char>, t: Token) -> Seq<char> {
    src.subrange(t.start as int, t.start + t.length)
}

/// Whether `v` is a function descriptor with the given name, body
/// address and arity.
pub open spec fn is_descriptor(v: ValueV, name: Seq<char>, address: int, arity: int) -> bool {
    match v {
        ValueV::Object(ObjectV::Function { name: n, address: ad, arity: ar }) => n == name && ad
            == address && ar == arity,
        _ => false,
    }
}

/// The upcoming input is as simple a statement as there is: a literal
/// under the cursor with a semicolon as the next kept token.
pub open spec fn literal_statement_ahead(c: &Compiler) -> bool {
    &&& (c.current.tokentype == TokenType::Nil || c.current.tokentype == TokenType::True
        || c.current.tokentype == TokenType::False)
    &&& skip_trivia(c.tokens@, c.pos as int) < c.tokens@.len()
    &&& c.tokens@[skip_trivia(c.tokens@, c.pos as int)].tokentype == TokenType::SemiColon
}

/// The upcoming tokens form the simplest function header there is: a
/// name and an empty parameter list, with room in the pool and the
/// code for what the header emits.
pub open spec fn empty_header_ahead(c: &Compiler) -> bool {
    let k1 = skip_trivia(c.tokens@, c.pos as int);
    let k2 = skip_trivia(c.tokens@, k1 + 1);
    &&& c.current.tokentype == TokenType::Identifier
    &&& k1 < c.tokens@.len() && c.tokens@[k1].tokentype == TokenType::LeftParen
    &&& k2 < c.tokens@.len() && c.tokens@[k2].tokentype == TokenType::RightParen
    &&& c.memory.consts().len() + 1 <= 65535
    &&& c.memory.code().len() + 6 <= usize::MAX
    &&& c.scope_depth < usize::MAX
}

/// The upcoming tokens form the simplest `for` there is: empty
/// initializer, condition and step clauses, a literal statement as the
/// body, and room to open one more scope.
pub open spec fn empty_for_ahead(c: &Compiler) -> bool {
    let k1 = skip_trivia(c.tokens@, c.pos as int);
    let k2 = skip_trivia(c.tokens@, k1 + 1);
    let k3 = skip_trivia(c.tokens@, k2 + 1);
    let k4 = skip_trivia(c.tokens@, k3 + 1);
    let k5 = skip_trivia(c.tokens@, k4 + 1);
    &&& c.current.tokentype == TokenType::LeftParen
    &&& k1 < c.tokens@.len() && c.tokens@[k1].tokentype == TokenType::SemiColon
    &&& k2 < c.tokens@.len() && c.tokens@[k2].tokentype == TokenType::SemiColon
    &&& k3 < c.tokens@.len() && c.tokens@[k3].tokentype == TokenType::RightParen
    &&& k4 < c.tokens@.len() && (c.tokens@[k4].tokentype == TokenType::Nil || c.tokens@[k4].tokentype
        == TokenType::True || c.tokens@[k4].tokentype == TokenType::False)
    &&& k5 < c.tokens@.len() && c.tokens@[k5].tokentype == TokenType::SemiColon
    &&& c.scope_depth < usize::MAX
}

/// The previous token's name matches no recorded local.
pub open spec fn no_local_match(c: &Compiler) -> bool {
    forall|j: int|
        0 <= j < c.locals@.len() ==> lexeme_of(c.source@, #[trigger] c.locals@[j].name)
            != lexeme_of(c.source@, c.previous)
}

/// The previous token's name resolves to local slot `i`: the latest
/// recorded local with a matching lexeme.
pub open spec fn resolves_to_local(c: &Compiler, i: int) -> bool {
    &&& 0 <= i < c.locals@.len()
    &&& lexeme_of(c.source@, c.locals@[i].name) == lexeme_of(c.source@, c.previous)
    &&& forall|j: int|
        i < j < c.locals@.len() ==> lexeme_of(c.source@, #[trigger] c.locals@[j].name)
            != lexeme_of(c.source@, c.previous)
}

/// Whether the parser skips a token without making it current:
/// whitespace, a newline, or a scan error.
pub open spec fn is_trivia(t: Token) -> bool {
    t.tokentype == TokenType::WhiteSpace || t.tokentype == TokenType::NewLine || t.tokentype
        == TokenType::Error
}

/// The first position at or after `i` holding a token the parser keeps.
pub open spec fn skip_trivia(tokens: Seq<Token>, i: int) -> int
    decreases tokens.len() - i,
{
    if i < tokens.len() && is_trivia(tokens[i]) {
        skip_trivia(tokens, i + 1)
    } else {
        i
    }
}

/// Trivia skipping stays within the stream and never moves backwards.
pub proof fn lemma_skip_trivia_bounds(tokens: Seq<Token>, i: int)
    requires
        0 <= i <= tokens.len(),
    ensures
        i <= skip_trivia(tokens, i) <= tokens.len(),
    decreases tokens.len() - i,
{
    if i < tokens.len() && is_trivia(tokens[i]) {
        lemma_skip_trivia_bounds(tokens, i + 1);
    }
}

/// From inside the stream, trivia skipping stops at or before the last
/// token when that token is kept by the parser.
pub proof fn lemma_skip_trivia_stops(tokens: Seq<Token>, i: int)
    requires
        0 <= i < tokens.len(),
        !is_trivia(tokens.last()),
    ensures
        skip_trivia(tokens, i) < tokens.len(),
    decreases tokens.len() - i,
{
    if is_trivia(tokens[i]) {
        lemma_skip_trivia_stops(tokens, i + 1);
    }
}

/// How many newline tokens lie in `tokens[i..j)`.
pub open spec fn newline_count(tokens: Seq<Token>, i: int, j: int) -> int
    decreases j - i,
{
    if i >= j {
        0
    } else {
        newline_count(tokens, i, j - 1) + if tokens[j - 1].tokentype == TokenType::NewLine {
            1int
        } else {
            0int
        }
    }
}

/// Whether a scan-error token lies in `tokens[i..j)`.
pub open spec fn error_in(tokens: Seq<Token>, i: int, j: int) -> bool
    decreases j - i,
{
    if i >= j {
        false
    } else {
        error_in(tokens, i, j - 1) || tokens[j - 1].tokentype == TokenType::Error
    }
}

/// A compile-time record of one local variable.
#[derive(Debug, Clone, Copy, PartialEq, Eq, Structural)]
pub struct Local {
    pub name: Token,
    pub depth: usize,
    pub func_depth: usize,
}

/// The single-pass compiler: it tokenizes the source, then parses by
/// precedence climbing, emitting bytecode into its chunk as it goes.
pub struct Compiler {
    pub current: Token,
    pub previous: Token,
    pub has_error: bool,
    pub source: Vec<char>,
    pub memory: MemorySlice,
    pub scanner: Scanner,
    pub tokens: Vec<Token>,
    pub pos: usize,
    pub locals: Vec<Local>,
    pub scope_depth: usize,
    pub func_returns: usize,
}

impl Compiler {
    /// Sanity of the token stream and cursor: the stream ends with its
    /// only `Eof` token, the cursor stays in range and parks at the end
    /// exactly when the current token is `Eof`, and every token's lexeme
    /// lies inside the source.
    pub open spec fn pwf(&self) -> bool {
        &&& self.tokens@.len() >= 1
        &&& self.tokens@.last().tokentype == TokenType::Eof
        &&& forall|i: int|
            0 <= i < self.tokens@.len() - 1 ==> (#[trigger] self.tokens@[i].tokentype)
                != TokenType::Eof
        &&& self.pos <= self.tokens@.len()
        &&& (self.current.tokentype != TokenType::Eof ==> self.pos < self.tokens@.len())
        &&& forall|i: int|
            0 <= i < self.tokens@.len() ==> (#[trigger] self.tokens@[i].start)
                + self.tokens@[i].length <= self.source@.len()
        &&& self.previous.start + self.previous.length <= self.source@.len()
        &&& self.current.start + self.current.length <= self.source@.len()
    }

    /// Well-formedness during parsing: the token stream is sane, the
    /// chunk keeps its invariant, and every recorded local names a
    /// lexeme inside the source.
    pub open spec fn cwf(&self) -> bool {
        &&& self.pwf()
        &&& self.memory.inv()
        &&& forall|i: int|
            0 <= i < self.locals@.len() ==> (#[trigger] self.locals@[i].name.start)
                + self.locals@[i].name.length <= self.source@.len()
    }

    /// What every parsing step preserves, on success and failure alike:
    /// the token stream and source are untouched, the cursor only moves
    /// forward, and the code only grows.  Scope bookkeeping and pending
    /// patches are restored only on success; a failed parse abandons
    /// them, and compilation stops.
    pub open spec fn parse_frame(a: &Compiler, b: &Compiler) -> bool {
        &&& b.tokens@ == a.tokens@
        &&& b.source@ == a.source@
        &&& b.pos >= a.pos
        &&& b.memory.code().len() >= a.memory.code().len()
    }

    /// Emission is append-only up to patching: a word that already
    /// stood in the code changes only when its offset was a pending
    /// forward-jump placeholder at entry and stands resolved at exit,
    /// and every newly pending placeholder lies in the newly emitted
    /// code.  Together with a restored pending set this pins the whole
    /// prefix: nothing a caller emitted earlier moves under it.
    pub open spec fn code_frame(a: &Compiler, b: &Compiler) -> bool {
        &&& forall|i: int|
            0 <= i < a.memory.code().len() && (#[trigger] b.memory.code()[i])
                != a.memory.code()[i] ==> a.memory.spec_pending().contains(i)
                && !b.memory.spec_pending().contains(i)
        &&& forall|p: int|
            #[trigger] b.memory.spec_pending().contains(p)
                && !a.memory.spec_pending().contains(p) ==> p >= a.memory.code().len()
    }

    /// The emission frame composes across successive parsing steps.
    pub proof fn lemma_code_frame_trans(a: &Compiler, b: &Compiler, c: &Compiler)
        requires
            Self::code_frame(a, b),
            Self::code_frame(b, c),
            a.memory.code().len() <= b.memory.code().len(),
        ensures
            Self::code_frame(a, c),
    {
        assert forall|i: int|
            0 <= i < a.memory.code().len() && (#[trigger] c.memory.code()[i])
                != a.memory.code()[i] implies a.memory.spec_pending().contains(i)
            && !c.memory.spec_pending().contains(i) by {
            if b.memory.code()[i] == a.memory.code()[i] {
                assert(b.memory.spec_pending().contains(i));
                if !a.memory.spec_pending().contains(i) {
                    assert(i >= a.memory.code().len());
                }
            } else {
                if c.memory.spec_pending().contains(i) {
                    assert(i >= b.memory.code().len());
                }
            }
        }
        assert forall|p: int|
            #[trigger] c.memory.spec_pending().contains(p)
                && !a.memory.spec_pending().contains(p) implies p >= a.memory.code().len() by {
            if !b.memory.spec_pending().contains(p) {
                assert(p >= b.memory.code().len());
            }
        }
    }

    /// With the pending set restored, the emission frame pins every word
    /// that already stood in the code.
    pub proof fn lemma_prefix_stable(a: &Compiler, b: &Compiler)
        requires
            Self::code_frame(a, b),
            b.memory.spec_pending() == a.memory.spec_pending(),
        ensures
            forall|i: int|
                0 <= i < a.memory.code().len() ==> #[trigger] b.memory.code()[i]
                    == a.memory.code()[i],
    {
        assert forall|i: int|
            0 <= i < a.memory.code().len() implies #[trigger] b.memory.code()[i]
            == a.memory.code()[i] by {
            if b.memory.code()[i] != a.memory.code()[i] {
                assert(a.memory.spec_pending().contains(i));
                assert(!b.memory.spec_pending().contains(i));
            }
        }
    }

    pub fn new(source: Vec<char>, memory: MemorySlice, scanner: Scanner) -> (c: Compiler)
        requires
            memory.inv(),
            memory.spec_pending() == Set::<int>::empty(),
            scanner.wf(),
            scanner.source@ == source@,
            scanner.current == 0,
        ensures
            c.cwf_start(),
            c.memory == memory,
            c.scanner == scanner,
            c.source@ == source@,
            c.has_error == false,
    {
        Compiler {
            current: Token { tokentype: TokenType::Nil, start: 0, length: 0, line: 0 },
            previous: Token { tokentype: TokenType::Nil, start: 0, length: 0, line: 0 },
            has_error: false,
            source,
            memory,
            scanner,
            tokens: Vec::new(),
            pos: 0,
            locals: Vec::new(),
            scope_depth: 0,
            func_returns: 0,
        }
    }

    /// Step past trivia to the next meaningful token: whitespace is
    /// skipped, a newline records a line end in the chunk, a scan error
    /// raises the error flag, and anything else becomes the current
    /// token.
    pub fn advance(&mut self)
        requires
            old(self).cwf(),
        ensures
            final(self).cwf(),
            final(self).tokens@ == old(self).tokens@,
            final(self).source@ == old(self).source@,
            final(self).pos >= old(self).pos,
            old(self).current.tokentype != TokenType::Eof ==> final(self).pos > old(self).pos,
            final(self).previous == old(self).current,
            final(self).scope_depth == old(self).scope_depth,
            final(self).func_returns == old(self).func_returns,
            final(self).locals@ == old(self).locals@,
            final(self).memory.code() == old(self).memory.code(),
            final(self).memory.consts() == old(self).memory.consts(),
            final(self).memory.spec_jumps() == old(self).memory.spec_jumps(),
            final(self).memory.spec_pending() == old(self).memory.spec_pending(),
            final(self).memory.spec_consts_at() == old(self).memory.spec_consts_at(),
            ({
                let k = skip_trivia(old(self).tokens@, old(self).pos as int);
                &&& (k < old(self).tokens@.len() ==> final(self).pos == k + 1 && final(self).current == old(self).tokens@[k])
                &&& (k >= old(self).tokens@.len() ==> final(self).pos == old(self).pos && final(self).current == old(self).current)
                &&& final(self).has_error == (old(self).has_error || error_in(
                    old(self).tokens@,
                    old(self).pos as int,
                    k,
                ))
                &&& (old(self).memory.code().len() == 0 ==> final(self).memory.line_marks() == old(self).memory.line_marks())
                &&& (old(self).memory.code().len() > 0 ==> final(self).memory.line_marks().len()
                    == old(self).memory.line_marks().len() + newline_count(
                    old(self).tokens@,
                    old(self).pos as int,
                    k,
                ) && forall|q: int|
                    old(self).memory.line_marks().len() <= q < final(self).memory.line_marks().len() ==> (#[trigger] final(self).memory.line_marks()[q]
                        as int) == old(self).memory.code().len() - 1)
                &&& final(self).memory.line_marks().len() >= old(self).memory.line_marks().len()
                &&& forall|q: int|
                    0 <= q < old(self).memory.line_marks().len() ==> #[trigger] final(self).memory.line_marks()[q] == old(self).memory.line_marks()[q]
            }),
    {
        self.previous = self.current;
        let ghost k = skip_trivia(old(self).tokens@, old(self).pos as int);
        let csize = self.memory.get_memory_size();
        proof {
            lemma_skip_trivia_bounds(self.tokens@, self.pos as int);
            if self.pos < self.tokens@.len() {
                lemma_skip_trivia_stops(self.tokens@, self.pos as int);
            }
        }
        loop
            invariant
                self.cwf(),
                self.tokens@ == old(self).tokens@,
                self.source@ == old(self).source@,
                self.pos >= old(self).pos,
                old(self).current.tokentype != TokenType::Eof ==> self.pos > old(self).pos
                    || self.pos < self.tokens@.len(),
                self.previous == old(self).current,
                self.scope_depth == old(self).scope_depth,
                self.func_returns == old(self).func_returns,
                self.locals@ == old(self).locals@,
                self.current == old(self).current,
                self.memory.code() == old(self).memory.code(),
                self.memory.consts() == old(self).memory.consts(),
                self.memory.spec_jumps() == old(self).memory.spec_jumps(),
                self.memory.spec_pending() == old(self).memory.spec_pending(),
                self.memory.spec_consts_at() == old(self).memory.spec_consts_at(),
                k == skip_trivia(old(self).tokens@, old(self).pos as int),
                k == skip_trivia(self.tokens@, self.pos as int),
                self.pos <= k,
                k <= self.tokens@.len(),
                old(self).pos < self.tokens@.len() ==> k < self.tokens@.len(),
                old(self).memory.code().len() == csize,
                self.has_error == (old(self).has_error || error_in(
                    self.tokens@,
                    old(self).pos as int,
                    self.pos as int,
                )),
                old(self).memory.code().len() == 0 ==> self.memory.line_marks() == old(self).memory.line_marks(),
                old(self).memory.code().len() > 0 ==> self.memory.line_marks().len() == old(self).memory.line_marks().len() + newline_count(
                    self.tokens@,
                    old(self).pos as int,
                    self.pos as int,
                ),
                forall|q: int|
                    old(self).memory.line_marks().len() <= q < self.memory.line_marks().len()
                        ==> (#[trigger] self.memory.line_marks()[q] as int) == old(self).memory.code().len() - 1,
                self.memory.line_marks().len() >= old(self).memory.line_marks().len(),
                forall|q: int|
                    0 <= q < old(self).memory.line_marks().len() ==> #[trigger] self.memory.line_marks()[q]
                        == old(self).memory.line_marks()[q],
            decreases self.tokens@.len() - self.pos,
        {
            if self.pos >= self.tokens.len() {
                return ;
            }
            let t = self.tokens[self.pos];
            self.pos = self.pos + 1;
            match t.tokentype {
                TokenType::NewLine => {
                    proof {
                        lemma_skip_trivia_bounds(self.tokens@, self.pos as int);
                    }
                    self.memory.line_end();
                },
                TokenType::WhiteSpace => {
                    proof {
                        lemma_skip_trivia_bounds(self.tokens@, self.pos as int);
                    }
                },
                TokenType::Error => {
                    proof {
                        lemma_skip_trivia_bounds(self.tokens@, self.pos as int);
                    }
                    self.has_error = true;
                },
                _ => {
                    self.current = t;
                    return ;
                },
            }
        }
    }

    /// Whether the current token has the given kind.
    pub fn check(&self, tokentype: TokenType) -> (r: bool)
        ensures
            r == (self.current.tokentype == tokentype),
    {
        self.current.tokentype == tokentype
    }

    /// Consume the current token iff it has the given kind.
    pub fn match_token(&mut self, tokentype: TokenType) -> (r: bool)
        requires
            old(self).cwf(),
        ensures
            final(self).cwf(),
            Self::parse_frame(old(self), final(self)),
            Self::code_frame(old(self), final(self)),
            final(self).locals@ == old(self).locals@,
            final(self).scope_depth == old(self).scope_depth,
            final(self).func_returns == old(self).func_returns,
            final(self).memory.code() == old(self).memory.code(),
            final(self).memory.consts() == old(self).memory.consts(),
            final(self).memory.spec_jumps() == old(self).memory.spec_jumps(),
            final(self).memory.spec_pending() == old(self).memory.spec_pending(),
            final(self).memory.spec_consts_at() == old(self).memory.spec_consts_at(),
            r == (old(self).current.tokentype == tokentype),
            r ==> (final(self).pos > old(self).pos || old(self).current.tokentype
                == TokenType::Eof) && final(self).previous == old(self).current,
            r && tokentype != TokenType::Eof ==> final(self).current == old(self).tokens@[
                skip_trivia(old(self).tokens@, old(self).pos as int)
            ] && final(self).pos == skip_trivia(old(self).tokens@, old(self).pos as int) + 1,
            !r ==> *final(self) == *old(self),
    {
        if !self.check(tokentype) {
            return false;
        }
        proof {
            if self.current.tokentype != TokenType::Eof {
                lemma_skip_trivia_stops(self.tokens@, self.pos as int);
            }
        }
        self.advance();
        true
    }

    /// Demand a token of the given kind and step past it: a match (other
    /// than the immovable `Eof`) succeeds and consumes the token, a
    /// mismatch is a fatal compile error.
    pub fn consume(&mut self, tokentype: TokenType) -> (r: Result<(), CompileError>)
        requires
            old(self).cwf(),
        ensures
            final(self).cwf(),
            Self::parse_frame(old(self), final(self)),
            Self::code_frame(old(self), final(self)),
            final(self).locals@ == old(self).locals@,
            final(self).scope_depth == old(self).scope_depth,
            final(self).func_returns == old(self).func_returns,
            final(self).memory.code() == old(self).memory.code(),
            final(self).memory.consts() == old(self).memory.consts(),
            final(self).memory.spec_jumps() == old(self).memory.spec_jumps(),
            final(self).memory.spec_pending() == old(self).memory.spec_pending(),
            final(self).memory.spec_consts_at() == old(self).memory.spec_consts_at(),
            r is Ok ==> old(self).current.tokentype == tokentype && final(self).pos > old(self).pos && final(self).previous == old(self).current,
            r is Ok ==> final(self).current == old(self).tokens@[skip_trivia(
                old(self).tokens@,
                old(self).pos as int,
            )] && final(self).pos == skip_trivia(old(self).tokens@, old(self).pos as int) + 1,
            r is Ok <==> (old(self).current.tokentype == tokentype && tokentype
                != TokenType::Eof),
            r is Err ==> r == Err::<(), CompileError>(CompileError::UnexpectedToken)
                && final(self).pos == old(self).pos && final(self).current == old(self).current,
    {
        if self.current.tokentype == tokentype && self.current.tokentype != TokenType::Eof {
            proof {
                lemma_skip_trivia_stops(self.tokens@, self.pos as int);
            }
            self.advance();
            Ok(())
        } else {
            Err(CompileError::UnexpectedToken)
        }
    }

    /// The text of a token, sliced out of the source.
    pub fn parse_identifier(&self, token: Token) -> (r: Vec<char>)
        requires
            token.start + token.length <= self.source@.len(),
        ensures
            r@ == self.source@.subrange(token.start as int, token.start + token.length),
    {
        let srclen = self.source.len();
        let mut out: Vec<char> = Vec::new();
        let mut i: usize = 0;
        while i < token.length
            invariant
                token.start + token.length <= self.source@.len(),
                srclen == self.source@.len(),
                i <= token.length,
                out@ == self.source@.subrange(token.start as int, token.start + i),
            decreases token.length - i,
        {
            out.push(self.source[token.start + i]);
            proof {
                assert(out@ =~= self.source@.subrange(token.start as int, token.start + i + 1));
            }
            i = i + 1;
        }
        out
    }

    /// Emit an opcode together with a constant operand, deduplicating
    /// the pool.
    fn push_constant_checked(&mut self, op: OpCode, v: Value) -> (r: Result<(), CompileError>)
        requires
            old(self).memory.inv(),
        ensures
            final(self).memory.inv(),
            final(self).memory.spec_pending() == old(self).memory.spec_pending(),
            final(self).memory.spec_jumps() == old(self).memory.spec_jumps(),
            final(self).memory.code().len() >= old(self).memory.code().len(),
            final(self).tokens@ == old(self).tokens@,
            final(self).source@ == old(self).source@,
            final(self).pos == old(self).pos,
            final(self).current == old(self).current,
            final(self).previous == old(self).previous,
            final(self).scope_depth == old(self).scope_depth,
            final(self).func_returns == old(self).func_returns,
            final(self).locals@ == old(self).locals@,
            final(self).pwf() == old(self).pwf(),
            r is Ok <==> old(self).memory.consts().len() <= 65535,
            r is Ok ==> MemorySlice::pushed_constant(&old(self).memory, &final(self).memory, op, v@),
            r is Err ==> r == Err::<(), CompileError>(CompileError::TooManyConstants) && final(self).memory == old(self).memory,
    {
        if self.memory.constants_count() > 65535 {
            return Err(CompileError::TooManyConstants);
        }
        self.memory.push_constant(op, v);
        Ok(())
    }

    /// Emit a forward jump with a placeholder operand; the offset of the
    /// placeholder is handed back for patching.
    fn push_jmp(&mut self, op: OpCode) -> (off: usize)
        requires
            old(self).memory.inv(),
            op == OpCode::Jmp || op == OpCode::JmpTrue || op == OpCode::JmpFalse,
        ensures
            final(self).memory.inv(),
            final(self).memory.spec_pending() == old(self).memory.spec_pending().insert(
                old(self).memory.code().len() as int + 1,
            ),
            off == old(self).memory.code().len() + 1,
            final(self).memory.code() == old(self).memory.code().push(word_of(op)).push(PANIC_WORD),
            final(self).memory.code().len() == old(self).memory.code().len() + 2,
            final(self).memory.consts() == old(self).memory.consts(),
            final(self).memory.spec_consts_at() == old(self).memory.spec_consts_at(),
            final(self).memory.spec_jumps() == old(self).memory.spec_jumps().insert(
                old(self).memory.code().len() as int,
            ),
            final(self).tokens@ == old(self).tokens@,
            final(self).source@ == old(self).source@,
            final(self).pos == old(self).pos,
            final(self).current == old(self).current,
            final(self).previous == old(self).previous,
            final(self).scope_depth == old(self).scope_depth,
            final(self).func_returns == old(self).func_returns,
            final(self).locals@ == old(self).locals@,
            final(self).pwf() == old(self).pwf(),
    {
        self.memory.push_jmp(op)
    }

    /// Resolve the placeholder at `jmp_address` to the distance from it
    /// to the current end of the code.
    fn patch_address(&mut self, jmp_address: usize) -> (r: Result<(), CompileError>)
        requires
            old(self).memory.inv(),
            old(self).memory.spec_pending().contains(jmp_address as int),
        ensures
            final(self).memory.inv(),
            r is Ok ==> final(self).memory.spec_pending() == old(self).memory.spec_pending().remove(
                jmp_address as int,
            ),
            r is Ok <==> old(self).memory.code().len() - jmp_address - 1 < PANIC_WORD,
            r is Ok ==> final(self).memory.code() == old(self).memory.code().update(
                jmp_address as int,
                (old(self).memory.code().len() - jmp_address - 1) as u16,
            ),
            r is Ok ==> old(self).memory.code().len() - jmp_address - 1 < PANIC_WORD,
            final(self).memory.consts() == old(self).memory.consts(),
            final(self).memory.spec_consts_at() == old(self).memory.spec_consts_at(),
            r is Err ==> final(self).memory.spec_pending() == old(self).memory.spec_pending()
                && final(self).memory.code() == old(self).memory.code(),
            final(self).memory.spec_jumps() == old(self).memory.spec_jumps(),
            final(self).memory.code().len() == old(self).memory.code().len(),
            final(self).tokens@ == old(self).tokens@,
            final(self).source@ == old(self).source@,
            final(self).pos == old(self).pos,
            final(self).current == old(self).current,
            final(self).previous == old(self).previous,
            final(self).scope_depth == old(self).scope_depth,
            final(self).func_returns == old(self).func_returns,
            final(self).locals@ == old(self).locals@,
            final(self).pwf() == old(self).pwf(),
    {
        let size = self.memory.get_memory_size();
        proof {
            assert(jmp_address < size);
        }
        let steps = size - jmp_address - 1;
        if steps >= PANIC_WORD as usize {
            return Err(CompileError::CodeTooFar);
        }
        self.memory.replace_at_location(jmp_address, steps as u16);
        Ok(())
    }

    /// Emit a backward jump to `loop_start`.
    fn push_loop(&mut self, loop_start: usize) -> (r: Result<(), CompileError>)
        requires
            old(self).memory.inv(),
        ensures
            final(self).memory.inv(),
            final(self).memory.spec_pending() == old(self).memory.spec_pending(),
            final(self).memory.code().len() >= old(self).memory.code().len(),
            r is Ok ==> final(self).memory.spec_jumps() == old(self).memory.spec_jumps().insert(
                old(self).memory.code().len() as int,
            ),
            r is Ok ==> final(self).memory.code() == old(self).memory.code().push(
                word_of(OpCode::Loop),
            ).push((old(self).memory.code().len() + 2 - loop_start) as u16),
            r is Ok <==> (loop_start <= old(self).memory.code().len() && old(self).memory.code().len() - loop_start <= 65532),
            r is Ok ==> loop_start <= old(self).memory.code().len() && old(self).memory.code().len()
                + 2 - loop_start < PANIC_WORD,
            final(self).memory.consts() == old(self).memory.consts(),
            final(self).memory.spec_consts_at() == old(self).memory.spec_consts_at(),
            r is Err ==> final(self).memory.spec_jumps() == old(self).memory.spec_jumps()
                && final(self).memory.code() == old(self).memory.code(),
            final(self).tokens@ == old(self).tokens@,
            final(self).source@ == old(self).source@,
            final(self).pos == old(self).pos,
            final(self).current == old(self).current,
            final(self).previous == old(self).previous,
            final(self).scope_depth == old(self).scope_depth,
            final(self).func_returns == old(self).func_returns,
            final(self).locals@ == old(self).locals@,
            final(self).pwf() == old(self).pwf(),
    {
        let size = self.memory.get_memory_size();
        if loop_start > size || size - loop_start > 65532 {
            return Err(CompileError::CodeTooFar);
        }
        self.memory.push_loop(loop_start);
        Ok(())
    }

    /// The infix binding power of a token.
    pub fn get_rule(&self, op: TokenType) -> (r: Precedence)
        ensures
            r == rule_of(op),
    {
        match op {
            TokenType::Minus => Precedence::Term,
            TokenType::Plus => Precedence::Term,
            TokenType::Slash => Precedence::Factor,
            TokenType::Star => Precedence::Factor,
            TokenType::BangEqual => Precedence::Equality,
            TokenType::EqualEqual => Precedence::Equality,
            TokenType::Greater => Precedence::Comparison,
            TokenType::GreaterEqual => Precedence::Comparison,
            TokenType::Less => Precedence::Comparison,
            TokenType::LessEqual => Precedence::Comparison,
            TokenType::And => Precedence::And,
            TokenType::Or => Precedence::Or,
            TokenType::LeftParen => Precedence::Call,
            _ => Precedence::Lowest,
        }
    }

    /// Search the locals back to front for one whose lexeme matches the
    /// previous token; the latest match's index is its stack slot, and
    /// no match at all means the name resolves as a global.
    pub fn find_local_var(&self) -> (r: Option<usize>)
        requires
            self.cwf(),
        ensures
            r matches Some(i) ==> i < self.locals@.len() && lexeme_of(
                self.source@,
                self.locals@[i as int].name,
            ) == lexeme_of(self.source@, self.previous) && (forall|j: int|
                i < j < self.locals@.len() ==> lexeme_of(self.source@, #[trigger] self.locals@[j].name)
                    != lexeme_of(self.source@, self.previous)),
            r is None ==> forall|j: int|
                0 <= j < self.locals@.len() ==> lexeme_of(self.source@, #[trigger] self.locals@[j].name)
                    != lexeme_of(self.source@, self.previous),
    {
        let pv = self.parse_identifier(self.previous);
        let mut i: usize = self.locals.len();
        while i > 0
            invariant
                self.cwf(),
                i <= self.locals@.len(),
                pv@ == lexeme_of(self.source@, self.previous),
                forall|j: int|
                    i <= j < self.locals@.len() ==> lexeme_of(
                        self.source@,
                        #[trigger] self.locals@[j].name,
                    ) != lexeme_of(self.source@, self.previous),
            decreases i,
        {
            i = i - 1;
            let nm = self.parse_identifier(self.locals[i].name);
            if chars_eq(&nm, &pv) {
                return Some(i);
            }
        }
        None
    }

    /// Parse an expression.  One as simple as a literal with no
    /// operator after it always parses.
    pub fn expression(&mut self) -> (r: Result<(), CompileError>)
        requires
            old(self).cwf(),
        ensures
            final(self).cwf(),
            Self::parse_frame(old(self), final(self)),
            Self::code_frame(old(self), final(self)),
            r is Ok ==> final(self).scope_depth == old(self).scope_depth && final(self).func_returns
                == old(self).func_returns && final(self).memory.spec_pending() == old(self).memory.spec_pending() && final(self).pos > old(self).pos && final(self).locals@ == old(self).locals@,
            ({
                let k = skip_trivia(old(self).tokens@, old(self).pos as int);
                ((old(self).current.tokentype == TokenType::Nil || old(self).current.tokentype
                    == TokenType::True || old(self).current.tokentype == TokenType::False) && k
                    < old(self).tokens@.len() && rule_of(old(self).tokens@[k].tokentype)
                    == Precedence::Lowest && old(self).tokens@[k].tokentype != TokenType::Equal)
                    ==> r is Ok && final(self).current == old(self).tokens@[k] && final(self).pos
                    == k + 1 && final(self).memory.code().len() == old(self).memory.code().len()
                    + 1
            }),
        decreases self.tokens@.len() - self.pos, 8int,
    {
        let p = Precedence::Assignment.repr();
        self.parse_precedence(p)
    }

    /// Precedence climbing: dispatch the prefix rule of the token just
    /// consumed, then fold infix operators that bind at least as
    /// tightly as `precedence`.  An expression as simple as a literal
    /// with no operator after it always parses.
    fn parse_precedence(&mut self, precedence: u16) -> (r: Result<(), CompileError>)
        requires
            old(self).cwf(),
            precedence >= 1,
        ensures
            final(self).cwf(),
            Self::parse_frame(old(self), final(self)),
            Self::code_frame(old(self), final(self)),
            r is Ok ==> final(self).scope_depth == old(self).scope_depth && final(self).func_returns
                == old(self).func_returns && final(self).memory.spec_pending() == old(self).memory.spec_pending() && final(self).pos > old(self).pos && final(self).locals@ == old(self).locals@,
            ({
                let k = skip_trivia(old(self).tokens@, old(self).pos as int);
                ((old(self).current.tokentype == TokenType::Nil || old(self).current.tokentype
                    == TokenType::True || old(self).current.tokentype == TokenType::False) && k
                    < old(self).tokens@.len() && prec_of(rule_of(old(self).tokens@[k].tokentype))
                    < precedence && old(self).tokens@[k].tokentype != TokenType::Equal) ==> r is Ok
                    && final(self).current == old(self).tokens@[k] && final(self).pos == k + 1
                    && final(self).memory.code().len() == old(self).memory.code().len() + 1
            }),
        decreases self.tokens@.len() - self.pos, 6int,
    {
        self.advance();
        if self.previous.tokentype == TokenType::Eof {
            return Err(CompileError::ExpectedExpression);
        }
        let can_assign = precedence <= Precedence::Assignment.repr();
        self.prefix(can_assign)?;
        let ghost k = skip_trivia(old(self).tokens@, old(self).pos as int);
        while precedence <= self.get_rule(self.current.tokentype).repr()
            invariant
                self.cwf(),
                precedence >= 1,
                self.tokens@ == old(self).tokens@,
                self.source@ == old(self).source@,
                self.pos > old(self).pos,
                self.scope_depth == old(self).scope_depth,
                self.func_returns == old(self).func_returns,
                self.memory.spec_pending() == old(self).memory.spec_pending(),
                self.memory.code().len() >= old(self).memory.code().len(),
                self.locals@ == old(self).locals@,
                Self::code_frame(old(self), self),
                k == skip_trivia(old(self).tokens@, old(self).pos as int),
                ((old(self).current.tokentype == TokenType::Nil || old(self).current.tokentype
                    == TokenType::True || old(self).current.tokentype == TokenType::False) && k
                    < old(self).tokens@.len() && prec_of(rule_of(old(self).tokens@[k].tokentype))
                    < precedence) ==> self.current == old(self).tokens@[k] && self.pos == k + 1
                    && self.memory.code().len() == old(self).memory.code().len() + 1,
            decreases self.tokens@.len() - self.pos,
        {
            self.advance();
            self.infix(can_assign)?;
        }
        if can_assign && self.match_token(TokenType::Equal) {
            return Err(CompileError::InvalidAssignment);
        }
        Ok(())
    }

    /// Dispatch the prefix rule of the token just consumed.  A literal
    /// always has a prefix rule, so it cannot fail.
    fn prefix(&mut self, can_assign: bool) -> (r: Result<(), CompileError>)
        requires
            old(self).cwf(),
        ensures
            final(self).cwf(),
            Self::parse_frame(old(self), final(self)),
            Self::code_frame(old(self), final(self)),
            r is Ok ==> final(self).scope_depth == old(self).scope_depth && final(self).func_returns
                == old(self).func_returns && final(self).memory.spec_pending() == old(self).memory.spec_pending() && final(self).locals@ == old(self).locals@,
            (old(self).previous.tokentype == TokenType::Nil || old(self).previous.tokentype
                == TokenType::True || old(self).previous.tokentype == TokenType::False) ==> r is Ok
                && final(self).pos == old(self).pos && final(self).current == old(self).current
                && final(self).memory.code().len() == old(self).memory.code().len() + 1,
        decreases self.tokens@.len() - self.pos, 26int,
    {
        match self.previous.tokentype {
            TokenType::LeftParen => self.grouping(can_assign),
            TokenType::Minus => self.unary(can_assign),
            TokenType::Number => self.number(can_assign),
            TokenType::Nil => self.literal(can_assign),
            TokenType::True => self.literal(can_assign),
            TokenType::False => self.literal(can_assign),
            TokenType::Bang => self.unary(can_assign),
            TokenType::String => self.string(can_assign),
            TokenType::Identifier => self.identifier(can_assign),
            _ => Err(CompileError::ExpectedExpression),
        }
    }

    /// Dispatch the infix rule of the operator just consumed.
    fn infix(&mut self, can_assign: bool) -> (r: Result<(), CompileError>)
        requires
            old(self).cwf(),
        ensures
            final(self).cwf(),
            Self::parse_frame(old(self), final(self)),
            Self::code_frame(old(self), final(self)),
            r is Ok ==> final(self).scope_depth == old(self).scope_depth && final(self).func_returns
                == old(self).func_returns && final(self).memory.spec_pending() == old(self).memory.spec_pending() && final(self).locals@ == old(self).locals@,
        decreases self.tokens@.len() - self.pos, 24int,
    {
        match self.previous.tokentype {
            TokenType::Minus => self.binary(can_assign),
            TokenType::Plus => self.binary(can_assign),
            TokenType::Slash => self.binary(can_assign),
            TokenType::Star => self.binary(can_assign),
            TokenType::BangEqual => self.binary(can_assign),
            TokenType::EqualEqual => self.binary(can_assign),
            TokenType::Greater => self.binary(can_assign),
            TokenType::GreaterEqual => self.binary(can_assign),
            TokenType::Less => self.binary(can_assign),
            TokenType::LessEqual => self.binary(can_assign),
            TokenType::And => self.and_op(),
            TokenType::Or => self.or_op(),
            TokenType::LeftParen => self.call_func(),
            _ => Ok(()),
        }
    }

    /// A parenthesized expression.
    fn grouping(&mut self, can_assign: bool) -> (r: Result<(), CompileError>)
        requires
            old(self).cwf(),
        ensures
            final(self).cwf(),
            Self::parse_frame(old(self), final(self)),
            Self::code_frame(old(self), final(self)),
            r is Ok ==> final(self).scope_depth == old(self).scope_depth && final(self).func_returns
                == old(self).func_returns && final(self).memory.spec_pending() == old(self).memory.spec_pending() && final(self).locals@ == old(self).locals@,
        decreases self.tokens@.len() - self.pos, 22int,
    {
        self.expression()?;
        self.consume(TokenType::RightParen)?;
        Ok(())
    }

    /// A unary operator: compile the operand, then negate or invert its
    /// value with a closing `Negate` or `Not`.
    fn unary(&mut self, can_assign: bool) -> (r: Result<(), CompileError>)
        requires
            old(self).cwf(),
        ensures
            final(self).cwf(),
            Self::parse_frame(old(self), final(self)),
            Self::code_frame(old(self), final(self)),
            r is Ok ==> final(self).scope_depth == old(self).scope_depth && final(self).func_returns
                == old(self).func_returns && final(self).memory.spec_pending() == old(self).memory.spec_pending() && final(self).locals@ == old(self).locals@,
            r is Ok && old(self).previous.tokentype == TokenType::Minus ==> final(self).memory.code().len() > old(self).memory.code().len() && final(self).memory.code().last() == word_of(OpCode::Negate),
            r is Ok && old(self).previous.tokentype == TokenType::Bang ==> final(self).memory.code().len() > old(self).memory.code().len() && final(self).memory.code().last() == word_of(OpCode::Not),
        decreases self.tokens@.len() - self.pos, 20int,
    {
        let operator = self.previous.tokentype;
        let p = Precedence::Unary.repr();
        self.parse_precedence(p)?;
        match operator {
            TokenType::Minus => self.memory.push(OpCode::Negate),
            TokenType::Bang => self.memory.push(OpCode::Not),
            _ => {
                self.has_error = true;
            },
        }
        Ok(())
    }

    /// A binary operator: compile the right operand at one level
    /// tighter, then emit the operator's opcodes — one for the plain
    /// operators, and a negated `Equal`, `Less` or `Greater` for the
    /// derived ones.
    fn binary(&mut self, can_assign: bool) -> (r: Result<(), CompileError>)
        requires
            old(self).cwf(),
        ensures
            final(self).cwf(),
            Self::parse_frame(old(self), final(self)),
            Self::code_frame(old(self), final(self)),
            r is Ok ==> final(self).scope_depth == old(self).scope_depth && final(self).func_returns
                == old(self).func_returns && final(self).memory.spec_pending() == old(self).memory.spec_pending() && final(self).locals@ == old(self).locals@,
            r is Ok && old(self).previous.tokentype == TokenType::Plus ==> final(self).memory.code().len() > old(self).memory.code().len() && final(self).memory.code().last() == word_of(OpCode::Add),
            r is Ok && old(self).previous.tokentype == TokenType::Minus ==> final(self).memory.code().len() > old(self).memory.code().len() && final(self).memory.code().last() == word_of(OpCode::Subtract),
            r is Ok && old(self).previous.tokentype == TokenType::Star ==> final(self).memory.code().len() > old(self).memory.code().len() && final(self).memory.code().last() == word_of(OpCode::Multiply),
            r is Ok && old(self).previous.tokentype == TokenType::Slash ==> final(self).memory.code().len() > old(self).memory.code().len() && final(self).memory.code().last() == word_of(OpCode::Divide),
            r is Ok && old(self).previous.tokentype == TokenType::EqualEqual ==> final(self).memory.code().len() > old(self).memory.code().len() && final(self).memory.code().last() == word_of(OpCode::Equal),
            r is Ok && old(self).previous.tokentype == TokenType::Greater ==> final(self).memory.code().len() > old(self).memory.code().len() && final(self).memory.code().last() == word_of(OpCode::Greater),
            r is Ok && old(self).previous.tokentype == TokenType::Less ==> final(self).memory.code().len() > old(self).memory.code().len() && final(self).memory.code().last() == word_of(OpCode::Less),
            r is Ok && old(self).previous.tokentype == TokenType::BangEqual ==> final(self).memory.code().len() >= old(self).memory.code().len() + 2 && final(self).memory.code().last() == word_of(OpCode::Not) && final(self).memory.code()[final(self).memory.code().len() - 2] == word_of(OpCode::Equal),
            r is Ok && old(self).previous.tokentype == TokenType::GreaterEqual ==> final(self).memory.code().len() >= old(self).memory.code().len() + 2 && final(self).memory.code().last() == word_of(OpCode::Not) && final(self).memory.code()[final(self).memory.code().len() - 2] == word_of(OpCode::Less),
            r is Ok && old(self).previous.tokentype == TokenType::LessEqual ==> final(self).memory.code().len() >= old(self).memory.code().len() + 2 && final(self).memory.code().last() == word_of(OpCode::Not) && final(self).memory.code()[final(self).memory.code().len() - 2] == word_of(OpCode::Greater),
            ({
                let k = skip_trivia(old(self).tokens@, old(self).pos as int);
                ((old(self).current.tokentype == TokenType::Nil || old(self).current.tokentype
                    == TokenType::True || old(self).current.tokentype == TokenType::False) && k
                    < old(self).tokens@.len() && prec_of(rule_of(old(self).tokens@[k].tokentype))
                    < prec_of(rule_of(old(self).previous.tokentype)) + 1 && old(self).tokens@[k].tokentype
                    != TokenType::Equal) ==> r is Ok
            }),
        decreases self.tokens@.len() - self.pos, 18int,
    {
        let operator = self.previous.tokentype;
        let precedence = self.get_rule(operator);
        let pr = precedence.repr();
        self.parse_precedence(pr + 1)?;
        match operator {
            TokenType::Plus => self.memory.push(OpCode::Add),
            TokenType::Minus => self.memory.push(OpCode::Subtract),
            TokenType::Star => self.memory.push(OpCode::Multiply),
            TokenType::Slash => self.memory.push(OpCode::Divide),
            TokenType::BangEqual => {
                self.memory.push(OpCode::Equal);
                self.memory.push(OpCode::Not);
            },
            TokenType::EqualEqual => self.memory.push(OpCode::Equal),
            TokenType::Greater => self.memory.push(OpCode::Greater),
            TokenType::GreaterEqual => {
                self.memory.push(OpCode::Less);
                self.memory.push(OpCode::Not);
            },
            TokenType::Less => self.memory.push(OpCode::Less),
            TokenType::LessEqual => {
                self.memory.push(OpCode::Greater);
                self.memory.push(OpCode::Not);
            },
            _ => {
                self.has_error = true;
            },
        }
        Ok(())
    }

    /// Short-circuit `and`.
    fn and_op(&mut self) -> (r: Result<(), CompileError>)
        requires
            old(self).cwf(),
        ensures
            final(self).cwf(),
            Self::parse_frame(old(self), final(self)),
            Self::code_frame(old(self), final(self)),
            r is Ok ==> final(self).scope_depth == old(self).scope_depth && final(self).func_returns
                == old(self).func_returns && final(self).memory.spec_pending() == old(self).memory.spec_pending() && final(self).locals@ == old(self).locals@,
        decreases self.tokens@.len() - self.pos, 16int,
    {
        self.logical_op(Precedence::And, OpCode::JmpFalse)
    }

    /// Short-circuit `or`.
    fn or_op(&mut self) -> (r: Result<(), CompileError>)
        requires
            old(self).cwf(),
        ensures
            final(self).cwf(),
            Self::parse_frame(old(self), final(self)),
            Self::code_frame(old(self), final(self)),
            r is Ok ==> final(self).scope_depth == old(self).scope_depth && final(self).func_returns
                == old(self).func_returns && final(self).memory.spec_pending() == old(self).memory.spec_pending() && final(self).locals@ == old(self).locals@,
        decreases self.tokens@.len() - self.pos, 15int,
    {
        self.logical_op(Precedence::Or, OpCode::JmpTrue)
    }

    /// A short-circuit operator: open a jump over the right operand,
    /// pop the deciding value, compile the right operand, and patch the
    /// jump.  On success the patched distance is exactly the length of
    /// what was emitted after the operand word, so the deciding value
    /// sends the machine to the join point just past the right operand
    /// without executing any of it.
    fn logical_op(&mut self, prec: Precedence, jmp: OpCode) -> (r: Result<(), CompileError>)
        requires
            old(self).cwf(),
            jmp == OpCode::JmpFalse || jmp == OpCode::JmpTrue,
            prec_of(prec) >= 1,
        ensures
            final(self).cwf(),
            Self::parse_frame(old(self), final(self)),
            Self::code_frame(old(self), final(self)),
            r is Ok ==> final(self).scope_depth == old(self).scope_depth && final(self).func_returns
                == old(self).func_returns && final(self).memory.spec_pending() == old(self).memory.spec_pending() && final(self).locals@ == old(self).locals@,
            r is Ok ==> final(self).memory.code().len() >= old(self).memory.code().len() + 3
                && final(self).memory.code()[old(self).memory.code().len() as int + 1] == (final(self).memory.code().len() - old(self).memory.code().len() - 2) as u16 && final(self).memory.code().len() - old(self).memory.code().len() - 2 < PANIC_WORD,
        decreases self.tokens@.len() - self.pos, 14int,
    {
        proof {
            crate::memoryslice::lemma_pending_fresh(
                &self.memory,
                self.memory.code().len() as int + 1,
            );
        }
        let end_jmp = self.push_jmp(jmp);
        self.memory.push(OpCode::Pop);
        let pr = prec.repr();
        self.parse_precedence(pr)?;
        self.patch_address(end_jmp)?;
        proof {
            assert(self.memory.spec_pending() =~= old(self).memory.spec_pending());
        }
        Ok(())
    }

    /// The call operator: stash the callee in the temporary register,
    /// compile the arguments, then close with `Call` and the argument
    /// count.
    fn call_func(&mut self) -> (r: Result<(), CompileError>)
        requires
            old(self).cwf(),
        ensures
            final(self).cwf(),
            Self::parse_frame(old(self), final(self)),
            Self::code_frame(old(self), final(self)),
            r is Ok ==> final(self).scope_depth == old(self).scope_depth && final(self).func_returns
                == old(self).func_returns && final(self).memory.spec_pending() == old(self).memory.spec_pending() && final(self).locals@ == old(self).locals@,
            r is Ok ==> final(self).memory.code().len() >= old(self).memory.code().len() + 3
                && final(self).memory.code()[old(self).memory.code().len() as int] == word_of(
                OpCode::PopStoreTmp,
            ) && final(self).memory.code()[final(self).memory.code().len() - 2] == word_of(
                OpCode::Call,
            ),
        decreases self.tokens@.len() - self.pos, 12int,
    {
        self.memory.push(OpCode::PopStoreTmp);
        if self.func_returns == usize::MAX {
            return Err(CompileError::NestingTooDeep);
        }
        self.func_returns = self.func_returns + 1;
        let mut args: usize = 0;
        let mut done = false;
        while !done
            invariant
                self.cwf(),
                self.tokens@ == old(self).tokens@,
                self.source@ == old(self).source@,
                self.pos >= old(self).pos,
                self.scope_depth == old(self).scope_depth,
                self.func_returns == old(self).func_returns + 1,
                self.memory.spec_pending() == old(self).memory.spec_pending(),
                self.memory.code().len() >= old(self).memory.code().len() + 1,
                self.memory.code()[old(self).memory.code().len() as int] == word_of(
                    OpCode::PopStoreTmp,
                ),
                self.locals@ == old(self).locals@,
                Self::code_frame(old(self), self),
                args <= self.pos,
            decreases self.tokens@.len() - self.pos,
        {
            if self.match_token(TokenType::RightParen) {
                done = true;
            } else {
                let ghost snap = *self;
                self.expression()?;
                proof {
                    Self::lemma_prefix_stable(&snap, self);
                }
                if self.check(TokenType::Comma) {
                    self.advance();
                }
                args = args + 1;
            }
        }
        self.memory.push(OpCode::Call);
        if args > 65535 {
            return Err(CompileError::TooManyArguments);
        }
        self.memory.push_raw(args as u16);
        self.func_returns = self.func_returns - 1;
        Ok(())
    }

    /// A variable reference or assignment: a name that matches a
    /// recorded local resolves to that slot, any other name goes
    /// through the globals table; with a following `=` in assignment
    /// position the right-hand side is compiled first and a set
    /// replaces the get.
    fn identifier(&mut self, can_assign: bool) -> (r: Result<(), CompileError>)
        requires
            old(self).cwf(),
        ensures
            final(self).cwf(),
            Self::parse_frame(old(self), final(self)),
            Self::code_frame(old(self), final(self)),
            r is Ok ==> final(self).scope_depth == old(self).scope_depth && final(self).func_returns
                == old(self).func_returns && final(self).memory.spec_pending() == old(self).memory.spec_pending() && final(self).locals@ == old(self).locals@,
            r is Ok && !(can_assign && old(self).current.tokentype == TokenType::Equal)
                && no_local_match(old(self)) ==> MemorySlice::pushed_constant(
                &old(self).memory,
                &final(self).memory,
                OpCode::GetGlobalVar,
                ValueV::Object(ObjectV::String(lexeme_of(old(self).source@, old(self).previous))),
            ),
            forall|i: int|
                r is Ok && !(can_assign && old(self).current.tokentype == TokenType::Equal)
                    && #[trigger] resolves_to_local(old(self), i) ==> MemorySlice::pushed_constant(
                    &old(self).memory,
                    &final(self).memory,
                    OpCode::GetLocalVar,
                    ValueV::Number(i as u64),
                ),
            r is Ok && can_assign && old(self).current.tokentype == TokenType::Equal
                && no_local_match(old(self)) ==> final(self).memory.code().len() >= old(self).memory.code().len() + 2 && final(self).memory.code()[final(self).memory.code().len()
                - 2] == word_of(OpCode::SetGlobalVar),
            forall|i: int|
                r is Ok && can_assign && old(self).current.tokentype == TokenType::Equal
                    && #[trigger] resolves_to_local(old(self), i) ==> final(self).memory.code().len() >= old(self).memory.code().len() + 2 && final(self).memory.code()[final(self).memory.code().len() - 2] == word_of(
                    OpCode::SetLocalVar,
                ),
            (!(can_assign && old(self).current.tokentype == TokenType::Equal) && old(self).memory.consts().len() <= 65535) ==> r is Ok,
        decreases self.tokens@.len() - self.pos, 10int,
    {
        let local_var = self.find_local_var();
        let global_var = self.parse_identifier(self.previous);
        proof {
            if local_var is Some {
                assert(!no_local_match(old(self)));
            }
        }
        if can_assign && self.match_token(TokenType::Equal) {
            self.expression()?;
            match local_var {
                Some(slot) => {
                    let r2 = self.push_constant_checked(
                        OpCode::SetLocalVar,
                        Value::Number(slot as u64),
                    );
                    r2
                },
                None => {
                    let r2 = self.push_constant_checked(
                        OpCode::SetGlobalVar,
                        Value::Object(Object::String(global_var)),
                    );
                    r2
                },
            }
        } else {
            match local_var {
                Some(slot) => {
                    let r2 = self.push_constant_checked(
                        OpCode::GetLocalVar,
                        Value::Number(slot as u64),
                    );
                    proof {
                        assert forall|i: int| #[trigger] resolves_to_local(old(self), i) implies i
                            == slot as int by {
                            assert(lexeme_of(old(self).source@, old(self).locals@[slot as int].name)
                                == lexeme_of(old(self).source@, old(self).previous));
                            if i < slot as int {
                                assert(lexeme_of(
                                    old(self).source@,
                                    old(self).locals@[slot as int].name,
                                ) != lexeme_of(old(self).source@, old(self).previous));
                            }
                            if i > slot as int {
                                assert(lexeme_of(old(self).source@, old(self).locals@[i].name)
                                    != lexeme_of(old(self).source@, old(self).previous));
                            }
                        }
                    }
                    r2
                },
                None => {
                    let r2 = self.push_constant_checked(
                        OpCode::GetGlobalVar,
                        Value::Object(Object::String(global_var)),
                    );
                    r2
                },
            }
        }
    }

    /// A number literal: parse the lexeme as a double and emit it as a
    /// constant reference.
    fn number(&mut self, can_assign: bool) -> (r: Result<(), CompileError>)
        requires
            old(self).cwf(),
        ensures
            final(self).cwf(),
            Self::parse_frame(old(self), final(self)),
            Self::code_frame(old(self), final(self)),
            r is Ok ==> final(self).scope_depth == old(self).scope_depth && final(self).func_returns
                == old(self).func_returns && final(self).memory.spec_pending() == old(self).memory.spec_pending() && final(self).locals@ == old(self).locals@,
            ({
                let lex = old(self).source@.subrange(
                    old(self).previous.start as int,
                    old(self).previous.start + old(self).previous.length,
                );
                &&& (r is Ok <==> is_number_lexeme(lex) && old(self).memory.consts().len()
                    <= 65535)
                &&& (r is Ok ==> MemorySlice::pushed_constant(
                    &old(self).memory,
                    &final(self).memory,
                    OpCode::Constant,
                    ValueV::Number(crate::numbers::num_of_lexeme(lex)),
                ))
                &&& (r is Err ==> final(self).memory == old(self).memory)
            }),
            final(self).pos == old(self).pos,
    {
        let lexeme = self.parse_identifier(self.previous);
        if !check_number_lexeme(&lexeme) {
            return Err(CompileError::BadNumberLiteral);
        }
        let bits = parse_number(&lexeme);
        self.push_constant_checked(OpCode::Constant, Value::Number(bits))
    }

    /// The `nil`, `true` and `false` literals: each appends exactly its
    /// own opcode.
    fn literal(&mut self, can_assign: bool) -> (r: Result<(), CompileError>)
        requires
            old(self).cwf(),
        ensures
            final(self).cwf(),
            Self::parse_frame(old(self), final(self)),
            Self::code_frame(old(self), final(self)),
            r is Ok ==> final(self).scope_depth == old(self).scope_depth && final(self).func_returns
                == old(self).func_returns && final(self).memory.spec_pending() == old(self).memory.spec_pending() && final(self).locals@ == old(self).locals@,
            r is Ok <==> (old(self).previous.tokentype == TokenType::Nil || old(self).previous.tokentype == TokenType::True || old(self).previous.tokentype
                == TokenType::False),
            old(self).previous.tokentype == TokenType::Nil ==> final(self).memory.code() == old(self).memory.code().push(word_of(OpCode::Nil)),
            old(self).previous.tokentype == TokenType::True ==> final(self).memory.code() == old(self).memory.code().push(word_of(OpCode::True)),
            old(self).previous.tokentype == TokenType::False ==> final(self).memory.code() == old(self).memory.code().push(word_of(OpCode::False)),
            final(self).memory.consts() == old(self).memory.consts(),
            final(self).pos == old(self).pos,
            final(self).current == old(self).current,
            final(self).previous == old(self).previous,
            r is Err ==> final(self).memory == old(self).memory,
    {
        match self.previous.tokentype {
            TokenType::Nil => self.memory.push(OpCode::Nil),
            TokenType::True => self.memory.push(OpCode::True),
            TokenType::False => self.memory.push(OpCode::False),
            _ => {
                return Err(CompileError::UnexpectedToken);
            },
        }
        Ok(())
    }

    /// A string literal: intern its text, without the quotes, as a
    /// constant reference.
    fn string(&mut self, can_assign: bool) -> (r: Result<(), CompileError>)
        requires
            old(self).cwf(),
        ensures
            final(self).cwf(),
            Self::parse_frame(old(self), final(self)),
            Self::code_frame(old(self), final(self)),
            r is Ok ==> final(self).scope_depth == old(self).scope_depth && final(self).func_returns
                == old(self).func_returns && final(self).memory.spec_pending() == old(self).memory.spec_pending() && final(self).locals@ == old(self).locals@,
            r is Ok <==> (old(self).previous.length >= 2 && old(self).memory.consts().len()
                <= 65535),
            r is Ok ==> MemorySlice::pushed_constant(
                &old(self).memory,
                &final(self).memory,
                OpCode::Constant,
                ValueV::Object(ObjectV::String(
                    old(self).source@.subrange(
                        old(self).previous.start + 1,
                        old(self).previous.start + old(self).previous.length - 1,
                    ),
                )),
            ),
            r is Err ==> final(self).memory == old(self).memory,
            final(self).pos == old(self).pos,
    {
        let srclen = self.source.len();
        if self.previous.length < 2 {
            return Err(CompileError::UnexpectedToken);
        }
        let inner = Token {
            tokentype: TokenType::String,
            start: self.previous.start + 1,
            length: self.previous.length - 2,
            line: self.previous.line,
        };
        let text = self.parse_identifier(inner);
        self.push_constant_checked(OpCode::Constant, Value::Object(Object::String(text)))
    }

    /// Open a lexical scope.
    fn begin_scope(&mut self) -> (r: Result<(), CompileError>)
        requires
            old(self).cwf(),
        ensures
            final(self).cwf(),
            r is Ok <==> old(self).scope_depth < usize::MAX,
            r is Ok ==> *final(self) == (Compiler {
                scope_depth: (old(self).scope_depth + 1) as usize,
                ..*old(self)
            }),
            r is Err ==> *final(self) == *old(self),
    {
        if self.scope_depth == usize::MAX {
            return Err(CompileError::NestingTooDeep);
        }
        self.scope_depth = self.scope_depth + 1;
        Ok(())
    }

    /// Close a lexical scope: drop every local of the departing depth
    /// from the compile-time list, emitting exactly one `Pop` for each
    /// so the runtime stack shrinks in step.
    fn end_scope(&mut self)
        requires
            old(self).cwf(),
            old(self).scope_depth >= 1,
        ensures
            final(self).cwf(),
            final(self).scope_depth == old(self).scope_depth - 1,
            final(self).tokens@ == old(self).tokens@,
            final(self).source@ == old(self).source@,
            final(self).pos == old(self).pos,
            final(self).current == old(self).current,
            final(self).previous == old(self).previous,
            final(self).func_returns == old(self).func_returns,
            final(self).memory.spec_pending() == old(self).memory.spec_pending(),
            final(self).memory.spec_jumps() == old(self).memory.spec_jumps(),
            final(self).memory.consts() == old(self).memory.consts(),
            final(self).locals@.len() <= old(self).locals@.len(),
            final(self).locals@ == old(self).locals@.subrange(0, final(self).locals@.len() as int),
            final(self).memory.code().len() == old(self).memory.code().len() + (old(self).locals@.len() - final(self).locals@.len()),
            forall|q: int|
                old(self).memory.code().len() <= q < final(self).memory.code().len()
                    ==> #[trigger] final(self).memory.code()[q] == word_of(OpCode::Pop),
            forall|q: int|
                0 <= q < old(self).memory.code().len() ==> #[trigger] final(self).memory.code()[q]
                    == old(self).memory.code()[q],
            forall|j: int|
                final(self).locals@.len() <= j < old(self).locals@.len()
                    ==> (#[trigger] old(self).locals@[j].depth) > old(self).scope_depth - 1,
            final(self).locals@.len() > 0 ==> final(self).locals@.last().depth <= old(self).scope_depth - 1,
    {
        self.scope_depth = self.scope_depth - 1;
        while self.locals.len() > 0 && self.locals[self.locals.len() - 1].depth > self.scope_depth
            invariant
                self.cwf(),
                self.tokens@ == old(self).tokens@,
                self.source@ == old(self).source@,
                self.pos == old(self).pos,
                self.current == old(self).current,
                self.previous == old(self).previous,
                self.scope_depth == old(self).scope_depth - 1,
                self.func_returns == old(self).func_returns,
                self.memory.spec_pending() == old(self).memory.spec_pending(),
                self.memory.spec_jumps() == old(self).memory.spec_jumps(),
                self.memory.consts() == old(self).memory.consts(),
                self.locals@.len() <= old(self).locals@.len(),
                self.locals@ == old(self).locals@.subrange(0, self.locals@.len() as int),
                self.memory.code().len() == old(self).memory.code().len() + (old(self).locals@.len() - self.locals@.len()),
                forall|q: int|
                    old(self).memory.code().len() <= q < self.memory.code().len()
                        ==> #[trigger] self.memory.code()[q] == word_of(OpCode::Pop),
                forall|q: int|
                    0 <= q < old(self).memory.code().len() ==> #[trigger] self.memory.code()[q]
                        == old(self).memory.code()[q],
                forall|j: int|
                    self.locals@.len() <= j < old(self).locals@.len()
                        ==> (#[trigger] old(self).locals@[j].depth) > old(self).scope_depth - 1,
            decreases self.locals@.len(),
        {
            proof {
                assert(self.locals@ == old(self).locals@.subrange(0, self.locals@.len() as int));
                assert(self.locals@.last() == old(self).locals@[self.locals@.len() - 1]);
            }
            self.memory.push(OpCode::Pop);
            self.locals.pop();
            proof {
                assert(self.locals@ =~= old(self).locals@.subrange(0, self.locals@.len() as int));
            }
        }
    }

    /// Record a local binding for the token, in the current scope and
    /// function frame.  At top level there is nothing to record.
    fn local_var(&mut self, name: Token)
        requires
            old(self).cwf(),
            name.start + name.length <= old(self).source@.len(),
        ensures
            final(self).cwf(),
            old(self).scope_depth == 0 ==> final(self).locals@ == old(self).locals@,
            old(self).scope_depth > 0 ==> final(self).locals@ == old(self).locals@.push(
                Local {
                    name,
                    depth: old(self).scope_depth,
                    func_depth: old(self).func_returns,
                },
            ),
            final(self).tokens@ == old(self).tokens@,
            final(self).source@ == old(self).source@,
            final(self).pos == old(self).pos,
            final(self).current == old(self).current,
            final(self).previous == old(self).previous,
            final(self).scope_depth == old(self).scope_depth,
            final(self).func_returns == old(self).func_returns,
            final(self).memory == old(self).memory,
    {
        if self.scope_depth == 0 {
            return ;
        }
        self.locals.push(
            Local { name, depth: self.scope_depth, func_depth: self.func_returns },
        );
    }

    /// Emit the `Pop`s that clear the current function frame before a
    /// `return`, leaving the compile-time locals in place for the code
    /// that follows.
    fn return_scope(&mut self)
        requires
            old(self).cwf(),
            old(self).scope_depth >= 1,
            old(self).func_returns >= 1,
        ensures
            final(self).cwf(),
            final(self).tokens@ == old(self).tokens@,
            final(self).source@ == old(self).source@,
            final(self).pos == old(self).pos,
            final(self).current == old(self).current,
            final(self).previous == old(self).previous,
            final(self).scope_depth == old(self).scope_depth,
            final(self).func_returns == old(self).func_returns,
            final(self).locals@ == old(self).locals@,
            final(self).memory.spec_pending() == old(self).memory.spec_pending(),
            final(self).memory.spec_jumps() == old(self).memory.spec_jumps(),
            final(self).memory.consts() == old(self).memory.consts(),
            final(self).memory.code().len() >= old(self).memory.code().len(),
            final(self).memory.code().len() <= old(self).memory.code().len() + old(self).locals@.len(),
            forall|q: int|
                old(self).memory.code().len() <= q < final(self).memory.code().len()
                    ==> #[trigger] final(self).memory.code()[q] == word_of(OpCode::Pop),
            forall|q: int|
                0 <= q < old(self).memory.code().len() ==> #[trigger] final(self).memory.code()[q]
                    == old(self).memory.code()[q],
    {
        let mut i: usize = 0;
        while i < self.locals.len()
            invariant
                self.cwf(),
                self.tokens@ == old(self).tokens@,
                self.source@ == old(self).source@,
                self.pos == old(self).pos,
                self.current == old(self).current,
                self.previous == old(self).previous,
                self.scope_depth == old(self).scope_depth,
                self.func_returns == old(self).func_returns,
                self.locals@ == old(self).locals@,
                self.memory.spec_pending() == old(self).memory.spec_pending(),
                self.memory.spec_jumps() == old(self).memory.spec_jumps(),
                self.memory.consts() == old(self).memory.consts(),
                self.memory.code().len() == old(self).memory.code().len() + i,
                forall|q: int|
                    old(self).memory.code().len() <= q < self.memory.code().len()
                        ==> #[trigger] self.memory.code()[q] == word_of(OpCode::Pop),
                forall|q: int|
                    0 <= q < old(self).memory.code().len() ==> #[trigger] self.memory.code()[q]
                        == old(self).memory.code()[q],
                i <= self.locals@.len(),
                self.scope_depth >= 1,
                self.func_returns >= 1,
            decreases self.locals@.len() - i,
        {
            if !(self.locals[i].depth > self.scope_depth - 1 || self.locals[i].func_depth
                == self.func_returns - 1) {
                return ;
            }
            self.memory.push(OpCode::Pop);
            i = i + 1;
        }
    }

    /// A declaration: a `var` binding or any other statement.
    pub fn declaration(&mut self) -> (r: Result<(), CompileError>)
        requires
            old(self).cwf(),
        ensures
            final(self).cwf(),
            Self::parse_frame(old(self), final(self)),
            Self::code_frame(old(self), final(self)),
            r is Ok ==> final(self).scope_depth == old(self).scope_depth && final(self).func_returns
                == old(self).func_returns && final(self).memory.spec_pending() == old(self).memory.spec_pending() && final(self).pos > old(self).pos,
            literal_statement_ahead(old(self)) ==> r is Ok,
        decreases self.tokens@.len() - self.pos, 38int,
    {
        if self.match_token(TokenType::Var) {
            self.var_declaration()
        } else {
            self.statement()
        }
    }

    /// A `var` declaration: bind a fresh name to its initializer, or to
    /// `nil`.  In a local scope the name becomes a new compile-time
    /// local of the current depth and frame; at top level it is defined
    /// as a global, and its name stands in the pool.
    fn var_declaration(&mut self) -> (r: Result<(), CompileError>)
        requires
            old(self).cwf(),
        ensures
            final(self).cwf(),
            Self::parse_frame(old(self), final(self)),
            Self::code_frame(old(self), final(self)),
            r is Ok ==> final(self).scope_depth == old(self).scope_depth && final(self).func_returns
                == old(self).func_returns && final(self).memory.spec_pending() == old(self).memory.spec_pending() && final(self).pos > old(self).pos,
            r is Ok ==> old(self).current.tokentype == TokenType::Identifier,
            r is Ok && old(self).tokens@[skip_trivia(old(self).tokens@, old(self).pos as int)].tokentype
                != TokenType::Equal ==> final(self).memory.code().len() > old(self).memory.code().len()
                && final(self).memory.code()[old(self).memory.code().len() as int] == word_of(
                OpCode::Nil,
            ),
            r is Ok && old(self).scope_depth > 0 ==> final(self).locals@ == old(self).locals@.push(
                Local {
                    name: old(self).current,
                    depth: old(self).scope_depth,
                    func_depth: old(self).func_returns,
                },
            ),
            r is Ok && old(self).scope_depth == 0 ==> final(self).locals@ == old(self).locals@
                && final(self).memory.code().len() >= old(self).memory.code().len() + 2 && final(self).memory.code()[final(self).memory.code().len() - 2] == word_of(
                OpCode::DefineGlobalVar,
            ) && (exists|j: int|
                0 <= j < final(self).memory.consts().len() && final(self).memory.consts()[j]
                    == ValueV::Object(ObjectV::String(
                    lexeme_of(old(self).source@, old(self).current),
                ))),
        decreases self.tokens@.len() - self.pos, 30int,
    {
        self.consume(TokenType::Identifier)?;
        let local_tok = self.previous;
        let global_var = self.parse_identifier(self.previous);
        if self.match_token(TokenType::Equal) {
            self.expression()?;
        } else {
            self.memory.push(OpCode::Nil);
        }
        self.consume(TokenType::SemiColon)?;
        if self.scope_depth > 0 {
            self.local_var(local_tok);
            return Ok(());
        }
        self.push_constant_checked(OpCode::DefineGlobalVar, Value::Object(Object::String(global_var)))
    }

    /// One parameter of a function header: consumed and recorded as a
    /// local, with no code emitted.
    fn param_declaration(&mut self) -> (r: Result<(), CompileError>)
        requires
            old(self).cwf(),
        ensures
            final(self).cwf(),
            Self::parse_frame(old(self), final(self)),
            Self::code_frame(old(self), final(self)),
            r is Ok ==> final(self).scope_depth == old(self).scope_depth && final(self).func_returns
                == old(self).func_returns && final(self).memory.spec_pending() == old(self).memory.spec_pending() && final(self).pos > old(self).pos,
            r is Ok && old(self).scope_depth > 0 ==> final(self).locals@ == old(self).locals@.push(
                Local {
                    name: old(self).current,
                    depth: old(self).scope_depth,
                    func_depth: old(self).func_returns,
                },
            ),
            final(self).memory.code() == old(self).memory.code(),
            final(self).memory.consts() == old(self).memory.consts(),
            final(self).memory.spec_jumps() == old(self).memory.spec_jumps(),
            final(self).memory.spec_consts_at() == old(self).memory.spec_consts_at(),
        decreases self.tokens@.len() - self.pos, 28int,
    {
        self.consume(TokenType::Identifier)?;
        let local_tok = self.previous;
        self.local_var(local_tok);
        if self.check(TokenType::Comma) {
            self.advance();
        }
        Ok(())
    }

    /// The header of a function declaration: record the name, the
    /// parameters and the arity, emit the function descriptor constant
    /// and its binding, and open the jump that skips over the body at
    /// runtime.  Returns the placeholder offset of that jump.
    fn func_address_declar(&mut self) -> (r: Result<usize, CompileError>)
        requires
            old(self).cwf(),
        ensures
            final(self).cwf(),
            Self::parse_frame(old(self), final(self)),
            Self::code_frame(old(self), final(self)),
            (r matches Ok(off) ==> final(self).scope_depth == old(self).scope_depth + 1
                && final(self).func_returns == old(self).func_returns
                && final(self).memory.spec_pending() == old(self).memory.spec_pending().insert(off as int)
                && !old(self).memory.spec_pending().contains(off as int)
                && final(self).pos > old(self).pos),
            (r matches Ok(off) ==> off == final(self).memory.code().len() - 1 && final(self).memory.code().last() == PANIC_WORD && final(self).memory.code()[off - 1] == word_of(
                OpCode::Jmp,
            ) && final(self).memory.code().len() >= old(self).memory.code().len() + 4),
            r is Ok ==> final(self).locals@.len() >= old(self).locals@.len() && (forall|j: int|
                0 <= j < old(self).locals@.len() ==> #[trigger] final(self).locals@[j] == old(self).locals@[j]) && (forall|j: int|
                old(self).locals@.len() <= j < final(self).locals@.len() ==> (#[trigger] final(self).locals@[j]).depth == old(self).scope_depth + 1 && final(self).locals@[j].func_depth
                    == old(self).func_returns),
            r is Ok && old(self).scope_depth == 0 ==> exists|j: int|
                0 <= j < final(self).memory.consts().len() && is_descriptor(
                    #[trigger] final(self).memory.consts()[j],
                    lexeme_of(old(self).source@, old(self).current),
                    old(self).memory.code().len() as int + 6,
                    final(self).locals@.len() - old(self).locals@.len(),
                ),
            r is Ok && old(self).scope_depth > 0 ==> final(self).locals@.len() > old(self).locals@.len()
                && exists|j: int|
                0 <= j < final(self).memory.consts().len() && is_descriptor(
                    #[trigger] final(self).memory.consts()[j],
                    lexeme_of(old(self).source@, old(self).current),
                    old(self).memory.code().len() as int + 6,
                    final(self).locals@.len() - old(self).locals@.len() - 1,
                ),
            empty_header_ahead(old(self)) ==> r is Ok,
        decreases self.tokens@.len() - self.pos, 26int,
    {
        self.consume(TokenType::Identifier)?;
        let local_tok = self.previous;
        let global_var = self.parse_identifier(self.previous);
        let size = self.memory.get_memory_size();
        if size > usize::MAX - 6 {
            return Err(CompileError::CodeTooFar);
        }
        let func_address = size + 6;
        self.begin_scope()?;
        let mut arity: usize = 0;
        self.consume(TokenType::LeftParen)?;
        proof {
            if empty_header_ahead(old(self)) {
                assert(self.current == old(self).tokens@[skip_trivia(
                    old(self).tokens@,
                    skip_trivia(old(self).tokens@, old(self).pos as int) + 1,
                )]);
            }
        }
        let mut done = false;
        while !done
            invariant
                self.cwf(),
                self.tokens@ == old(self).tokens@,
                self.source@ == old(self).source@,
                self.pos > old(self).pos,
                old(self).scope_depth < usize::MAX,
                self.scope_depth == old(self).scope_depth + 1,
                self.func_returns == old(self).func_returns,
                self.memory.spec_pending() == old(self).memory.spec_pending(),
                self.memory.code() == old(self).memory.code(),
                self.memory.consts() == old(self).memory.consts(),
                self.memory.spec_jumps() == old(self).memory.spec_jumps(),
                self.memory.spec_consts_at() == old(self).memory.spec_consts_at(),
                Self::code_frame(old(self), self),
                empty_header_ahead(old(self)) ==> (done || self.current == old(self).tokens@[
                    skip_trivia(
                        old(self).tokens@,
                        skip_trivia(old(self).tokens@, old(self).pos as int) + 1,
                    )
                ]),
                self.locals@.len() == old(self).locals@.len() + arity,
                forall|j: int|
                    0 <= j < old(self).locals@.len() ==> #[trigger] self.locals@[j] == old(self).locals@[j],
                forall|j: int|
                    old(self).locals@.len() <= j < self.locals@.len() ==> (#[trigger] self.locals@[j]).depth
                        == old(self).scope_depth + 1 && self.locals@[j].func_depth == old(self).func_returns,
                arity <= self.pos,
            decreases (if done {
                0int
            } else {
                1int
            }), self.tokens@.len() - self.pos,
        {
            if self.match_token(TokenType::RightParen) {
                done = true;
            } else {
                self.param_declaration()?;
                arity = arity + 1;
            }
        }
        let name_copy = self.parse_identifier(local_tok);
        self.push_constant_checked(
            OpCode::Constant,
            Value::Object(Object::Function { name: name_copy, address: func_address, arity }),
        )?;
        proof {
            let site = old(self).memory.code().len() as int + 1;
            assert(self.memory.spec_consts_at().contains(site));
            assert((self.memory.code()[site] as int) < self.memory.consts().len());
            assert(is_descriptor(
                self.memory.consts()[self.memory.code()[site] as int],
                lexeme_of(old(self).source@, old(self).current),
                old(self).memory.code().len() as int + 6,
                arity as int,
            ));
            assert(exists|j: int|
                0 <= j < self.memory.consts().len() && is_descriptor(
                    #[trigger] self.memory.consts()[j],
                    lexeme_of(old(self).source@, old(self).current),
                    old(self).memory.code().len() as int + 6,
                    arity as int,
                ));
        }
        let ghost held = choose|j: int|
            0 <= j < self.memory.consts().len() && is_descriptor(
                #[trigger] self.memory.consts()[j],
                lexeme_of(old(self).source@, old(self).current),
                old(self).memory.code().len() as int + 6,
                arity as int,
            );
        if self.scope_depth - 1 > 0 {
            self.local_var(local_tok);
        } else {
            self.push_constant_checked(
                OpCode::DefineGlobalVar,
                Value::Object(Object::String(global_var)),
            )?;
        }
        proof {
            crate::memoryslice::lemma_pending_fresh(
                &old(self).memory,
                self.memory.code().len() as int + 1,
            );
        }
        let off = self.push_jmp(OpCode::Jmp);
        proof {
            assert(0 <= held < self.memory.consts().len() && is_descriptor(
                self.memory.consts()[held],
                lexeme_of(old(self).source@, old(self).current),
                old(self).memory.code().len() as int + 6,
                arity as int,
            ));
        }
        Ok(off)
    }

    /// A function declaration: compile the header, then the body, close
    /// its scope, emit the implicit `Return`, and patch the header's
    /// skip jump so straight-line execution lands past the body and its
    /// `Return` — the body runs only through a call.
    fn function(&mut self) -> (r: Result<(), CompileError>)
        requires
            old(self).cwf(),
        ensures
            final(self).cwf(),
            Self::parse_frame(old(self), final(self)),
            Self::code_frame(old(self), final(self)),
            r is Ok ==> final(self).scope_depth == old(self).scope_depth && final(self).func_returns
                == old(self).func_returns && final(self).memory.spec_pending() == old(self).memory.spec_pending() && final(self).pos > old(self).pos,
            r is Ok ==> exists|o: int|
                #![trigger final(self).memory.code()[o]]
                {
                    &&& old(self).memory.code().len() < o
                    &&& o + 2 <= final(self).memory.code().len()
                    &&& final(self).memory.code()[o - 1] == word_of(OpCode::Jmp)
                    &&& final(self).memory.code()[o] == (final(self).memory.code().len() - o
                        - 1) as u16
                    &&& final(self).memory.code().last() == word_of(OpCode::Return)
                },
        decreases self.tokens@.len() - self.pos, 34int,
    {
        let func_end = self.func_address_declar()?;
        if self.func_returns == usize::MAX {
            return Err(CompileError::NestingTooDeep);
        }
        self.func_returns = self.func_returns + 1;
        self.consume(TokenType::LeftBrace)?;
        let ghost before_body = *self;
        self.block()?;
        proof {
            Self::lemma_prefix_stable(&before_body, self);
        }
        self.end_scope();
        self.memory.push(OpCode::Return);
        self.patch_address(func_end)?;
        self.func_returns = self.func_returns - 1;
        proof {
            assert(self.memory.spec_pending() =~= old(self).memory.spec_pending());
            assert(self.memory.code()[func_end - 1] == word_of(OpCode::Jmp));
            assert(self.memory.code()[func_end as int] == (self.memory.code().len() - func_end
                - 1) as u16);
            assert(self.memory.code().last() == word_of(OpCode::Return));
        }
        Ok(())
    }

    /// A brace-delimited block of declarations.
    fn block(&mut self) -> (r: Result<(), CompileError>)
        requires
            old(self).cwf(),
        ensures
            final(self).cwf(),
            Self::parse_frame(old(self), final(self)),
            Self::code_frame(old(self), final(self)),
            r is Ok ==> final(self).scope_depth == old(self).scope_depth && final(self).func_returns
                == old(self).func_returns && final(self).memory.spec_pending() == old(self).memory.spec_pending() && final(self).pos > old(self).pos,
            old(self).current.tokentype == TokenType::RightBrace ==> r is Ok && final(self).memory.code()
                == old(self).memory.code(),
        decreases self.tokens@.len() - self.pos, 40int,
    {
        while !self.check(TokenType::RightBrace) && !self.check(TokenType::Eof)
            invariant
                self.cwf(),
                self.tokens@ == old(self).tokens@,
                self.source@ == old(self).source@,
                self.pos >= old(self).pos,
                self.scope_depth == old(self).scope_depth,
                self.func_returns == old(self).func_returns,
                self.memory.spec_pending() == old(self).memory.spec_pending(),
                self.memory.code().len() >= old(self).memory.code().len(),
                Self::code_frame(old(self), self),
                old(self).current.tokentype == TokenType::RightBrace ==> self.current == old(self).current && self.memory.code() == old(self).memory.code(),
            decreases self.tokens@.len() - self.pos,
        {
            self.declaration()?;
        }
        self.consume(TokenType::RightBrace)?;
        Ok(())
    }

    /// A statement of any kind.
    pub fn statement(&mut self) -> (r: Result<(), CompileError>)
        requires
            old(self).cwf(),
        ensures
            final(self).cwf(),
            Self::parse_frame(old(self), final(self)),
            Self::code_frame(old(self), final(self)),
            r is Ok ==> final(self).scope_depth == old(self).scope_depth && final(self).func_returns
                == old(self).func_returns && final(self).memory.spec_pending() == old(self).memory.spec_pending() && final(self).pos > old(self).pos,
            literal_statement_ahead(old(self)) ==> r is Ok && final(self).memory.code().len()
                == old(self).memory.code().len() + 2,
        decreases self.tokens@.len() - self.pos, 36int,
    {
        if self.match_token(TokenType::Print) {
            self.print_statement()
        } else if self.match_token(TokenType::Fun) {
            self.function()
        } else if self.match_token(TokenType::For) {
            self.for_statement()
        } else if self.match_token(TokenType::If) {
            self.if_statement()
        } else if self.match_token(TokenType::While) {
            self.while_statement()
        } else if self.match_token(TokenType::Return) {
            self.return_statement()
        } else if self.match_token(TokenType::LeftBrace) {
            self.begin_scope()?;
            self.block()?;
            self.end_scope();
            Ok(())
        } else {
            self.expression_statement()
        }
    }

    /// A `return`, with or without a value: clear the frame's stack
    /// window, marshal the value through the temporary register, and
    /// close with `Return`.
    fn return_statement(&mut self) -> (r: Result<(), CompileError>)
        requires
            old(self).cwf(),
        ensures
            final(self).cwf(),
            Self::parse_frame(old(self), final(self)),
            Self::code_frame(old(self), final(self)),
            r is Ok ==> final(self).scope_depth == old(self).scope_depth && final(self).func_returns
                == old(self).func_returns && final(self).memory.spec_pending() == old(self).memory.spec_pending(),
            r is Ok ==> final(self).memory.code().len() > old(self).memory.code().len() && final(self).memory.code().last() == word_of(OpCode::Return),
            r is Ok && old(self).current.tokentype != TokenType::SemiColon ==> exists|q: int|
                #![trigger final(self).memory.code()[q]]
                {
                    &&& old(self).memory.code().len() <= q
                    &&& q < final(self).memory.code().len() - 1
                    &&& final(self).memory.code()[q] == word_of(OpCode::PopStoreTmp)
                    &&& forall|t: int|
                        q < t < final(self).memory.code().len() - 1
                            ==> #[trigger] final(self).memory.code()[t] == word_of(OpCode::Pop)
                },
        decreases self.tokens@.len() - self.pos, 34int,
    {
        if self.match_token(TokenType::SemiColon) {
            if self.func_returns == 0 || self.scope_depth == 0 {
                return Err(CompileError::ReturnOutsideFunction);
            }
            self.return_scope();
            self.memory.push(OpCode::Return);
            Ok(())
        } else {
            self.expression()?;
            let ghost q = self.memory.code().len() as int;
            self.memory.push(OpCode::PopStoreTmp);
            self.consume(TokenType::SemiColon)?;
            if self.func_returns == 0 || self.scope_depth == 0 {
                return Err(CompileError::ReturnOutsideFunction);
            }
            self.return_scope();
            self.memory.push(OpCode::Return);
            proof {
                assert(self.memory.code()[q] == word_of(OpCode::PopStoreTmp));
                assert(forall|t: int|
                    q < t < self.memory.code().len() - 1 ==> #[trigger] self.memory.code()[t]
                        == word_of(OpCode::Pop));
            }
            Ok(())
        }
    }

    /// An `if` statement with its optional `else` branch.
    fn if_statement(&mut self) -> (r: Result<(), CompileError>)
        requires
            old(self).cwf(),
        ensures
            final(self).cwf(),
            Self::parse_frame(old(self), final(self)),
            Self::code_frame(old(self), final(self)),
            r is Ok ==> final(self).scope_depth == old(self).scope_depth && final(self).func_returns
                == old(self).func_returns && final(self).memory.spec_pending() == old(self).memory.spec_pending(),
            r is Ok ==> exists|c: int, t: int|
                #![trigger final(self).memory.code()[c], final(self).memory.code()[t]]
                {
                    &&& old(self).memory.code().len() <= c
                    &&& c + 3 <= t
                    &&& t + 3 <= final(self).memory.code().len()
                    &&& final(self).memory.code()[c] == word_of(OpCode::JmpFalse)
                    &&& final(self).memory.code()[c + 1] == (t - c) as u16
                    &&& final(self).memory.code()[c + 2] == word_of(OpCode::Pop)
                    &&& final(self).memory.code()[t] == word_of(OpCode::Jmp)
                    &&& final(self).memory.code()[t + 1] == (final(self).memory.code().len() - t
                        - 2) as u16
                    &&& final(self).memory.code()[t + 2] == word_of(OpCode::Pop)
                },
        decreases self.tokens@.len() - self.pos, 34int,
    {
        self.consume(TokenType::LeftParen)?;
        self.expression()?;
        self.consume(TokenType::RightParen)?;
        proof {
            crate::memoryslice::lemma_pending_fresh(
                &self.memory,
                self.memory.code().len() as int + 1,
            );
            crate::memoryslice::lemma_pending_fresh(
                &old(self).memory,
                self.memory.code().len() as int + 1,
            );
        }
        let ghost c = self.memory.code().len() as int;
        let thn_address = self.push_jmp(OpCode::JmpFalse);
        self.memory.push(OpCode::Pop);
        let ghost before_then = *self;
        self.statement()?;
        proof {
            Self::lemma_prefix_stable(&before_then, self);
            crate::memoryslice::lemma_pending_fresh(
                &old(self).memory,
                self.memory.code().len() as int + 1,
            );
        }
        let ghost t = self.memory.code().len() as int;
        let else_address = self.push_jmp(OpCode::Jmp);
        self.patch_address(thn_address)?;
        self.memory.push(OpCode::Pop);
        if self.match_token(TokenType::Else) {
            let ghost before_else = *self;
            self.statement()?;
            proof {
                Self::lemma_prefix_stable(&before_else, self);
            }
        }
        self.patch_address(else_address)?;
        proof {
            assert(self.memory.spec_pending() =~= old(self).memory.spec_pending());
            assert(self.memory.code()[c] == word_of(OpCode::JmpFalse));
            assert(self.memory.code()[c + 1] == (t - c) as u16);
            assert(self.memory.code()[c + 2] == word_of(OpCode::Pop));
            assert(self.memory.code()[t] == word_of(OpCode::Jmp));
            assert(self.memory.code()[t + 1] == (self.memory.code().len() - t - 2) as u16);
            assert(self.memory.code()[t + 2] == word_of(OpCode::Pop));
        }
        Ok(())
    }

    /// A `while` loop.
    fn while_statement(&mut self) -> (r: Result<(), CompileError>)
        requires
            old(self).cwf(),
        ensures
            final(self).cwf(),
            Self::parse_frame(old(self), final(self)),
            Self::code_frame(old(self), final(self)),
            r is Ok ==> final(self).scope_depth == old(self).scope_depth && final(self).func_returns
                == old(self).func_returns && final(self).memory.spec_pending() == old(self).memory.spec_pending(),
            r is Ok ==> exists|c: int|
                {
                    &&& old(self).memory.code().len() <= c
                    &&& c + 3 <= final(self).memory.code().len() - 3
                    &&& (#[trigger] final(self).memory.code()[c]) == word_of(OpCode::JmpFalse)
                    &&& final(self).memory.code()[c + 1] == (final(self).memory.code().len() - 3
                        - c) as u16
                    &&& final(self).memory.code()[c + 2] == word_of(OpCode::Pop)
                    &&& final(self).memory.code()[final(self).memory.code().len() - 3] == word_of(
                        OpCode::Loop,
                    )
                    &&& final(self).memory.code()[final(self).memory.code().len() - 2] == (final(self).memory.code().len() - 1 - old(self).memory.code().len()) as u16
                    &&& final(self).memory.code().last() == word_of(OpCode::Pop)
                },
        decreases self.tokens@.len() - self.pos, 34int,
    {
        let loop_start = self.memory.get_memory_size();
        self.consume(TokenType::LeftParen)?;
        self.expression()?;
        self.consume(TokenType::RightParen)?;
        proof {
            crate::memoryslice::lemma_pending_fresh(
                &old(self).memory,
                self.memory.code().len() as int + 1,
            );
        }
        let ghost c = self.memory.code().len() as int;
        let end_address = self.push_jmp(OpCode::JmpFalse);
        self.memory.push(OpCode::Pop);
        let ghost before_body = *self;
        self.statement()?;
        proof {
            Self::lemma_prefix_stable(&before_body, self);
        }
        self.push_loop(loop_start)?;
        self.patch_address(end_address)?;
        self.memory.push(OpCode::Pop);
        proof {
            assert(self.memory.spec_pending() =~= old(self).memory.spec_pending());
            assert(self.memory.code()[c] == word_of(OpCode::JmpFalse));
            assert(self.memory.code()[c + 1] == (self.memory.code().len() - 3 - c) as u16);
            assert(self.memory.code()[c + 2] == word_of(OpCode::Pop));
            assert(self.memory.code()[self.memory.code().len() - 3] == word_of(OpCode::Loop));
            assert(self.memory.code()[self.memory.code().len() - 2] == (self.memory.code().len()
                - 1 - old(self).memory.code().len()) as u16);
            assert(self.memory.code().last() == word_of(OpCode::Pop));
        }
        Ok(())
    }

    /// A `for` loop, desugared: scope, initializer, condition with its
    /// exit jump, a step clause threaded in front of the body by a pair
    /// of jumps, the body, and the back edge.  Whatever clauses are
    /// present, the emitted code closes with a `Loop` whose operand
    /// sends the machine back into this statement's own code, followed
    /// only by the stack clean-up `Pop`s of the exit path and the
    /// departing scope.
    #[verifier::rlimit(100)]
    fn for_statement(&mut self) -> (r: Result<(), CompileError>)
        requires
            old(self).cwf(),
        ensures
            final(self).cwf(),
            Self::parse_frame(old(self), final(self)),
            Self::code_frame(old(self), final(self)),
            r is Ok ==> final(self).scope_depth == old(self).scope_depth && final(self).func_returns
                == old(self).func_returns && final(self).memory.spec_pending() == old(self).memory.spec_pending(),
            r is Ok ==> exists|b: int|
                #![trigger final(self).memory.code()[b]]
                {
                    &&& old(self).memory.code().len() <= b
                    &&& b + 2 <= final(self).memory.code().len()
                    &&& final(self).memory.code()[b] == word_of(OpCode::Loop)
                    &&& old(self).memory.code().len() <= b + 2 - final(self).memory.code()[b + 1]
                    &&& b + 2 - final(self).memory.code()[b + 1] <= b
                    &&& forall|t: int|
                        b + 2 <= t < final(self).memory.code().len()
                            ==> #[trigger] final(self).memory.code()[t] == word_of(OpCode::Pop)
                },
            empty_for_ahead(old(self)) ==> r is Ok,
        decreases self.tokens@.len() - self.pos, 34int,
    {
        self.begin_scope()?;
        self.consume(TokenType::LeftParen)?;
        if self.match_token(TokenType::SemiColon) {
            // an empty initializer: nothing to compile
        } else if self.match_token(TokenType::Var) {
            self.var_declaration()?;
        } else {
            self.expression_statement()?;
        }
        let mut loop_start = self.memory.get_memory_size();
        let mut exit_jmp: Option<usize> = None;
        if !self.match_token(TokenType::SemiColon) {
            self.expression()?;
            self.consume(TokenType::SemiColon)?;
            proof {
                crate::memoryslice::lemma_pending_fresh(
                    &old(self).memory,
                    self.memory.code().len() as int + 1,
                );
            }
            exit_jmp = Some(self.push_jmp(OpCode::JmpFalse));
            self.memory.push(OpCode::Pop);
        }
        let ghost pending_mid = self.memory.spec_pending();
        if !self.match_token(TokenType::RightParen) {
            proof {
                crate::memoryslice::lemma_pending_fresh(
                    &self.memory,
                    self.memory.code().len() as int + 1,
                );
            }
            let body_jmp = self.push_jmp(OpCode::Jmp);
            let steps = self.memory.get_memory_size();
            self.expression()?;
            self.memory.push(OpCode::Pop);
            self.consume(TokenType::RightParen)?;
            self.push_loop(loop_start)?;
            loop_start = steps;
            self.patch_address(body_jmp)?;
            proof {
                assert(self.memory.spec_pending() =~= pending_mid);
            }
        }
        self.statement()?;
        let ghost b = self.memory.code().len() as int;
        self.push_loop(loop_start)?;
        match exit_jmp {
            Some(e) => {
                self.patch_address(e)?;
                self.memory.push(OpCode::Pop);
            },
            None => {},
        }
        if self.scope_depth == 0 {
            return Err(CompileError::NestingTooDeep);
        }
        self.end_scope();
        proof {
            assert(self.memory.spec_pending() =~= old(self).memory.spec_pending());
            assert(self.memory.code()[b] == word_of(OpCode::Loop));
            assert(b + 2 - self.memory.code()[b + 1] == loop_start as int);
            assert(forall|t: int|
                b + 2 <= t < self.memory.code().len() ==> #[trigger] self.memory.code()[t]
                    == word_of(OpCode::Pop));
        }
        Ok(())
    }

    /// Compile the whole source: tokenize it, parse every declaration,
    /// and seal the chunk with an `Eof` opcode.
    ///
    /// A compiled chunk is well formed: its constant pool holds no two
    /// structurally equal entries; every constant or slot operand is in
    /// range for the pool; and every recorded jump opcode carries a
    /// resolved distance, never the `Panic` placeholder.
    pub fn compile(&mut self) -> (r: Result<MemorySlice, CompileError>)
        requires
            old(self).cwf_start(),
        ensures
            (r matches Ok(m) ==> {
                &&& m.inv()
                &&& m.spec_pending().is_empty()
                &&& forall|s: int|
                    #[trigger] m.spec_jumps().contains(s)
                        ==> crate::memoryslice::is_jump_word(m.code()[s]) && m.code()[s + 1]
                        != PANIC_WORD
                &&& forall|i: int, j: int|
                    0 <= i < j < m.consts().len() ==> m.consts()[i] != m.consts()[j]
                &&& forall|s: int|
                    #[trigger] m.spec_consts_at().contains(s) ==> 0 <= s < m.code().len() && (
                    m.code()[s] as int) < m.consts().len()
                &&& m.code().len() > 0
                &&& m.code().last() == word_of(OpCode::Eof)
            }),
            old(self).source@.len() == 0 ==> r is Ok,
    {
        let ghost src = self.source@;
        let mut done = false;
        while !done
            invariant
                self.scanner.wf(),
                self.scanner.source@ == src,
                self.source@ == src,
                self.memory == old(self).memory,
                self.current == old(self).current,
                self.previous == old(self).previous,
                self.pos == 0,
                self.scope_depth == 0,
                self.func_returns == 0,
                self.locals@ == old(self).locals@,
                old(self).cwf_start(),
                forall|i: int|
                    0 <= i < self.tokens@.len() ==> (#[trigger] self.tokens@[i].start)
                        + self.tokens@[i].length <= src.len(),
                !done ==> forall|i: int|
                    0 <= i < self.tokens@.len() ==> (#[trigger] self.tokens@[i].tokentype)
                        != TokenType::Eof,
                done ==> self.tokens@.len() >= 1 && self.tokens@.last().tokentype == TokenType::Eof
                    && (forall|i: int|
                    0 <= i < self.tokens@.len() - 1 ==> (#[trigger] self.tokens@[i].tokentype)
                        != TokenType::Eof),
                src.len() == 0 ==> self.tokens@.len() == (if done {
                    1int
                } else {
                    0int
                }),
            decreases (if done {
                0int
            } else {
                1int
            }), self.source@.len() - self.scanner.current,
        {
            let ghost sc = self.scanner;
            proof {
                crate::scanner::lemma_scan_progress(sc.source@, sc.current as int, sc.line as int);
            }
            let t = self.scanner.scan_token();
            self.tokens.push(t);
            if t.tokentype == TokenType::Eof {
                done = true;
            }
        }
        proof {
            assert(self.cwf());
        }
        self.advance();
        let mut finished = false;
        while !finished
            invariant
                self.cwf(),
                self.scope_depth == 0,
                self.func_returns == 0,
                self.memory.spec_pending() == old(self).memory.spec_pending(),
                old(self).memory.spec_pending() == Set::<int>::empty(),
                old(self).source@.len() == 0 ==> (finished || self.current.tokentype
                    == TokenType::Eof),
            decreases (if finished {
                0int
            } else {
                1int
            }), self.tokens@.len() - self.pos,
        {
            if self.match_token(TokenType::Eof) {
                finished = true;
            } else {
                self.declaration()?;
            }
        }
        self.memory.push(OpCode::Eof);
        let out = self.memory.clone_slice();
        proof {
            assert(out.spec_pending().is_empty());
            crate::memoryslice::lemma_all_jumps_patched(&out);
            assert(out.code().len() > 0);
            assert(out.code().last() == word_of(OpCode::Eof));
        }
        Ok(out)
    }

    /// The state in which compilation begins: nothing scanned, nothing
    /// parsed, nothing emitted into a chunk whose invariant holds and
    /// whose jumps, if any, are all resolved.
    pub open spec fn cwf_start(&self) -> bool {
        &&& self.scanner.wf()
        &&& self.scanner.source@ == self.source@
        &&& self.scanner.current == 0
        &&& self.memory.inv()
        &&& self.memory.spec_pending() == Set::<int>::empty()
        &&& self.tokens@.len() == 0
        &&& self.pos == 0
        &&& self.scope_depth == 0
        &&& self.func_returns == 0
        &&& self.locals@.len() == 0
        &&& self.current.tokentype != TokenType::Eof
        &&& self.current.start + self.current.length <= self.source@.len()
        &&& self.previous.start + self.previous.length <= self.source@.len()
    }

    /// A `print` statement: the compiled expression leaves one value,
    /// which the closing `Print` consumes.
    fn print_statement(&mut self) -> (r: Result<(), CompileError>)
        requires
            old(self).cwf(),
        ensures
            final(self).cwf(),
            Self::parse_frame(old(self), final(self)),
            Self::code_frame(old(self), final(self)),
            r is Ok ==> final(self).scope_depth == old(self).scope_depth && final(self).func_returns
                == old(self).func_returns && final(self).memory.spec_pending() == old(self).memory.spec_pending(),
            r is Ok ==> final(self).memory.code().len() > old(self).memory.code().len()
                && final(self).memory.code().last() == word_of(OpCode::Print),
        decreases self.tokens@.len() - self.pos, 34int,
    {
        self.expression()?;
        self.consume(TokenType::SemiColon)?;
        self.memory.push(OpCode::Print);
        Ok(())
    }

    /// An expression used as a statement: the compiled expression
    /// leaves one value, which the closing `Pop` discards, restoring
    /// the stack to its prior height.
    fn expression_statement(&mut self) -> (r: Result<(), CompileError>)
        requires
            old(self).cwf(),
        ensures
            final(self).cwf(),
            Self::parse_frame(old(self), final(self)),
            Self::code_frame(old(self), final(self)),
            r is Ok ==> final(self).scope_depth == old(self).scope_depth && final(self).func_returns
                == old(self).func_returns && final(self).memory.spec_pending() == old(self).memory.spec_pending() && final(self).pos > old(self).pos,
            r is Ok ==> final(self).memory.code().len() > old(self).memory.code().len()
                && final(self).memory.code().last() == word_of(OpCode::Pop),
            literal_statement_ahead(old(self)) ==> r is Ok && final(self).memory.code().len()
                == old(self).memory.code().len() + 2,
        decreases self.tokens@.len() - self.pos, 32int,
    {
        self.expression()?;
        self.consume(TokenType::SemiColon)?;
        self.memory.push(OpCode::Pop);
        Ok(())
    }
}

/// Whether the characters spell a number lexeme: digits, optionally
/// followed by a dot and more digits.
pub fn check_number_lexeme(s: &Vec<char>) -> (r: bool)
    ensures
        r == is_number_lexeme(s@),
{
    let n = s.len();
    if n == 0 {
        return false;
    }
    let mut i: usize = 0;
    while i < n && s[i] >= '0' && s[i] <= '9'
        invariant
            n == s@.len(),
            i <= n,
            crate::numbers::skip_digits(s@, 0) == crate::numbers::skip_digits(s@, i as int),
        decreases n - i,
    {
        i = i + 1;
    }
    proof {
        assert(crate::numbers::skip_digits(s@, i as int) == i as int);
    }
    if i == 0 {
        return false;
    }
    if i == n {
        return true;
    }
    if s[i] != '.' || i + 1 >= n {
        return false;
    }
    let mut j: usize = i + 1;
    while j < n && s[j] >= '0' && s[j] <= '9'
        invariant
            n == s@.len(),
            i + 1 <= j <= n,
            crate::numbers::skip_digits(s@, i + 1) == crate::numbers::skip_digits(s@, j as int),
        decreases n - j,
    {
        j = j + 1;
    }
    proof {
        assert(crate::numbers::skip_digits(s@, j as int) == j as int);
    }
    j == n
}

} // verus!
