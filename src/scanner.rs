use vstd::prelude::*;

use crate::text::{alphanumeric, chars_of, digit, is_alphanumeric, is_digit, text_of};
use crate::types::{keyword_of, keyword_type, TokenType};

verus! {

/// Message recorded for a character that begins no token.
pub const UNEXPECTED_CHARACTER: &'static str = "Unexpected character.";

/// Message recorded for a string literal that reaches the end of input.
pub const UNTERMINATED_STRING: &'static str = "Unterminated string.";

// ---------------------------------------------------------------------------
// Diagnostics

/// One reported problem: the source line and a message.
pub struct Diagnostic {
    pub line: usize,
    pub message: String,
}

impl View for Diagnostic {
    type V = (nat, Seq<char>);

    open spec fn view(&self) -> (nat, Seq<char>) {
        (self.line as nat, self.message@)
    }
}

/// Collects diagnostics and keeps a sticky "has error" flag.
pub struct ErrorHandler {
    pub has_error: bool,
    pub diagnostics: Vec<Diagnostic>,
}

impl ErrorHandler {
    /// Every diagnostic recorded so far, oldest first.
    pub open spec fn log(&self) -> Seq<(nat, Seq<char>)> {
        self.diagnostics@.map_values(|d: Diagnostic| d@)
    }

    pub fn new() -> (r: Self)
        ensures
            !r.has_error,
            r.log() == Seq::<(nat, Seq<char>)>::empty(),
    {
        let r = ErrorHandler { has_error: false, diagnostics: Vec::new() };
        assert(r.log() =~= Seq::<(nat, Seq<char>)>::empty());
        r
    }

    /// Records `message` for `line` and raises the flag.
    pub fn error(&mut self, line: usize, message: &str)
        ensures
            final(self).has_error,
            final(self).log() == old(self).log().push((line as nat, message@)),
    {
        self.report(line, message);
    }

    fn report(&mut self, line: usize, message: &str)
        ensures
            final(self).has_error,
            final(self).log() == old(self).log().push((line as nat, message@)),
    {
        let d = Diagnostic { line, message: message.to_owned() };
        self.diagnostics.push(d);
        self.has_error = true;
        assert(self.log() =~= old(self).log().push((line as nat, message@)));
    }

    /// Lowers the flag; the recorded diagnostics stay.
    pub fn reset(&mut self)
        ensures
            !final(self).has_error,
            final(self).log() == old(self).log(),
    {
        self.has_error = false;
    }
}

impl Default for ErrorHandler {
    fn default() -> (r: Self)
        ensures
            !r.has_error,
            r.log() == Seq::<(nat, Seq<char>)>::empty(),
    {
        ErrorHandler::new()
    }
}

// ---------------------------------------------------------------------------
// Tokens

/// The literal payload of a token or of a literal expression.
/// A number keeps the numeral exactly as it was written.
pub enum LiteralType {
    Str(String),
    Num(String),
    Bool(bool),
    Null,
}

/// The mathematical value of a `LiteralType`.
pub enum LiteralValue {
    Str(Seq<char>),
    Num(Seq<char>),
    Bool(bool),
    Null,
}

impl View for LiteralType {
    type V = LiteralValue;

    open spec fn view(&self) -> LiteralValue {
        match self {
            LiteralType::Str(s) => LiteralValue::Str(s@),
            LiteralType::Num(s) => LiteralValue::Num(s@),
            LiteralType::Bool(b) => LiteralValue::Bool(*b),
            LiteralType::Null => LiteralValue::Null,
        }
    }
}

impl LiteralType {
    pub fn duplicate(&self) -> (r: LiteralType)
        ensures
            r@ == self@,
    {
        match self {
            LiteralType::Str(s) => LiteralType::Str(s.clone()),
            LiteralType::Num(s) => LiteralType::Num(s.clone()),
            LiteralType::Bool(b) => LiteralType::Bool(*b),
            LiteralType::Null => LiteralType::Null,
        }
    }
}

/// The mathematical value of a `Token`.
pub struct TokenView {
    pub ttype: TokenType,
    pub lexeme: Seq<char>,
    pub literal: LiteralValue,
    pub line: nat,
}

/// A scanned token: its category, its exact spelling, its literal payload
/// and the source line it ends on.
pub struct Token {
    ttype: TokenType,
    lexeme: String,
    literal: LiteralType,
    line: usize,
}

impl View for Token {
    type V = TokenView;

    closed spec fn view(&self) -> TokenView {
        TokenView {
            ttype: self.ttype,
            lexeme: self.lexeme@,
            literal: self.literal@,
            line: self.line as nat,
        }
    }
}

impl Token {
    pub fn new(ttype: TokenType, lexeme: String, literal: LiteralType, line: usize) -> (r: Token)
        ensures
            r@ == (TokenView { ttype, lexeme: lexeme@, literal: literal@, line: line as nat }),
    {
        Token { ttype, lexeme, literal, line }
    }

    pub fn ttype(&self) -> (r: TokenType)
        ensures
            r == self@.ttype,
    {
        self.ttype
    }

    pub fn lexeme(&self) -> (r: &String)
        ensures
            r@ == self@.lexeme,
    {
        &self.lexeme
    }

    pub fn literal(&self) -> (r: &LiteralType)
        ensures
            r@ == self@.literal,
    {
        &self.literal
    }

    pub fn line(&self) -> (r: usize)
        ensures
            r == self@.line,
    {
        self.line
    }

    pub fn duplicate(&self) -> (r: Token)
        ensures
            r@ == self@,
    {
        Token {
            ttype: self.ttype,
            lexeme: self.lexeme.clone(),
            literal: self.literal.duplicate(),
            line: self.line,
        }
    }
}

/// The views of a sequence of tokens.
pub open spec fn token_views(ts: Seq<Token>) -> Seq<TokenView> {
    ts.map_values(|t: Token| t@)
}

// ---------------------------------------------------------------------------
// What a scan produces

/// A letter or underscore: the start of an identifier.
pub open spec fn starts_identifier(c: char) -> bool {
    ('a' <= c && c <= 'z') || ('A' <= c && c <= 'Z') || c == '_'
}

/// A letter, digit or underscore: the rest of an identifier.
pub open spec fn continues_identifier(c: char) -> bool {
    alphanumeric(c) || c == '_'
}

/// The first index from `i` on whose character does not satisfy `stays`,
/// or the length of `src`.
pub open spec fn run_end(src: Seq<char>, i: int, stays: spec_fn(char) -> bool) -> int
    decreases src.len() - i,
{
    if i < 0 || i >= src.len() || !stays(src[i]) {
        i
    } else {
        run_end(src, i + 1, stays)
    }
}

pub open spec fn digits_end(src: Seq<char>, i: int) -> int {
    run_end(src, i, |c: char| is_digit(c))
}

pub open spec fn identifier_end(src: Seq<char>, i: int) -> int {
    run_end(src, i, |c: char| continues_identifier(c))
}

/// Where a line comment that reaches `i` stops: at the next newline.
pub open spec fn comment_end(src: Seq<char>, i: int) -> int {
    run_end(src, i, |c: char| c != '\n')
}

/// Where the body of a string literal that reaches `i` stops: at the next quote.
pub open spec fn string_end(src: Seq<char>, i: int) -> int {
    run_end(src, i, |c: char| c != '"')
}

/// The number of newline characters in `s`.
pub open spec fn newlines(s: Seq<char>) -> nat
    decreases s.len(),
{
    if s.len() == 0 {
        0
    } else {
        newlines(s.drop_last()) + if s.last() == '\n' { 1nat } else { 0nat }
    }
}

/// Whether `src[i]` exists and is `c`.
pub open spec fn followed_by(src: Seq<char>, i: int, c: char) -> bool {
    0 <= i < src.len() && src[i] == c
}

/// One step of the scan: where the next token starts, the line there, the
/// token emitted (if any) and the diagnostic recorded (if any).
pub struct Step {
    pub next: int,
    pub line: nat,
    pub token: Option<TokenView>,
    pub error: Option<(nat, Seq<char>)>,
}

/// A token without literal payload spelled `src[start..end]`.
pub open spec fn plain(src: Seq<char>, start: int, end: int, line: nat, ttype: TokenType) -> Step {
    Step {
        next: end,
        line,
        token: Some(
            TokenView {
                ttype,
                lexeme: src.subrange(start, end),
                literal: LiteralValue::Null,
                line,
            },
        ),
        error: None,
    }
}

/// Text skipped without a token.
pub open spec fn skipped(end: int, line: nat) -> Step {
    Step { next: end, line, token: None, error: None }
}

/// A one-character operator that becomes `two` when `=` follows it.
pub open spec fn with_equal(
    src: Seq<char>,
    start: int,
    line: nat,
    one: TokenType,
    two: TokenType,
) -> Step {
    if followed_by(src, start + 1, '=') {
        plain(src, start, start + 2, line, two)
    } else {
        plain(src, start, start + 1, line, one)
    }
}

/// A string literal opened by the quote at `start`.
pub open spec fn string_step(src: Seq<char>, start: int, line: nat) -> Step {
    let close = string_end(src, start + 1);
    if close >= src.len() {
        let at = line + newlines(src.subrange(start + 1, src.len() as int));
        Step { next: src.len() as int, line: at, token: None, error: Some((at, UNTERMINATED_STRING@)) }
    } else {
        let at = line + newlines(src.subrange(start + 1, close));
        Step {
            next: close + 1,
            line: at,
            token: Some(
                TokenView {
                    ttype: TokenType::String,
                    lexeme: src.subrange(start, close + 1),
                    literal: LiteralValue::Str(src.subrange(start + 1, close)),
                    line: at,
                },
            ),
            error: None,
        }
    }
}

/// Where a numeral that starts at `start` ends: its digits, and a fraction
/// only where a digit follows the dot.
pub open spec fn number_end(src: Seq<char>, start: int) -> int {
    let e = digits_end(src, start + 1);
    if followed_by(src, e, '.') && e + 1 < src.len() && is_digit(src[e + 1]) {
        digits_end(src, e + 1)
    } else {
        e
    }
}

pub open spec fn number_step(src: Seq<char>, start: int, line: nat) -> Step {
    let end = number_end(src, start);
    let text = src.subrange(start, end);
    Step {
        next: end,
        line,
        token: Some(TokenView { ttype: TokenType::Number, lexeme: text, literal: LiteralValue::Num(text), line }),
        error: None,
    }
}

/// The category of an identifier-shaped word: its reserved word, or `Identifier`.
pub open spec fn word_type(text: Seq<char>) -> TokenType {
    match keyword_of(text) {
        Some(t) => t,
        None => TokenType::Identifier,
    }
}

pub open spec fn identifier_step(src: Seq<char>, start: int, line: nat) -> Step {
    let end = identifier_end(src, start + 1);
    plain(src, start, end, line, word_type(src.subrange(start, end)))
}

/// The step taken at `start`, on line `line`.
pub open spec fn scan_step(src: Seq<char>, start: int, line: nat) -> Step {
    let c = src[start];
    if c == '(' {
        plain(src, start, start + 1, line, TokenType::LeftParen)
    } else if c == ')' {
        plain(src, start, start + 1, line, TokenType::RightParen)
    } else if c == '{' {
        plain(src, start, start + 1, line, TokenType::LeftBrace)
    } else if c == '}' {
        plain(src, start, start + 1, line, TokenType::RightBrace)
    } else if c == ',' {
        plain(src, start, start + 1, line, TokenType::Comma)
    } else if c == '.' {
        plain(src, start, start + 1, line, TokenType::Dot)
    } else if c == '-' {
        plain(src, start, start + 1, line, TokenType::Minus)
    } else if c == '+' {
        plain(src, start, start + 1, line, TokenType::Plus)
    } else if c == ';' {
        plain(src, start, start + 1, line, TokenType::Semicolon)
    } else if c == '*' {
        plain(src, start, start + 1, line, TokenType::Star)
    } else if c == '!' {
        with_equal(src, start, line, TokenType::Bang, TokenType::BangEqual)
    } else if c == '=' {
        with_equal(src, start, line, TokenType::Equal, TokenType::EqualEqual)
    } else if c == '<' {
        with_equal(src, start, line, TokenType::Less, TokenType::LessEqual)
    } else if c == '>' {
        with_equal(src, start, line, TokenType::Greater, TokenType::GreaterEqual)
    } else if c == '/' {
        if followed_by(src, start + 1, '/') {
            skipped(comment_end(src, start + 2), line)
        } else {
            plain(src, start, start + 1, line, TokenType::Slash)
        }
    } else if c == ' ' || c == '\r' || c == '\t' {
        skipped(start + 1, line)
    } else if c == '\n' {
        skipped(start + 1, line + 1)
    } else if c == '"' {
        string_step(src, start, line)
    } else if is_digit(c) {
        number_step(src, start, line)
    } else if starts_identifier(c) {
        identifier_step(src, start, line)
    } else {
        Step { next: start + 1, line, token: None, error: Some((line, UNEXPECTED_CHARACTER@)) }
    }
}

pub open spec fn option_seq<A>(o: Option<A>) -> Seq<A> {
    match o {
        Some(a) => seq![a],
        None => Seq::empty(),
    }
}

/// What scanning `src` from `pos` on line `line` to its end produces.
pub struct Scan {
    pub tokens: Seq<TokenView>,
    pub errors: Seq<(nat, Seq<char>)>,
    pub line: nat,
}

/// Every step moves forward (`lemma_step_advances`): the test of that below
/// only bounds the recursion.
pub open spec fn scan_from(src: Seq<char>, pos: int, line: nat) -> Scan
    decreases src.len() - pos,
{
    if pos < 0 || pos >= src.len() {
        Scan { tokens: Seq::empty(), errors: Seq::empty(), line }
    } else {
        let step = scan_step(src, pos, line);
        if pos < step.next <= src.len() {
            let rest = scan_from(src, step.next, step.line);
            Scan {
                tokens: option_seq(step.token) + rest.tokens,
                errors: option_seq(step.error) + rest.errors,
                line: rest.line,
            }
        } else {
            Scan { tokens: Seq::empty(), errors: Seq::empty(), line }
        }
    }
}

/// The end-marker token on line `line`.
pub open spec fn eof_token(line: nat) -> TokenView {
    TokenView { ttype: TokenType::Eof, lexeme: Seq::empty(), literal: LiteralValue::Null, line }
}

/// The tokens of a whole source text, starting on line 1.
pub open spec fn scanned(src: Seq<char>) -> Seq<TokenView> {
    let s = scan_from(src, 0, 1);
    s.tokens.push(eof_token(s.line))
}

/// The diagnostics of a whole source text, starting on line 1.
pub open spec fn scan_errors(src: Seq<char>) -> Seq<(nat, Seq<char>)> {
    scan_from(src, 0, 1).errors
}

// ---------------------------------------------------------------------------
// Facts about the scan

pub proof fn lemma_run_end(src: Seq<char>, i: int, stays: spec_fn(char) -> bool)
    requires
        0 <= i <= src.len(),
    ensures
        i <= run_end(src, i, stays) <= src.len(),
        forall|k: int| i <= k < run_end(src, i, stays) ==> stays(#[trigger] src[k]),
        run_end(src, i, stays) < src.len() ==> !stays(src[run_end(src, i, stays)]),
    decreases src.len() - i,
{
    if i < src.len() && stays(src[i]) {
        lemma_run_end(src, i + 1, stays);
    }
}

pub proof fn lemma_newlines_bound(s: Seq<char>)
    ensures
        newlines(s) <= s.len(),
    decreases s.len(),
{
    if s.len() > 0 {
        lemma_newlines_bound(s.drop_last());
    }
}

/// Counting newlines over `src[a..b + 1]` adds the one at `b`, if any.
pub proof fn lemma_newlines_extend(src: Seq<char>, a: int, b: int)
    requires
        0 <= a <= b < src.len(),
    ensures
        newlines(src.subrange(a, b + 1)) == newlines(src.subrange(a, b)) + if src[b] == '\n' {
            1nat
        } else {
            0nat
        },
{
    assert(src.subrange(a, b + 1).drop_last() =~= src.subrange(a, b));
}

/// Every step moves forward, and the line grows by at most the text consumed.
pub proof fn lemma_step_advances(src: Seq<char>, start: int, line: nat)
    requires
        0 <= start < src.len(),
    ensures
        start < scan_step(src, start, line).next <= src.len(),
        line <= scan_step(src, start, line).line <= line + (scan_step(src, start, line).next - start),
{
    let c = src[start];
    lemma_run_end(src, start + 1, |c: char| is_digit(c));
    lemma_run_end(src, start + 1, |c: char| continues_identifier(c));
    lemma_run_end(src, start + 1, |c: char| c != '"');
    if start + 2 <= src.len() {
        lemma_run_end(src, start + 2, |c: char| c != '\n');
    }
    lemma_newlines_bound(src.subrange(start + 1, src.len() as int));
    let close = string_end(src, start + 1);
    if close < src.len() {
        lemma_newlines_bound(src.subrange(start + 1, close));
    }
    let e = digits_end(src, start + 1);
    if followed_by(src, e, '.') && e + 1 < src.len() && is_digit(src[e + 1]) {
        lemma_run_end(src, e + 1, |c: char| is_digit(c));
    }
}

// ---------------------------------------------------------------------------
// The scanner

/// Turns source text into tokens, one pass from left to right.
pub struct Scanner {
    source: Vec<char>,
    tokens: Vec<Token>,
    start: usize,
    current: usize,
    line: usize,
}

impl Scanner {
    /// The source text.
    pub closed spec fn text(&self) -> Seq<char> {
        self.source@
    }

    /// Where the next token starts.
    pub closed spec fn position(&self) -> int {
        self.current as int
    }

    /// The line that scanning has reached.
    pub closed spec fn line_at(&self) -> nat {
        self.line as nat
    }

    /// The tokens produced so far.
    pub closed spec fn produced(&self) -> Seq<TokenView> {
        token_views(self.tokens@)
    }

    pub closed spec fn wf(&self) -> bool {
        &&& self.source.len() < usize::MAX
        &&& self.start <= self.current <= self.source.len()
        &&& self.line <= self.current + 1
    }

    /// A scanner at the start of `source`, on line 1.
    pub fn new(source: &str) -> (r: Scanner)
        requires
            source@.len() < usize::MAX,
        ensures
            r.wf(),
            r.text() == source@,
            r.position() == 0,
            r.line_at() == 1,
            r.produced() == Seq::<TokenView>::empty(),
    {
        let r = Scanner { source: chars_of(source), tokens: Vec::new(), start: 0, current: 0, line: 1 };
        assert(r.produced() =~= Seq::<TokenView>::empty());
        r
    }

    /// The tokens produced so far.
    pub fn tokens(&self) -> (r: &Vec<Token>)
        ensures
            token_views(r@) == self.produced(),
    {
        &self.tokens
    }

    /// Gives up the scanner for the tokens it produced.
    pub fn into_tokens(self) -> (r: Vec<Token>)
        ensures
            token_views(r@) == self.produced(),
    {
        self.tokens
    }

    fn is_at_end(&self) -> (r: bool)
        ensures
            r == (self.current == self.source.len()),
    {
        self.current == self.source.len()
    }

    fn char_at(&self, index: usize) -> (r: char)
        requires
            index < self.source.len(),
        ensures
            r == self.source@[index as int],
    {
        self.source[index]
    }

    fn advance(&mut self) -> (r: char)
        requires
            old(self).current < old(self).source.len(),
        ensures
            r == old(self).source@[old(self).current as int],
            final(self).current == old(self).current + 1,
            final(self).source == old(self).source,
            final(self).tokens == old(self).tokens,
            final(self).start == old(self).start,
            final(self).line == old(self).line,
    {
        let r = self.char_at(self.current);
        self.current += 1;
        r
    }

    /// The current character, or NUL at the end.
    fn peek(&self) -> (r: char)
        ensures
            self.current < self.source.len() ==> r == self.source@[self.current as int],
            self.current >= self.source.len() ==> r == '\0',
    {
        if self.current >= self.source.len() {
            return '\0';
        }
        self.char_at(self.current)
    }

    /// The character after the current one, or NUL past the end.
    fn peek_next(&self) -> (r: char)
        requires
            self.current < self.source.len(),
        ensures
            self.current + 1 < self.source.len() ==> r == self.source@[self.current + 1],
            self.current + 1 >= self.source.len() ==> r == '\0',
    {
        if self.current + 1 >= self.source.len() {
            return '\0';
        }
        self.char_at(self.current + 1)
    }

    /// Consumes the current character when it is `expected`.
    fn cond_match(&mut self, expected: char) -> (r: bool)
        ensures
            r == followed_by(old(self).source@, old(self).current as int, expected),
            final(self).current == old(self).current + if r { 1int } else { 0int },
            final(self).source == old(self).source,
            final(self).tokens == old(self).tokens,
            final(self).start == old(self).start,
            final(self).line == old(self).line,
    {
        if self.is_at_end() {
            return false;
        }
        if self.current > self.source.len() || self.source[self.current] != expected {
            return false;
        }
        self.current += 1;
        true
    }

    fn add_token(&mut self, ttype: TokenType, literal: LiteralType)
        requires
            old(self).start <= old(self).current <= old(self).source.len(),
        ensures
            token_views(final(self).tokens@) == token_views(old(self).tokens@).push(
                TokenView {
                    ttype,
                    lexeme: old(self).source@.subrange(old(self).start as int, old(self).current as int),
                    literal: literal@,
                    line: old(self).line as nat,
                },
            ),
            final(self).source == old(self).source,
            final(self).start == old(self).start,
            final(self).current == old(self).current,
            final(self).line == old(self).line,
    {
        let text = text_of(&self.source, self.start, self.current);
        let t = Token::new(ttype, text, literal, self.line);
        self.tokens.push(t);
        assert(token_views(self.tokens@) =~= token_views(old(self).tokens@).push(t@));
    }

    fn add_token_wo_literal(&mut self, ttype: TokenType)
        requires
            old(self).start <= old(self).current <= old(self).source.len(),
        ensures
            token_views(final(self).tokens@) == token_views(old(self).tokens@).push(
                TokenView {
                    ttype,
                    lexeme: old(self).source@.subrange(old(self).start as int, old(self).current as int),
                    literal: LiteralValue::Null,
                    line: old(self).line as nat,
                },
            ),
            final(self).source == old(self).source,
            final(self).start == old(self).start,
            final(self).current == old(self).current,
            final(self).line == old(self).line,
    {
        self.add_token(ttype, LiteralType::Null);
    }
}

impl Scanner {
    /// `after` is `before` having taken `step`.
    pub closed spec fn took(before: &Scanner, after: &Scanner, step: Step) -> bool {
        &&& after.source@ == before.source@
        &&& after.start == before.start
        &&& after.current == step.next
        &&& after.line == step.line
        &&& token_views(after.tokens@) == token_views(before.tokens@) + option_seq(step.token)
    }

    /// `after` is `before` having recorded what `step` reports.
    pub open spec fn reported(before: &ErrorHandler, after: &ErrorHandler, step: Step) -> bool {
        &&& after.log() == before.log() + option_seq(step.error)
        &&& after.has_error == (before.has_error || step.error is Some)
    }

    fn process_string(&mut self, handler: &mut ErrorHandler)
        requires
            old(self).wf(),
            old(self).start < old(self).source.len(),
            old(self).current == old(self).start + 1,
        ensures
            Scanner::took(
                old(self),
                final(self),
                string_step(old(self).source@, old(self).start as int, old(self).line as nat),
            ),
            Scanner::reported(
                old(handler),
                final(handler),
                string_step(old(self).source@, old(self).start as int, old(self).line as nat),
            ),
    {
        let ghost src = self.source@;
        let ghost first = self.start + 1;
        let ghost line0 = self.line as nat;
        proof {
            lemma_run_end(src, first, |c: char| c != '"');
        }
        while !self.is_at_end() && self.peek() != '"'
            invariant
                self.source@ == src,
                self.source.len() < usize::MAX,
                self.start + 1 == first,
                first <= self.current <= string_end(src, first) <= src.len(),
                self.line == line0 + newlines(src.subrange(first, self.current as int)),
                line0 <= first + 1,
                self.tokens == old(self).tokens,
                self.start == old(self).start,
                string_end(src, first) < src.len() ==> src[string_end(src, first)] == '"',
                forall|k: int| first <= k < string_end(src, first) ==> src[k] != '"',
            decreases src.len() - self.current,
        {
            proof {
                lemma_newlines_extend(src, first, self.current as int);
                lemma_newlines_bound(src.subrange(first, self.current as int));
            }
            if self.peek() == '\n' {
                self.line += 1;
            }
            self.advance();
        }
        assert(self.current == string_end(src, first));
        if self.is_at_end() {
            assert(src.subrange(first, self.current as int) =~= src.subrange(first, src.len() as int));
            handler.error(self.line, UNTERMINATED_STRING);
            assert(handler.log() =~= old(handler).log() + option_seq(
                string_step(src, self.start as int, line0).error,
            ));
            return ;
        }
        self.advance();
        let value = text_of(&self.source, self.start + 1, self.current - 1);
        self.add_token(TokenType::String, LiteralType::Str(value));
        assert(token_views(self.tokens@) =~= token_views(old(self).tokens@) + option_seq(
            string_step(src, self.start as int, line0).token,
        ));
        assert(handler.log() =~= old(handler).log() + option_seq(
            string_step(src, self.start as int, line0).error,
        ));
    }

    fn process_number(&mut self)
        requires
            old(self).wf(),
            old(self).start < old(self).source.len(),
            old(self).current == old(self).start + 1,
        ensures
            Scanner::took(
                old(self),
                final(self),
                number_step(old(self).source@, old(self).start as int, old(self).line as nat),
            ),
    {
        let ghost src = self.source@;
        let ghost first = self.start + 1;
        proof {
            lemma_run_end(src, first, |c: char| is_digit(c));
        }
        while digit(self.peek())
            invariant
                self.source@ == src,
                self.start + 1 == first,
                first <= self.current <= digits_end(src, first) <= src.len(),
                self.tokens == old(self).tokens,
                self.start == old(self).start,
                self.line == old(self).line,
                digits_end(src, first) < src.len() ==> !is_digit(src[digits_end(src, first)]),
                forall|k: int| first <= k < digits_end(src, first) ==> is_digit(src[k]),
            decreases src.len() - self.current,
        {
            self.advance();
        }
        let ghost e = self.current as int;
        assert(e == digits_end(src, first));
        if self.peek() == '.' && digit(self.peek_next()) {
            self.advance();
            proof {
                lemma_run_end(src, e + 1, |c: char| is_digit(c));
            }
            while digit(self.peek())
                invariant
                    self.source@ == src,
                    e + 1 <= self.current <= digits_end(src, e + 1) <= src.len(),
                    self.tokens == old(self).tokens,
                    self.start == old(self).start,
                    self.line == old(self).line,
                    digits_end(src, e + 1) < src.len() ==> !is_digit(src[digits_end(src, e + 1)]),
                    forall|k: int| e + 1 <= k < digits_end(src, e + 1) ==> is_digit(src[k]),
                decreases src.len() - self.current,
            {
                self.advance();
            }
        }
        assert(self.current == number_end(src, self.start as int));
        let value = text_of(&self.source, self.start, self.current);
        self.add_token(TokenType::Number, LiteralType::Num(value));
        assert(token_views(self.tokens@) =~= token_views(old(self).tokens@) + option_seq(
            number_step(src, self.start as int, self.line as nat).token,
        ));
    }

    fn process_identifier(&mut self)
        requires
            old(self).wf(),
            old(self).start < old(self).source.len(),
            old(self).current == old(self).start + 1,
        ensures
            Scanner::took(
                old(self),
                final(self),
                identifier_step(old(self).source@, old(self).start as int, old(self).line as nat),
            ),
    {
        let ghost src = self.source@;
        let ghost first = self.start + 1;
        proof {
            lemma_run_end(src, first, |c: char| continues_identifier(c));
        }
        while !self.is_at_end() && (is_alphanumeric(self.peek()) || self.peek() == '_')
            invariant
                self.source@ == src,
                self.start + 1 == first,
                first <= self.current <= identifier_end(src, first) <= src.len(),
                self.tokens == old(self).tokens,
                self.start == old(self).start,
                self.line == old(self).line,
                identifier_end(src, first) < src.len() ==> !continues_identifier(
                    src[identifier_end(src, first)],
                ),
                forall|k: int|
                    first <= k < identifier_end(src, first) ==> continues_identifier(src[k]),
            decreases src.len() - self.current,
        {
            self.advance();
        }
        let ttype = match keyword_type(&self.source, self.start, self.current) {
            Some(t) => t,
            None => TokenType::Identifier,
        };
        self.add_token_wo_literal(ttype);
        assert(token_views(self.tokens@) =~= token_views(old(self).tokens@) + option_seq(
            identifier_step(src, self.start as int, self.line as nat).token,
        ));
    }
}

/// Whether `c` may begin an identifier.
fn identifier_start(c: char) -> (r: bool)
    ensures
        r == starts_identifier(c),
{
    ('a' <= c && c <= 'z') || ('A' <= c && c <= 'Z') || c == '_'
}

impl Scanner {
    /// Skips a line comment whose two slashes are consumed, up to the newline.
    fn skip_comment(&mut self)
        requires
            old(self).wf(),
            old(self).current == old(self).start + 2,
        ensures
            final(self).current == comment_end(old(self).source@, old(self).current as int),
            final(self).source@ == old(self).source@,
            final(self).tokens == old(self).tokens,
            final(self).start == old(self).start,
            final(self).line == old(self).line,
    {
        let ghost src = self.source@;
        let ghost first = self.current as int;
        proof {
            lemma_run_end(src, first, |c: char| c != '\n');
        }
        while !self.is_at_end() && self.peek() != '\n'
            invariant
                self.source@ == src,
                first <= self.current <= comment_end(src, first) <= src.len(),
                self.tokens == old(self).tokens,
                self.start == old(self).start,
                self.line == old(self).line,
                comment_end(src, first) < src.len() ==> src[comment_end(src, first)] == '\n',
                forall|k: int| first <= k < comment_end(src, first) ==> src[k] != '\n',
            decreases src.len() - self.current,
        {
            self.advance();
        }
    }

    /// Scans the token that starts at the current position.
    fn scan_token(&mut self, handler: &mut ErrorHandler)
        requires
            old(self).wf(),
            old(self).start == old(self).current,
            old(self).current < old(self).source.len(),
        ensures
            final(self).wf(),
            Scanner::took(
                old(self),
                final(self),
                scan_step(old(self).source@, old(self).start as int, old(self).line as nat),
            ),
            Scanner::reported(
                old(handler),
                final(handler),
                scan_step(old(self).source@, old(self).start as int, old(self).line as nat),
            ),
    {
        let ghost src = self.source@;
        let ghost start = self.start as int;
        let ghost line0 = self.line as nat;
        proof {
            lemma_step_advances(src, start, line0);
        }
        let c: char = self.advance();
        if c == '(' {
            self.add_token_wo_literal(TokenType::LeftParen);
        } else if c == ')' {
            self.add_token_wo_literal(TokenType::RightParen);
        } else if c == '{' {
            self.add_token_wo_literal(TokenType::LeftBrace);
        } else if c == '}' {
            self.add_token_wo_literal(TokenType::RightBrace);
        } else if c == ',' {
            self.add_token_wo_literal(TokenType::Comma);
        } else if c == '.' {
            self.add_token_wo_literal(TokenType::Dot);
        } else if c == '-' {
            self.add_token_wo_literal(TokenType::Minus);
        } else if c == '+' {
            self.add_token_wo_literal(TokenType::Plus);
        } else if c == ';' {
            self.add_token_wo_literal(TokenType::Semicolon);
        } else if c == '*' {
            self.add_token_wo_literal(TokenType::Star);
        } else if c == '!' {
            let matched_equal = self.cond_match('=');
            self.add_token_wo_literal(
                if matched_equal {
                    TokenType::BangEqual
                } else {
                    TokenType::Bang
                },
            );
        } else if c == '=' {
            let matched_equal = self.cond_match('=');
            self.add_token_wo_literal(
                if matched_equal {
                    TokenType::EqualEqual
                } else {
                    TokenType::Equal
                },
            );
        } else if c == '<' {
            let matched_equal = self.cond_match('=');
            self.add_token_wo_literal(
                if matched_equal {
                    TokenType::LessEqual
                } else {
                    TokenType::Less
                },
            );
        } else if c == '>' {
            let matched_equal = self.cond_match('=');
            self.add_token_wo_literal(
                if matched_equal {
                    TokenType::GreaterEqual
                } else {
                    TokenType::Greater
                },
            );
        } else if c == '/' {
            let matched_slash = self.cond_match('/');
            if matched_slash {
                self.skip_comment();
            } else {
                self.add_token_wo_literal(TokenType::Slash);
            }
        } else if c == ' ' || c == '\r' || c == '\t' {
        } else if c == '\n' {
            self.line += 1;
        } else if c == '"' {
            self.process_string(handler);
        } else if digit(c) {
            self.process_number();
        } else if identifier_start(c) {
            self.process_identifier();
        } else {
            handler.error(self.line, UNEXPECTED_CHARACTER);
        }
        assert(token_views(self.tokens@) =~= token_views(old(self).tokens@) + option_seq(
            scan_step(src, start, line0).token,
        ));
        assert(handler.log() =~= old(handler).log() + option_seq(scan_step(src, start, line0).error));
    }

    /// Scans from the current position to the end of the source, then
    /// appends the end-marker token.
    pub fn scan_tokens(&mut self, handler: &mut ErrorHandler)
        requires
            old(self).wf(),
        ensures
            final(self).wf(),
            final(self).text() == old(self).text(),
            final(self).position() == old(self).text().len(),
            ({
                let s = scan_from(old(self).text(), old(self).position(), old(self).line_at());
                &&& final(self).line_at() == s.line
                &&& final(self).produced() == old(self).produced() + s.tokens.push(eof_token(s.line))
                &&& final(handler).log() == old(handler).log() + s.errors
                &&& final(handler).has_error == (old(handler).has_error || s.errors.len() > 0)
            }),
    {
        let ghost src = self.source@;
        let ghost whole = scan_from(src, self.current as int, self.line as nat);
        let ghost toks0 = token_views(self.tokens@);
        assert(toks0 + whole.tokens =~= token_views(self.tokens@) + whole.tokens);
        assert(old(handler).log() + whole.errors =~= handler.log() + whole.errors);
        while !self.is_at_end()
            invariant
                self.wf(),
                self.source@ == src,
                scan_from(src, self.current as int, self.line as nat).line == whole.line,
                token_views(self.tokens@) + scan_from(src, self.current as int, self.line as nat).tokens
                    == toks0 + whole.tokens,
                handler.log() + scan_from(src, self.current as int, self.line as nat).errors
                    == old(handler).log() + whole.errors,
                handler.log().len() >= old(handler).log().len(),
                handler.has_error == (old(handler).has_error || handler.log().len() > old(
                    handler,
                ).log().len()),
            decreases src.len() - self.current,
        {
            self.start = self.current;
            let ghost before = token_views(self.tokens@);
            let ghost log_before = handler.log();
            let ghost step = scan_step(src, self.current as int, self.line as nat);
            proof {
                lemma_step_advances(src, self.current as int, self.line as nat);
            }
            let ghost c0 = self.current as int;
            let ghost l0 = self.line as nat;
            self.scan_token(handler);
            proof {
                let rest = scan_from(src, self.current as int, self.line as nat);
                assert(scan_from(src, c0, l0).tokens == option_seq(step.token) + rest.tokens);
                assert(scan_from(src, c0, l0).errors == option_seq(step.error) + rest.errors);
                assert(scan_from(src, c0, l0).line == rest.line);
                assert(step.error is Some ==> option_seq(step.error).len() == 1);
                assert(handler.log().len() == log_before.len() + option_seq(step.error).len());
                assert(before + (option_seq(step.token) + rest.tokens) =~= token_views(self.tokens@)
                    + rest.tokens);
                assert(log_before + (option_seq(step.error) + rest.errors) =~= handler.log()
                    + rest.errors);
            }
        }
        proof {
            assert(token_views(self.tokens@) =~= toks0 + whole.tokens);
            assert(handler.log() =~= old(handler).log() + whole.errors);
        }
        self.start = self.current;
        let ghost l = self.line;
        self.add_token_wo_literal(TokenType::Eof);
        proof {
            assert(src.subrange(self.current as int, self.current as int) =~= Seq::<char>::empty());
            assert(token_views(self.tokens@) =~= toks0 + whole.tokens.push(eof_token(whole.line)));
        }
    }
}

// ---------------------------------------------------------------------------
// Laws of the scan

/// A run that stops exactly at `e` ends at `e`.
pub proof fn lemma_run_end_at(src: Seq<char>, i: int, e: int, stays: spec_fn(char) -> bool)
    requires
        0 <= i <= e <= src.len(),
        forall|k: int| i <= k < e ==> stays(#[trigger] src[k]),
        e == src.len() || !stays(src[e]),
    ensures
        run_end(src, i, stays) == e,
    decreases e - i,
{
    if i < e {
        lemma_run_end_at(src, i + 1, e, stays);
    }
}

/// Scanning from a position inside the text takes one step, then goes on
/// from where that step stops.
pub proof fn lemma_scan_unfold(src: Seq<char>, pos: int, line: nat)
    requires
        0 <= pos < src.len(),
    ensures
        ({
            let step = scan_step(src, pos, line);
            let rest = scan_from(src, step.next, step.line);
            scan_from(src, pos, line) == (Scan {
                tokens: option_seq(step.token) + rest.tokens,
                errors: option_seq(step.error) + rest.errors,
                line: rest.line,
            })
        }),
{
    lemma_step_advances(src, pos, line);
}

/// Maximal munch: `!`, `=`, `<` or `>` followed by `=` scans as one
/// two-character operator token, and scanning goes on after both characters.
pub proof fn lemma_two_char_operator(src: Seq<char>, start: int, line: nat)
    requires
        0 <= start,
        start + 1 < src.len(),
        src[start] == '!' || src[start] == '=' || src[start] == '<' || src[start] == '>',
        src[start + 1] == '=',
    ensures
        ({
            let ttype = if src[start] == '!' {
                TokenType::BangEqual
            } else if src[start] == '=' {
                TokenType::EqualEqual
            } else if src[start] == '<' {
                TokenType::LessEqual
            } else {
                TokenType::GreaterEqual
            };
            let tok = TokenView {
                ttype,
                lexeme: seq![src[start], '='],
                literal: LiteralValue::Null,
                line,
            };
            &&& scan_from(src, start, line).tokens == seq![tok] + scan_from(src, start + 2, line).tokens
            &&& scan_from(src, start, line).errors == scan_from(src, start + 2, line).errors
        }),
{
    lemma_scan_unfold(src, start, line);
    assert(src.subrange(start, start + 2) =~= seq![src[start], '=']);
    assert(option_seq(scan_step(src, start, line).error) + scan_from(src, start + 2, line).errors
        =~= scan_from(src, start + 2, line).errors);
}

/// A line comment yields no token and no diagnostic: scanning resumes at
/// the newline that ends it, which alone raises the line by one.
pub proof fn lemma_comment(src: Seq<char>, start: int, end: int, line: nat)
    requires
        0 <= start,
        start + 2 <= end <= src.len(),
        src[start] == '/',
        src[start + 1] == '/',
        forall|k: int| start + 2 <= k < end ==> src[k] != '\n',
        end == src.len() || src[end] == '\n',
    ensures
        scan_from(src, start, line) == scan_from(src, end, line),
        end < src.len() ==> scan_from(src, end, line) == scan_from(src, end + 1, line + 1),
{
    lemma_run_end_at(src, start + 2, end, |c: char| c != '\n');
    lemma_scan_unfold(src, start, line);
    assert(scan_from(src, start, line) =~= scan_from(src, end, line));
    if end < src.len() {
        lemma_scan_unfold(src, end, line);
        assert(scan_from(src, end, line) =~= scan_from(src, end + 1, line + 1));
    }
}

/// A numeral with a fraction scans as one Number token that keeps the whole
/// numeral.
pub proof fn lemma_number_with_fraction(src: Seq<char>, start: int, dot: int, end: int, line: nat)
    requires
        0 <= start < dot,
        dot + 1 < end <= src.len(),
        forall|k: int| start <= k < end && k != dot ==> is_digit(#[trigger] src[k]),
        src[dot] == '.',
        end == src.len() || !is_digit(src[end]),
    ensures
        ({
            let text = src.subrange(start, end);
            let tok = TokenView {
                ttype: TokenType::Number,
                lexeme: text,
                literal: LiteralValue::Num(text),
                line,
            };
            &&& scan_from(src, start, line).tokens == seq![tok] + scan_from(src, end, line).tokens
            &&& scan_from(src, start, line).errors == scan_from(src, end, line).errors
        }),
{
    lemma_run_end_at(src, start + 1, dot, |c: char| is_digit(c));
    lemma_run_end_at(src, dot + 1, end, |c: char| is_digit(c));
    lemma_scan_unfold(src, start, line);
    assert(seq![] + scan_from(src, end, line).errors =~= scan_from(src, end, line).errors);
}

/// A dot after a numeral that no digit follows is not part of it: the
/// numeral scans as a Number token and the dot as a Dot token.
pub proof fn lemma_number_trailing_dot(src: Seq<char>, start: int, dot: int, line: nat)
    requires
        0 <= start < dot < src.len(),
        forall|k: int| start <= k < dot ==> is_digit(#[trigger] src[k]),
        src[dot] == '.',
        dot + 1 == src.len() || !is_digit(src[dot + 1]),
    ensures
        ({
            let text = src.subrange(start, dot);
            let number = TokenView {
                ttype: TokenType::Number,
                lexeme: text,
                literal: LiteralValue::Num(text),
                line,
            };
            let dot_token = TokenView {
                ttype: TokenType::Dot,
                lexeme: seq!['.'],
                literal: LiteralValue::Null,
                line,
            };
            &&& scan_from(src, start, line).tokens == seq![number, dot_token] + scan_from(
                src,
                dot + 1,
                line,
            ).tokens
            &&& scan_from(src, start, line).errors == scan_from(src, dot + 1, line).errors
        }),
{
    lemma_run_end_at(src, start + 1, dot, |c: char| is_digit(c));
    lemma_scan_unfold(src, start, line);
    lemma_scan_unfold(src, dot, line);
    assert(src.subrange(dot, dot + 1) =~= seq!['.']);
    let rest = scan_from(src, dot + 1, line);
    assert(seq![] + (seq![] + rest.errors) =~= rest.errors);
    let number = scan_step(src, start, line).token->Some_0;
    let dot_token = scan_step(src, dot, line).token->Some_0;
    assert(seq![number] + (seq![dot_token] + rest.tokens) =~= seq![number, dot_token] + rest.tokens);
}

/// A closed string literal scans as one String token whose literal is the
/// text strictly between the quotes; newlines inside it count towards the line.
pub proof fn lemma_string(src: Seq<char>, start: int, close: int, line: nat)
    requires
        0 <= start < close < src.len(),
        src[start] == '"',
        src[close] == '"',
        forall|k: int| start < k < close ==> src[k] != '"',
    ensures
        ({
            let at = line + newlines(src.subrange(start + 1, close));
            let tok = TokenView {
                ttype: TokenType::String,
                lexeme: src.subrange(start, close + 1),
                literal: LiteralValue::Str(src.subrange(start + 1, close)),
                line: at,
            };
            &&& scan_from(src, start, line).tokens == seq![tok] + scan_from(src, close + 1, at).tokens
            &&& scan_from(src, start, line).errors == scan_from(src, close + 1, at).errors
        }),
{
    lemma_run_end_at(src, start + 1, close, |c: char| c != '"');
    lemma_scan_unfold(src, start, line);
    let at = line + newlines(src.subrange(start + 1, close));
    assert(seq![] + scan_from(src, close + 1, at).errors =~= scan_from(src, close + 1, at).errors);
}

/// A string literal left open to the end of the text yields no token and
/// exactly one diagnostic, and scanning stops there.
pub proof fn lemma_unterminated_string(src: Seq<char>, start: int, line: nat)
    requires
        0 <= start < src.len(),
        src[start] == '"',
        forall|k: int| start < k < src.len() ==> src[k] != '"',
    ensures
        ({
            let at = line + newlines(src.subrange(start + 1, src.len() as int));
            scan_from(src, start, line) == (Scan {
                tokens: Seq::empty(),
                errors: seq![(at, UNTERMINATED_STRING@)],
                line: at,
            })
        }),
{
    lemma_run_end_at(src, start + 1, src.len() as int, |c: char| c != '"');
    lemma_scan_unfold(src, start, line);
    let at = line + newlines(src.subrange(start + 1, src.len() as int));
    assert(scan_from(src, start, line) =~= (Scan {
        tokens: Seq::empty(),
        errors: seq![(at, UNTERMINATED_STRING@)],
        line: at,
    }));
}

/// A word scans as one token over its whole run of letters, digits and
/// underscores; only then is it looked up among the reserved words.
pub proof fn lemma_word(src: Seq<char>, start: int, end: int, line: nat)
    requires
        0 <= start < end <= src.len(),
        starts_identifier(src[start]),
        forall|k: int| start < k < end ==> continues_identifier(#[trigger] src[k]),
        end == src.len() || !continues_identifier(src[end]),
    ensures
        ({
            let text = src.subrange(start, end);
            let tok = TokenView {
                ttype: word_type(text),
                lexeme: text,
                literal: LiteralValue::Null,
                line,
            };
            &&& scan_from(src, start, line).tokens == seq![tok] + scan_from(src, end, line).tokens
            &&& scan_from(src, start, line).errors == scan_from(src, end, line).errors
        }),
{
    lemma_run_end_at(src, start + 1, end, |c: char| continues_identifier(c));
    lemma_scan_unfold(src, start, line);
    assert(seq![] + scan_from(src, end, line).errors =~= scan_from(src, end, line).errors);
}

/// The tokens of a scan from `pos` are never the end-marker, and their lines
/// never decrease, from `line` up to the line the scan ends on.
pub proof fn lemma_scan_order(src: Seq<char>, pos: int, line: nat)
    ensures
        ({
            let s = scan_from(src, pos, line);
            &&& line <= s.line
            &&& forall|i: int|
                0 <= i < s.tokens.len() ==> (#[trigger] s.tokens[i]).ttype != TokenType::Eof && line
                    <= s.tokens[i].line <= s.line
            &&& forall|i: int, j: int|
                0 <= i <= j < s.tokens.len() ==> (#[trigger] s.tokens[i]).line <= (
                #[trigger] s.tokens[j]).line
        }),
    decreases src.len() - pos,
{
    if 0 <= pos < src.len() {
        let step = scan_step(src, pos, line);
        lemma_step_advances(src, pos, line);
        lemma_scan_order(src, step.next, step.line);
        let rest = scan_from(src, step.next, step.line);
        let s = scan_from(src, pos, line);
        assert(step.token is Some ==> step.token->Some_0.line == step.line && step.token->Some_0.ttype
            != TokenType::Eof);
        if step.token is Some {
            assert(s.tokens == seq![step.token->Some_0] + rest.tokens);
            assert forall|i: int| 0 < i < s.tokens.len() implies s.tokens[i] == rest.tokens[i - 1] by {}
        } else {
            assert(s.tokens =~= rest.tokens);
        }
    }
}

/// The tokens of a whole source text end with exactly one end-marker, and
/// their lines start at 1 and never decrease.
pub proof fn lemma_scanned_order(src: Seq<char>)
    ensures
        scanned(src).len() > 0,
        scanned(src).last().ttype == TokenType::Eof,
        forall|i: int| 0 <= i < scanned(src).len() - 1 ==> (#[trigger] scanned(src)[i]).ttype != TokenType::Eof,
        forall|i: int| 0 <= i < scanned(src).len() ==> 1 <= (#[trigger] scanned(src)[i]).line,
        forall|i: int, j: int|
            0 <= i <= j < scanned(src).len() ==> (#[trigger] scanned(src)[i]).line <= (
            #[trigger] scanned(src)[j]).line,
{
    lemma_scan_order(src, 0, 1);
    let s = scan_from(src, 0, 1);
    assert forall|i: int| 0 <= i < s.tokens.len() implies scanned(src)[i] == s.tokens[i] by {}
}

} // verus!
