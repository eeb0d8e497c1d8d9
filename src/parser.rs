use vstd::prelude::*;

use crate::ast::{Expr, ExprView};
use crate::scanner::{LiteralType, LiteralValue, Token, TokenView, token_views};
use crate::types::TokenType;

verus! {

/// Why a parse failed.
#[derive(Copy, Clone, Debug, PartialEq, Eq, Structural)]
pub enum ParseErrorKind {
    /// No expression starts at the token.
    ExpectExpression,
    /// A parenthesised expression is not closed at the token.
    ExpectRightParen,
}

/// A parse failure and the token at which it happened.
pub struct ParseError {
    pub kind: ParseErrorKind,
    pub token: Token,
}

impl ParseError {
    /// The message that describes the failure.
    pub fn message(&self) -> (r: &'static str)
        ensures
            self.kind == ParseErrorKind::ExpectExpression ==> r@ == "Expect expression."@,
            self.kind == ParseErrorKind::ExpectRightParen ==> r@ == "Expect ')' after expression."@,
    {
        match self.kind {
            ParseErrorKind::ExpectExpression => "Expect expression.",
            ParseErrorKind::ExpectRightParen => "Expect ')' after expression.",
        }
    }
}

/// What parsing from a position yields: a tree and the position after it,
/// or the kind of failure and the position where it happened.
pub type Outcome = Result<(ExprView, int), (ParseErrorKind, int)>;

/// Operators of the binary levels, loosest first: equality, comparison,
/// term, factor.
pub open spec fn level_operators(level: nat) -> Seq<TokenType> {
    if level == 0 {
        seq![TokenType::BangEqual, TokenType::EqualEqual]
    } else if level == 1 {
        seq![TokenType::Greater, TokenType::GreaterEqual, TokenType::Less, TokenType::LessEqual]
    } else if level == 2 {
        seq![TokenType::Minus, TokenType::Plus]
    } else {
        seq![TokenType::Slash, TokenType::Star]
    }
}

/// The tokens of the unary prefix operators.
pub open spec fn unary_operators() -> Seq<TokenType> {
    seq![TokenType::Bang, TokenType::Minus]
}

/// Whether the token at `pos` is not the end-marker and has one of `types`.
pub open spec fn matches_at(toks: Seq<TokenView>, pos: int, types: Seq<TokenType>) -> bool {
    &&& 0 <= pos < toks.len()
    &&& toks[pos].ttype != TokenType::Eof
    &&& types.contains(toks[pos].ttype)
}

/// Parses at `level` from `pos`: levels 0 to 3 are the binary levels
/// (equality, comparison, term, factor), 4 is unary, 5 is primary.
/// A successful parse always ends past where it started
/// (`lemma_parse_advances`); the tests of that below only bound the recursion.
pub open spec fn parse_level(toks: Seq<TokenView>, pos: int, level: nat) -> Outcome
    decreases toks.len() - pos, 6 - level, 1nat,
{
    if level <= 3 {
        match parse_level(toks, pos, level + 1) {
            Err(e) => Err(e),
            Ok((left, p)) => if pos < p <= toks.len() {
                parse_chain(toks, p, level, left)
            } else {
                Err((ParseErrorKind::ExpectExpression, pos))
            },
        }
    } else if level == 4 {
        if matches_at(toks, pos, unary_operators()) && pos + 1 <= toks.len() {
            match parse_level(toks, pos + 1, 4) {
                Err(e) => Err(e),
                Ok((right, p)) => Ok((ExprView::Unary { operator: toks[pos], right: Box::new(right) }, p)),
            }
        } else {
            parse_level(toks, pos, 5)
        }
    } else if level == 5 {
        parse_primary(toks, pos)
    } else {
        Err((ParseErrorKind::ExpectExpression, pos))
    }
}

/// Folds operators of `level` and their right operands onto `left`, from `pos`.
pub open spec fn parse_chain(toks: Seq<TokenView>, pos: int, level: nat, left: ExprView) -> Outcome
    decreases toks.len() - pos, 0nat, 0nat,
{
    if level <= 3 && matches_at(toks, pos, level_operators(level)) {
        match parse_level(toks, pos + 1, level + 1) {
            Err(e) => Err(e),
            Ok((right, p)) => if pos < p <= toks.len() {
                parse_chain(
                    toks,
                    p,
                    level,
                    ExprView::Binary { left: Box::new(left), operator: toks[pos], right: Box::new(right) },
                )
            } else {
                Err((ParseErrorKind::ExpectExpression, pos))
            },
        }
    } else {
        Ok((left, pos))
    }
}

/// The terminal productions, from `pos`.
pub open spec fn parse_primary(toks: Seq<TokenView>, pos: int) -> Outcome
    decreases toks.len() - pos, 0nat, 0nat,
{
    if matches_at(toks, pos, seq![TokenType::False]) {
        Ok((ExprView::Literal { value: LiteralValue::Bool(false) }, pos + 1))
    } else if matches_at(toks, pos, seq![TokenType::True]) {
        Ok((ExprView::Literal { value: LiteralValue::Bool(true) }, pos + 1))
    } else if matches_at(toks, pos, seq![TokenType::Nil]) {
        Ok((ExprView::Literal { value: LiteralValue::Null }, pos + 1))
    } else if matches_at(toks, pos, seq![TokenType::Number, TokenType::String]) {
        Ok((ExprView::Literal { value: toks[pos].literal }, pos + 1))
    } else if matches_at(toks, pos, seq![TokenType::LeftParen]) {
        match parse_level(toks, pos + 1, 0) {
            Err(e) => Err(e),
            Ok((inner, p)) => if matches_at(toks, p, seq![TokenType::RightParen]) {
                Ok((ExprView::Grouping { expression: Box::new(inner) }, p + 1))
            } else {
                Err((ParseErrorKind::ExpectRightParen, p))
            },
        }
    } else {
        Err((ParseErrorKind::ExpectExpression, pos))
    }
}

/// The result of parsing a whole token sequence as one expression.
pub open spec fn parse_tokens(toks: Seq<TokenView>) -> Outcome {
    parse_level(toks, 0, 0)
}

/// A successful parse at any level consumes at least one token and stays
/// within the sequence.
pub proof fn lemma_parse_advances(toks: Seq<TokenView>, pos: int, level: nat)
    requires
        0 <= pos,
    ensures
        parse_level(toks, pos, level) is Ok ==> pos < parse_level(toks, pos, level)->Ok_0.1 <= toks.len(),
    decreases toks.len() - pos, 6 - level, 1nat,
{
    if level <= 3 {
        lemma_parse_advances(toks, pos, level + 1);
        match parse_level(toks, pos, level + 1) {
            Ok((left, p)) => if pos < p <= toks.len() {
                lemma_chain_advances(toks, p, level, left);
            },
            Err(_) => {},
        }
    } else if level == 4 {
        if matches_at(toks, pos, unary_operators()) && pos + 1 <= toks.len() {
            lemma_parse_advances(toks, pos + 1, 4);
        } else {
            lemma_parse_advances(toks, pos, 5);
        }
    } else if level == 5 {
        lemma_primary_advances(toks, pos);
    }
}

proof fn lemma_chain_advances(toks: Seq<TokenView>, pos: int, level: nat, left: ExprView)
    requires
        0 <= pos <= toks.len(),
    ensures
        parse_chain(toks, pos, level, left) is Ok ==> pos <= parse_chain(toks, pos, level, left)->Ok_0.1
            <= toks.len(),
    decreases toks.len() - pos, 0nat, 0nat,
{
    if level <= 3 && matches_at(toks, pos, level_operators(level)) {
        match parse_level(toks, pos + 1, level + 1) {
            Ok((right, p)) => if pos < p <= toks.len() {
                lemma_chain_advances(
                    toks,
                    p,
                    level,
                    ExprView::Binary { left: Box::new(left), operator: toks[pos], right: Box::new(right) },
                );
            },
            Err(_) => {},
        }
    }
}

proof fn lemma_primary_advances(toks: Seq<TokenView>, pos: int)
    requires
        0 <= pos,
    ensures
        parse_primary(toks, pos) is Ok ==> pos < parse_primary(toks, pos)->Ok_0.1 <= toks.len(),
    decreases toks.len() - pos, 0nat, 0nat,
{
    if matches_at(toks, pos, seq![TokenType::LeftParen]) {
        lemma_parse_advances(toks, pos + 1, 0);
    }
}

/// Whether `r` is what the parse `o` describes, with `after` the position
/// reached.
pub open spec fn agrees(toks: Seq<TokenView>, r: &Result<Expr, ParseError>, after: int, o: Outcome) -> bool {
    match o {
        Ok((e, p)) => r is Ok && r->Ok_0@ == e && after == p,
        Err((k, p)) => r is Err && r->Err_0.kind == k && 0 <= p < toks.len() && r->Err_0.token@
            == toks[p],
    }
}

/// A recursive-descent parser over a token sequence with a forward-only cursor.
pub struct Parser {
    tokens: Vec<Token>,
    current: usize,
}

impl Parser {
    /// The tokens being parsed.
    pub closed spec fn toks(&self) -> Seq<TokenView> {
        token_views(self.tokens@)
    }

    /// The cursor.
    pub closed spec fn position(&self) -> int {
        self.current as int
    }

    pub closed spec fn wf(&self) -> bool {
        &&& self.current < self.tokens.len()
        &&& self.tokens@.last()@.ttype == TokenType::Eof
    }

    /// A parser at the first of `tokens`, which end with the end-marker.
    pub fn new(tokens: Vec<Token>) -> (r: Parser)
        requires
            tokens.len() > 0,
            tokens@.last()@.ttype == TokenType::Eof,
        ensures
            r.wf(),
            r.toks() == token_views(tokens@),
            r.position() == 0,
    {
        Parser { tokens, current: 0 }
    }

    fn peek(&self) -> (r: &Token)
        requires
            self.wf(),
        ensures
            r@ == self.toks()[self.current as int],
    {
        &self.tokens[self.current]
    }

    fn is_at_end(&self) -> (r: bool)
        requires
            self.wf(),
        ensures
            r == (self.toks()[self.current as int].ttype == TokenType::Eof),
    {
        self.peek().ttype() == TokenType::Eof
    }

    fn previous(&self) -> (r: Token)
        requires
            0 < self.current <= self.tokens.len(),
        ensures
            r@ == self.toks()[self.current - 1],
    {
        self.tokens[self.current - 1].duplicate()
    }

    /// Moves past the current token unless it is the end-marker, and returns
    /// the token moved past (or the one before the end-marker).
    fn advance(&mut self) -> (r: Token)
        requires
            old(self).wf(),
            old(self).current > 0 || old(self).toks()[old(self).current as int].ttype != TokenType::Eof,
        ensures
            final(self).wf(),
            final(self).tokens == old(self).tokens,
            old(self).toks()[old(self).current as int].ttype != TokenType::Eof ==> final(self).current
                == old(self).current + 1,
            old(self).toks()[old(self).current as int].ttype == TokenType::Eof ==> final(self).current
                == old(self).current,
            r@ == final(self).toks()[final(self).current - 1],
    {
        if !self.is_at_end() {
            proof {
                if self.current + 1 >= self.tokens.len() {
                    assert(self.toks()[self.current as int] == self.tokens@.last()@);
                }
            }
            self.current += 1;
        }
        self.previous()
    }

    /// Consumes the current token when its category is `token_type`
    /// (never the end-marker).
    fn match_token_type(&mut self, token_type: TokenType) -> (r: bool)
        requires
            old(self).wf(),
        ensures
            final(self).wf(),
            final(self).tokens == old(self).tokens,
            r == matches_at(old(self).toks(), old(self).current as int, seq![token_type]),
            final(self).current == old(self).current + if r { 1int } else { 0int },
    {
        if self.is_at_end() {
            return false;
        }
        if self.peek().ttype() == token_type {
            self.advance();
            true
        } else {
            assert(!seq![token_type].contains(self.toks()[self.current as int].ttype)) by {
                assert(seq![token_type][0] == token_type);
            }
            false
        }
    }

    /// Consumes the current token when its category is one of `token_types`.
    fn match_token_types(&mut self, token_types: &[TokenType]) -> (r: bool)
        requires
            old(self).wf(),
        ensures
            final(self).wf(),
            final(self).tokens == old(self).tokens,
            r == matches_at(old(self).toks(), old(self).current as int, token_types@),
            final(self).current == old(self).current + if r { 1int } else { 0int },
    {
        let mut i: usize = 0;
        while i < token_types.len()
            invariant
                self.wf(),
                self.tokens == old(self).tokens,
                self.current == old(self).current,
                i <= token_types.len(),
                forall|k: int| 0 <= k < i ==> !matches_at(self.toks(), self.current as int, seq![token_types@[k]]),
            decreases token_types.len() - i,
        {
            if self.match_token_type(token_types[i]) {
                assert(seq![token_types@[i as int]][0] == token_types@[i as int]);
                return true;
            }
            i += 1;
        }
        proof {
            if matches_at(self.toks(), self.current as int, token_types@) {
                let k = token_types@.index_of(self.toks()[self.current as int].ttype);
                assert(seq![token_types@[k]][0] == token_types@[k]);
            }
        }
        false
    }

    /// Consumes the current token when its category is `token_type`, and
    /// fails with `kind` otherwise.
    fn consume(&mut self, token_type: TokenType, kind: ParseErrorKind) -> (r: Result<Token, ParseError>)
        requires
            old(self).wf(),
        ensures
            final(self).wf(),
            final(self).tokens == old(self).tokens,
            r is Ok <==> matches_at(old(self).toks(), old(self).current as int, seq![token_type]),
            r is Ok ==> final(self).current == old(self).current + 1,
            r is Err ==> r->Err_0.kind == kind && r->Err_0.token@ == old(self).toks()[old(self).current as int],
    {
        if !self.is_at_end() && self.peek().ttype() == token_type {
            return Ok(self.advance());
        }
        proof {
            if matches_at(self.toks(), self.current as int, seq![token_type]) {
                assert(seq![token_type][0] == token_type);
            }
        }
        Err(ParseError { kind, token: self.peek().duplicate() })
    }

    /// expression: an equality.
    fn expression(&mut self) -> (r: Result<Expr, ParseError>)
        requires
            old(self).wf(),
        ensures
            final(self).wf(),
            final(self).tokens == old(self).tokens,
            agrees(
                old(self).toks(),
                &r,
                final(self).current as int,
                parse_level(old(self).toks(), old(self).current as int, 0),
            ),
            r is Ok ==> old(self).current < final(self).current,
        decreases old(self).tokens.len() - old(self).current, 7nat,
    {
        self.equality()
    }

    /// equality: a left-associative chain of comparison operands joined by `!=` `==`.
    fn equality(&mut self) -> (r: Result<Expr, ParseError>)
        requires
            old(self).wf(),
        ensures
            final(self).wf(),
            final(self).tokens == old(self).tokens,
            agrees(
                old(self).toks(),
                &r,
                final(self).current as int,
                parse_level(old(self).toks(), old(self).current as int, 0),
            ),
            r is Ok ==> old(self).current < final(self).current,
        decreases old(self).tokens.len() - old(self).current, 6nat,
    {
        let ghost toks = self.toks();
        let ghost c0 = self.current as int;
        let mut expr = match self.comparison() {
            Ok(e) => e,
            Err(e) => return Err(e),
        };
        let operators: [TokenType; 2] = [TokenType::BangEqual, TokenType::EqualEqual];
        assert(operators@ == level_operators(0));
        loop
            invariant
                self.wf(),
                self.tokens == old(self).tokens,
                self.toks() == toks,
                c0 == old(self).current,
                toks == old(self).toks(),
                c0 < self.current,
                operators@ == level_operators(0),
                parse_level(toks, c0, 0) == parse_chain(toks, self.current as int, 0, expr@),
            decreases self.tokens.len() - self.current,
        {
            let ghost p = self.current as int;
            if !self.match_token_types(&operators) {
                return Ok(expr);
            }
            let operator = self.previous();
            let right = match self.comparison() {
                Ok(e) => e,
                Err(e) => return Err(e),
            };
            expr = Expr::Binary { left: Box::new(expr), operator, right: Box::new(right) };
        }
    }

    /// comparison: a left-associative chain of term operands joined by `>` `>=` `<` `<=`.
    fn comparison(&mut self) -> (r: Result<Expr, ParseError>)
        requires
            old(self).wf(),
        ensures
            final(self).wf(),
            final(self).tokens == old(self).tokens,
            agrees(
                old(self).toks(),
                &r,
                final(self).current as int,
                parse_level(old(self).toks(), old(self).current as int, 1),
            ),
            r is Ok ==> old(self).current < final(self).current,
        decreases old(self).tokens.len() - old(self).current, 5nat,
    {
        let ghost toks = self.toks();
        let ghost c0 = self.current as int;
        let mut expr = match self.term() {
            Ok(e) => e,
            Err(e) => return Err(e),
        };
        let operators: [TokenType; 4] = [TokenType::Greater, TokenType::GreaterEqual, TokenType::Less, TokenType::LessEqual];
        assert(operators@ == level_operators(1));
        loop
            invariant
                self.wf(),
                self.tokens == old(self).tokens,
                self.toks() == toks,
                c0 == old(self).current,
                toks == old(self).toks(),
                c0 < self.current,
                operators@ == level_operators(1),
                parse_level(toks, c0, 1) == parse_chain(toks, self.current as int, 1, expr@),
            decreases self.tokens.len() - self.current,
        {
            let ghost p = self.current as int;
            if !self.match_token_types(&operators) {
                return Ok(expr);
            }
            let operator = self.previous();
            let right = match self.term() {
                Ok(e) => e,
                Err(e) => return Err(e),
            };
            expr = Expr::Binary { left: Box::new(expr), operator, right: Box::new(right) };
        }
    }

    /// term: a left-associative chain of factor operands joined by `-` `+`.
    fn term(&mut self) -> (r: Result<Expr, ParseError>)
        requires
            old(self).wf(),
        ensures
            final(self).wf(),
            final(self).tokens == old(self).tokens,
            agrees(
                old(self).toks(),
                &r,
                final(self).current as int,
                parse_level(old(self).toks(), old(self).current as int, 2),
            ),
            r is Ok ==> old(self).current < final(self).current,
        decreases old(self).tokens.len() - old(self).current, 4nat,
    {
        let ghost toks = self.toks();
        let ghost c0 = self.current as int;
        let mut expr = match self.factor() {
            Ok(e) => e,
            Err(e) => return Err(e),
        };
        let operators: [TokenType; 2] = [TokenType::Minus, TokenType::Plus];
        assert(operators@ == level_operators(2));
        loop
            invariant
                self.wf(),
                self.tokens == old(self).tokens,
                self.toks() == toks,
                c0 == old(self).current,
                toks == old(self).toks(),
                c0 < self.current,
                operators@ == level_operators(2),
                parse_level(toks, c0, 2) == parse_chain(toks, self.current as int, 2, expr@),
            decreases self.tokens.len() - self.current,
        {
            let ghost p = self.current as int;
            if !self.match_token_types(&operators) {
                return Ok(expr);
            }
            let operator = self.previous();
            let right = match self.factor() {
                Ok(e) => e,
                Err(e) => return Err(e),
            };
            expr = Expr::Binary { left: Box::new(expr), operator, right: Box::new(right) };
        }
    }

    /// factor: a left-associative chain of unary operands joined by `/` `*`.
    fn factor(&mut self) -> (r: Result<Expr, ParseError>)
        requires
            old(self).wf(),
        ensures
            final(self).wf(),
            final(self).tokens == old(self).tokens,
            agrees(
                old(self).toks(),
                &r,
                final(self).current as int,
                parse_level(old(self).toks(), old(self).current as int, 3),
            ),
            r is Ok ==> old(self).current < final(self).current,
        decreases old(self).tokens.len() - old(self).current, 3nat,
    {
        let ghost toks = self.toks();
        let ghost c0 = self.current as int;
        let mut expr = match self.unary() {
            Ok(e) => e,
            Err(e) => return Err(e),
        };
        let operators: [TokenType; 2] = [TokenType::Slash, TokenType::Star];
        assert(operators@ == level_operators(3));
        loop
            invariant
                self.wf(),
                self.tokens == old(self).tokens,
                self.toks() == toks,
                c0 == old(self).current,
                toks == old(self).toks(),
                c0 < self.current,
                operators@ == level_operators(3),
                parse_level(toks, c0, 3) == parse_chain(toks, self.current as int, 3, expr@),
            decreases self.tokens.len() - self.current,
        {
            let ghost p = self.current as int;
            if !self.match_token_types(&operators) {
                return Ok(expr);
            }
            let operator = self.previous();
            let right = match self.unary() {
                Ok(e) => e,
                Err(e) => return Err(e),
            };
            expr = Expr::Binary { left: Box::new(expr), operator, right: Box::new(right) };
        }
    }

    /// unary: a prefix `!` or `-` applied to a unary, or a primary.
    fn unary(&mut self) -> (r: Result<Expr, ParseError>)
        requires
            old(self).wf(),
        ensures
            final(self).wf(),
            final(self).tokens == old(self).tokens,
            agrees(
                old(self).toks(),
                &r,
                final(self).current as int,
                parse_level(old(self).toks(), old(self).current as int, 4),
            ),
            r is Ok ==> old(self).current < final(self).current,
        decreases old(self).tokens.len() - old(self).current, 2nat,
    {
        let operators: [TokenType; 2] = [TokenType::Bang, TokenType::Minus];
        assert(operators@ == unary_operators());
        if self.match_token_types(&operators) {
            let operator = self.previous();
            let right = match self.unary() {
                Ok(e) => e,
                Err(e) => return Err(e),
            };
            return Ok(Expr::Unary { operator, right: Box::new(right) });
        }
        assert(parse_level(self.toks(), self.current as int, 5) == parse_primary(
            self.toks(),
            self.current as int,
        ));
        self.primary()
    }

    /// primary: `false`, `true`, `nil`, a number or string, or a
    /// parenthesised expression.
    fn primary(&mut self) -> (r: Result<Expr, ParseError>)
        requires
            old(self).wf(),
        ensures
            final(self).wf(),
            final(self).tokens == old(self).tokens,
            agrees(
                old(self).toks(),
                &r,
                final(self).current as int,
                parse_primary(old(self).toks(), old(self).current as int),
            ),
            r is Ok ==> old(self).current < final(self).current,
        decreases old(self).tokens.len() - old(self).current, 1nat,
    {
        if self.match_token_type(TokenType::False) {
            return Ok(Expr::Literal { value: LiteralType::Bool(false) });
        }
        if self.match_token_type(TokenType::True) {
            return Ok(Expr::Literal { value: LiteralType::Bool(true) });
        }
        if self.match_token_type(TokenType::Nil) {
            return Ok(Expr::Literal { value: LiteralType::Null });
        }
        let literals: [TokenType; 2] = [TokenType::Number, TokenType::String];
        assert(literals@ == seq![TokenType::Number, TokenType::String]);
        if self.match_token_types(&literals) {
            let token = self.previous();
            return Ok(Expr::Literal { value: token.literal().duplicate() });
        }
        if self.match_token_type(TokenType::LeftParen) {
            let expr = match self.expression() {
                Ok(e) => e,
                Err(e) => return Err(e),
            };
            match self.consume(TokenType::RightParen, ParseErrorKind::ExpectRightParen) {
                Ok(_) => {},
                Err(e) => return Err(e),
            }
            return Ok(Expr::Grouping { expression: Box::new(expr) });
        }
        Err(ParseError { kind: ParseErrorKind::ExpectExpression, token: self.peek().duplicate() })
    }

    /// Parses one expression from the cursor.
    pub fn parse(&mut self) -> (r: Result<Expr, ParseError>)
        requires
            old(self).wf(),
        ensures
            final(self).wf(),
            final(self).toks() == old(self).toks(),
            agrees(
                old(self).toks(),
                &r,
                final(self).position(),
                parse_level(old(self).toks(), old(self).position(), 0),
            ),
    {
        self.expression()
    }
}

} // verus!
