//! Recursive-descent parser with precedence climbing.
//!
//! Grammar: `expression := term (("+"|"-") term)*`;
//! `term := factor (("*"|"/") factor)*`;
//! `factor := NUMBER | "(" expression ")"`.
//! All binary operators are left-associative; multiplicative operators bind
//! tighter than additive ones; a parenthesized subexpression resets the
//! precedence to the lowest tier and must be closed, or the parse fails.
//!
//! The functions `parse_expression_at`, `parse_term_at` and
//! `parse_factor_at` below are the grammar itself, stated over the token
//! kinds alone; the executable parser is proved to return exactly what the
//! grammar derives, and to fail exactly where the grammar derives nothing.

use crate::ast::{BinaryOperator, Expression, ExpressionKind, Statement, StatementKind};
use crate::lexer::{lex, lex_from, lemma_lex_from_step, Lexer, Token, TokenKind, TokenModel};
use vstd::prelude::*;

verus! {

/// An operator of the additive tier.
pub open spec fn is_additive_op(k: TokenKind) -> bool {
    k == TokenKind::Plus || k == TokenKind::Minus
}

/// An operator of the multiplicative tier.
pub open spec fn is_multiplicative_op(k: TokenKind) -> bool {
    k == TokenKind::Asterisk || k == TokenKind::ForwardSlash
}

/// The binary operator an operator token denotes.
pub open spec fn binary_op_of(k: TokenKind) -> BinaryOperator {
    if k == TokenKind::Plus {
        BinaryOperator::Add
    } else if k == TokenKind::Minus {
        BinaryOperator::Subtract
    } else if k == TokenKind::Asterisk {
        BinaryOperator::Multiply
    } else {
        BinaryOperator::Divide
    }
}

/// The kinds of a token sequence, in order.
pub open spec fn token_kinds(ts: Seq<Token>) -> Seq<TokenKind> {
    ts.map_values(|t: Token| t.kind)
}

/// The models of a token sequence, in order.
pub open spec fn token_views(ts: Seq<Token>) -> Seq<TokenModel> {
    ts.map_values(|t: Token| t@)
}

/// What `factor := NUMBER | "(" expression ")"` derives at position `p`:
/// the expression built and the position just past it, or nothing if no
/// factor starts there or an opening parenthesis is never closed.
pub open spec fn parse_factor_at(ks: Seq<TokenKind>, p: int) -> Option<(Expression, int)>
    decreases ks.len() - p, 0int,
{
    if 0 <= p < ks.len() {
        match ks[p] {
            TokenKind::NumberLiteral(n) => Some(
                (Expression { kind: ExpressionKind::NumberLiteral(n) }, p + 1),
            ),
            TokenKind::LeftParen => match parse_expression_at(ks, p + 1) {
                Some(pair) => {
                    let (inner, q) = pair;
                    if 0 <= q < ks.len() && ks[q] == TokenKind::RightParen {
                        Some(
                            (
                                Expression { kind: ExpressionKind::Parenthesized(Box::new(inner)) },
                                q + 1,
                            ),
                        )
                    } else {
                        None
                    }
                },
                None => None,
            },
            _ => None,
        }
    } else {
        None
    }
}

/// Left-associative continuation of a term: with `left` built and the
/// cursor at `p`, folds every following `* factor` or `/ factor` into the
/// left-built subtree before looking further right.
pub open spec fn parse_term_rest_at(ks: Seq<TokenKind>, left: Expression, p: int) -> Option<
    (Expression, int),
>
    decreases ks.len() - p, 2int,
{
    if 0 <= p < ks.len() && is_multiplicative_op(ks[p]) {
        match parse_factor_at(ks, p + 1) {
            Some(pair) => {
                let (right, q) = pair;
                // The bound check only serves the termination measure; a
                // derived factor always satisfies it (see
                // lemma_parse_factor_progress).
                if p + 1 < q <= ks.len() {
                    parse_term_rest_at(
                        ks,
                        Expression {
                            kind: ExpressionKind::Binary(
                                binary_op_of(ks[p]),
                                Box::new(left),
                                Box::new(right),
                            ),
                        },
                        q,
                    )
                } else {
                    None
                }
            },
            None => None,
        }
    } else {
        Some((left, p))
    }
}

/// What `term := factor (("*"|"/") factor)*` derives at position `p`.
pub open spec fn parse_term_at(ks: Seq<TokenKind>, p: int) -> Option<(Expression, int)>
    decreases ks.len() - p, 1int,
{
    match parse_factor_at(ks, p) {
        Some(pair) => {
            let (left, q) = pair;
            // The bound check only serves the termination measure; a derived
            // factor always satisfies it (see lemma_parse_factor_progress).
            if p < q <= ks.len() {
                parse_term_rest_at(ks, left, q)
            } else {
                None
            }
        },
        None => None,
    }
}

/// Left-associative continuation of an expression: with `left` built and
/// the cursor at `p`, folds every following `+ term` or `- term` into the
/// left-built subtree before looking further right.
pub open spec fn parse_expression_rest_at(ks: Seq<TokenKind>, left: Expression, p: int) -> Option<
    (Expression, int),
>
    decreases ks.len() - p, 4int,
{
    if 0 <= p < ks.len() && is_additive_op(ks[p]) {
        match parse_term_at(ks, p + 1) {
            Some(pair) => {
                let (right, q) = pair;
                // The bound check only serves the termination measure; a
                // derived term always satisfies it (see
                // lemma_parse_term_progress).
                if p + 1 < q <= ks.len() {
                    parse_expression_rest_at(
                        ks,
                        Expression {
                            kind: ExpressionKind::Binary(
                                binary_op_of(ks[p]),
                                Box::new(left),
                                Box::new(right),
                            ),
                        },
                        q,
                    )
                } else {
                    None
                }
            },
            None => None,
        }
    } else {
        Some((left, p))
    }
}

/// What `expression := term (("+"|"-") term)*` derives at position `p`.
pub open spec fn parse_expression_at(ks: Seq<TokenKind>, p: int) -> Option<(Expression, int)>
    decreases ks.len() - p, 3int,
{
    match parse_term_at(ks, p) {
        Some(pair) => {
            let (left, q) = pair;
            // The bound check only serves the termination measure; a derived
            // term always satisfies it (see lemma_parse_term_progress).
            if p < q <= ks.len() {
                parse_expression_rest_at(ks, left, q)
            } else {
                None
            }
        },
        None => None,
    }
}

/// What a statement derives at position `p`: the expression the grammar
/// derives there, wrapped as a statement.
pub open spec fn parse_statement_at(ks: Seq<TokenKind>, p: int) -> Option<(Statement, int)> {
    match parse_expression_at(ks, p) {
        Some(pair) => Some((Statement { kind: StatementKind::Expression(pair.0) }, pair.1)),
        None => None,
    }
}

/// A derived factor consumes at least one token and never runs past the
/// end of the token sequence.
pub proof fn lemma_parse_factor_progress(ks: Seq<TokenKind>, p: int)
    ensures
        match parse_factor_at(ks, p) {
            Some(pair) => 0 <= p && p < pair.1 <= ks.len(),
            None => true,
        },
    decreases ks.len() - p, 0int,
{
    if 0 <= p < ks.len() && ks[p] is LeftParen {
        lemma_parse_expression_progress(ks, p + 1);
    }
}

/// A derived term continuation never moves the cursor backwards and never
/// runs past the end of the token sequence.
pub proof fn lemma_parse_term_rest_progress(ks: Seq<TokenKind>, left: Expression, p: int)
    requires
        0 <= p <= ks.len(),
    ensures
        match parse_term_rest_at(ks, left, p) {
            Some(pair) => p <= pair.1 <= ks.len(),
            None => true,
        },
    decreases ks.len() - p, 2int,
{
    if 0 <= p < ks.len() && is_multiplicative_op(ks[p]) {
        lemma_parse_factor_progress(ks, p + 1);
        match parse_factor_at(ks, p + 1) {
            Some(pair) => {
                if p + 1 < pair.1 <= ks.len() {
                    lemma_parse_term_rest_progress(
                        ks,
                        Expression {
                            kind: ExpressionKind::Binary(
                                binary_op_of(ks[p]),
                                Box::new(left),
                                Box::new(pair.0),
                            ),
                        },
                        pair.1,
                    );
                }
            },
            None => {},
        }
    }
}

/// A derived term consumes at least one token and never runs past the end
/// of the token sequence.
pub proof fn lemma_parse_term_progress(ks: Seq<TokenKind>, p: int)
    ensures
        match parse_term_at(ks, p) {
            Some(pair) => 0 <= p && p < pair.1 <= ks.len(),
            None => true,
        },
    decreases ks.len() - p, 1int,
{
    lemma_parse_factor_progress(ks, p);
    match parse_factor_at(ks, p) {
        Some(pair) => {
            lemma_parse_term_rest_progress(ks, pair.0, pair.1);
        },
        None => {},
    }
}

/// A derived expression continuation never moves the cursor backwards and
/// never runs past the end of the token sequence.
pub proof fn lemma_parse_expression_rest_progress(ks: Seq<TokenKind>, left: Expression, p: int)
    requires
        0 <= p <= ks.len(),
    ensures
        match parse_expression_rest_at(ks, left, p) {
            Some(pair) => p <= pair.1 <= ks.len(),
            None => true,
        },
    decreases ks.len() - p, 4int,
{
    if 0 <= p < ks.len() && is_additive_op(ks[p]) {
        lemma_parse_term_progress(ks, p + 1);
        match parse_term_at(ks, p + 1) {
            Some(pair) => {
                if p + 1 < pair.1 <= ks.len() {
                    lemma_parse_expression_rest_progress(
                        ks,
                        Expression {
                            kind: ExpressionKind::Binary(
                                binary_op_of(ks[p]),
                                Box::new(left),
                                Box::new(pair.0),
                            ),
                        },
                        pair.1,
                    );
                }
            },
            None => {},
        }
    }
}

/// A derived expression consumes at least one token and never runs past
/// the end of the token sequence.
pub proof fn lemma_parse_expression_progress(ks: Seq<TokenKind>, p: int)
    ensures
        match parse_expression_at(ks, p) {
            Some(pair) => 0 <= p && p < pair.1 <= ks.len(),
            None => true,
        },
    decreases ks.len() - p, 3int,
{
    lemma_parse_term_progress(ks, p);
    match parse_term_at(ks, p) {
        Some(pair) => {
            lemma_parse_expression_rest_progress(ks, pair.0, pair.1);
        },
        None => {},
    }
}

/// A parser over a pre-buffered token sequence, holding a cursor that only
/// ever moves forward through the buffer (except that an operation that
/// fails restores the cursor to where that operation started).
pub struct Parser {
    tokens: Vec<Token>,
    current: usize,
}

impl Parser {
    /// The buffered tokens.
    pub closed spec fn toks(self) -> Seq<Token> {
        self.tokens@
    }

    /// The kinds of the buffered tokens, in order.
    pub open spec fn kinds(self) -> Seq<TokenKind> {
        token_kinds(self.toks())
    }

    /// The cursor into the token buffer.
    pub closed spec fn cur(self) -> int {
        self.current as int
    }

    /// Well-formedness: the cursor never runs past the end of the buffer.
    pub open spec fn wf(self) -> bool {
        0 <= self.cur() <= self.toks().len()
    }

    /// An empty parser: no tokens, cursor at the start.
    pub fn new() -> (r: Self)
        ensures
            r.toks() == Seq::<Token>::empty(),
            r.cur() == 0,
            r.wf(),
    {
        Self { tokens: Vec::new(), current: 0 }
    }

    /// Builds a parser directly from a source string: drives a fresh
    /// tokenizer to completion and buffers every token (the end-of-input
    /// token included) before parsing begins.
    pub fn new_from(source: &str) -> (r: Self)
        requires
            source@.len() < usize::MAX,
        ensures
            r.cur() == 0,
            r.wf(),
            token_views(r.toks()) == lex(source@),
    {
        let ghost s = source@;
        let mut lexer = Lexer::new(source);
        let mut token_vec: Vec<Token> = Vec::new();
        loop
            invariant
                lexer.wf(),
                lexer.src() == s,
                s.len() < usize::MAX,
                lexer.pos() <= s.len() + 1,
                lexer.pos() <= s.len() ==> token_views(token_vec@) + lex_from(s, lexer.pos())
                    == lex(s),
                lexer.pos() > s.len() ==> token_views(token_vec@) == lex(s),
            ensures
                token_views(token_vec@) == lex(s),
            decreases s.len() + 1 - lexer.pos(),
        {
            let ghost p = lexer.pos();
            match lexer.next_token() {
                Some(token) => {
                    proof {
                        if p <= s.len() {
                            lemma_lex_from_step(s, p);
                            assert(token_views(token_vec@.push(token)) =~= token_views(token_vec@)
                                + seq![token@]);
                        }
                    }
                    token_vec.push(token);
                },
                None => {
                    break ;
                },
            }
        }
        Self { tokens: token_vec, current: 0 }
    }

    /// The token `offset` places past the cursor, without consuming
    /// anything; nothing if that position is past the end of the buffer.
    pub fn peek(&self, offset: usize) -> (r: Option<&Token>)
        ensures
            match r {
                Some(t) => self.cur() + offset < self.toks().len() && *t == self.toks()[self.cur()
                    + offset],
                None => self.cur() + offset >= self.toks().len(),
            },
    {
        let n = self.tokens.len();
        match self.current.checked_add(offset) {
            Some(i) => {
                if i < n {
                    Some(&self.tokens[i])
                } else {
                    None
                }
            },
            None => None,
        }
    }

    /// The token under the cursor, without consuming it.
    pub fn current(&self) -> (r: Option<&Token>)
        ensures
            match r {
                Some(t) => self.cur() < self.toks().len() && *t == self.toks()[self.cur()],
                None => self.cur() >= self.toks().len(),
            },
    {
        self.peek(0)
    }

    /// The kind of the token under the cursor, without consuming it.
    fn peek_kind(&self) -> (r: Option<TokenKind>)
        ensures
            r == (if self.cur() < self.kinds().len() {
                Some(self.kinds()[self.cur()])
            } else {
                None::<TokenKind>
            }),
    {
        match self.current() {
            Some(t) => Some(t.kind),
            None => None,
        }
    }

    /// Parses one factor: a numeric literal, or a parenthesized
    /// expression that must be closed. Returns exactly what the grammar
    /// derives at the cursor and leaves the cursor just past it; fails
    /// with the cursor restored where the grammar derives nothing.
    fn parse_factor(&mut self) -> (r: Option<Expression>)
        requires
            old(self).wf(),
        ensures
            final(self).toks() == old(self).toks(),
            final(self).wf(),
            match parse_factor_at(old(self).kinds(), old(self).cur()) {
                Some(pair) => r == Some(pair.0) && final(self).cur() == pair.1,
                None => r is None && final(self).cur() == old(self).cur(),
            },
        decreases old(self).toks().len() - old(self).cur(), 0int,
    {
        let ghost ks = self.kinds();
        let n = self.tokens.len();
        let saved = self.current;
        match self.peek_kind() {
            Some(TokenKind::NumberLiteral(num)) => {
                self.current = self.current + 1;
                Some(Expression::number(num))
            },
            Some(TokenKind::LeftParen) => {
                self.current = self.current + 1;
                match self.parse_expression() {
                    Some(inner) => {
                        proof {
                            lemma_parse_expression_progress(ks, saved as int + 1);
                        }
                        match self.peek_kind() {
                            Some(TokenKind::RightParen) => {
                                self.current = self.current + 1;
                                Some(Expression::parenthesized(inner))
                            },
                            _ => {
                                self.current = saved;
                                None
                            },
                        }
                    },
                    None => {
                        self.current = saved;
                        None
                    },
                }
            },
            _ => None,
        }
    }

    /// Parses one term: a factor, followed by every `* factor` or
    /// `/ factor` continuation, folded left-associatively. Returns exactly
    /// what the grammar derives at the cursor; fails with the cursor
    /// restored where the grammar derives nothing.
    fn parse_term(&mut self) -> (r: Option<Expression>)
        requires
            old(self).wf(),
        ensures
            final(self).toks() == old(self).toks(),
            final(self).wf(),
            match parse_term_at(old(self).kinds(), old(self).cur()) {
                Some(pair) => r == Some(pair.0) && final(self).cur() == pair.1,
                None => r is None && final(self).cur() == old(self).cur(),
            },
        decreases old(self).toks().len() - old(self).cur(), 1int,
    {
        let ghost ks = self.kinds();
        let ghost toks0 = self.toks();
        let ghost p0 = self.cur();
        let saved = self.current;
        let first = match self.parse_factor() {
            Some(first) => first,
            None => {
                return None;
            },
        };
        proof {
            lemma_parse_factor_progress(ks, p0);
        }
        let mut left = first;
        loop
            invariant
                self.wf(),
                self.toks() == toks0,
                toks0 == old(self).toks(),
                p0 == old(self).cur(),
                ks == token_kinds(toks0),
                saved as int == p0,
                p0 < self.cur() <= ks.len(),
                parse_term_rest_at(ks, left, self.cur()) == parse_term_at(ks, p0),
            ensures
                self.toks() == toks0,
                self.wf(),
                parse_term_at(ks, p0) == Some((left, self.cur())),
            decreases ks.len() - self.cur(),
        {
            let n = self.tokens.len();
            let ghost pm = self.cur();
            let op = match self.peek_kind() {
                Some(TokenKind::Asterisk) => BinaryOperator::Multiply,
                Some(TokenKind::ForwardSlash) => BinaryOperator::Divide,
                _ => {
                    break ;
                },
            };
            self.current = self.current + 1;
            match self.parse_factor() {
                Some(rhs) => {
                    proof {
                        lemma_parse_factor_progress(ks, pm + 1);
                    }
                    let ghost lprev = left;
                    left = Expression::binary(op, left, rhs);
                    proof {
                        assert(parse_term_rest_at(ks, lprev, pm) == parse_term_rest_at(
                            ks,
                            left,
                            self.cur(),
                        ));
                    }
                },
                None => {
                    proof {
                        assert(parse_term_rest_at(ks, left, pm) == None::<(Expression, int)>);
                    }
                    self.current = saved;
                    return None;
                },
            }
        }
        Some(left)
    }

    /// Parses one expression: a term, followed by every `+ term` or
    /// `- term` continuation, folded left-associatively (precedence
    /// climbing over the additive and multiplicative tiers). Returns
    /// exactly what the grammar derives at the cursor and advances the
    /// cursor just past it; fails with the cursor restored where the
    /// grammar derives nothing: where the tokens are exhausted when an
    /// operand is expected, where an opening parenthesis is never closed,
    /// and where a token that is neither an operand nor an expected
    /// operator stands where an operand is required.
    pub fn parse_expression(&mut self) -> (r: Option<Expression>)
        requires
            old(self).wf(),
        ensures
            final(self).toks() == old(self).toks(),
            final(self).wf(),
            match parse_expression_at(old(self).kinds(), old(self).cur()) {
                Some(pair) => r == Some(pair.0) && final(self).cur() == pair.1,
                None => r is None && final(self).cur() == old(self).cur(),
            },
        decreases old(self).toks().len() - old(self).cur(), 2int,
    {
        let ghost ks = self.kinds();
        let ghost toks0 = self.toks();
        let ghost p0 = self.cur();
        let saved = self.current;
        let first = match self.parse_term() {
            Some(first) => first,
            None => {
                return None;
            },
        };
        proof {
            lemma_parse_term_progress(ks, p0);
        }
        let mut left = first;
        loop
            invariant
                self.wf(),
                self.toks() == toks0,
                toks0 == old(self).toks(),
                p0 == old(self).cur(),
                ks == token_kinds(toks0),
                saved as int == p0,
                p0 < self.cur() <= ks.len(),
                parse_expression_rest_at(ks, left, self.cur()) == parse_expression_at(ks, p0),
            ensures
                self.toks() == toks0,
                self.wf(),
                parse_expression_at(ks, p0) == Some((left, self.cur())),
            decreases ks.len() - self.cur(),
        {
            let n = self.tokens.len();
            let ghost pm = self.cur();
            let op = match self.peek_kind() {
                Some(TokenKind::Plus) => BinaryOperator::Add,
                Some(TokenKind::Minus) => BinaryOperator::Subtract,
                _ => {
                    break ;
                },
            };
            self.current = self.current + 1;
            match self.parse_term() {
                Some(rhs) => {
                    proof {
                        lemma_parse_term_progress(ks, pm + 1);
                    }
                    let ghost lprev = left;
                    left = Expression::binary(op, left, rhs);
                    proof {
                        assert(parse_expression_rest_at(ks, lprev, pm) == parse_expression_rest_at(
                            ks,
                            left,
                            self.cur(),
                        ));
                    }
                },
                None => {
                    proof {
                        assert(parse_expression_rest_at(ks, left, pm) == None::<(Expression, int)>);
                    }
                    self.current = saved;
                    return None;
                },
            }
        }
        Some(left)
    }

    /// Parses one statement: the expression the grammar derives at the
    /// cursor, wrapped as a statement; fails with the cursor restored
    /// where no expression can be derived.
    pub fn parse_statement(&mut self) -> (r: Option<Statement>)
        requires
            old(self).wf(),
        ensures
            final(self).toks() == old(self).toks(),
            final(self).wf(),
            match parse_statement_at(old(self).kinds(), old(self).cur()) {
                Some(pair) => r == Some(pair.0) && final(self).cur() == pair.1,
                None => r is None && final(self).cur() == old(self).cur(),
            },
    {
        match self.parse_expression() {
            Some(expr) => {
                let stmt = Statement::expression(expr);
                Some(stmt)
            },
            None => None,
        }
    }

    /// Parses the next statement, advancing past its tokens; returns
    /// nothing when no statement can start at the cursor (typically at the
    /// end-of-input token).
    pub fn next_statement(&mut self) -> (r: Option<Statement>)
        requires
            old(self).wf(),
        ensures
            final(self).toks() == old(self).toks(),
            final(self).wf(),
            match parse_statement_at(old(self).kinds(), old(self).cur()) {
                Some(pair) => r == Some(pair.0) && final(self).cur() == pair.1,
                None => r is None && final(self).cur() == old(self).cur(),
            },
    {
        self.parse_statement()
    }
}

} // verus!
