//! The recursive-descent parser.
use vstd::prelude::*;
use crate::error::error_at;
use crate::error::ErrorKind;
use crate::error::ErrorView;
use crate::error::LoxError;
use crate::expr::AssignExpr;
use crate::expr::BinaryExpr;
use crate::expr::Expr;
use crate::expr::GroupingExpr;
use crate::expr::LiteralExpr;
use crate::expr::LogicalExpr;
use crate::expr::UnaryExpr;
use crate::expr::VariableExpr;
use crate::grammar;
use crate::grammar::kind_at;
use crate::grammar::remaining;
use crate::grammar::Parsed;
use crate::grammar::Precedence;
use crate::literal::Literal;
use crate::scanner::error_views;
use crate::stmt::BlockStmt;
use crate::stmt::BreakStmt;
use crate::stmt::ExpressionStmt;
use crate::stmt::IfStmt;
use crate::stmt::PrintStmt;
use crate::stmt::Stmt;
use crate::stmt::StmtView;
use crate::stmt::VarStmt;
use crate::stmt::WhileStmt;
use crate::stmt::stmt_views;
use crate::stmt::lemma_block_view;
use crate::token::Token;
use crate::token_type::TokenType;

verus! {

/// A token sequence that a parser can read: not empty, and ended by `Eof`.
pub open spec fn terminated(ts: Seq<Token>) -> bool {
    ts.len() > 0 && ts.last().token_type == TokenType::Eof
}

/// Position `pos` is inside `ts`, and no `Eof` stands before it: whoever
/// stands there has taken no `Eof`.
pub open spec fn before_eof(ts: Seq<Token>, pos: nat) -> bool {
    &&& pos < ts.len()
    &&& forall|i: int| 0 <= i < pos ==> (#[trigger] ts[i]).token_type != TokenType::Eof
}

/// A recursive-descent parser over a token sequence.
pub struct Parser<'a> {
    tokens: &'a [Token],
    current: usize,
    had_error: bool,
    errors: Vec<LoxError>,
}

/// What a `Parser` holds: the tokens, the position of the next one to read,
/// and the parse errors recorded so far.
pub struct ParserView {
    pub tokens: Seq<Token>,
    pub position: nat,
    pub errors: Seq<ErrorView>,
}

impl<'a> View for Parser<'a> {
    type V = ParserView;

    closed spec fn view(&self) -> ParserView {
        ParserView {
            tokens: self.tokens@,
            position: self.current as nat,
            errors: error_views(self.errors@),
        }
    }
}

/// Whether `r` is the value of `p`, or the error that `p` ended with.
pub open spec fn yields_expr(r: Result<Expr, LoxError>, p: Parsed<Expr>) -> bool {
    match r {
        Ok(e) => p.value == Some(e),
        Err(x) => p.value is None && p.errors.len() > 0 && x@ == p.errors.last(),
    }
}

/// Whether `r` is a statement whose view is the value of `p`, or the error
/// that `p` ended with.
pub open spec fn yields_stmt(r: Result<Stmt, LoxError>, p: Parsed<StmtView>) -> bool {
    match r {
        Ok(s) => p.value == Some(s@),
        Err(x) => p.value is None && p.errors.len() > 0 && x@ == p.errors.last(),
    }
}

/// Whether `r` holds statements whose views are the value of `p`, or the
/// error that `p` ended with.
pub open spec fn yields_stmts(r: Result<Vec<Stmt>, LoxError>, p: Parsed<Seq<StmtView>>) -> bool {
    match r {
        Ok(v) => p.value == Some(stmt_views(v@)),
        Err(x) => p.value is None && p.errors.len() > 0 && x@ == p.errors.last(),
    }
}

fn is_operator(level: Precedence, kind: TokenType) -> (r: bool)
    ensures
        r == level.joins(kind),
{
    match level {
        Precedence::Or => kind == TokenType::Or,
        Precedence::And => kind == TokenType::And,
        Precedence::Equality => kind == TokenType::BangEqual || kind == TokenType::EqualEqual,
        Precedence::Comparison => kind == TokenType::Greater || kind == TokenType::GreaterEqual
            || kind == TokenType::Less || kind == TokenType::LessEqual,
        Precedence::Term => kind == TokenType::Minus || kind == TokenType::Plus,
        Precedence::Factor => kind == TokenType::Slash || kind == TokenType::Star,
    }
}

fn join(level: Precedence, left: Expr, operator: Token, right: Expr) -> (r: Expr)
    ensures
        r == level.joined(left, operator, right),
{
    match level {
        Precedence::Or | Precedence::And => Expr::Logical(
            LogicalExpr { left: Box::new(left), operator, right: Box::new(right) },
        ),
        _ => Expr::Binary(BinaryExpr { left: Box::new(left), operator, right: Box::new(right) }),
    }
}

fn literal(value: Option<Literal>) -> (r: Expr)
    ensures
        r == grammar::literal_expr(value),
{
    Expr::Literal(LiteralExpr { value })
}

/// The clauses of a `for`, its initializer by its view.
pub open spec fn head_view(
    initializer: Option<Stmt>,
    condition: Option<Expr>,
    increment: Option<Expr>,
) -> grammar::ForHead {
    grammar::ForHead {
        initializer: match initializer {
            Some(s) => Some(s@),
            None => None,
        },
        condition,
        increment,
    }
}

/// Writes a `for` with `while`.
fn desugar(
    initializer: Option<Stmt>,
    condition: Option<Expr>,
    increment: Option<Expr>,
    body: Stmt,
) -> (r: Stmt)
    ensures
        r@ == grammar::desugared(head_view(initializer, condition, increment), body@),
{
    proof {
        reveal(grammar::desugared);
    }
    let ghost parsed_body = body@;
    let mut body = body;

    // the increment runs after the body
    if let Some(incr) = increment {
        let statements = vec![body, Stmt::Expression(ExpressionStmt { expression: incr })];
        proof {
            lemma_block_view(statements);
            assert(stmt_views(statements@) =~= seq![parsed_body, StmtView::Expression(incr)]);
        }
        body = Stmt::Block(BlockStmt { statements });
    }
    // a missing condition is `true`

    body = Stmt::While(
        WhileStmt {
            condition: if let Some(cond) = condition {
                cond
            } else {
                literal(Some(Literal::Bool(true)))
            },
            body: Box::new(body),
        },
    );
    let ghost repeated = body@;

    // the initializer runs once, before the loop
    if let Some(init) = initializer {
        let ghost first = init@;
        let statements = vec![init, body];
        proof {
            lemma_block_view(statements);
            assert(stmt_views(statements@) =~= seq![first, repeated]);
        }
        body = Stmt::Block(BlockStmt { statements });
    }
    body
}

impl<'a> Parser<'a> {
    /// The parser stands inside a sequence that `Eof` ends, and has taken no
    /// `Eof`.
    pub open spec fn wf(&self) -> bool {
        &&& terminated(self@.tokens)
        &&& before_eof(self@.tokens, self@.position)
        &&& self.coherent()
    }

    /// The error flag is set exactly if an error was recorded.
    pub closed spec fn coherent(&self) -> bool {
        self.had_error == (self.errors.len() > 0)
    }

    /// Whether `self` is `old` after `p`: the same tokens, `p.consumed`
    /// tokens further, with the errors of `p`.
    pub open spec fn advanced<T>(&self, old: &Parser, p: Parsed<T>) -> bool {
        &&& self@.tokens == old@.tokens
        &&& self@.position == old@.position + p.consumed
        &&& self@.errors == p.errors
    }

    /// A parser at the start of `tokens`.
    pub fn new(tokens: &'a [Token]) -> (r: Parser<'a>)
        requires
            terminated(tokens@),
        ensures
            r.wf(),
            r@ == (ParserView { tokens: tokens@, position: 0, errors: Seq::empty() }),
    {
        let r = Parser { tokens, current: 0, had_error: false, errors: Vec::new() };
        assert(r@.errors =~= Seq::empty());
        r
    }

    /// Whether no parse error has been recorded.
    pub fn success(&self) -> (r: bool)
        requires
            self.wf(),
        ensures
            r == (self@.errors.len() == 0),
    {
        !self.had_error
    }

    /// The parse errors recorded so far, in the order they were found.
    pub fn errors(&self) -> (r: &Vec<LoxError>)
        ensures
            error_views(r@) == self@.errors,
    {
        &self.errors
    }

    fn peek(&self) -> (r: &Token)
        requires
            self.wf(),
        ensures
            *r == self@.tokens[self@.position as int],
    {
        &self.tokens[self.current]
    }

    fn previous(&self) -> (r: &Token)
        requires
            self.wf(),
            self@.position > 0,
        ensures
            *r == self@.tokens[self@.position - 1],
    {
        &self.tokens[self.current - 1]
    }

    fn is_at_end(&self) -> (r: bool)
        requires
            self.wf(),
        ensures
            r == (kind_at(self@.tokens, self@.position) == TokenType::Eof),
    {
        self.peek().is(TokenType::Eof)
    }

    fn check(&self, ttype: TokenType) -> (r: bool)
        requires
            self.wf(),
        ensures
            r == grammar::check(self@.tokens, self@.position, ttype),
    {
        if self.is_at_end() {
            false
        } else {
            self.peek().is(ttype)
        }
    }

    /// Whether `self` is `old`, one token further.
    spec fn took_one(&self, old: &Parser) -> bool {
        &&& self.tokens == old.tokens
        &&& self.current == old.current + 1
        &&& self.errors == old.errors
        &&& self.had_error == old.had_error
    }

    fn advance(&mut self) -> (r: &Token)
        requires
            old(self).wf(),
            kind_at(old(self)@.tokens, old(self)@.position) != TokenType::Eof,
        ensures
            final(self).wf(),
            final(self).took_one(old(self)),
            *r == old(self)@.tokens[old(self)@.position as int],
    {
        let len = self.tokens.len();
        assert(self.current < len);
        self.current += 1;
        assert(self@.tokens.last().token_type == TokenType::Eof);
        &self.tokens[self.current - 1]
    }

    fn is_match(&mut self, ttype: TokenType) -> (r: bool)
        requires
            old(self).wf(),
        ensures
            final(self).wf(),
            r == grammar::check(old(self)@.tokens, old(self)@.position, ttype),
            r ==> final(self).took_one(old(self)),
            !r ==> *final(self) == *old(self),
    {
        if self.check(ttype) {
            self.advance();
            return true;
        }
        false
    }

    fn error(&mut self, token: &Token, message: &str) -> (r: LoxError)
        requires
            old(self).wf(),
        ensures
            final(self).wf(),
            final(self)@.tokens == old(self)@.tokens,
            final(self)@.position == old(self)@.position,
            final(self)@.errors == old(self)@.errors.push(r@),
            r@ == error_at(ErrorKind::Parse, *token, message@),
    {
        self.had_error = true;
        let e = LoxError::parse_error(token, message);
        self.errors.push(e.dup());
        assert(error_views(self.errors@) =~= error_views(old(self).errors@).push(e@));
        e
    }

    fn consume(&mut self, ttype: TokenType, message: &str) -> (r: Result<Token, LoxError>)
        requires
            old(self).wf(),
        ensures
            final(self).wf(),
            final(self).advanced(
                old(self),
                grammar::expect(
                    old(self)@.tokens,
                    old(self)@.position,
                    old(self)@.errors,
                    ttype,
                    message@,
                ),
            ),
            match r {
                Ok(t) => grammar::check(old(self)@.tokens, old(self)@.position, ttype) && t == old(
                    self,
                )@.tokens[old(self)@.position as int],
                Err(x) => !grammar::check(old(self)@.tokens, old(self)@.position, ttype) && x@
                    == final(self)@.errors.last(),
            },
    {
        if self.check(ttype) {
            Ok(self.advance().dup())
        } else {
            let token = self.peek().dup();
            Err(self.error(&token, message))
        }
    }

    /// Takes the next token if it is an operator of `level`.
    fn match_operator(&mut self, level: Precedence) -> (r: bool)
        requires
            old(self).wf(),
        ensures
            final(self).wf(),
            r == (kind_at(old(self)@.tokens, old(self)@.position) != TokenType::Eof && level.joins(
                kind_at(old(self)@.tokens, old(self)@.position),
            )),
            r ==> final(self).took_one(old(self)),
            !r ==> *final(self) == *old(self),
    {
        if !self.is_at_end() && is_operator(level, self.peek().token_type()) {
            self.advance();
            return true;
        }
        false
    }

    fn expression(&mut self) -> (r: Result<Expr, LoxError>)
        requires
            old(self).wf(),
        ensures
            final(self).wf(),
            final(self).advanced(
                old(self),
                grammar::expression(old(self)@.tokens, old(self)@.position, old(self)@.errors),
            ),
            yields_expr(
                r,
                grammar::expression(old(self)@.tokens, old(self)@.position, old(self)@.errors),
            ),
        decreases remaining(old(self)@.tokens, old(self)@.position), 41nat,
    {
        self.assignment()
    }

    /// Parses an assignment, or an expression of a tighter level.
    pub fn assignment(&mut self) -> (r: Result<Expr, LoxError>)
        requires
            old(self).wf(),
        ensures
            final(self).wf(),
            final(self).advanced(
                old(self),
                grammar::assignment(old(self)@.tokens, old(self)@.position, old(self)@.errors),
            ),
            yields_expr(
                r,
                grammar::assignment(old(self)@.tokens, old(self)@.position, old(self)@.errors),
            ),
        decreases remaining(old(self)@.tokens, old(self)@.position), 40nat,
    {
        let expr = match self.or() {
            Ok(e) => e,
            Err(e) => {
                return Err(e);
            },
        };
        if self.is_match(TokenType::Equal) {
            let equals = self.previous().dup();
            let value = match self.assignment() {
                Ok(v) => v,
                Err(e) => {
                    return Err(e);
                },
            };
            if let Expr::Variable(variable) = expr {
                return Ok(Expr::Assign(AssignExpr { name: variable.name, value: Box::new(value) }));
            }
            self.error(&equals, "Invalid assignment target.");
        }
        Ok(expr)
    }

    fn or(&mut self) -> (r: Result<Expr, LoxError>)
        requires
            old(self).wf(),
        ensures
            final(self).wf(),
            final(self).advanced(
                old(self),
                grammar::binary(
                    old(self)@.tokens,
                    old(self)@.position,
                    old(self)@.errors,
                    Precedence::Or,
                ),
            ),
            yields_expr(
                r,
                grammar::binary(
                    old(self)@.tokens,
                    old(self)@.position,
                    old(self)@.errors,
                    Precedence::Or,
                ),
            ),
        decreases remaining(old(self)@.tokens, old(self)@.position), 4 * Precedence::Or.height() + 5,
    {
        self.binary(Precedence::Or)
    }

    fn and(&mut self) -> (r: Result<Expr, LoxError>)
        requires
            old(self).wf(),
        ensures
            final(self).wf(),
            final(self).advanced(
                old(self),
                grammar::binary(
                    old(self)@.tokens,
                    old(self)@.position,
                    old(self)@.errors,
                    Precedence::And,
                ),
            ),
            yields_expr(
                r,
                grammar::binary(
                    old(self)@.tokens,
                    old(self)@.position,
                    old(self)@.errors,
                    Precedence::And,
                ),
            ),
        decreases remaining(old(self)@.tokens, old(self)@.position), 4 * Precedence::And.height()
            + 5,
    {
        self.binary(Precedence::And)
    }

    fn equality(&mut self) -> (r: Result<Expr, LoxError>)
        requires
            old(self).wf(),
        ensures
            final(self).wf(),
            final(self).advanced(
                old(self),
                grammar::binary(
                    old(self)@.tokens,
                    old(self)@.position,
                    old(self)@.errors,
                    Precedence::Equality,
                ),
            ),
            yields_expr(
                r,
                grammar::binary(
                    old(self)@.tokens,
                    old(self)@.position,
                    old(self)@.errors,
                    Precedence::Equality,
                ),
            ),
        decreases remaining(old(self)@.tokens, old(self)@.position), 4
            * Precedence::Equality.height() + 5,
    {
        self.binary(Precedence::Equality)
    }

    fn comparison(&mut self) -> (r: Result<Expr, LoxError>)
        requires
            old(self).wf(),
        ensures
            final(self).wf(),
            final(self).advanced(
                old(self),
                grammar::binary(
                    old(self)@.tokens,
                    old(self)@.position,
                    old(self)@.errors,
                    Precedence::Comparison,
                ),
            ),
            yields_expr(
                r,
                grammar::binary(
                    old(self)@.tokens,
                    old(self)@.position,
                    old(self)@.errors,
                    Precedence::Comparison,
                ),
            ),
        decreases remaining(old(self)@.tokens, old(self)@.position), 4
            * Precedence::Comparison.height() + 5,
    {
        self.binary(Precedence::Comparison)
    }

    fn term(&mut self) -> (r: Result<Expr, LoxError>)
        requires
            old(self).wf(),
        ensures
            final(self).wf(),
            final(self).advanced(
                old(self),
                grammar::binary(
                    old(self)@.tokens,
                    old(self)@.position,
                    old(self)@.errors,
                    Precedence::Term,
                ),
            ),
            yields_expr(
                r,
                grammar::binary(
                    old(self)@.tokens,
                    old(self)@.position,
                    old(self)@.errors,
                    Precedence::Term,
                ),
            ),
        decreases remaining(old(self)@.tokens, old(self)@.position), 4 * Precedence::Term.height()
            + 5,
    {
        self.binary(Precedence::Term)
    }

    fn factor(&mut self) -> (r: Result<Expr, LoxError>)
        requires
            old(self).wf(),
        ensures
            final(self).wf(),
            final(self).advanced(
                old(self),
                grammar::binary(
                    old(self)@.tokens,
                    old(self)@.position,
                    old(self)@.errors,
                    Precedence::Factor,
                ),
            ),
            yields_expr(
                r,
                grammar::binary(
                    old(self)@.tokens,
                    old(self)@.position,
                    old(self)@.errors,
                    Precedence::Factor,
                ),
            ),
        decreases remaining(old(self)@.tokens, old(self)@.position), 4
            * Precedence::Factor.height() + 5,
    {
        self.binary(Precedence::Factor)
    }

    /// Parses an operand of `level`.
    fn operand(&mut self, level: Precedence) -> (r: Result<Expr, LoxError>)
        requires
            old(self).wf(),
        ensures
            final(self).wf(),
            final(self).advanced(
                old(self),
                grammar::operand(old(self)@.tokens, old(self)@.position, old(self)@.errors, level),
            ),
            yields_expr(
                r,
                grammar::operand(old(self)@.tokens, old(self)@.position, old(self)@.errors, level),
            ),
        decreases remaining(old(self)@.tokens, old(self)@.position), 4 * level.height() + 2,
    {
        match level {
            Precedence::Or => self.and(),
            Precedence::And => self.equality(),
            Precedence::Equality => self.comparison(),
            Precedence::Comparison => self.term(),
            Precedence::Term => self.factor(),
            Precedence::Factor => self.unary(),
        }
    }

    /// Parses a chain of operators of `level`, which associate to the left.
    fn binary(&mut self, level: Precedence) -> (r: Result<Expr, LoxError>)
        requires
            old(self).wf(),
        ensures
            final(self).wf(),
            final(self).advanced(
                old(self),
                grammar::binary(old(self)@.tokens, old(self)@.position, old(self)@.errors, level),
            ),
            yields_expr(
                r,
                grammar::binary(old(self)@.tokens, old(self)@.position, old(self)@.errors, level),
            ),
        decreases remaining(old(self)@.tokens, old(self)@.position), 4 * level.height() + 4,
    {
        let ghost ts = self@.tokens;
        let ghost start = self@.position;
        let ghost whole = grammar::binary(ts, start, self@.errors, level);
        let mut expr = match self.operand(level) {
            Ok(e) => e,
            Err(e) => {
                return Err(e);
            },
        };
        loop
            invariant
                self.wf(),
                ts == old(self)@.tokens,
                start == old(self)@.position,
                whole == grammar::binary(ts, start, old(self)@.errors, level),
                self@.tokens == ts,
                self@.position >= start,
                whole == grammar::binary_rest(ts, self@.position, self@.errors, level, expr).after(
                    (self@.position - start) as nat,
                ),
            ensures
                self.wf(),
                self@.tokens == ts,
                whole == grammar::accepted(expr, (self@.position - start) as nat, self@.errors),
            decreases remaining(ts, self@.position),
        {
            if !self.match_operator(level) {
                break ;
            }
            let operator = self.previous().dup();
            let right = match self.operand(level) {
                Ok(r) => r,
                Err(e) => {
                    return Err(e);
                },
            };
            expr = join(level, expr, operator, right);
        }
        Ok(expr)
    }

    fn unary(&mut self) -> (r: Result<Expr, LoxError>)
        requires
            old(self).wf(),
        ensures
            final(self).wf(),
            final(self).advanced(
                old(self),
                grammar::unary(old(self)@.tokens, old(self)@.position, old(self)@.errors),
            ),
            yields_expr(
                r,
                grammar::unary(old(self)@.tokens, old(self)@.position, old(self)@.errors),
            ),
        decreases remaining(old(self)@.tokens, old(self)@.position), 1nat,
    {
        if self.is_match(TokenType::Bang) || self.is_match(TokenType::Minus) {
            let operator = self.previous().dup();
            let right = match self.unary() {
                Ok(r) => r,
                Err(e) => {
                    return Err(e);
                },
            };
            return Ok(Expr::Unary(UnaryExpr { operator, right: Box::new(right) }));
        }
        self.primary()
    }

    fn primary(&mut self) -> (r: Result<Expr, LoxError>)
        requires
            old(self).wf(),
        ensures
            final(self).wf(),
            final(self).advanced(
                old(self),
                grammar::primary(old(self)@.tokens, old(self)@.position, old(self)@.errors),
            ),
            yields_expr(
                r,
                grammar::primary(old(self)@.tokens, old(self)@.position, old(self)@.errors),
            ),
        decreases remaining(old(self)@.tokens, old(self)@.position), 0nat,
    {
        if self.is_match(TokenType::False) {
            return Ok(literal(Some(Literal::Bool(false))));
        }
        if self.is_match(TokenType::True) {
            return Ok(literal(Some(Literal::Bool(true))));
        }
        if self.is_match(TokenType::Nil) {
            return Ok(literal(Some(Literal::Nil)));
        }
        if self.is_match(TokenType::Number) || self.is_match(TokenType::String) {
            let value = match &self.previous().literal {
                Some(l) => Some(l.dup()),
                None => None,
            };
            return Ok(literal(value));
        }
        if self.is_match(TokenType::Identifier) {
            return Ok(Expr::Variable(VariableExpr { name: self.previous().dup() }));
        }
        if self.is_match(TokenType::LeftParen) {
            let expr = match self.expression() {
                Ok(e) => e,
                Err(e) => {
                    return Err(e);
                },
            };
            match self.consume(TokenType::RightParen, "Expect ')' after expression.") {
                Ok(_) => {},
                Err(e) => {
                    return Err(e);
                },
            }
            return Ok(Expr::Grouping(GroupingExpr { expression: Box::new(expr) }));
        }
        let peek = self.peek().dup();
        Err(self.error(&peek, "Expect expression."))
    }

    /// Parses `expression ";"`.
    pub fn expression_statement(&mut self) -> (r: Result<Stmt, LoxError>)
        requires
            old(self).wf(),
        ensures
            final(self).wf(),
            r is Ok ==> final(self)@.position > old(self)@.position,
            final(self).advanced(
                old(self),
                grammar::expression_statement(
                    old(self)@.tokens,
                    old(self)@.position,
                    old(self)@.errors,
                ),
            ),
            yields_stmt(
                r,
                grammar::expression_statement(
                    old(self)@.tokens,
                    old(self)@.position,
                    old(self)@.errors,
                ),
            ),
    {
        proof {
            reveal(grammar::expression_statement);
        }
        let value = match self.expression() {
            Ok(e) => e,
            Err(e) => {
                return Err(e);
            },
        };
        match self.consume(TokenType::SemiColon, "Expect ';' after value.") {
            Ok(_) => {},
            Err(e) => {
                return Err(e);
            },
        }
        Ok(Stmt::Expression(ExpressionStmt { expression: value }))
    }

    /// Parses what follows `print`: `expression ";"`.
    pub fn print_statement(&mut self) -> (r: Result<Stmt, LoxError>)
        requires
            old(self).wf(),
        ensures
            final(self).wf(),
            r is Ok ==> final(self)@.position > old(self)@.position,
            final(self).advanced(
                old(self),
                grammar::print_statement(old(self)@.tokens, old(self)@.position, old(self)@.errors),
            ),
            yields_stmt(
                r,
                grammar::print_statement(old(self)@.tokens, old(self)@.position, old(self)@.errors),
            ),
    {
        proof {
            reveal(grammar::print_statement);
        }
        let value = match self.expression() {
            Ok(e) => e,
            Err(e) => {
                return Err(e);
            },
        };
        match self.consume(TokenType::SemiColon, "Expect ';' after value.") {
            Ok(_) => {},
            Err(e) => {
                return Err(e);
            },
        }
        Ok(Stmt::Print(PrintStmt { expression: value }))
    }

    /// Parses what follows `break`, which is `keyword`: `";"`.
    fn break_statement(&mut self, keyword: Token) -> (r: Result<Stmt, LoxError>)
        requires
            old(self).wf(),
        ensures
            final(self).wf(),
            r is Ok ==> final(self)@.position > old(self)@.position,
            final(self).advanced(
                old(self),
                grammar::break_statement(
                    old(self)@.tokens,
                    old(self)@.position,
                    old(self)@.errors,
                    keyword,
                ),
            ),
            yields_stmt(
                r,
                grammar::break_statement(
                    old(self)@.tokens,
                    old(self)@.position,
                    old(self)@.errors,
                    keyword,
                ),
            ),
    {
        proof {
            reveal(grammar::break_statement);
        }
        match self.consume(TokenType::SemiColon, "Expect ';' after 'break'.") {
            Ok(_) => {},
            Err(e) => {
                return Err(e);
            },
        }
        Ok(Stmt::Break(BreakStmt { token: keyword }))
    }

    /// Parses what follows `var`: `IDENT ( "=" expression )? ";"`.
    fn var_declaration(&mut self) -> (r: Result<Stmt, LoxError>)
        requires
            old(self).wf(),
        ensures
            final(self).wf(),
            r is Ok ==> final(self)@.position > old(self)@.position,
            final(self).advanced(
                old(self),
                grammar::var_declaration(old(self)@.tokens, old(self)@.position, old(self)@.errors),
            ),
            yields_stmt(
                r,
                grammar::var_declaration(old(self)@.tokens, old(self)@.position, old(self)@.errors),
            ),
    {
        proof {
            reveal(grammar::var_declaration);
            reveal(grammar::initializer);
        }
        let name = match self.consume(TokenType::Identifier, "Expect variable name.") {
            Ok(t) => t,
            Err(e) => {
                return Err(e);
            },
        };
        let initializer = if self.is_match(TokenType::Equal) {
            match self.expression() {
                Ok(e) => Some(e),
                Err(e) => {
                    return Err(e);
                },
            }
        } else {
            None
        };
        match self.consume(TokenType::SemiColon, "Expect ';' after variable declaration.") {
            Ok(_) => {},
            Err(e) => {
                return Err(e);
            },
        }
        Ok(Stmt::Var(VarStmt { name, initializer }))
    }

    /// Parses `"(" expression ")"`.
    fn condition(&mut self, open_message: &str, close_message: &str) -> (r: Result<Expr, LoxError>)
        requires
            old(self).wf(),
        ensures
            final(self).wf(),
            r is Ok ==> final(self)@.position > old(self)@.position,
            final(self).advanced(
                old(self),
                grammar::condition(
                    old(self)@.tokens,
                    old(self)@.position,
                    old(self)@.errors,
                    open_message@,
                    close_message@,
                ),
            ),
            yields_expr(
                r,
                grammar::condition(
                    old(self)@.tokens,
                    old(self)@.position,
                    old(self)@.errors,
                    open_message@,
                    close_message@,
                ),
            ),
    {
        proof {
            reveal(grammar::condition);
        }
        match self.consume(TokenType::LeftParen, open_message) {
            Ok(_) => {},
            Err(e) => {
                return Err(e);
            },
        }
        let condition = match self.expression() {
            Ok(e) => e,
            Err(e) => {
                return Err(e);
            },
        };
        match self.consume(TokenType::RightParen, close_message) {
            Ok(_) => {},
            Err(e) => {
                return Err(e);
            },
        }
        Ok(condition)
    }

    /// Drops tokens up to the next likely start of a statement.
    fn synchronize(&mut self)
        requires
            old(self).wf(),
        ensures
            final(self).wf(),
            final(self)@.tokens == old(self)@.tokens,
            final(self)@.errors == old(self)@.errors,
            final(self)@.position == grammar::synchronized(old(self)@.tokens, old(self)@.position),
            final(self)@.position >= old(self)@.position,
    {
        if !self.is_at_end() {
            self.advance();
        }
        while !self.is_at_end()
            invariant
                self.wf(),
                self@.tokens == old(self)@.tokens,
                self@.errors == old(self)@.errors,
                self@.position >= old(self)@.position,
                grammar::synchronized(old(self)@.tokens, old(self)@.position) == grammar::resume_at(
                    self@.tokens,
                    self@.position,
                ),
            decreases remaining(self@.tokens, self@.position),
        {
            if self.current > 0 && self.previous().is(TokenType::SemiColon) {
                return ;
            }
            match self.peek().token_type() {
                TokenType::Class
                | TokenType::Fun
                | TokenType::Var
                | TokenType::For
                | TokenType::If
                | TokenType::While
                | TokenType::Print
                | TokenType::Return => {
                    return ;
                },
                _ => {},
            }
            self.advance();
        }
    }

    fn statement(&mut self) -> (r: Result<Stmt, LoxError>)
        requires
            old(self).wf(),
        ensures
            final(self).wf(),
            r is Ok ==> final(self)@.position > old(self)@.position,
            final(self).advanced(
                old(self),
                grammar::statement(old(self)@.tokens, old(self)@.position, old(self)@.errors),
            ),
            yields_stmt(
                r,
                grammar::statement(old(self)@.tokens, old(self)@.position, old(self)@.errors),
            ),
        decreases remaining(old(self)@.tokens, old(self)@.position), 0nat,
    {
        if self.is_match(TokenType::For) {
            return self.for_statement();
        }
        if self.is_match(TokenType::If) {
            return self.if_statement();
        }
        if self.is_match(TokenType::Print) {
            return self.print_statement();
        }
        if self.is_match(TokenType::While) {
            return self.while_statement();
        }
        if self.is_match(TokenType::Break) {
            let keyword = self.previous().dup();
            return self.break_statement(keyword);
        }
        if self.is_match(TokenType::LeftBrace) {
            let statements = match self.block() {
                Ok(v) => v,
                Err(e) => {
                    return Err(e);
                },
            };
            proof {
                lemma_block_view(statements);
            }
            return Ok(Stmt::Block(BlockStmt { statements }));
        } else {
            return self.expression_statement();
        }
    }

    /// Parses the first clause of a `for`.
    fn for_initializer(&mut self) -> (r: Result<Option<Stmt>, LoxError>)
        requires
            old(self).wf(),
        ensures
            final(self).wf(),
            final(self).advanced(
                old(self),
                grammar::for_initializer(old(self)@.tokens, old(self)@.position, old(self)@.errors),
            ),
            ({
                let p = grammar::for_initializer(
                    old(self)@.tokens,
                    old(self)@.position,
                    old(self)@.errors,
                );
                match r {
                    Ok(Some(s)) => p.value == Some(Some(s@)),
                    Ok(None) => p.value == Some(None::<StmtView>),
                    Err(x) => p.value is None && p.errors.len() > 0 && x@ == p.errors.last(),
                }
            }),
    {
        proof {
            reveal(grammar::for_initializer);
        }
        if self.is_match(TokenType::SemiColon) {
            Ok(None)
        } else if self.is_match(TokenType::Var) {
            match self.var_declaration() {
                Ok(s) => Ok(Some(s)),
                Err(e) => Err(e),
            }
        } else {
            match self.expression_statement() {
                Ok(s) => Ok(Some(s)),
                Err(e) => Err(e),
            }
        }
    }

    /// Parses an expression, unless the next token is of kind `closer`.
    fn for_clause(&mut self, closer: TokenType) -> (r: Result<Option<Expr>, LoxError>)
        requires
            old(self).wf(),
        ensures
            final(self).wf(),
            final(self).advanced(
                old(self),
                grammar::for_clause(
                    old(self)@.tokens,
                    old(self)@.position,
                    old(self)@.errors,
                    closer,
                ),
            ),
            ({
                let p = grammar::for_clause(
                    old(self)@.tokens,
                    old(self)@.position,
                    old(self)@.errors,
                    closer,
                );
                match r {
                    Ok(v) => p.value == Some(v),
                    Err(x) => p.value is None && p.errors.len() > 0 && x@ == p.errors.last(),
                }
            }),
    {
        proof {
            reveal(grammar::for_clause);
        }
        if self.check(closer) {
            Ok(None)
        } else {
            match self.expression() {
                Ok(e) => Ok(Some(e)),
                Err(e) => Err(e),
            }
        }
    }

    /// Parses the clauses of a `for`, parentheses included.
    fn for_head(&mut self) -> (r: Result<(Option<Stmt>, Option<Expr>, Option<Expr>), LoxError>)
        requires
            old(self).wf(),
        ensures
            final(self).wf(),
            final(self).advanced(
                old(self),
                grammar::for_head(old(self)@.tokens, old(self)@.position, old(self)@.errors),
            ),
            ({
                let p = grammar::for_head(
                    old(self)@.tokens,
                    old(self)@.position,
                    old(self)@.errors,
                );
                match r {
                    Ok(h) => p.value == Some(head_view(h.0, h.1, h.2)) && p.consumed > 0,
                    Err(x) => p.value is None && p.errors.len() > 0 && x@ == p.errors.last(),
                }
            }),
    {
        proof {
            reveal(grammar::for_head);
        }
        match self.consume(TokenType::LeftParen, "Expect '(' after 'for'.") {
            Ok(_) => {},
            Err(e) => {
                return Err(e);
            },
        }
        let initializer = match self.for_initializer() {
            Ok(i) => i,
            Err(e) => {
                return Err(e);
            },
        };
        let condition = match self.for_clause(TokenType::SemiColon) {
            Ok(c) => c,
            Err(e) => {
                return Err(e);
            },
        };
        match self.consume(TokenType::SemiColon, "Expect ';' after loop condition.") {
            Ok(_) => {},
            Err(e) => {
                return Err(e);
            },
        }
        let increment = match self.for_clause(TokenType::RightParen) {
            Ok(i) => i,
            Err(e) => {
                return Err(e);
            },
        };
        match self.consume(TokenType::RightParen, "Expect ')' after for clauses.") {
            Ok(_) => {},
            Err(e) => {
                return Err(e);
            },
        }
        Ok((initializer, condition, increment))
    }

    /// Parses what follows `for`, and writes the loop with `while`.
    fn for_statement(&mut self) -> (r: Result<Stmt, LoxError>)
        requires
            old(self).wf(),
        ensures
            final(self).wf(),
            r is Ok ==> final(self)@.position > old(self)@.position,
            final(self).advanced(
                old(self),
                grammar::for_statement(old(self)@.tokens, old(self)@.position, old(self)@.errors),
            ),
            yields_stmt(
                r,
                grammar::for_statement(old(self)@.tokens, old(self)@.position, old(self)@.errors),
            ),
        decreases remaining(old(self)@.tokens, old(self)@.position), 0nat,
    {
        let (initializer, condition, increment) = match self.for_head() {
            Ok(h) => h,
            Err(e) => {
                return Err(e);
            },
        };
        let body = match self.statement() {
            Ok(s) => s,
            Err(e) => {
                return Err(e);
            },
        };
        Ok(desugar(initializer, condition, increment, body))
    }

    /// Parses what follows `if`.
    fn if_statement(&mut self) -> (r: Result<Stmt, LoxError>)
        requires
            old(self).wf(),
        ensures
            final(self).wf(),
            r is Ok ==> final(self)@.position > old(self)@.position,
            final(self).advanced(
                old(self),
                grammar::if_statement(old(self)@.tokens, old(self)@.position, old(self)@.errors),
            ),
            yields_stmt(
                r,
                grammar::if_statement(old(self)@.tokens, old(self)@.position, old(self)@.errors),
            ),
        decreases remaining(old(self)@.tokens, old(self)@.position), 0nat,
    {
        let condition = match self.condition("Expect '(' after 'if'.", "Expect ')' after 'if'.") {
            Ok(e) => e,
            Err(e) => {
                return Err(e);
            },
        };
        let then_branch = match self.statement() {
            Ok(s) => Box::new(s),
            Err(e) => {
                return Err(e);
            },
        };
        let else_branch = if self.is_match(TokenType::Else) {
            match self.statement() {
                Ok(s) => Some(Box::new(s)),
                Err(e) => {
                    return Err(e);
                },
            }
        } else {
            None
        };
        Ok(Stmt::If(IfStmt { condition, then_branch, else_branch }))
    }

    /// Parses what follows `while`.
    fn while_statement(&mut self) -> (r: Result<Stmt, LoxError>)
        requires
            old(self).wf(),
        ensures
            final(self).wf(),
            r is Ok ==> final(self)@.position > old(self)@.position,
            final(self).advanced(
                old(self),
                grammar::while_statement(old(self)@.tokens, old(self)@.position, old(self)@.errors),
            ),
            yields_stmt(
                r,
                grammar::while_statement(old(self)@.tokens, old(self)@.position, old(self)@.errors),
            ),
        decreases remaining(old(self)@.tokens, old(self)@.position), 0nat,
    {
        let condition = match self.condition(
            "Expect '(' after 'while'.",
            "Expect ')' after 'while'.",
        ) {
            Ok(e) => e,
            Err(e) => {
                return Err(e);
            },
        };
        let body = match self.statement() {
            Ok(s) => Box::new(s),
            Err(e) => {
                return Err(e);
            },
        };
        Ok(Stmt::While(WhileStmt { condition, body }))
    }

    /// Parses a variable declaration or a statement. After a parse error it
    /// drops the tokens up to the next likely start of a statement.
    fn declaration(&mut self) -> (r: Result<Stmt, LoxError>)
        requires
            old(self).wf(),
        ensures
            final(self).wf(),
            final(self).advanced(
                old(self),
                grammar::declaration(old(self)@.tokens, old(self)@.position, old(self)@.errors),
            ),
            yields_stmt(
                r,
                grammar::declaration(old(self)@.tokens, old(self)@.position, old(self)@.errors),
            ),
            r is Ok ==> final(self)@.position > old(self)@.position,
        decreases remaining(old(self)@.tokens, old(self)@.position), 1nat,
    {
        let result = if self.is_match(TokenType::Var) {
            self.var_declaration()
        } else {
            self.statement()
        };
        if result.is_err() {
            self.synchronize();
        }
        result
    }

    /// Parses the statements of a block and the `}` that ends it.
    fn block(&mut self) -> (r: Result<Vec<Stmt>, LoxError>)
        requires
            old(self).wf(),
        ensures
            final(self).wf(),
            r is Ok ==> final(self)@.position > old(self)@.position,
            final(self).advanced(
                old(self),
                grammar::block(
                    old(self)@.tokens,
                    old(self)@.position,
                    old(self)@.errors,
                    Seq::empty(),
                ),
            ),
            yields_stmts(
                r,
                grammar::block(
                    old(self)@.tokens,
                    old(self)@.position,
                    old(self)@.errors,
                    Seq::empty(),
                ),
            ),
        decreases remaining(old(self)@.tokens, old(self)@.position), 2nat,
    {
        let mut statements: Vec<Stmt> = Vec::new();
        let ghost ts = self@.tokens;
        let ghost start = self@.position;
        let ghost whole = grammar::block(ts, start, self@.errors, Seq::empty());
        assert(stmt_views(statements@) =~= Seq::empty());
        while !self.check(TokenType::RightBrace) && !self.is_at_end()
            invariant
                self.wf(),
                ts == old(self)@.tokens,
                start == old(self)@.position,
                self@.tokens == ts,
                self@.position >= start,
                whole == grammar::block(ts, start, old(self)@.errors, Seq::empty()),
                whole == grammar::block(
                    ts,
                    self@.position,
                    self@.errors,
                    stmt_views(statements@),
                ).after((self@.position - start) as nat),
            decreases remaining(ts, self@.position),
        {
            let ghost before = stmt_views(statements@);
            match self.declaration() {
                Ok(s) => {
                    statements.push(s);
                    assert(stmt_views(statements@) =~= before.push(s@));
                },
                Err(e) => {
                    return Err(e);
                },
            }
        }
        match self.consume(TokenType::RightBrace, "Expect '}' after block.") {
            Ok(_) => {},
            Err(e) => {
                return Err(e);
            },
        }
        Ok(statements)
    }

    /// Parses a program: declarations up to `Eof`. A declaration that fails
    /// is left out, and parsing goes on behind the tokens dropped after its
    /// error, so that one call records the errors of all declarations. Hands
    /// out the statements if every declaration parsed, else the first error
    /// that made one fail.
    pub fn parse(&mut self) -> (r: Result<Vec<Stmt>, LoxError>)
        requires
            old(self).wf(),
        ensures
            final(self).wf(),
            before_eof(final(self)@.tokens, final(self)@.position),
            kind_at(final(self)@.tokens, final(self)@.position) == TokenType::Eof,
            ({
                let whole = grammar::program(
                    old(self)@.tokens,
                    old(self)@.position,
                    old(self)@.errors,
                    Seq::empty(),
                    None,
                );
                &&& final(self)@.tokens == old(self)@.tokens
                &&& final(self)@.position == old(self)@.position + whole.consumed
                &&& final(self)@.errors == whole.errors
                &&& match r {
                    Ok(v) => whole.failure is None && stmt_views(v@) == whole.statements,
                    Err(e) => whole.failure == Some(e@),
                }
            }),
    {
        let mut statements: Vec<Stmt> = Vec::new();
        let mut failure: Option<LoxError> = None;
        let ghost ts = self@.tokens;
        let ghost start = self@.position;
        let ghost whole = grammar::program(ts, start, self@.errors, Seq::empty(), None);
        assert(stmt_views(statements@) =~= Seq::empty());
        while !self.is_at_end()
            invariant
                self.wf(),
                ts == old(self)@.tokens,
                start == old(self)@.position,
                self@.tokens == ts,
                self@.position >= start,
                whole == grammar::program(ts, start, old(self)@.errors, Seq::empty(), None),
                ({
                    let rest = grammar::program(
                        ts,
                        self@.position,
                        self@.errors,
                        stmt_views(statements@),
                        match failure {
                            Some(e) => Some(e@),
                            None => None,
                        },
                    );
                    &&& whole.statements == rest.statements
                    &&& whole.failure == rest.failure
                    &&& whole.errors == rest.errors
                    &&& whole.consumed == rest.consumed + (self@.position - start)
                }),
            decreases remaining(ts, self@.position),
        {
            let ghost before = stmt_views(statements@);
            proof {
                grammar::lemma_declaration_advances(ts, self@.position, self@.errors);
            }
            match self.declaration() {
                Ok(s) => {
                    statements.push(s);
                    assert(stmt_views(statements@) =~= before.push(s@));
                },
                Err(e) => {
                    if failure.is_none() {
                        failure = Some(e);
                    }
                },
            }
        }
        match failure {
            Some(e) => Err(e),
            None => Ok(statements),
        }
    }
}

} // verus!
