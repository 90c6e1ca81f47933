//! The grammar: what a token sequence parses to, as functions on the
//! sequence. The parser is proved to compute them.
use vstd::prelude::*;
use crate::error::error_at;
use crate::error::ErrorKind;
use crate::error::ErrorView;
use crate::expr::AssignExpr;
use crate::expr::BinaryExpr;
use crate::expr::Expr;
use crate::expr::GroupingExpr;
use crate::expr::LiteralExpr;
use crate::expr::LogicalExpr;
use crate::expr::UnaryExpr;
use crate::expr::VariableExpr;
use crate::literal::Literal;
use crate::stmt::StmtView;
use crate::token::Token;
use crate::token_type::TokenType;

verus! {

/// What parsing from some position came to.
pub struct Parsed<T> {
    /// What was parsed; `None` after a parse error, which is then the last
    /// of `errors`.
    pub value: Option<T>,
    /// How many tokens were taken.
    pub consumed: nat,
    /// The errors recorded so far, those from before included.
    pub errors: Seq<ErrorView>,
}

impl<T> Parsed<T> {
    /// The same outcome, reached after `n` more tokens.
    pub open spec fn after(self, n: nat) -> Parsed<T> {
        Parsed { value: self.value, consumed: self.consumed + n, errors: self.errors }
    }
}

/// `value`, parsed from `consumed` tokens.
pub open spec fn accepted<T>(value: T, consumed: nat, errors: Seq<ErrorView>) -> Parsed<T> {
    Parsed { value: Some(value), consumed, errors }
}

/// A failure that was recorded further in, `consumed` tokens from the start.
pub open spec fn abandoned<T>(consumed: nat, errors: Seq<ErrorView>) -> Parsed<T> {
    Parsed { value: None, consumed, errors }
}

/// A parse error at the token at position `at`, recorded after `consumed`
/// tokens.
pub open spec fn rejected<T>(
    ts: Seq<Token>,
    at: nat,
    consumed: nat,
    errors: Seq<ErrorView>,
    message: Seq<char>,
) -> Parsed<T> {
    Parsed {
        value: None,
        consumed,
        errors: errors.push(error_at(ErrorKind::Parse, ts[at as int], message)),
    }
}

/// The kind of the token at `pos`; past the end there is only `Eof`.
pub open spec fn kind_at(ts: Seq<Token>, pos: nat) -> TokenType {
    if pos < ts.len() {
        ts[pos as int].token_type
    } else {
        TokenType::Eof
    }
}

/// Whether the token at `pos` is of kind `kind` and is not `Eof`.
pub open spec fn check(ts: Seq<Token>, pos: nat, kind: TokenType) -> bool {
    kind_at(ts, pos) != TokenType::Eof && kind_at(ts, pos) == kind
}

/// How many tokens stand at or after `pos`.
pub open spec fn remaining(ts: Seq<Token>, pos: nat) -> nat {
    if pos < ts.len() {
        (ts.len() - pos) as nat
    } else {
        0
    }
}

/// Takes the token at `pos` if it is of kind `kind`; else a parse error there.
pub open spec fn expect(
    ts: Seq<Token>,
    pos: nat,
    errors: Seq<ErrorView>,
    kind: TokenType,
    message: Seq<char>,
) -> Parsed<Token> {
    if check(ts, pos, kind) {
        accepted(ts[pos as int], 1, errors)
    } else {
        rejected(ts, pos, 0, errors, message)
    }
}

// ---------------------------------------------------------------------------
// Expressions
// ---------------------------------------------------------------------------
/// The levels of binary operators, loosest first. All associate to the left.
#[derive(Clone, Copy, PartialEq, Eq, Structural)]
pub enum Precedence {
    Or,
    And,
    Equality,
    Comparison,
    Term,
    Factor,
}

impl Precedence {
    /// The next tighter level; the operands of a factor are unary expressions.
    pub open spec fn tighter(self) -> Option<Precedence> {
        match self {
            Precedence::Or => Some(Precedence::And),
            Precedence::And => Some(Precedence::Equality),
            Precedence::Equality => Some(Precedence::Comparison),
            Precedence::Comparison => Some(Precedence::Term),
            Precedence::Term => Some(Precedence::Factor),
            Precedence::Factor => None,
        }
    }

    /// How many levels bind tighter.
    pub open spec fn height(self) -> nat {
        match self {
            Precedence::Or => 5,
            Precedence::And => 4,
            Precedence::Equality => 3,
            Precedence::Comparison => 2,
            Precedence::Term => 1,
            Precedence::Factor => 0,
        }
    }

    /// Whether a token of kind `kind` is an operator of this level.
    pub open spec fn joins(self, kind: TokenType) -> bool {
        match self {
            Precedence::Or => kind == TokenType::Or,
            Precedence::And => kind == TokenType::And,
            Precedence::Equality => kind == TokenType::BangEqual || kind == TokenType::EqualEqual,
            Precedence::Comparison => kind == TokenType::Greater || kind == TokenType::GreaterEqual
                || kind == TokenType::Less || kind == TokenType::LessEqual,
            Precedence::Term => kind == TokenType::Minus || kind == TokenType::Plus,
            Precedence::Factor => kind == TokenType::Slash || kind == TokenType::Star,
        }
    }

    /// The node for `left operator right`: `and` and `or` short-circuit, so
    /// they make a `Logical`; every other operator makes a `Binary`.
    pub open spec fn joined(self, left: Expr, operator: Token, right: Expr) -> Expr {
        match self {
            Precedence::Or | Precedence::And => Expr::Logical(
                LogicalExpr { left: Box::new(left), operator, right: Box::new(right) },
            ),
            _ => Expr::Binary(
                BinaryExpr { left: Box::new(left), operator, right: Box::new(right) },
            ),
        }
    }
}

/// The expression that is the value `value`, written in the source.
pub open spec fn literal_expr(value: Option<Literal>) -> Expr {
    Expr::Literal(LiteralExpr { value })
}

/// `primary → "false" | "true" | "nil" | NUMBER | STRING | IDENT | "(" expression ")"`
pub open spec fn primary(ts: Seq<Token>, pos: nat, errors: Seq<ErrorView>) -> Parsed<Expr>
    decreases remaining(ts, pos), 0nat,
{
    let kind = kind_at(ts, pos);
    if kind == TokenType::False {
        accepted(literal_expr(Some(Literal::Bool(false))), 1, errors)
    } else if kind == TokenType::True {
        accepted(literal_expr(Some(Literal::Bool(true))), 1, errors)
    } else if kind == TokenType::Nil {
        accepted(literal_expr(Some(Literal::Nil)), 1, errors)
    } else if kind == TokenType::Number || kind == TokenType::String {
        accepted(literal_expr(ts[pos as int].literal), 1, errors)
    } else if kind == TokenType::Identifier {
        accepted(Expr::Variable(VariableExpr { name: ts[pos as int] }), 1, errors)
    } else if kind == TokenType::LeftParen {
        let inner = expression(ts, pos + 1, errors);
        match inner.value {
            None => abandoned(inner.consumed + 1, inner.errors),
            Some(e) => {
                let close = expect(
                    ts,
                    pos + 1 + inner.consumed,
                    inner.errors,
                    TokenType::RightParen,
                    "Expect ')' after expression."@,
                );
                match close.value {
                    None => abandoned(inner.consumed + 1, close.errors),
                    Some(_) => accepted(
                        Expr::Grouping(GroupingExpr { expression: Box::new(e) }),
                        inner.consumed + 2,
                        close.errors,
                    ),
                }
            },
        }
    } else {
        rejected(ts, pos, 0, errors, "Expect expression."@)
    }
}

/// `unary → ( "!" | "-" ) unary | primary`
pub open spec fn unary(ts: Seq<Token>, pos: nat, errors: Seq<ErrorView>) -> Parsed<Expr>
    decreases remaining(ts, pos), 1nat,
{
    if check(ts, pos, TokenType::Bang) || check(ts, pos, TokenType::Minus) {
        let right = unary(ts, pos + 1, errors);
        match right.value {
            None => abandoned(right.consumed + 1, right.errors),
            Some(r) => accepted(
                Expr::Unary(UnaryExpr { operator: ts[pos as int], right: Box::new(r) }),
                right.consumed + 1,
                right.errors,
            ),
        }
    } else {
        primary(ts, pos, errors)
    }
}

/// An operand of level `level`: an expression of the next tighter level.
pub open spec fn operand(
    ts: Seq<Token>,
    pos: nat,
    errors: Seq<ErrorView>,
    level: Precedence,
) -> Parsed<Expr>
    decreases remaining(ts, pos), 3 * level.height() + 2,
{
    match level.tighter() {
        Some(next) => binary(ts, pos, errors, next),
        None => unary(ts, pos, errors),
    }
}

/// `operand ( operator operand )*` for the operators of level `level`.
pub open spec fn binary(
    ts: Seq<Token>,
    pos: nat,
    errors: Seq<ErrorView>,
    level: Precedence,
) -> Parsed<Expr>
    decreases remaining(ts, pos), 3 * level.height() + 4,
{
    let first = operand(ts, pos, errors, level);
    match first.value {
        None => first,
        Some(left) => binary_rest(ts, pos + first.consumed, first.errors, level, left).after(
            first.consumed,
        ),
    }
}

/// `( operator operand )*` after the operand `left`: each operator joins
/// what stands to its left with the operand that follows it.
pub open spec fn binary_rest(
    ts: Seq<Token>,
    pos: nat,
    errors: Seq<ErrorView>,
    level: Precedence,
    left: Expr,
) -> Parsed<Expr>
    decreases remaining(ts, pos), 3 * level.height() + 3,
{
    if kind_at(ts, pos) != TokenType::Eof && level.joins(kind_at(ts, pos)) {
        let right = operand(ts, pos + 1, errors, level);
        match right.value {
            None => abandoned(right.consumed + 1, right.errors),
            Some(r) => binary_rest(
                ts,
                pos + 1 + right.consumed,
                right.errors,
                level,
                level.joined(left, ts[pos as int], r),
            ).after(1 + right.consumed),
        }
    } else {
        accepted(left, 0, errors)
    }
}

/// `assignment → IDENT "=" assignment | logic_or`
///
/// The left side is parsed as an expression of its own. Where `=` follows
/// and the left side is a variable, the whole is an assignment; where it is
/// anything else, "Invalid assignment target." is recorded at the `=`, the
/// right side is dropped, and parsing goes on with the left side.
pub open spec fn assignment(ts: Seq<Token>, pos: nat, errors: Seq<ErrorView>) -> Parsed<Expr>
    decreases remaining(ts, pos), 20nat,
{
    let left = binary(ts, pos, errors, Precedence::Or);
    match left.value {
        None => left,
        Some(target) => {
            let at = pos + left.consumed;
            if check(ts, at, TokenType::Equal) {
                let value = assignment(ts, at + 1, left.errors);
                let consumed = left.consumed + 1 + value.consumed;
                match value.value {
                    None => abandoned(consumed, value.errors),
                    Some(v) => match target {
                        Expr::Variable(variable) => accepted(
                            Expr::Assign(AssignExpr { name: variable.name, value: Box::new(v) }),
                            consumed,
                            value.errors,
                        ),
                        _ => accepted(
                            target,
                            consumed,
                            value.errors.push(
                                error_at(
                                    ErrorKind::Parse,
                                    ts[at as int],
                                    "Invalid assignment target."@,
                                ),
                            ),
                        ),
                    },
                }
            } else {
                left
            }
        },
    }
}

/// `expression → assignment`
pub open spec fn expression(ts: Seq<Token>, pos: nat, errors: Seq<ErrorView>) -> Parsed<Expr>
    decreases remaining(ts, pos), 21nat,
{
    assignment(ts, pos, errors)
}


// ---------------------------------------------------------------------------
// Statements
// ---------------------------------------------------------------------------
/// `exprStmt → expression ";"`
#[verifier::opaque]
pub open spec fn expression_statement(
    ts: Seq<Token>,
    pos: nat,
    errors: Seq<ErrorView>,
) -> Parsed<StmtView> {
    let value = expression(ts, pos, errors);
    match value.value {
        None => abandoned(value.consumed, value.errors),
        Some(e) => {
            let end = expect(
                ts,
                pos + value.consumed,
                value.errors,
                TokenType::SemiColon,
                "Expect ';' after value."@,
            );
            match end.value {
                None => abandoned(value.consumed, end.errors),
                Some(_) => accepted(StmtView::Expression(e), value.consumed + 1, end.errors),
            }
        },
    }
}

/// `printStmt → "print" expression ";"`, from after the `print`.
#[verifier::opaque]
pub open spec fn print_statement(ts: Seq<Token>, pos: nat, errors: Seq<ErrorView>) -> Parsed<
    StmtView,
> {
    let value = expression(ts, pos, errors);
    match value.value {
        None => abandoned(value.consumed, value.errors),
        Some(e) => {
            let end = expect(
                ts,
                pos + value.consumed,
                value.errors,
                TokenType::SemiColon,
                "Expect ';' after value."@,
            );
            match end.value {
                None => abandoned(value.consumed, end.errors),
                Some(_) => accepted(StmtView::Print(e), value.consumed + 1, end.errors),
            }
        },
    }
}

/// `breakStmt → "break" ";"`, from after the `break`, which is `keyword`.
#[verifier::opaque]
pub open spec fn break_statement(
    ts: Seq<Token>,
    pos: nat,
    errors: Seq<ErrorView>,
    keyword: Token,
) -> Parsed<StmtView> {
    let end = expect(ts, pos, errors, TokenType::SemiColon, "Expect ';' after 'break'."@);
    match end.value {
        None => abandoned(0, end.errors),
        Some(_) => accepted(StmtView::Break(keyword), 1, end.errors),
    }
}

/// The optional `"=" expression` of a variable declaration.
#[verifier::opaque]
pub open spec fn initializer(ts: Seq<Token>, pos: nat, errors: Seq<ErrorView>) -> Parsed<
    Option<Expr>,
> {
    if check(ts, pos, TokenType::Equal) {
        let value = expression(ts, pos + 1, errors);
        match value.value {
            None => abandoned(value.consumed + 1, value.errors),
            Some(e) => accepted(Some(e), value.consumed + 1, value.errors),
        }
    } else {
        accepted(None, 0, errors)
    }
}

/// `varDecl → "var" IDENT ( "=" expression )? ";"`, from after the `var`.
#[verifier::opaque]
pub open spec fn var_declaration(ts: Seq<Token>, pos: nat, errors: Seq<ErrorView>) -> Parsed<
    StmtView,
> {
    let name = expect(ts, pos, errors, TokenType::Identifier, "Expect variable name."@);
    match name.value {
        None => abandoned(0, name.errors),
        Some(n) => {
            let init = initializer(ts, pos + 1, name.errors);
            match init.value {
                None => abandoned(init.consumed + 1, init.errors),
                Some(i) => {
                    let end = expect(
                        ts,
                        pos + 1 + init.consumed,
                        init.errors,
                        TokenType::SemiColon,
                        "Expect ';' after variable declaration."@,
                    );
                    match end.value {
                        None => abandoned(init.consumed + 1, end.errors),
                        Some(_) => accepted(
                            StmtView::Var { name: n, initializer: i },
                            init.consumed + 2,
                            end.errors,
                        ),
                    }
                },
            }
        },
    }
}

/// The first clause of a `for`: `";"`, a variable declaration, or an
/// expression statement.
#[verifier::opaque]
pub open spec fn for_initializer(ts: Seq<Token>, pos: nat, errors: Seq<ErrorView>) -> Parsed<
    Option<StmtView>,
> {
    if check(ts, pos, TokenType::SemiColon) {
        accepted(None, 1, errors)
    } else {
        let first = if check(ts, pos, TokenType::Var) {
            var_declaration(ts, pos + 1, errors).after(1)
        } else {
            expression_statement(ts, pos, errors)
        };
        match first.value {
            None => abandoned(first.consumed, first.errors),
            Some(s) => accepted(Some(s), first.consumed, first.errors),
        }
    }
}

/// An expression, unless the token at `pos` is of kind `closer`.
#[verifier::opaque]
pub open spec fn for_clause(
    ts: Seq<Token>,
    pos: nat,
    errors: Seq<ErrorView>,
    closer: TokenType,
) -> Parsed<Option<Expr>> {
    if check(ts, pos, closer) {
        accepted(None, 0, errors)
    } else {
        let value = expression(ts, pos, errors);
        match value.value {
            None => abandoned(value.consumed, value.errors),
            Some(e) => accepted(Some(e), value.consumed, value.errors),
        }
    }
}

/// What is parsed of a `for` before its body.
pub struct ForHead {
    pub initializer: Option<StmtView>,
    pub condition: Option<Expr>,
    pub increment: Option<Expr>,
}

/// `"(" ( varDecl | exprStmt | ";" ) expression? ";" expression? ")"`
#[verifier::opaque]
pub open spec fn for_head(ts: Seq<Token>, pos: nat, errors: Seq<ErrorView>) -> Parsed<ForHead> {
    let open = expect(ts, pos, errors, TokenType::LeftParen, "Expect '(' after 'for'."@);
    match open.value {
        None => abandoned(0, open.errors),
        Some(_) => {
            let init = for_initializer(ts, pos + 1, open.errors);
            match init.value {
                None => abandoned(1 + init.consumed, init.errors),
                Some(initializer) => {
                    let at_condition = pos + 1 + init.consumed;
                    let cond = for_clause(ts, at_condition, init.errors, TokenType::SemiColon);
                    match cond.value {
                        None => abandoned(1 + init.consumed + cond.consumed, cond.errors),
                        Some(condition) => {
                            let semi = expect(
                                ts,
                                at_condition + cond.consumed,
                                cond.errors,
                                TokenType::SemiColon,
                                "Expect ';' after loop condition."@,
                            );
                            match semi.value {
                                None => abandoned(
                                    1 + init.consumed + cond.consumed,
                                    semi.errors,
                                ),
                                Some(_) => {
                                    let at_increment = at_condition + cond.consumed + 1;
                                    let incr = for_clause(
                                        ts,
                                        at_increment,
                                        semi.errors,
                                        TokenType::RightParen,
                                    );
                                    let so_far = 2 + init.consumed + cond.consumed + incr.consumed;
                                    match incr.value {
                                        None => abandoned(so_far, incr.errors),
                                        Some(increment) => {
                                            let close = expect(
                                                ts,
                                                at_increment + incr.consumed,
                                                incr.errors,
                                                TokenType::RightParen,
                                                "Expect ')' after for clauses."@,
                                            );
                                            match close.value {
                                                None => abandoned(so_far, close.errors),
                                                Some(_) => accepted(
                                                    ForHead { initializer, condition, increment },
                                                    so_far + 1,
                                                    close.errors,
                                                ),
                                            }
                                        },
                                    }
                                },
                            }
                        },
                    }
                },
            }
        },
    }
}

/// A `for` written with `while`: the increment, if there is one, runs after
/// the body, in a block with it; the condition, if there is none, is `true`;
/// the initializer, if there is one, runs once before the loop, in a block
/// with it.
#[verifier::opaque]
pub open spec fn desugared(head: ForHead, body: StmtView) -> StmtView {
    let stepped = match head.increment {
        Some(increment) => StmtView::Block(seq![body, StmtView::Expression(increment)]),
        None => body,
    };
    let condition = match head.condition {
        Some(condition) => condition,
        None => literal_expr(Some(Literal::Bool(true))),
    };
    let repeated = StmtView::While { condition, body: Box::new(stepped) };
    match head.initializer {
        Some(initializer) => StmtView::Block(seq![initializer, repeated]),
        None => repeated,
    }
}

/// No `for` is left in what a `for` parses to: it is a `while`, or a block
/// of the initializer and a `while`.
pub proof fn lemma_for_is_a_while(head: ForHead, body: StmtView)
    ensures
        match desugared(head, body) {
            StmtView::While { .. } => head.initializer is None,
            StmtView::Block(statements) => head.initializer is Some && statements.len() == 2
                && statements[0] == head.initializer->0 && statements[1] is While,
            _ => false,
        },
{
    reveal(desugared);
}

/// `"(" expression ")"`, the condition of an `if` or a `while`.
#[verifier::opaque]
pub open spec fn condition(
    ts: Seq<Token>,
    pos: nat,
    errors: Seq<ErrorView>,
    open_message: Seq<char>,
    close_message: Seq<char>,
) -> Parsed<Expr> {
    let open = expect(ts, pos, errors, TokenType::LeftParen, open_message);
    match open.value {
        None => abandoned(0, open.errors),
        Some(_) => {
            let value = expression(ts, pos + 1, open.errors);
            match value.value {
                None => abandoned(1 + value.consumed, value.errors),
                Some(e) => {
                    let close = expect(
                        ts,
                        pos + 1 + value.consumed,
                        value.errors,
                        TokenType::RightParen,
                        close_message,
                    );
                    match close.value {
                        None => abandoned(1 + value.consumed, close.errors),
                        Some(_) => accepted(e, 2 + value.consumed, close.errors),
                    }
                },
            }
        },
    }
}

/// Whether a token of kind `kind` starts a statement: where the parser
/// takes up its work again after an error.
pub open spec fn starts_statement(kind: TokenType) -> bool {
    kind == TokenType::Class || kind == TokenType::Fun || kind == TokenType::Var || kind
        == TokenType::For || kind == TokenType::If || kind == TokenType::While || kind
        == TokenType::Print || kind == TokenType::Return
}

/// The first position from `pos` on that is at the end, just after a `;`,
/// or at a token that starts a statement.
pub open spec fn resume_at(ts: Seq<Token>, pos: nat) -> nat
    decreases remaining(ts, pos),
{
    if kind_at(ts, pos) == TokenType::Eof {
        pos
    } else if pos > 0 && ts[pos - 1].token_type == TokenType::SemiColon {
        pos
    } else if starts_statement(kind_at(ts, pos)) {
        pos
    } else {
        resume_at(ts, pos + 1)
    }
}

/// Where parsing goes on after an error at `pos`: one token is dropped,
/// then those up to the next likely start of a statement.
pub open spec fn synchronized(ts: Seq<Token>, pos: nat) -> nat {
    if kind_at(ts, pos) == TokenType::Eof {
        pos
    } else {
        resume_at(ts, pos + 1)
    }
}

/// `statement → forStmt | ifStmt | printStmt | whileStmt | breakStmt | block | exprStmt`
pub open spec fn statement(ts: Seq<Token>, pos: nat, errors: Seq<ErrorView>) -> Parsed<StmtView>
    decreases remaining(ts, pos), 0nat,
{
    let kind = kind_at(ts, pos);
    if kind == TokenType::For {
        for_statement(ts, pos + 1, errors).after(1)
    } else if kind == TokenType::If {
        if_statement(ts, pos + 1, errors).after(1)
    } else if kind == TokenType::Print {
        print_statement(ts, pos + 1, errors).after(1)
    } else if kind == TokenType::While {
        while_statement(ts, pos + 1, errors).after(1)
    } else if kind == TokenType::Break {
        break_statement(ts, pos + 1, errors, ts[pos as int]).after(1)
    } else if kind == TokenType::LeftBrace {
        let body = block(ts, pos + 1, errors, Seq::empty());
        match body.value {
            None => abandoned(body.consumed + 1, body.errors),
            Some(statements) => accepted(
                StmtView::Block(statements),
                body.consumed + 1,
                body.errors,
            ),
        }
    } else {
        expression_statement(ts, pos, errors)
    }
}

/// `forStmt`, from after the `for`.
pub open spec fn for_statement(ts: Seq<Token>, pos: nat, errors: Seq<ErrorView>) -> Parsed<
    StmtView,
>
    decreases remaining(ts, pos), 0nat,
{
    proof {
        reveal(for_head);
    }
    let head = for_head(ts, pos, errors);
    match head.value {
        None => abandoned(head.consumed, head.errors),
        Some(h) => {
            let body = statement(ts, pos + head.consumed, head.errors);
            match body.value {
                None => abandoned(head.consumed + body.consumed, body.errors),
                Some(b) => accepted(desugared(h, b), head.consumed + body.consumed, body.errors),
            }
        },
    }
}

/// `ifStmt → "if" "(" expression ")" statement ( "else" statement )?`, from
/// after the `if`.
pub open spec fn if_statement(ts: Seq<Token>, pos: nat, errors: Seq<ErrorView>) -> Parsed<
    StmtView,
>
    decreases remaining(ts, pos), 0nat,
{
    proof {
        reveal(condition);
    }
    let cond = condition(ts, pos, errors, "Expect '(' after 'if'."@, "Expect ')' after 'if'."@);
    match cond.value {
        None => abandoned(cond.consumed, cond.errors),
        Some(c) => {
            let first = statement(ts, pos + cond.consumed, cond.errors);
            match first.value {
                None => abandoned(cond.consumed + first.consumed, first.errors),
                Some(then_branch) => {
                    let at_else = pos + cond.consumed + first.consumed;
                    if check(ts, at_else, TokenType::Else) {
                        let second = statement(ts, at_else + 1, first.errors);
                        let consumed = cond.consumed + first.consumed + 1 + second.consumed;
                        match second.value {
                            None => abandoned(consumed, second.errors),
                            Some(else_branch) => accepted(
                                StmtView::If {
                                    condition: c,
                                    then_branch: Box::new(then_branch),
                                    else_branch: Some(Box::new(else_branch)),
                                },
                                consumed,
                                second.errors,
                            ),
                        }
                    } else {
                        accepted(
                            StmtView::If {
                                condition: c,
                                then_branch: Box::new(then_branch),
                                else_branch: None,
                            },
                            cond.consumed + first.consumed,
                            first.errors,
                        )
                    }
                },
            }
        },
    }
}

/// `whileStmt → "while" "(" expression ")" statement`, from after the `while`.
pub open spec fn while_statement(ts: Seq<Token>, pos: nat, errors: Seq<ErrorView>) -> Parsed<
    StmtView,
>
    decreases remaining(ts, pos), 0nat,
{
    proof {
        reveal(condition);
    }
    let cond = condition(
        ts,
        pos,
        errors,
        "Expect '(' after 'while'."@,
        "Expect ')' after 'while'."@,
    );
    match cond.value {
        None => abandoned(cond.consumed, cond.errors),
        Some(c) => {
            let body = statement(ts, pos + cond.consumed, cond.errors);
            match body.value {
                None => abandoned(cond.consumed + body.consumed, body.errors),
                Some(b) => accepted(
                    StmtView::While { condition: c, body: Box::new(b) },
                    cond.consumed + body.consumed,
                    body.errors,
                ),
            }
        },
    }
}

/// `declaration → varDecl | statement`. After a parse error the tokens up
/// to the next likely start of a statement are dropped.
pub open spec fn declaration(ts: Seq<Token>, pos: nat, errors: Seq<ErrorView>) -> Parsed<StmtView>
    decreases remaining(ts, pos), 1nat,
{
    let parsed = if check(ts, pos, TokenType::Var) {
        var_declaration(ts, pos + 1, errors).after(1)
    } else {
        statement(ts, pos, errors)
    };
    match parsed.value {
        None => abandoned(
            (synchronized(ts, pos + parsed.consumed) - pos) as nat,
            parsed.errors,
        ),
        Some(_) => parsed,
    }
}

/// `declaration* "}"`, after the statements `before`: the rest of a block.
///
/// A declaration always takes a token (`lemma_declaration_advances`); the
/// test on `consumed` is there to show that the definition ends.
pub open spec fn block(
    ts: Seq<Token>,
    pos: nat,
    errors: Seq<ErrorView>,
    before: Seq<StmtView>,
) -> Parsed<Seq<StmtView>>
    decreases remaining(ts, pos), 2nat,
{
    if kind_at(ts, pos) != TokenType::Eof && kind_at(ts, pos) != TokenType::RightBrace {
        let next = declaration(ts, pos, errors);
        match next.value {
            None => abandoned(next.consumed, next.errors),
            Some(s) => if next.consumed > 0 {
                block(ts, pos + next.consumed, next.errors, before.push(s)).after(next.consumed)
            } else {
                abandoned(0, next.errors)
            },
        }
    } else {
        let close = expect(ts, pos, errors, TokenType::RightBrace, "Expect '}' after block."@);
        match close.value {
            None => abandoned(0, close.errors),
            Some(_) => accepted(before, 1, close.errors),
        }
    }
}

/// What parsing a program came to.
pub struct ParsedProgram {
    /// The statements that parsed.
    pub statements: Seq<StmtView>,
    /// The first parse error that made a declaration fail, if one did.
    pub failure: Option<ErrorView>,
    /// How many tokens were taken.
    pub consumed: nat,
    /// The errors recorded so far, those from before included.
    pub errors: Seq<ErrorView>,
}

/// `declaration* EOF`, after the statements `before` and the failure
/// `failure`: the rest of a program. A declaration that fails is left out,
/// and parsing goes on behind the tokens that were dropped after its error,
/// so that one pass finds the errors of all declarations.
///
/// A declaration always takes a token (`lemma_declaration_advances`); the
/// test on `consumed` is there to show that the definition ends.
pub open spec fn program(
    ts: Seq<Token>,
    pos: nat,
    errors: Seq<ErrorView>,
    before: Seq<StmtView>,
    failure: Option<ErrorView>,
) -> ParsedProgram
    decreases remaining(ts, pos),
{
    if kind_at(ts, pos) != TokenType::Eof {
        let next = declaration(ts, pos, errors);
        if next.consumed > 0 {
            let rest = match next.value {
                Some(s) => program(ts, pos + next.consumed, next.errors, before.push(s), failure),
                None => program(
                    ts,
                    pos + next.consumed,
                    next.errors,
                    before,
                    if failure is None {
                        Some(next.errors.last())
                    } else {
                        failure
                    },
                ),
            };
            ParsedProgram {
                statements: rest.statements,
                failure: rest.failure,
                consumed: rest.consumed + next.consumed,
                errors: rest.errors,
            }
        } else {
            ParsedProgram { statements: before, failure, consumed: 0, errors: next.errors }
        }
    } else {
        ParsedProgram { statements: before, failure, consumed: 0, errors }
    }
}

/// A declaration that stands before the end takes at least one token,
/// whether it parses or fails: the parser always gets on.
pub proof fn lemma_declaration_advances(ts: Seq<Token>, pos: nat, errors: Seq<ErrorView>)
    requires
        kind_at(ts, pos) != TokenType::Eof,
    ensures
        declaration(ts, pos, errors).consumed > 0,
{
    reveal(var_declaration);
    reveal(expression_statement);
    let parsed = if check(ts, pos, TokenType::Var) {
        var_declaration(ts, pos + 1, errors).after(1)
    } else {
        statement(ts, pos, errors)
    };
    if parsed.value is None {
        lemma_resume_at_or_after(ts, pos + parsed.consumed + 1);
    }
}

/// After an error the parser never steps back.
pub proof fn lemma_resume_at_or_after(ts: Seq<Token>, pos: nat)
    ensures
        resume_at(ts, pos) >= pos,
    decreases remaining(ts, pos),
{
    if kind_at(ts, pos) != TokenType::Eof && !(pos > 0 && ts[pos - 1].token_type
        == TokenType::SemiColon) && !starts_statement(kind_at(ts, pos)) {
        lemma_resume_at_or_after(ts, pos + 1);
    }
}

} // verus!
