//! The statement tree.
use vstd::prelude::*;
use crate::expr::Expr;
use crate::token::Token;

verus! {

/// A statement. There is no `for` among them: the parser writes one as a
/// `while` inside blocks.
#[derive(Debug)]
pub enum Stmt {
    Block(BlockStmt),
    Break(BreakStmt),
    Expression(ExpressionStmt),
    If(IfStmt),
    Print(PrintStmt),
    Var(VarStmt),
    While(WhileStmt),
}

/// `{ statements }`, run in a scope of their own.
#[derive(Debug)]
pub struct BlockStmt {
    pub statements: Vec<Stmt>,
}

/// `break;`, with its keyword, which tells the line.
#[derive(Debug)]
pub struct BreakStmt {
    pub token: Token,
}

/// `expression;`, evaluated for what it does.
#[derive(Debug)]
pub struct ExpressionStmt {
    pub expression: Expr,
}

/// `if (condition) then_branch`, with or without `else else_branch`.
#[derive(Debug)]
pub struct IfStmt {
    pub condition: Expr,
    pub then_branch: Box<Stmt>,
    pub else_branch: Option<Box<Stmt>>,
}

/// `print expression;`.
#[derive(Debug)]
pub struct PrintStmt {
    pub expression: Expr,
}

/// `var name;` or `var name = initializer;`.
#[derive(Debug)]
pub struct VarStmt {
    pub name: Token,
    pub initializer: Option<Expr>,
}

/// `while (condition) body`.
#[derive(Debug)]
pub struct WhileStmt {
    pub condition: Expr,
    pub body: Box<Stmt>,
}

/// What a `Stmt` stands for: the same tree, a block by the sequence of its
/// statements.
pub enum StmtView {
    Block(Seq<StmtView>),
    Break(Token),
    Expression(Expr),
    If { condition: Expr, then_branch: Box<StmtView>, else_branch: Option<Box<StmtView>> },
    Print(Expr),
    Var { name: Token, initializer: Option<Expr> },
    While { condition: Expr, body: Box<StmtView> },
}

/// The view of a statement.
pub open spec fn view_of(statement: Stmt) -> StmtView
    decreases statement,
{
    match statement {
        Stmt::Block(b) => StmtView::Block(
            Seq::new(
                b.statements.len() as nat,
                |i: int|
                    if 0 <= i < b.statements.len() {
                        view_of(b.statements[i])
                    } else {
                        StmtView::Block(Seq::empty())
                    },
            ),
        ),
        Stmt::Break(b) => StmtView::Break(b.token),
        Stmt::Expression(e) => StmtView::Expression(e.expression),
        Stmt::If(i) => StmtView::If {
            condition: i.condition,
            then_branch: Box::new(view_of(*i.then_branch)),
            else_branch: match i.else_branch {
                Some(e) => Some(Box::new(view_of(*e))),
                None => None,
            },
        },
        Stmt::Print(p) => StmtView::Print(p.expression),
        Stmt::Var(v) => StmtView::Var { name: v.name, initializer: v.initializer },
        Stmt::While(w) => StmtView::While { condition: w.condition, body: Box::new(view_of(*w.body)) },
    }
}

impl View for Stmt {
    type V = StmtView;

    open spec fn view(&self) -> StmtView {
        view_of(*self)
    }
}

/// The views of a sequence of statements.
pub open spec fn stmt_views(statements: Seq<Stmt>) -> Seq<StmtView> {
    statements.map_values(|s: Stmt| s@)
}

/// The view of a block is the sequence of the views of its statements.
pub proof fn lemma_block_view(statements: Vec<Stmt>)
    ensures
        (Stmt::Block(BlockStmt { statements }))@ == StmtView::Block(stmt_views(statements@)),
{
    let b = Stmt::Block(BlockStmt { statements });
    assert(b@->Block_0 =~= stmt_views(statements@));
}

} // verus!
