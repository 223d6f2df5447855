//! The statement tree.

use vstd::prelude::*;
use crate::expr::Expr;
use crate::token::Token;

verus! {

/// A statement. A `Let` that was written without an initializer holds the
/// literal `nil` in its place, so that `let a = nil;` and `let a;` are one
/// statement.
#[derive(Debug, PartialEq)]
pub enum Stmt {
    Expression(Expr),
    Print(Expr),
    Let { name: Token, initializer: Expr },
    Block { statements: Vec<Stmt> },
    If { condition: Expr, then_branch: Box<Stmt>, else_branch: Option<Box<Stmt>> },
}

/// The mathematical content of a [`Stmt`]: the same tree, with the body of
/// a block as a sequence.
pub enum StmtView {
    Expression(Expr),
    Print(Expr),
    Let { name: Token, initializer: Expr },
    Block { statements: Seq<StmtView> },
    If { condition: Expr, then_branch: Box<StmtView>, else_branch: Option<Box<StmtView>> },
}

impl View for Stmt {
    type V = StmtView;

    open spec fn view(&self) -> StmtView
        decreases self, 0nat,
    {
        match self {
            Stmt::Expression(expr) => StmtView::Expression(*expr),
            Stmt::Print(expr) => StmtView::Print(*expr),
            Stmt::Let { name, initializer } => StmtView::Let {
                name: *name,
                initializer: *initializer,
            },
            Stmt::Block { statements } => StmtView::Block {
                statements: first_views(statements@, statements@.len()),
            },
            Stmt::If { condition, then_branch, else_branch } => StmtView::If {
                condition: *condition,
                then_branch: Box::new((**then_branch)@),
                else_branch: match else_branch {
                    Some(branch) => Some(Box::new((**branch)@)),
                    None => None,
                },
            },
        }
    }
}

/// The views of the first `count` statements of a list, in order.
pub open spec fn first_views(statements: Seq<Stmt>, count: nat) -> Seq<StmtView>
    decreases statements, count,
{
    if 0 < count <= statements.len() {
        first_views(statements, (count - 1) as nat).push(statements[count - 1]@)
    } else {
        Seq::empty()
    }
}

/// The views of the statements of a list, in order.
pub open spec fn stmt_views(statements: Seq<Stmt>) -> Seq<StmtView> {
    first_views(statements, statements.len())
}

/// The views of a list stand in the list's order, one for each statement.
pub proof fn lemma_first_views(statements: Seq<Stmt>, count: nat)
    requires
        count <= statements.len(),
    ensures
        first_views(statements, count).len() == count,
        forall|index: int|
            0 <= index < count ==> first_views(statements, count)[index] == statements[index]@,
    decreases count,
{
    if count > 0 {
        lemma_first_views(statements, (count - 1) as nat);
        assert(first_views(statements, count) == first_views(statements, (count - 1) as nat).push(
            statements[count - 1]@,
        ));
    }
}

/// The views of a list stand in the list's order, one for each statement.
pub proof fn lemma_stmt_views(statements: Seq<Stmt>)
    ensures
        stmt_views(statements).len() == statements.len(),
        forall|index: int|
            0 <= index < statements.len() ==> #[trigger] stmt_views(statements)[index]
                == statements[index]@,
{
    lemma_first_views(statements, statements.len());
}

} // verus!
