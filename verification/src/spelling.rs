//! What it means for tokens to spell an expression, and the proof that the
//! parser reads what is spelled.
//!
//! The grammar of [`crate::grammar`] says how a token sequence is read from
//! the left. Here the same language is said the other way round, from the
//! tree to its tokens: a node of an infix operator is spelled by its left
//! side, which may hold operators of the same level, the operator, and its
//! right side, which holds tighter ones only. That is what precedence and
//! grouping from the left mean. Whatever is spelled so is read back as the
//! same tree.

use vstd::prelude::*;
use crate::environment::Chain;
use crate::error::{ParseError, RuntimeError};
use crate::expr::{Expr, LogicalOp, UnaryOp};
use crate::grammar::{
    assignment, at_end, binary_operator, block, block_items, chain, chain_rest, expression,
    expression_statement, holds, if_statement, joined, joins, operand, primary, print_statement,
    onward, program, program_from, remaining, tighter, unary, var_declaration, well_terminated,
    Level,
};
use crate::semantics::{arithmetic_value, evaluate, is_arithmetic, lemma_arithmetic, Arithmetic};
use crate::stmt::StmtView;
use crate::token::{LiteralValue, Token, TokenType};
use crate::value::{Value, ValueView};

verus! {

/// The number of tokens that spell an expression.
pub open spec fn width(expr: Expr) -> nat
    decreases expr,
{
    match expr {
        Expr::Literal { value } => 1,
        Expr::Variable { name } => 1,
        Expr::Grouping { expression } => width(*expression) + 2,
        Expr::Unary { operator, token, right } => width(*right) + 1,
        Expr::Binary { left, operator, token, right } => width(*left) + 1 + width(*right),
        Expr::Logical { left, operator, token, right } => width(*left) + 1 + width(*right),
        Expr::Assign { name, value } => width(*value) + 2,
    }
}

/// The level of which a token of this type is an operator.
pub open spec fn operator_level(token_type: TokenType) -> Option<Level> {
    match token_type {
        TokenType::Or => Some(Level::Or),
        TokenType::And => Some(Level::And),
        TokenType::BangEqual => Some(Level::Equality),
        TokenType::EqualEqual => Some(Level::Equality),
        TokenType::Greater => Some(Level::Comparison),
        TokenType::GreaterEqual => Some(Level::Comparison),
        TokenType::Less => Some(Level::Comparison),
        TokenType::LessEqual => Some(Level::Comparison),
        TokenType::Minus => Some(Level::Term),
        TokenType::Plus => Some(Level::Term),
        TokenType::Slash => Some(Level::Factor),
        TokenType::Star => Some(Level::Factor),
        _ => None,
    }
}

/// The place of a level among the places where an expression can stand: 0
/// is an assignment, 1 to 6 are the infix levels from the loosest to the
/// tightest, 7 is a unary expression and 8 a primary.
pub open spec fn rank_of(level: Level) -> nat {
    (6 - tighter(level)) as nat
}

/// The infix level at a place from 1 to 6.
pub open spec fn level_at(rank: nat) -> Level {
    if rank <= 1 {
        Level::Or
    } else if rank == 2 {
        Level::And
    } else if rank == 3 {
        Level::Equality
    } else if rank == 4 {
        Level::Comparison
    } else if rank == 5 {
        Level::Term
    } else {
        Level::Factor
    }
}

/// Whether the token is the literal of the value.
pub open spec fn names_literal(token: Token, value: Value) -> bool {
    match value {
        Value::Number(bits) => token.token_type == TokenType::Number && token.literal == Some(
            LiteralValue::Number(bits),
        ),
        Value::Text(text) => token.token_type == TokenType::String && token.literal == Some(
            LiteralValue::Text(text),
        ),
        Value::Boolean(flag) => if flag {
            token.token_type == TokenType::True
        } else {
            token.token_type == TokenType::False
        },
        Value::Nil => token.token_type == TokenType::Nil,
    }
}

/// Whether the tokens from `from` on spell `expr`, as something that can
/// stand at the place `rank`.
pub open spec fn spells(tokens: Seq<Token>, from: int, expr: Expr, rank: nat) -> bool
    decreases expr,
{
    &&& 0 <= from < tokens.len()
    &&& match expr {
        Expr::Literal { value } => names_literal(tokens[from], value),
        Expr::Variable { name } => tokens[from] == name && name.token_type
            == TokenType::Identifier,
        Expr::Grouping { expression } => {
            let closing = from + 1 + width(*expression);
            &&& tokens[from].token_type == TokenType::LeftParen
            &&& spells(tokens, from + 1, *expression, 0)
            &&& closing < tokens.len()
            &&& tokens[closing].token_type == TokenType::RightParen
        },
        Expr::Unary { operator, token, right } => {
            &&& rank <= 7
            &&& tokens[from] == token
            &&& match operator {
                UnaryOp::Bang => token.token_type == TokenType::Bang,
                UnaryOp::Minus => token.token_type == TokenType::Minus,
            }
            &&& spells(tokens, from + 1, *right, 7)
        },
        Expr::Binary { left, operator, token, right } => {
            let at = from + width(*left);
            &&& operator_level(token.token_type) matches Some(level)
            &&& level != Level::Or
            &&& level != Level::And
            &&& rank <= rank_of(level)
            &&& operator == binary_operator(token.token_type)
            &&& spells(tokens, from, *left, rank_of(level))
            &&& at < tokens.len()
            &&& tokens[at] == token
            &&& spells(tokens, at + 1, *right, rank_of(level) + 1)
        },
        Expr::Logical { left, operator, token, right } => {
            let at = from + width(*left);
            let level = match operator {
                LogicalOp::Or => Level::Or,
                LogicalOp::And => Level::And,
            };
            &&& operator_level(token.token_type) == Some(level)
            &&& rank <= rank_of(level)
            &&& spells(tokens, from, *left, rank_of(level))
            &&& at < tokens.len()
            &&& tokens[at] == token
            &&& spells(tokens, at + 1, *right, rank_of(level) + 1)
        },
        Expr::Assign { name, value } => {
            &&& rank == 0
            &&& tokens[from] == name
            &&& name.token_type == TokenType::Identifier
            &&& from + 1 < tokens.len()
            &&& tokens[from + 1].token_type == TokenType::Equal
            &&& spells(tokens, from + 2, *value, 0)
        },
    }
}

/// Whether a token of this type, standing behind an expression at the place
/// `rank`, is no operator that binds tighter than the place.
pub open spec fn binds_no_tighter(token_type: TokenType, rank: nat) -> bool {
    operator_level(token_type) matches Some(level) ==> rank_of(level) <= rank
}

/// Whether a token of this type ends an expression: it is no infix operator
/// and not `=`.
pub open spec fn ends_expression(token_type: TokenType) -> bool {
    operator_level(token_type) is None && token_type != TokenType::Equal
}

/// A token is an operator of a level where the level is the token's.
pub proof fn lemma_operator_level(level: Level, token_type: TokenType)
    ensures
        joins(level, token_type) <==> operator_level(token_type) == Some(level),
        level_at(rank_of(level)) == level,
        1 <= rank_of(level) <= 6,
{
}

/// What is read where an expression is spelled, at each place: a primary
/// and a unary expression are read whole; a chain is read up to the end of
/// what is spelled and carried on from there; an assignment is read whole
/// where the token behind it ends an expression.
pub proof fn lemma_spelled(tokens: Seq<Token>, from: int, expr: Expr, rank: nat)
    requires
        spells(tokens, from, expr, rank),
        rank <= 8,
    ensures
        width(expr) >= 1,
        from + width(expr) <= tokens.len(),
        rank == 8 ==> primary(tokens, from) == (
            Ok::<Expr, ParseError>(expr),
            from + width(expr),
        ),
        rank == 7 ==> unary(tokens, from) == (Ok::<Expr, ParseError>(expr), from + width(expr)),
        1 <= rank <= 6 && binds_no_tighter(tokens[from + width(expr)].token_type, rank) ==> chain(
            tokens,
            from,
            level_at(rank),
        ) == chain_rest(tokens, from + width(expr), level_at(rank), expr),
        rank == 0 && ends_expression(tokens[from + width(expr)].token_type) ==> assignment(
            tokens,
            from,
        ) == (Ok::<Expr, ParseError>(expr), from + width(expr)),
    decreases expr, 8 - rank, 1nat,
{
    let to = from + width(expr);
    match expr {
        Expr::Literal { value } => {
            lemma_spelled_primary(tokens, from, expr, rank);
        },
        Expr::Variable { name } => {
            lemma_spelled_primary(tokens, from, expr, rank);
        },
        Expr::Grouping { expression } => {
            lemma_spelled(tokens, from + 1, *expression, 0);
            lemma_spelled_primary(tokens, from, expr, rank);
        },
        Expr::Unary { operator, token, right } => {
            lemma_spelled(tokens, from + 1, *right, 7);
            assert(unary(tokens, from) == (Ok::<Expr, ParseError>(expr), to));
            if rank < 7 {
                lemma_spelled_looser(tokens, from, expr, rank);
            }
        },
        Expr::Binary { left, operator, token, right } => {
            let level = operator_level(token.token_type)->Some_0;
            lemma_operator_level(level, token.token_type);
            if rank == rank_of(level) {
                lemma_spelled_infix(tokens, from, expr, *left, token, *right, level);
            } else {
                lemma_spelled_looser(tokens, from, expr, rank);
            }
        },
        Expr::Logical { left, operator, token, right } => {
            let level = operator_level(token.token_type)->Some_0;
            lemma_operator_level(level, token.token_type);
            if rank == rank_of(level) {
                lemma_spelled_infix(tokens, from, expr, *left, token, *right, level);
            } else {
                lemma_spelled_looser(tokens, from, expr, rank);
            }
        },
        Expr::Assign { name, value } => {
            lemma_spelled(tokens, from + 2, *value, 0);
            let target = Expr::Variable { name };
            assert(primary(tokens, from) == (Ok::<Expr, ParseError>(target), from + 1));
            assert(unary(tokens, from) == primary(tokens, from));
            lemma_carried(tokens, from, target, 7, 1);
            if ends_expression(tokens[to].token_type) {
                assert(binds_no_tighter(TokenType::Equal, 1));
                assert(chain(tokens, from, Level::Or) == chain_rest(
                    tokens,
                    from + 1,
                    Level::Or,
                    target,
                ));
                assert(chain_rest(tokens, from + 1, Level::Or, target) == (
                    Ok::<Expr, ParseError>(target),
                    from + 1,
                ));
                assert(assignment(tokens, from + 2) == (Ok::<Expr, ParseError>(*value), to));
            }
        },
    }
}

/// The case of a literal, a variable or a grouping, whose parts are read
/// as spelled.
proof fn lemma_spelled_primary(tokens: Seq<Token>, from: int, expr: Expr, rank: nat)
    requires
        spells(tokens, from, expr, rank),
        rank <= 8,
        expr is Literal || expr is Variable || expr is Grouping,
        expr matches Expr::Grouping { expression } ==> width(*expression) >= 1 && assignment(
            tokens,
            from + 1,
        ) == (Ok::<Expr, ParseError>(*expression), from + 1 + width(*expression)),
    ensures
        width(expr) >= 1,
        from + width(expr) <= tokens.len(),
        rank == 8 ==> primary(tokens, from) == (
            Ok::<Expr, ParseError>(expr),
            from + width(expr),
        ),
        rank == 7 ==> unary(tokens, from) == (Ok::<Expr, ParseError>(expr), from + width(expr)),
        1 <= rank <= 6 && binds_no_tighter(tokens[from + width(expr)].token_type, rank) ==> chain(
            tokens,
            from,
            level_at(rank),
        ) == chain_rest(tokens, from + width(expr), level_at(rank), expr),
        rank == 0 && ends_expression(tokens[from + width(expr)].token_type) ==> assignment(
            tokens,
            from,
        ) == (Ok::<Expr, ParseError>(expr), from + width(expr)),
{
    let to = from + width(expr);
    assert(spells(tokens, from, expr, 8));
    assert(primary(tokens, from) == (Ok::<Expr, ParseError>(expr), to)) by {
        if expr is Grouping {
            assert(expression(tokens, from + 1) == assignment(tokens, from + 1));
        }
    }
    assert(unary(tokens, from) == primary(tokens, from));
    if rank < 7 {
        lemma_carried(tokens, from, expr, 7, rank);
    }
}

/// What is read whole at a tighter place is read at every looser one, by
/// its own induction on the distance between the places.
proof fn lemma_carried(tokens: Seq<Token>, from: int, expr: Expr, tight: nat, rank: nat)
    requires
        0 <= from,
        width(expr) >= 1,
        rank < tight <= 7,
        tight == 7 ==> unary(tokens, from) == (
            Ok::<Expr, ParseError>(expr),
            from + width(expr),
        ),
        tight <= 6 && binds_no_tighter(tokens[from + width(expr)].token_type, tight) ==> chain(
            tokens,
            from,
            level_at(tight),
        ) == chain_rest(tokens, from + width(expr), level_at(tight), expr),
    ensures
        1 <= rank <= 6 && binds_no_tighter(tokens[from + width(expr)].token_type, rank) ==> chain(
            tokens,
            from,
            level_at(rank),
        ) == chain_rest(tokens, from + width(expr), level_at(rank), expr),
        rank == 0 && ends_expression(tokens[from + width(expr)].token_type) ==> assignment(
            tokens,
            from,
        ) == (Ok::<Expr, ParseError>(expr), from + width(expr)),
    decreases tight - rank,
{
    let to = from + width(expr);
    let follow = tokens[to].token_type;
    if rank + 1 < tight {
        lemma_carried(tokens, from, expr, tight, rank + 1);
    }
    // Now the claim holds one place tighter than `rank`.
    if rank >= 1 {
        if binds_no_tighter(follow, rank) {
            let level = level_at(rank);
            lemma_operator_level(level_at(rank + 1), follow);
            assert(operand(tokens, from, level) == (Ok::<Expr, ParseError>(expr), to)) by {
                if rank + 1 <= 6 {
                    assert(binds_no_tighter(follow, rank + 1));
                    assert(!joins(level_at(rank + 1), follow));
                }
            }
        }
    } else {
        if ends_expression(follow) {
            lemma_operator_level(Level::Or, follow);
            assert(chain(tokens, from, Level::Or) == chain_rest(tokens, to, Level::Or, expr));
            assert(chain(tokens, from, Level::Or) == (Ok::<Expr, ParseError>(expr), to));
            assert(assignment(tokens, from) == (Ok::<Expr, ParseError>(expr), to));
        }
    }
}

/// The case of an expression that stands at a looser place than its own.
proof fn lemma_spelled_looser(tokens: Seq<Token>, from: int, expr: Expr, rank: nat)
    requires
        spells(tokens, from, expr, rank),
        spells(tokens, from, expr, rank + 1),
        rank < 7,
        expr is Unary || expr is Binary || expr is Logical,
    ensures
        width(expr) >= 1,
        from + width(expr) <= tokens.len(),
        1 <= rank <= 6 && binds_no_tighter(tokens[from + width(expr)].token_type, rank) ==> chain(
            tokens,
            from,
            level_at(rank),
        ) == chain_rest(tokens, from + width(expr), level_at(rank), expr),
        rank == 0 && ends_expression(tokens[from + width(expr)].token_type) ==> assignment(
            tokens,
            from,
        ) == (Ok::<Expr, ParseError>(expr), from + width(expr)),
    decreases expr, 8 - rank, 0nat,
{
    lemma_spelled(tokens, from, expr, rank + 1);
    lemma_carried(tokens, from, expr, rank + 1, rank);
}

/// The case of an infix operator at its own level: the left side is read
/// as the chain so far, the right side as the operand behind the operator.
proof fn lemma_spelled_infix(
    tokens: Seq<Token>,
    from: int,
    expr: Expr,
    left: Expr,
    token: Token,
    right: Expr,
    level: Level,
)
    requires
        spells(tokens, from, expr, rank_of(level)),
        operator_level(token.token_type) == Some(level),
        expr == joined(level, left, token, right),
        expr is Binary || expr is Logical,
    ensures
        width(expr) >= 1,
        from + width(expr) <= tokens.len(),
        binds_no_tighter(tokens[from + width(expr)].token_type, rank_of(level)) ==> chain(
            tokens,
            from,
            level,
        ) == chain_rest(tokens, from + width(expr), level, expr),
    decreases expr, 8 - rank_of(level), 0nat,
{
    let rank = rank_of(level);
    let at = from + width(left);
    let to = from + width(expr);
    lemma_operator_level(level, token.token_type);
    assert(spells(tokens, from, left, rank));
    assert(spells(tokens, at + 1, right, rank + 1));
    lemma_spelled(tokens, from, left, rank);
    lemma_spelled(tokens, at + 1, right, rank + 1);
    let follow = tokens[to].token_type;
    if binds_no_tighter(follow, rank) {
        assert(binds_no_tighter(token.token_type, rank));
        assert(chain(tokens, from, level) == chain_rest(tokens, at, level, left));
        assert(operand(tokens, at + 1, level) == (Ok::<Expr, ParseError>(right), to)) by {
            if rank + 1 <= 6 {
                lemma_operator_level(level_at(rank + 1), follow);
                assert(chain(tokens, at + 1, level_at(rank + 1)) == chain_rest(
                    tokens,
                    to,
                    level_at(rank + 1),
                    right,
                ));
            }
        }
        assert(!at_end(tokens, at) && joins(level, tokens[at].token_type));
        assert(chain_rest(tokens, at, level, left) == chain_rest(tokens, to, level, expr));
    }
}

/// An expression that is spelled, with a token behind it that ends an
/// expression, is read as it is spelled.
pub proof fn lemma_reads_what_is_spelled(tokens: Seq<Token>, from: int, expr: Expr)
    requires
        spells(tokens, from, expr, 0),
        ends_expression(tokens[from + width(expr)].token_type),
    ensures
        expression(tokens, from) == (Ok::<Expr, ParseError>(expr), from + width(expr)),
{
    lemma_spelled(tokens, from, expr, 0);
}

/// Arithmetic is read and valued as it is written: an expression of
/// numbers, `+ - * /` and parentheses is read with `*` and `/` binding
/// tighter than `+` and `-`, each level grouped from the left, and it is
/// worth the arithmetic's operations applied in that order.
pub proof fn lemma_arithmetic_as_written(
    arithmetic: Arithmetic,
    scopes: Chain,
    tokens: Seq<Token>,
    from: int,
    expr: Expr,
)
    requires
        spells(tokens, from, expr, 0),
        ends_expression(tokens[from + width(expr)].token_type),
        is_arithmetic(expr),
    ensures
        expression(tokens, from) == (Ok::<Expr, ParseError>(expr), from + width(expr)),
        evaluate(arithmetic, scopes, expr) == (
            scopes,
            Ok::<ValueView, RuntimeError>(ValueView::Number(arithmetic_value(arithmetic, expr))),
        ),
{
    lemma_reads_what_is_spelled(tokens, from, expr);
    lemma_arithmetic(arithmetic, scopes, expr);
}

/// Whether an expression can begin with a token of this type.
pub open spec fn begins_expression(token_type: TokenType) -> bool {
    ||| token_type == TokenType::Number
    ||| token_type == TokenType::String
    ||| token_type == TokenType::True
    ||| token_type == TokenType::False
    ||| token_type == TokenType::Nil
    ||| token_type == TokenType::Identifier
    ||| token_type == TokenType::LeftParen
    ||| token_type == TokenType::Bang
    ||| token_type == TokenType::Minus
}

/// An expression that is spelled begins with a token that begins
/// expressions.
pub proof fn lemma_first_token(tokens: Seq<Token>, from: int, expr: Expr, rank: nat)
    requires
        spells(tokens, from, expr, rank),
    ensures
        begins_expression(tokens[from].token_type),
    decreases expr,
{
    match expr {
        Expr::Binary { left, operator, token, right } => {
            let level = operator_level(token.token_type)->Some_0;
            lemma_first_token(tokens, from, *left, rank_of(level));
        },
        Expr::Logical { left, operator, token, right } => {
            let level = operator_level(token.token_type)->Some_0;
            lemma_first_token(tokens, from, *left, rank_of(level));
        },
        _ => {},
    }
}

/// The position behind a statement that is spelled from `from` on.
pub open spec fn statement_end(tokens: Seq<Token>, from: int, statement: StmtView) -> int
    decreases statement, 0nat,
{
    match statement {
        StmtView::Expression(expr) => from + width(expr) + 1,
        StmtView::Print(expr) => from + width(expr) + 2,
        StmtView::Let { name, initializer } => if holds(tokens, from + 2, TokenType::Equal) {
            from + width(initializer) + 4
        } else {
            from + 3
        },
        StmtView::Block { statements } => list_end(tokens, from + 1, statements, 0) + 1,
        StmtView::If { condition, then_branch, else_branch } => {
            let after_then = statement_end(tokens, from + 1 + width(condition), *then_branch);
            match else_branch {
                Some(branch) => statement_end(tokens, after_then + 1, *branch),
                None => after_then,
            }
        },
    }
}

/// The position behind the statements of a list from index `index` on,
/// spelled one behind the other from `from` on.
pub open spec fn list_end(tokens: Seq<Token>, from: int, statements: Seq<StmtView>, index: int)
    -> int
    decreases statements, statements.len() - index,
{
    if 0 <= index < statements.len() {
        list_end(tokens, statement_end(tokens, from, statements[index]), statements, index + 1)
    } else {
        from
    }
}

/// Whether the tokens from `from` on spell the statement. A `let` is
/// spelled only where a declaration can stand: at the top of a program and
/// in a block, not as the branch of an `if`.
pub open spec fn spells_statement(
    tokens: Seq<Token>,
    from: int,
    statement: StmtView,
    declaration: bool,
) -> bool
    decreases statement, 0nat,
{
    &&& 0 <= from < tokens.len()
    &&& match statement {
        StmtView::Expression(expr) => {
            &&& spells(tokens, from, expr, 0)
            &&& holds(tokens, from + width(expr), TokenType::Semicolon)
        },
        StmtView::Print(expr) => {
            &&& tokens[from].token_type == TokenType::Print
            &&& spells(tokens, from + 1, expr, 0)
            &&& holds(tokens, from + 1 + width(expr), TokenType::Semicolon)
        },
        StmtView::Let { name, initializer } => {
            &&& declaration
            &&& tokens[from].token_type == TokenType::Let
            &&& holds(tokens, from + 1, TokenType::Identifier)
            &&& tokens[from + 1] == name
            &&& if holds(tokens, from + 2, TokenType::Equal) {
                &&& spells(tokens, from + 3, initializer, 0)
                &&& holds(tokens, from + 3 + width(initializer), TokenType::Semicolon)
            } else {
                &&& initializer == (Expr::Literal { value: Value::Nil })
                &&& holds(tokens, from + 2, TokenType::Semicolon)
            }
        },
        StmtView::Block { statements } => {
            &&& tokens[from].token_type == TokenType::LeftBrace
            &&& spells_list(tokens, from + 1, statements, 0)
            &&& holds(tokens, list_end(tokens, from + 1, statements, 0), TokenType::RightBrace)
        },
        StmtView::If { condition, then_branch, else_branch } => {
            let after_condition = from + 1 + width(condition);
            let after_then = statement_end(tokens, after_condition, *then_branch);
            &&& tokens[from].token_type == TokenType::If
            &&& spells(tokens, from + 1, condition, 0)
            &&& ends_expression(tokens[after_condition].token_type)
            &&& spells_statement(tokens, after_condition, *then_branch, false)
            &&& match else_branch {
                Some(branch) => {
                    &&& holds(tokens, after_then, TokenType::Else)
                    &&& spells_statement(tokens, after_then + 1, *branch, false)
                },
                None => !holds(tokens, after_then, TokenType::Else),
            }
        },
    }
}

/// Whether the tokens from `from` on spell the statements of the list from
/// index `index` on, one behind the other.
pub open spec fn spells_list(
    tokens: Seq<Token>,
    from: int,
    statements: Seq<StmtView>,
    index: int,
) -> bool
    decreases statements, statements.len() - index,
{
    0 <= index < statements.len() ==> {
        &&& spells_statement(tokens, from, statements[index], true)
        &&& spells_list(
            tokens,
            statement_end(tokens, from, statements[index]),
            statements,
            index + 1,
        )
    }
}

/// An expression statement, a `print` and a `let` that are spelled are
/// read as they are spelled.
proof fn lemma_simple_statement_spelled(
    tokens: Seq<Token>,
    from: int,
    statement: StmtView,
    declaration: bool,
)
    requires
        spells_statement(tokens, from, statement, declaration),
        statement is Expression || statement is Print || statement is Let,
    ensures
        match statement {
            StmtView::Expression(expr) => begins_expression(tokens[from].token_type)
                && expression_statement(tokens, from) == (
                Ok::<StmtView, ParseError>(statement),
                statement_end(tokens, from, statement),
            ),
            StmtView::Print(expr) => print_statement(tokens, from + 1) == (
                Ok::<StmtView, ParseError>(statement),
                statement_end(tokens, from, statement),
            ),
            _ => var_declaration(tokens, from + 1) == (
                Ok::<StmtView, ParseError>(statement),
                statement_end(tokens, from, statement),
            ),
        },
        statement_end(tokens, from, statement) > from,
{
    match statement {
        StmtView::Expression(expr) => {
            lemma_first_token(tokens, from, expr, 0);
            lemma_spelled(tokens, from, expr, 0);
        },
        StmtView::Print(expr) => {
            lemma_spelled(tokens, from + 1, expr, 0);
        },
        StmtView::Let { name, initializer } => {
            if holds(tokens, from + 2, TokenType::Equal) {
                lemma_spelled(tokens, from + 3, initializer, 0);
            }
        },
        _ => {},
    }
}

/// An `if` that is spelled is read as it is spelled, where its branches
/// are.
proof fn lemma_if_spelled(
    tokens: Seq<Token>,
    from: int,
    condition: Expr,
    then_branch: StmtView,
    else_branch: Option<Box<StmtView>>,
)
    requires
        spells_statement(
            tokens,
            from,
            StmtView::If { condition, then_branch: Box::new(then_branch), else_branch },
            false,
        ),
        crate::grammar::statement(tokens, from + 1 + width(condition)) == (
            Ok::<StmtView, ParseError>(then_branch),
            statement_end(tokens, from + 1 + width(condition), then_branch),
        ),
        statement_end(tokens, from + 1 + width(condition), then_branch) > from + 1 + width(
            condition,
        ),
        else_branch matches Some(branch) ==> {
            let after_then = statement_end(tokens, from + 1 + width(condition), then_branch);
            &&& crate::grammar::statement(tokens, after_then + 1) == (
                Ok::<StmtView, ParseError>(*branch),
                statement_end(tokens, after_then + 1, *branch),
            )
            &&& statement_end(tokens, after_then + 1, *branch) > after_then + 1
        },
    ensures
        if_statement(tokens, from + 1) == (
            Ok::<StmtView, ParseError>(
                StmtView::If { condition, then_branch: Box::new(then_branch), else_branch },
            ),
            statement_end(
                tokens,
                from,
                StmtView::If { condition, then_branch: Box::new(then_branch), else_branch },
            ),
        ),
        statement_end(
            tokens,
            from,
            StmtView::If { condition, then_branch: Box::new(then_branch), else_branch },
        ) > from,
{
    lemma_spelled(tokens, from + 1, condition, 0);
}

/// A statement is told by its first token: what is read behind the token
/// is what the statement, and the declaration, is read as.
proof fn lemma_told_by_first_token(tokens: Seq<Token>, from: int, statement: StmtView, end: int)
    requires
        !at_end(tokens, from),
        match statement {
            StmtView::Expression(expr) => begins_expression(tokens[from].token_type)
                && expression_statement(tokens, from) == (
                Ok::<StmtView, ParseError>(statement),
                end,
            ),
            StmtView::Print(expr) => tokens[from].token_type == TokenType::Print
                && print_statement(tokens, from + 1) == (
                Ok::<StmtView, ParseError>(statement),
                end,
            ),
            StmtView::Let { name, initializer } => tokens[from].token_type == TokenType::Let
                && var_declaration(tokens, from + 1) == (
                Ok::<StmtView, ParseError>(statement),
                end,
            ),
            StmtView::Block { statements } => tokens[from].token_type == TokenType::LeftBrace
                && block(tokens, from + 1) == (Ok::<StmtView, ParseError>(statement), end),
            StmtView::If { condition, then_branch, else_branch } => tokens[from].token_type
                == TokenType::If && if_statement(tokens, from + 1) == (
                Ok::<StmtView, ParseError>(statement),
                end,
            ),
        },
    ensures
        crate::grammar::declaration(tokens, from) == (Ok::<StmtView, ParseError>(statement), end),
        !(statement is Let) ==> crate::grammar::statement(tokens, from) == (
            Ok::<StmtView, ParseError>(statement),
            end,
        ),
{
}

/// A block that is spelled is read as it is spelled, where its
/// declarations are.
proof fn lemma_block_spelled(tokens: Seq<Token>, from: int, statements: Seq<StmtView>)
    requires
        spells_statement(tokens, from, StmtView::Block { statements }, false),
        block_items(tokens, from + 1, Seq::empty()) == (
            Ok::<Seq<StmtView>, ParseError>(statements),
            list_end(tokens, from + 1, statements, 0),
        ),
    ensures
        block(tokens, from + 1) == (
            Ok::<StmtView, ParseError>(StmtView::Block { statements }),
            statement_end(tokens, from, StmtView::Block { statements }),
        ),
{
}

/// A statement that is spelled is read as it is spelled: as a declaration
/// in any case, and as a statement unless it is a `let`.
pub proof fn lemma_statement_spelled(
    tokens: Seq<Token>,
    from: int,
    statement: StmtView,
    declaration: bool,
)
    requires
        spells_statement(tokens, from, statement, declaration),
    ensures
        statement_end(tokens, from, statement) > from,
        crate::grammar::declaration(tokens, from) == (
            Ok::<StmtView, ParseError>(statement),
            statement_end(tokens, from, statement),
        ),
        !(statement is Let) ==> crate::grammar::statement(tokens, from) == (
            Ok::<StmtView, ParseError>(statement),
            statement_end(tokens, from, statement),
        ),
        !(statement is Let) || declaration,
        !at_end(tokens, from),
        tokens[from].token_type != TokenType::RightBrace,
    decreases statement, 0nat,
{
    let end = statement_end(tokens, from, statement);
    match statement {
        StmtView::Block { statements } => {
            lemma_list_spelled(tokens, from + 1, statements, 0, Seq::empty());
            assert(Seq::<StmtView>::empty() + statements.skip(0) =~= statements);
            lemma_block_spelled(tokens, from, statements);
        },
        StmtView::If { condition, then_branch, else_branch } => {
            let after_condition = from + 1 + width(condition);
            let after_then = statement_end(tokens, after_condition, *then_branch);
            lemma_statement_spelled(tokens, after_condition, *then_branch, false);
            if let Some(branch) = else_branch {
                lemma_statement_spelled(tokens, after_then + 1, *branch, false);
            }
            lemma_if_spelled(tokens, from, condition, *then_branch, else_branch);
        },
        _ => {
            lemma_simple_statement_spelled(tokens, from, statement, declaration);
        },
    }
    lemma_told_by_first_token(tokens, from, statement, end);
}

/// The statements of a list that is spelled up to a closing brace are read
/// as the declarations of a block.
pub proof fn lemma_list_spelled(
    tokens: Seq<Token>,
    from: int,
    statements: Seq<StmtView>,
    index: int,
    done: Seq<StmtView>,
)
    requires
        0 <= index <= statements.len(),
        spells_list(tokens, from, statements, index),
        holds(tokens, list_end(tokens, from, statements, index), TokenType::RightBrace),
    ensures
        list_end(tokens, from, statements, index) >= from,
        block_items(tokens, from, done) == (
            Ok::<Seq<StmtView>, ParseError>(done + statements.skip(index)),
            list_end(tokens, from, statements, index),
        ),
    decreases statements, statements.len() - index,
{
    if index < statements.len() {
        let next = statement_end(tokens, from, statements[index]);
        lemma_statement_spelled(tokens, from, statements[index], true);
        lemma_list_spelled(tokens, next, statements, index + 1, done.push(statements[index]));
        assert(done.push(statements[index]) + statements.skip(index + 1) =~= done
            + statements.skip(index));
    } else {
        assert(done + statements.skip(index) =~= done);
    }
}

/// A program that is spelled up to the end marker is read without a fault,
/// statement by statement, behind what was read before it.
pub proof fn lemma_program_spelled(
    tokens: Seq<Token>,
    from: int,
    statements: Seq<StmtView>,
    index: int,
    done: Seq<StmtView>,
    errors: Seq<ParseError>,
)
    requires
        0 <= index <= statements.len(),
        spells_list(tokens, from, statements, index),
        at_end(tokens, list_end(tokens, from, statements, index)),
    ensures
        program_from(tokens, from, done, errors) == (done + statements.skip(index), errors),
    decreases statements.len() - index,
{
    if index < statements.len() {
        let next = statement_end(tokens, from, statements[index]);
        lemma_statement_spelled(tokens, from, statements[index], true);
        lemma_program_spelled(
            tokens,
            next,
            statements,
            index + 1,
            done.push(statements[index]),
            errors,
        );
    }
}

/// Whatever program is spelled by the whole token sequence is what the
/// parser makes of it, and the parser finds no fault in it.
pub proof fn lemma_parses_what_is_spelled(tokens: Seq<Token>, statements: Seq<StmtView>)
    requires
        spells_list(tokens, 0, statements, 0),
        at_end(tokens, list_end(tokens, 0, statements, 0)),
    ensures
        program(tokens) == (statements, Seq::<ParseError>::empty()),
{
    lemma_program_spelled(tokens, 0, statements, 0, Seq::empty(), Seq::empty());
}

/// Whether a token of this type, standing behind a chain at the place
/// `rank`, is no operator of that place or of a tighter one.
pub open spec fn binds_looser(token_type: TokenType, rank: nat) -> bool {
    operator_level(token_type) matches Some(level) ==> rank_of(level) < rank
}

/// What can stand at a place can stand at every looser one, an assignment
/// apart, which stands at the loosest alone.
pub proof fn lemma_spells_looser(tokens: Seq<Token>, from: int, expr: Expr, rank: nat, looser: nat)
    requires
        spells(tokens, from, expr, rank),
        looser <= rank,
    ensures
        spells(tokens, from, expr, looser),
{
}

/// A primary that is read is spelled by the tokens that were read.
pub proof fn lemma_primary_reads(tokens: Seq<Token>, pos: int)
    requires
        well_terminated(tokens),
        0 <= pos < tokens.len(),
    ensures
        primary(tokens, pos).0 matches Ok(expr) ==> {
            &&& spells(tokens, pos, expr, 8)
            &&& primary(tokens, pos).1 == pos + width(expr)
            &&& primary(tokens, pos).1 < tokens.len()
        },
    decreases remaining(tokens, pos), 1nat,
{
    if holds(tokens, pos, TokenType::LeftParen) {
        lemma_expression_reads(tokens, pos + 1);
    }
}

/// A unary expression that is read is spelled by the tokens that were read.
pub proof fn lemma_unary_reads(tokens: Seq<Token>, pos: int)
    requires
        well_terminated(tokens),
        0 <= pos < tokens.len(),
    ensures
        unary(tokens, pos).0 matches Ok(expr) ==> {
            &&& spells(tokens, pos, expr, 7)
            &&& unary(tokens, pos).1 == pos + width(expr)
            &&& unary(tokens, pos).1 < tokens.len()
        },
    decreases remaining(tokens, pos), 2nat,
{
    if holds(tokens, pos, TokenType::Bang) || holds(tokens, pos, TokenType::Minus) {
        lemma_unary_reads(tokens, pos + 1);
    } else {
        lemma_primary_reads(tokens, pos);
        if let Ok(expr) = primary(tokens, pos).0 {
            lemma_spells_looser(tokens, pos, expr, 8, 7);
        }
    }
}

/// An operand that is read is spelled by the tokens that were read, and no
/// operator that binds tighter than the level stands behind it.
pub proof fn lemma_operand_reads(tokens: Seq<Token>, pos: int, level: Level)
    requires
        well_terminated(tokens),
        0 <= pos < tokens.len(),
    ensures
        operand(tokens, pos, level).0 matches Ok(expr) ==> {
            let end = operand(tokens, pos, level).1;
            &&& spells(tokens, pos, expr, rank_of(level) + 1)
            &&& end == pos + width(expr)
            &&& end < tokens.len()
            &&& binds_no_tighter(tokens[end].token_type, rank_of(level))
        },
    decreases remaining(tokens, pos), 2 * tighter(level) + 3,
{
    match level {
        Level::Or => lemma_chain_reads(tokens, pos, Level::And),
        Level::And => lemma_chain_reads(tokens, pos, Level::Equality),
        Level::Equality => lemma_chain_reads(tokens, pos, Level::Comparison),
        Level::Comparison => lemma_chain_reads(tokens, pos, Level::Term),
        Level::Term => lemma_chain_reads(tokens, pos, Level::Factor),
        Level::Factor => lemma_unary_reads(tokens, pos),
    }
}

/// A chain that is read is spelled by the tokens that were read, and no
/// operator of its level or of a tighter one stands behind it.
pub proof fn lemma_chain_reads(tokens: Seq<Token>, pos: int, level: Level)
    requires
        well_terminated(tokens),
        0 <= pos < tokens.len(),
    ensures
        chain(tokens, pos, level).0 matches Ok(expr) ==> {
            let end = chain(tokens, pos, level).1;
            &&& spells(tokens, pos, expr, rank_of(level))
            &&& end == pos + width(expr)
            &&& end < tokens.len()
            &&& binds_looser(tokens[end].token_type, rank_of(level))
        },
    decreases remaining(tokens, pos), 2 * tighter(level) + 4,
{
    lemma_operand_reads(tokens, pos, level);
    let (first, end) = operand(tokens, pos, level);
    if let Ok(left) = first {
        lemma_spells_looser(tokens, pos, left, rank_of(level) + 1, rank_of(level));
        lemma_chain_rest_reads(tokens, pos, end, level, left);
    }
}

/// What is read behind the operands that make up `left` is spelled
/// together with them.
pub proof fn lemma_chain_rest_reads(
    tokens: Seq<Token>,
    start: int,
    pos: int,
    level: Level,
    left: Expr,
)
    requires
        well_terminated(tokens),
        spells(tokens, start, left, rank_of(level)),
        pos == start + width(left),
        pos < tokens.len(),
        binds_no_tighter(tokens[pos].token_type, rank_of(level)),
    ensures
        chain_rest(tokens, pos, level, left).0 matches Ok(expr) ==> {
            let end = chain_rest(tokens, pos, level, left).1;
            &&& spells(tokens, start, expr, rank_of(level))
            &&& end == start + width(expr)
            &&& end < tokens.len()
            &&& binds_looser(tokens[end].token_type, rank_of(level))
        },
    decreases remaining(tokens, pos), 0nat,
{
    lemma_operator_level(level, tokens[pos].token_type);
    if !at_end(tokens, pos) && joins(level, tokens[pos].token_type) {
        lemma_operand_reads(tokens, pos + 1, level);
        let (next, end) = operand(tokens, pos + 1, level);
        if let Ok(right) = next {
            let whole = joined(level, left, tokens[pos], right);
            lemma_chain_rest_reads(tokens, start, end, level, whole);
        }
    }
}

/// An assignment that is read is spelled by the tokens that were read, and
/// the token behind it ends an expression.
pub proof fn lemma_assignment_reads(tokens: Seq<Token>, pos: int)
    requires
        well_terminated(tokens),
        0 <= pos < tokens.len(),
    ensures
        assignment(tokens, pos).0 matches Ok(expr) ==> {
            let end = assignment(tokens, pos).1;
            &&& spells(tokens, pos, expr, 0)
            &&& end == pos + width(expr)
            &&& end < tokens.len()
            &&& ends_expression(tokens[end].token_type)
        },
    decreases remaining(tokens, pos), 20nat,
{
    lemma_chain_reads(tokens, pos, Level::Or);
    let (first, end) = chain(tokens, pos, Level::Or);
    if let Ok(target) = first {
        lemma_spells_looser(tokens, pos, target, 1, 0);
        if holds(tokens, end, TokenType::Equal) {
            lemma_assignment_reads(tokens, end + 1);
        }
    }
}

/// An expression that is read is spelled by the tokens that were read, and
/// the token behind it ends an expression.
pub proof fn lemma_expression_reads(tokens: Seq<Token>, pos: int)
    requires
        well_terminated(tokens),
        0 <= pos < tokens.len(),
    ensures
        expression(tokens, pos).0 matches Ok(expr) ==> {
            let end = expression(tokens, pos).1;
            &&& spells(tokens, pos, expr, 0)
            &&& end == pos + width(expr)
            &&& end < tokens.len()
            &&& ends_expression(tokens[end].token_type)
        },
    decreases remaining(tokens, pos), 21nat,
{
    lemma_assignment_reads(tokens, pos);
}

/// The parser reads an expression at a position exactly where the tokens
/// spell one there and a token that ends an expression stands behind it.
pub proof fn lemma_reads_exactly_what_is_spelled(tokens: Seq<Token>, from: int, expr: Expr)
    requires
        well_terminated(tokens),
        0 <= from < tokens.len(),
    ensures
        expression(tokens, from) == (Ok::<Expr, ParseError>(expr), from + width(expr)) <==> spells(
            tokens,
            from,
            expr,
            0,
        ) && ends_expression(tokens[from + width(expr)].token_type),
{
    lemma_expression_reads(tokens, from);
    if spells(tokens, from, expr, 0) && ends_expression(tokens[from + width(expr)].token_type) {
        lemma_reads_what_is_spelled(tokens, from, expr);
    }
}

/// What is spelled as a statement is spelled as a declaration too.
pub proof fn lemma_statement_is_declaration(tokens: Seq<Token>, from: int, statement: StmtView)
    requires
        spells_statement(tokens, from, statement, false),
    ensures
        spells_statement(tokens, from, statement, true),
{
}

/// An expression statement that is read is spelled by the tokens read.
pub proof fn lemma_expression_statement_reads(tokens: Seq<Token>, pos: int)
    requires
        well_terminated(tokens),
        0 <= pos < tokens.len(),
    ensures
        expression_statement(tokens, pos).0 matches Ok(statement) ==> {
            let end = expression_statement(tokens, pos).1;
            &&& spells_statement(tokens, pos, statement, false)
            &&& end == statement_end(tokens, pos, statement)
            &&& end < tokens.len()
        },
    decreases remaining(tokens, pos), 22nat,
{
    lemma_expression_reads(tokens, pos);
}

/// What is read behind `print` is spelled together with it.
pub proof fn lemma_print_statement_reads(tokens: Seq<Token>, start: int)
    requires
        well_terminated(tokens),
        holds(tokens, start, TokenType::Print),
    ensures
        print_statement(tokens, start + 1).0 matches Ok(statement) ==> {
            let end = print_statement(tokens, start + 1).1;
            &&& spells_statement(tokens, start, statement, false)
            &&& end == statement_end(tokens, start, statement)
            &&& end < tokens.len()
        },
    decreases remaining(tokens, start + 1), 26nat,
{
    lemma_expression_reads(tokens, start + 1);
}

/// What is read behind `let` is spelled together with it.
pub proof fn lemma_var_declaration_reads(tokens: Seq<Token>, start: int)
    requires
        well_terminated(tokens),
        holds(tokens, start, TokenType::Let),
    ensures
        var_declaration(tokens, start + 1).0 matches Ok(statement) ==> {
            let end = var_declaration(tokens, start + 1).1;
            &&& spells_statement(tokens, start, statement, true)
            &&& end == statement_end(tokens, start, statement)
            &&& end < tokens.len()
        },
    decreases remaining(tokens, start + 1), 26nat,
{
    if holds(tokens, start + 1, TokenType::Identifier) && holds(
        tokens,
        start + 2,
        TokenType::Equal,
    ) {
        lemma_expression_reads(tokens, start + 3);
    }
}

/// The declarations that are read in a block are spelled one behind the
/// other, behind those that were read before them.
pub proof fn lemma_block_items_reads(tokens: Seq<Token>, pos: int, done: Seq<StmtView>)
    requires
        well_terminated(tokens),
        0 <= pos < tokens.len(),
    ensures
        block_items(tokens, pos, done).0 matches Ok(all) ==> {
            let end = block_items(tokens, pos, done).1;
            &&& all.len() >= done.len()
            &&& all.take(done.len() as int) == done
            &&& spells_list(tokens, pos, all, done.len() as int)
            &&& end == list_end(tokens, pos, all, done.len() as int)
            &&& pos <= end < tokens.len()
            &&& holds(tokens, end, TokenType::RightBrace) || at_end(tokens, end)
        },
    decreases remaining(tokens, pos), 25nat,
{
    if !holds(tokens, pos, TokenType::RightBrace) && !at_end(tokens, pos) {
        lemma_declaration_reads(tokens, pos);
        crate::grammar::lemma_declaration_forward(tokens, pos);
        let (next, end) = crate::grammar::declaration(tokens, pos);
        if let Ok(statement) = next {
            let more = done.push(statement);
            lemma_block_items_reads(tokens, end, more);
            if let Ok(all) = block_items(tokens, end, more).0 {
                assert(all[done.len() as int] == more[done.len() as int]);
                assert(all.take(done.len() as int) =~= done) by {
                    assert forall|index: int| 0 <= index < done.len() implies all[index]
                        == done[index] by {
                        assert(all.take(more.len() as int)[index] == all[index]);
                    }
                }
            }
        }
    }
}

/// What is read behind `{` is spelled together with it.
pub proof fn lemma_block_reads(tokens: Seq<Token>, start: int)
    requires
        well_terminated(tokens),
        holds(tokens, start, TokenType::LeftBrace),
    ensures
        block(tokens, start + 1).0 matches Ok(statement) ==> {
            let end = block(tokens, start + 1).1;
            &&& spells_statement(tokens, start, statement, false)
            &&& end == statement_end(tokens, start, statement)
            &&& end < tokens.len()
        },
    decreases remaining(tokens, start + 1), 26nat,
{
    lemma_block_items_reads(tokens, start + 1, Seq::empty());
}

/// What is read behind `if` is spelled together with it.
pub proof fn lemma_if_statement_reads(tokens: Seq<Token>, start: int)
    requires
        well_terminated(tokens),
        holds(tokens, start, TokenType::If),
    ensures
        if_statement(tokens, start + 1).0 matches Ok(statement) ==> {
            let end = if_statement(tokens, start + 1).1;
            &&& spells_statement(tokens, start, statement, false)
            &&& end == statement_end(tokens, start, statement)
            &&& end < tokens.len()
        },
    decreases remaining(tokens, start + 1), 26nat,
{
    lemma_expression_reads(tokens, start + 1);
    let (test, end) = expression(tokens, start + 1);
    if test is Ok {
        lemma_statement_reads(tokens, end);
        let (first, middle) = crate::grammar::statement(tokens, end);
        if first is Ok && holds(tokens, middle, TokenType::Else) {
            lemma_statement_reads(tokens, middle + 1);
        }
    }
}

/// A statement that is read is spelled by the tokens that were read.
pub proof fn lemma_statement_reads(tokens: Seq<Token>, pos: int)
    requires
        well_terminated(tokens),
        0 <= pos < tokens.len(),
    ensures
        crate::grammar::statement(tokens, pos).0 matches Ok(statement) ==> {
            let end = crate::grammar::statement(tokens, pos).1;
            &&& spells_statement(tokens, pos, statement, false)
            &&& end == statement_end(tokens, pos, statement)
            &&& pos < end < tokens.len()
        },
    decreases remaining(tokens, pos), 23nat,
{
    crate::grammar::lemma_statement_forward(tokens, pos);
    if holds(tokens, pos, TokenType::Print) {
        lemma_print_statement_reads(tokens, pos);
    } else if holds(tokens, pos, TokenType::LeftBrace) {
        lemma_block_reads(tokens, pos);
    } else if holds(tokens, pos, TokenType::If) {
        lemma_if_statement_reads(tokens, pos);
    } else {
        lemma_expression_statement_reads(tokens, pos);
    }
}

/// A declaration that is read is spelled by the tokens that were read.
pub proof fn lemma_declaration_reads(tokens: Seq<Token>, pos: int)
    requires
        well_terminated(tokens),
        0 <= pos < tokens.len(),
    ensures
        crate::grammar::declaration(tokens, pos).0 matches Ok(statement) ==> {
            let end = crate::grammar::declaration(tokens, pos).1;
            &&& spells_statement(tokens, pos, statement, true)
            &&& end == statement_end(tokens, pos, statement)
            &&& end < tokens.len()
        },
    decreases remaining(tokens, pos), 24nat,
{
    if holds(tokens, pos, TokenType::Let) {
        lemma_var_declaration_reads(tokens, pos);
    } else {
        lemma_statement_reads(tokens, pos);
        if let Ok(statement) = crate::grammar::statement(tokens, pos).0 {
            lemma_statement_is_declaration(tokens, pos, statement);
        }
    }
}

/// Faults are never taken back: a program has at least the faults that
/// were found before it.
pub proof fn lemma_faults_stay(
    tokens: Seq<Token>,
    pos: int,
    done: Seq<StmtView>,
    errors: Seq<ParseError>,
)
    ensures
        program_from(tokens, pos, done, errors).1.len() >= errors.len(),
    decreases remaining(tokens, pos),
{
    if !at_end(tokens, pos) {
        let (next, end) = crate::grammar::declaration(tokens, pos);
        match next {
            Ok(statement) => {
                lemma_faults_stay(tokens, onward(pos + 1, end), done.push(statement), errors);
            },
            Err(error) => {
                lemma_faults_stay(tokens, onward(pos + 1, end), done, errors.push(error));
            },
        }
    }
}

/// A program in which no fault is found is spelled by the tokens, one
/// statement behind the other up to the end marker.
pub proof fn lemma_program_reads(
    tokens: Seq<Token>,
    pos: int,
    done: Seq<StmtView>,
    errors: Seq<ParseError>,
)
    requires
        well_terminated(tokens),
        0 <= pos < tokens.len(),
    ensures
        program_from(tokens, pos, done, errors).1.len() == errors.len() ==> {
            let all = program_from(tokens, pos, done, errors).0;
            &&& all.len() >= done.len()
            &&& all.take(done.len() as int) == done
            &&& spells_list(tokens, pos, all, done.len() as int)
            &&& at_end(tokens, list_end(tokens, pos, all, done.len() as int))
        },
    decreases remaining(tokens, pos),
{
    if !at_end(tokens, pos) {
        lemma_declaration_reads(tokens, pos);
        crate::grammar::lemma_declaration_forward(tokens, pos);
        let (next, end) = crate::grammar::declaration(tokens, pos);
        match next {
            Ok(statement) => {
                let more = done.push(statement);
                lemma_program_reads(tokens, end, more, errors);
                if program_from(tokens, end, more, errors).1.len() == errors.len() {
                    let all = program_from(tokens, end, more, errors).0;
                    assert(all[done.len() as int] == more[done.len() as int]);
                    assert(all.take(done.len() as int) =~= done) by {
                        assert forall|index: int| 0 <= index < done.len() implies all[index]
                            == done[index] by {
                            assert(all.take(more.len() as int)[index] == all[index]);
                        }
                    }
                }
            },
            Err(error) => {
                lemma_faults_stay(tokens, onward(pos + 1, end), done, errors.push(error));
            },
        }
    }
}

/// The parser makes a program of a token sequence without finding a fault
/// exactly where the tokens spell the program, up to the end marker.
pub proof fn lemma_parses_exactly_what_is_spelled(tokens: Seq<Token>, statements: Seq<StmtView>)
    requires
        well_terminated(tokens),
    ensures
        program(tokens) == (statements, Seq::<ParseError>::empty()) <==> spells_list(
            tokens,
            0,
            statements,
            0,
        ) && at_end(tokens, list_end(tokens, 0, statements, 0)),
{
    lemma_program_reads(tokens, 0, Seq::empty(), Seq::empty());
    if spells_list(tokens, 0, statements, 0) && at_end(
        tokens,
        list_end(tokens, 0, statements, 0),
    ) {
        lemma_parses_what_is_spelled(tokens, statements);
    }
}

/// A fault costs its own declaration and nothing else: where a declaration
/// is faulty and the tokens from the place at which reading is taken up
/// spell statements up to the end marker, the program is those statements
/// and the one fault.
pub proof fn lemma_reading_is_taken_up(
    tokens: Seq<Token>,
    pos: int,
    statements: Seq<StmtView>,
    done: Seq<StmtView>,
    errors: Seq<ParseError>,
)
    requires
        !at_end(tokens, pos),
        crate::grammar::declaration(tokens, pos).0 is Err,
        spells_list(tokens, crate::grammar::declaration(tokens, pos).1, statements, 0),
        at_end(
            tokens,
            list_end(tokens, crate::grammar::declaration(tokens, pos).1, statements, 0),
        ),
    ensures
        program_from(tokens, pos, done, errors) == (
            done + statements,
            errors.push(crate::grammar::declaration(tokens, pos).0->Err_0),
        ),
{
    let (next, end) = crate::grammar::declaration(tokens, pos);
    crate::grammar::lemma_program_unfolds(tokens, pos, done, errors);
    lemma_program_spelled(tokens, end, statements, 0, done, errors.push(next->Err_0));
}

} // verus!
