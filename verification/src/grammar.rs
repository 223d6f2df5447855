//! The grammar, as functions from a token sequence and a position to what
//! stands there and the position behind it.
//!
//! ```text
//! program     -> declaration* EOF
//! declaration -> "let" IDENT ("=" expression)? ";" | statement
//! statement   -> "print" expression ";"
//!              | "{" declaration* "}"
//!              | "if" expression statement ("else" statement)?
//!              | expression ";"
//! expression  -> assignment
//! assignment  -> IDENT "=" assignment | logic_or
//! logic_or    -> logic_and ("or" logic_and)*
//! logic_and   -> equality ("and" equality)*
//! equality    -> comparison (("!=" | "==") comparison)*
//! comparison  -> term ((">" | ">=" | "<" | "<=") term)*
//! term        -> factor (("-" | "+") factor)*
//! factor      -> unary (("/" | "*") unary)*
//! unary       -> ("!" | "-") unary | primary
//! primary     -> NUMBER | STRING | "true" | "false" | "nil" | IDENT
//!              | "(" expression ")"
//! ```
//!
//! A part never ends before the position at which it began: the lemmas
//! whose names end in `_forward` prove it. The definitions say so once more
//! wherever one part follows another, with [`onward`], and that is what
//! shows that they end. Each definition is measured by the tokens that are
//! left and by a number that orders the parts which can begin at one
//! position: there a part asks only for parts with a smaller number.
//!
//! [`crate::spelling`] says the same language from the tree to its tokens
//! and proves that the two agree.

use vstd::prelude::*;
use crate::error::{ParseError, ParseErrorKind};
use crate::expr::{BinaryOp, Expr, LogicalOp, UnaryOp};
use crate::stmt::StmtView;
use crate::token::{LiteralValue, Token, TokenType};
use crate::value::Value;

verus! {

/// What stands at a position, or the fault found there, and the position
/// behind it.
pub type Parsed<T> = (Result<T, ParseError>, int);

/// Whether the sequence ends with the end marker.
pub open spec fn well_terminated(tokens: Seq<Token>) -> bool {
    tokens.len() > 0 && tokens.last().token_type == TokenType::Eof
}

/// Whether nothing is left to read at `pos`: the end marker stands there.
pub open spec fn at_end(tokens: Seq<Token>, pos: int) -> bool {
    !(0 <= pos < tokens.len()) || tokens[pos].token_type == TokenType::Eof
}

/// Whether a token of the given type, and not the end marker, stands at `pos`.
pub open spec fn holds(tokens: Seq<Token>, pos: int, token_type: TokenType) -> bool {
    !at_end(tokens, pos) && tokens[pos].token_type == token_type
}

/// Whether a token of one of the given types stands at `pos`.
pub open spec fn holds_any(tokens: Seq<Token>, pos: int, token_types: Seq<TokenType>) -> bool {
    exists|index: int|
        0 <= index < token_types.len() && holds(tokens, pos, #[trigger] token_types[index])
}

/// The position behind the token at `pos`; the end marker is never passed.
pub open spec fn step(tokens: Seq<Token>, pos: int) -> int {
    if at_end(tokens, pos) {
        pos
    } else {
        pos + 1
    }
}

/// The number of tokens from `pos` on.
pub open spec fn remaining(tokens: Seq<Token>, pos: int) -> nat {
    if pos < tokens.len() {
        (tokens.len() - pos) as nat
    } else {
        0
    }
}

/// `next`, which is never before `least`.
pub open spec fn onward(least: int, next: int) -> int {
    if next < least {
        least
    } else {
        next
    }
}

/// The fault of the given kind at `token`.
pub open spec fn error_at(kind: ParseErrorKind, token: Token) -> ParseError {
    ParseError { kind, line_number: token.line_number, lexeme: token.lexeme }
}

/// The token of type `token_type` at `pos`, or the fault that another one
/// stands there.
pub open spec fn consume(tokens: Seq<Token>, pos: int, token_type: TokenType) -> Parsed<Token> {
    if holds(tokens, pos, token_type) {
        (Ok(tokens[pos]), pos + 1)
    } else {
        (Err(error_at(ParseErrorKind::UnexpectedToken, tokens[pos])), pos)
    }
}

/// The levels of infix operators, from the loosest to the tightest.
#[derive(Clone, Copy, Debug, PartialEq, Eq, Structural)]
pub enum Level {
    Or,
    And,
    Equality,
    Comparison,
    Term,
    Factor,
}

/// The number of levels that bind tighter than this one.
pub open spec fn tighter(level: Level) -> nat {
    match level {
        Level::Or => 5,
        Level::And => 4,
        Level::Equality => 3,
        Level::Comparison => 2,
        Level::Term => 1,
        Level::Factor => 0,
    }
}

/// The token types of the operators of a level.
pub open spec fn operators(level: Level) -> Seq<TokenType> {
    match level {
        Level::Or => seq![TokenType::Or],
        Level::And => seq![TokenType::And],
        Level::Equality => seq![TokenType::BangEqual, TokenType::EqualEqual],
        Level::Comparison => seq![
            TokenType::Greater,
            TokenType::GreaterEqual,
            TokenType::Less,
            TokenType::LessEqual,
        ],
        Level::Term => seq![TokenType::Minus, TokenType::Plus],
        Level::Factor => seq![TokenType::Slash, TokenType::Star],
    }
}

/// Whether a token of this type is an operator of the level.
pub open spec fn joins(level: Level, token_type: TokenType) -> bool {
    match level {
        Level::Or => token_type == TokenType::Or,
        Level::And => token_type == TokenType::And,
        Level::Equality => token_type == TokenType::BangEqual || token_type
            == TokenType::EqualEqual,
        Level::Comparison => token_type == TokenType::Greater || token_type
            == TokenType::GreaterEqual || token_type == TokenType::Less || token_type
            == TokenType::LessEqual,
        Level::Term => token_type == TokenType::Minus || token_type == TokenType::Plus,
        Level::Factor => token_type == TokenType::Slash || token_type == TokenType::Star,
    }
}

/// An operator of a level stands at `pos` where a token of one of the
/// level's types does.
pub proof fn lemma_operators(tokens: Seq<Token>, pos: int, level: Level)
    ensures
        holds_any(tokens, pos, operators(level)) <==> !at_end(tokens, pos) && joins(
            level,
            tokens[pos].token_type,
        ),
{
    let types = operators(level);
    assert(types.len() >= 1 && holds(tokens, pos, types[0]) ==> holds_any(tokens, pos, types));
}

/// The operator that an infix token of this type stands for.
pub open spec fn binary_operator(token_type: TokenType) -> BinaryOp {
    match token_type {
        TokenType::Minus => BinaryOp::Minus,
        TokenType::Plus => BinaryOp::Plus,
        TokenType::Slash => BinaryOp::Slash,
        TokenType::Star => BinaryOp::Star,
        TokenType::Greater => BinaryOp::Greater,
        TokenType::GreaterEqual => BinaryOp::GreaterEqual,
        TokenType::Less => BinaryOp::Less,
        TokenType::LessEqual => BinaryOp::LessEqual,
        TokenType::EqualEqual => BinaryOp::EqualEqual,
        _ => BinaryOp::BangEqual,
    }
}

/// The node of two operands joined by an operator token of the level.
pub open spec fn joined(level: Level, left: Expr, token: Token, right: Expr) -> Expr {
    match level {
        Level::Or => Expr::Logical {
            left: Box::new(left),
            operator: LogicalOp::Or,
            token,
            right: Box::new(right),
        },
        Level::And => Expr::Logical {
            left: Box::new(left),
            operator: LogicalOp::And,
            token,
            right: Box::new(right),
        },
        _ => Expr::Binary {
            left: Box::new(left),
            operator: binary_operator(token.token_type),
            token,
            right: Box::new(right),
        },
    }
}

/// `primary`: a literal, a variable, or an expression in parentheses.
pub open spec fn primary(tokens: Seq<Token>, pos: int) -> Parsed<Expr>
    decreases remaining(tokens, pos), 1nat,
{
    let token = tokens[pos];
    if holds(tokens, pos, TokenType::False) {
        (Ok(Expr::Literal { value: Value::Boolean(false) }), pos + 1)
    } else if holds(tokens, pos, TokenType::True) {
        (Ok(Expr::Literal { value: Value::Boolean(true) }), pos + 1)
    } else if holds(tokens, pos, TokenType::Nil) {
        (Ok(Expr::Literal { value: Value::Nil }), pos + 1)
    } else if holds(tokens, pos, TokenType::String) {
        match token.literal {
            Some(LiteralValue::Text(text)) => (
                Ok(Expr::Literal { value: Value::Text(text) }),
                pos + 1,
            ),
            _ => (Err(error_at(ParseErrorKind::MissingLiteral, tokens[pos + 1])), pos + 1),
        }
    } else if holds(tokens, pos, TokenType::Number) {
        match token.literal {
            Some(LiteralValue::Number(bits)) => (
                Ok(Expr::Literal { value: Value::Number(bits) }),
                pos + 1,
            ),
            _ => (Err(error_at(ParseErrorKind::MissingLiteral, tokens[pos + 1])), pos + 1),
        }
    } else if holds(tokens, pos, TokenType::Identifier) {
        (Ok(Expr::Variable { name: token }), pos + 1)
    } else if holds(tokens, pos, TokenType::LeftParen) {
        let (inner, end) = expression(tokens, pos + 1);
        match inner {
            Ok(expr) => {
                let (closing, after) = consume(tokens, end, TokenType::RightParen);
                match closing {
                    Ok(_) => (Ok(Expr::Grouping { expression: Box::new(expr) }), after),
                    Err(error) => (Err(error), after),
                }
            },
            Err(error) => (Err(error), end),
        }
    } else {
        (Err(error_at(ParseErrorKind::ExpectedExpression, token)), pos)
    }
}

/// `unary`: any number of `!` and `-`, then a primary.
pub open spec fn unary(tokens: Seq<Token>, pos: int) -> Parsed<Expr>
    decreases remaining(tokens, pos), 2nat,
{
    if holds(tokens, pos, TokenType::Bang) || holds(tokens, pos, TokenType::Minus) {
        let (operand, end) = unary(tokens, pos + 1);
        match operand {
            Ok(right) => (
                Ok(
                    Expr::Unary {
                        operator: if tokens[pos].token_type == TokenType::Bang {
                            UnaryOp::Bang
                        } else {
                            UnaryOp::Minus
                        },
                        token: tokens[pos],
                        right: Box::new(right),
                    },
                ),
                end,
            ),
            Err(error) => (Err(error), end),
        }
    } else {
        primary(tokens, pos)
    }
}

/// One operand of the operators of a level: a chain of the next tighter
/// level, or a unary expression for the tightest.
pub open spec fn operand(tokens: Seq<Token>, pos: int, level: Level) -> Parsed<Expr>
    decreases remaining(tokens, pos), 2 * tighter(level) + 3,
{
    match level {
        Level::Or => chain(tokens, pos, Level::And),
        Level::And => chain(tokens, pos, Level::Equality),
        Level::Equality => chain(tokens, pos, Level::Comparison),
        Level::Comparison => chain(tokens, pos, Level::Term),
        Level::Term => chain(tokens, pos, Level::Factor),
        Level::Factor => unary(tokens, pos),
    }
}

/// The operands of a level joined by its operators, grouped from the left.
pub open spec fn chain(tokens: Seq<Token>, pos: int, level: Level) -> Parsed<Expr>
    decreases remaining(tokens, pos), 2 * tighter(level) + 4,
{
    let (first, end) = operand(tokens, pos, level);
    match first {
        Ok(left) => chain_rest(tokens, onward(pos, end), level, left),
        Err(error) => (Err(error), end),
    }
}

/// What follows the operands read so far, which make up `left`: further
/// operators of the level, each with its operand.
pub open spec fn chain_rest(tokens: Seq<Token>, pos: int, level: Level, left: Expr) -> Parsed<
    Expr,
>
    decreases remaining(tokens, pos), 0nat,
{
    if !at_end(tokens, pos) && joins(level, tokens[pos].token_type) {
        let (next, end) = operand(tokens, pos + 1, level);
        match next {
            Ok(right) => chain_rest(
                tokens,
                onward(pos + 1, end),
                level,
                joined(level, left, tokens[pos], right),
            ),
            Err(error) => (Err(error), end),
        }
    } else {
        (Ok(left), pos)
    }
}

/// `assignment`: a chain of the loosest level; where `=` follows it, the
/// chain has to be a plain variable, and what follows `=` is assigned to it.
pub open spec fn assignment(tokens: Seq<Token>, pos: int) -> Parsed<Expr>
    decreases remaining(tokens, pos), 20nat,
{
    let (first, end) = chain(tokens, pos, Level::Or);
    match first {
        Ok(target) => {
            let equals = onward(pos, end);
            if holds(tokens, equals, TokenType::Equal) {
                let (second, after) = assignment(tokens, equals + 1);
                match second {
                    Ok(value) => match target {
                        Expr::Variable { name } => (
                            Ok(Expr::Assign { name, value: Box::new(value) }),
                            after,
                        ),
                        _ => (
                            Err(
                                error_at(
                                    ParseErrorKind::InvalidAssignmentTarget,
                                    tokens[equals],
                                ),
                            ),
                            after,
                        ),
                    },
                    Err(error) => (Err(error), after),
                }
            } else {
                (Ok(target), equals)
            }
        },
        Err(error) => (Err(error), end),
    }
}

/// `expression`.
pub open spec fn expression(tokens: Seq<Token>, pos: int) -> Parsed<Expr>
    decreases remaining(tokens, pos), 21nat,
{
    assignment(tokens, pos)
}

/// `expression ";"`
pub open spec fn expression_statement(tokens: Seq<Token>, pos: int) -> Parsed<StmtView>
    decreases remaining(tokens, pos), 22nat,
{
    let (value, end) = expression(tokens, pos);
    match value {
        Ok(expr) => {
            let (semicolon, after) = consume(tokens, end, TokenType::Semicolon);
            match semicolon {
                Ok(_) => (Ok(StmtView::Expression(expr)), after),
                Err(error) => (Err(error), after),
            }
        },
        Err(error) => (Err(error), end),
    }
}

/// What follows `print`: `expression ";"`
pub open spec fn print_statement(tokens: Seq<Token>, pos: int) -> Parsed<StmtView>
    decreases remaining(tokens, pos), 26nat,
{
    let (value, end) = expression(tokens, pos);
    match value {
        Ok(expr) => {
            let (semicolon, after) = consume(tokens, end, TokenType::Semicolon);
            match semicolon {
                Ok(_) => (Ok(StmtView::Print(expr)), after),
                Err(error) => (Err(error), after),
            }
        },
        Err(error) => (Err(error), end),
    }
}

/// What follows `let`: `IDENT ("=" expression)? ";"`. Without an
/// initializer the statement holds the literal `nil` in its place.
pub open spec fn var_declaration(tokens: Seq<Token>, pos: int) -> Parsed<StmtView>
    decreases remaining(tokens, pos), 26nat,
{
    let (identifier, after_name) = consume(tokens, pos, TokenType::Identifier);
    match identifier {
        Ok(name) => {
            let (value, end) = if holds(tokens, after_name, TokenType::Equal) {
                expression(tokens, after_name + 1)
            } else {
                (Ok(Expr::Literal { value: Value::Nil }), after_name)
            };
            match value {
                Ok(initializer) => {
                    let (semicolon, after) = consume(tokens, end, TokenType::Semicolon);
                    match semicolon {
                        Ok(_) => (Ok(StmtView::Let { name, initializer }), after),
                        Err(error) => (Err(error), after),
                    }
                },
                Err(error) => (Err(error), end),
            }
        },
        Err(error) => (Err(error), after_name),
    }
}

/// The declarations of a block from `pos` up to its closing brace, behind
/// those read so far, which are `done`. The first fault ends the block.
pub open spec fn block_items(tokens: Seq<Token>, pos: int, done: Seq<StmtView>) -> Parsed<
    Seq<StmtView>,
>
    decreases remaining(tokens, pos), 25nat,
{
    if !holds(tokens, pos, TokenType::RightBrace) && !at_end(tokens, pos) {
        let (next, end) = declaration(tokens, pos);
        match next {
            Ok(statement) => block_items(tokens, onward(pos + 1, end), done.push(statement)),
            Err(error) => (Err(error), end),
        }
    } else {
        (Ok(done), pos)
    }
}

/// What follows `{`: `declaration* "}"`
pub open spec fn block(tokens: Seq<Token>, pos: int) -> Parsed<StmtView>
    decreases remaining(tokens, pos), 26nat,
{
    let (body, end) = block_items(tokens, pos, Seq::empty());
    match body {
        Ok(statements) => {
            let (brace, after) = consume(tokens, end, TokenType::RightBrace);
            match brace {
                Ok(_) => (Ok(StmtView::Block { statements }), after),
                Err(error) => (Err(error), after),
            }
        },
        Err(error) => (Err(error), end),
    }
}

/// What follows `if`: `expression statement ("else" statement)?`
pub open spec fn if_statement(tokens: Seq<Token>, pos: int) -> Parsed<StmtView>
    decreases remaining(tokens, pos), 26nat,
{
    let (test, end) = expression(tokens, pos);
    match test {
        Ok(condition) => {
            let (first, middle) = statement(tokens, onward(pos, end));
            match first {
                Ok(then_branch) => {
                    let at = onward(pos, middle);
                    if holds(tokens, at, TokenType::Else) {
                        let (second, after) = statement(tokens, at + 1);
                        match second {
                            Ok(else_branch) => (
                                Ok(
                                    StmtView::If {
                                        condition,
                                        then_branch: Box::new(then_branch),
                                        else_branch: Some(Box::new(else_branch)),
                                    },
                                ),
                                after,
                            ),
                            Err(error) => (Err(error), after),
                        }
                    } else {
                        (
                            Ok(
                                StmtView::If {
                                    condition,
                                    then_branch: Box::new(then_branch),
                                    else_branch: None,
                                },
                            ),
                            at,
                        )
                    }
                },
                Err(error) => (Err(error), middle),
            }
        },
        Err(error) => (Err(error), end),
    }
}

/// `statement`: told by its first token.
pub open spec fn statement(tokens: Seq<Token>, pos: int) -> Parsed<StmtView>
    decreases remaining(tokens, pos), 23nat,
{
    if holds(tokens, pos, TokenType::Print) {
        print_statement(tokens, pos + 1)
    } else if holds(tokens, pos, TokenType::LeftBrace) {
        block(tokens, pos + 1)
    } else if holds(tokens, pos, TokenType::If) {
        if_statement(tokens, pos + 1)
    } else {
        expression_statement(tokens, pos)
    }
}

/// `declaration`. After a fault the position is the one at which reading
/// is taken up again.
pub open spec fn declaration(tokens: Seq<Token>, pos: int) -> Parsed<StmtView>
    decreases remaining(tokens, pos), 24nat,
{
    let (parsed, end) = if holds(tokens, pos, TokenType::Let) {
        var_declaration(tokens, pos + 1)
    } else {
        statement(tokens, pos)
    };
    match parsed {
        Ok(found) => (Ok(found), end),
        Err(error) => (Err(error), synchronize(tokens, end)),
    }
}

/// Whether a token of this type begins a declaration or a statement.
pub open spec fn begins_statement(token_type: TokenType) -> bool {
    ||| token_type == TokenType::Class
    ||| token_type == TokenType::Fun
    ||| token_type == TokenType::Let
    ||| token_type == TokenType::For
    ||| token_type == TokenType::If
    ||| token_type == TokenType::While
    ||| token_type == TokenType::Print
    ||| token_type == TokenType::Return
}

/// Whether `pos` is a place to take up reading: the end, the position
/// behind a semicolon, or a token that begins a statement.
pub open spec fn boundary(tokens: Seq<Token>, pos: int) -> bool {
    ||| at_end(tokens, pos)
    ||| (pos > 0 && tokens[pos - 1].token_type == TokenType::Semicolon)
    ||| begins_statement(tokens[pos].token_type)
}

/// The first boundary at or behind `pos`.
pub open spec fn next_boundary(tokens: Seq<Token>, pos: int) -> int
    decreases remaining(tokens, pos),
{
    if boundary(tokens, pos) {
        pos
    } else {
        next_boundary(tokens, pos + 1)
    }
}

/// Where reading is taken up after a fault at `pos`: the token there is
/// given up, and so is every token up to the next boundary.
pub open spec fn synchronize(tokens: Seq<Token>, pos: int) -> int {
    next_boundary(tokens, step(tokens, pos))
}

/// The statements and the faults of the declarations from `pos` to the
/// end, behind those found so far.
pub open spec fn program_from(
    tokens: Seq<Token>,
    pos: int,
    statements: Seq<StmtView>,
    errors: Seq<ParseError>,
) -> (Seq<StmtView>, Seq<ParseError>)
    decreases remaining(tokens, pos),
{
    if at_end(tokens, pos) {
        (statements, errors)
    } else {
        let (next, end) = declaration(tokens, pos);
        match next {
            Ok(statement) => program_from(
                tokens,
                onward(pos + 1, end),
                statements.push(statement),
                errors,
            ),
            Err(error) => program_from(
                tokens,
                onward(pos + 1, end),
                statements,
                errors.push(error),
            ),
        }
    }
}

/// `program`: the statements of the declarations that are well formed, in
/// order, and one fault for each of the others.
pub open spec fn program(tokens: Seq<Token>) -> (Seq<StmtView>, Seq<ParseError>) {
    program_from(tokens, 0, Seq::empty(), Seq::empty())
}

/// The next boundary lies at or behind `pos`, it is a boundary, and no
/// position between `pos` and it is one.
pub proof fn lemma_next_boundary(tokens: Seq<Token>, pos: int)
    ensures
        next_boundary(tokens, pos) >= pos,
        boundary(tokens, next_boundary(tokens, pos)),
        forall|between: int|
            pos <= between < next_boundary(tokens, pos) ==> !boundary(tokens, between),
    decreases remaining(tokens, pos),
{
    if !boundary(tokens, pos) {
        lemma_next_boundary(tokens, pos + 1);
    }
}

/// After a fault, reading is never taken up before the fault, and behind
/// it unless the fault lies at the end.
pub proof fn lemma_synchronize_forward(tokens: Seq<Token>, pos: int)
    ensures
        synchronize(tokens, pos) >= pos,
        !at_end(tokens, pos) ==> synchronize(tokens, pos) > pos,
        boundary(tokens, synchronize(tokens, pos)),
{
    lemma_next_boundary(tokens, step(tokens, pos));
}

/// A primary never ends before where it began.
pub proof fn lemma_primary_forward(tokens: Seq<Token>, pos: int)
    ensures
        primary(tokens, pos).1 >= pos,
    decreases remaining(tokens, pos), 1nat,
{
    if holds(tokens, pos, TokenType::LeftParen) {
        lemma_expression_forward(tokens, pos + 1);
    }
}

/// A unary expression never ends before where it began.
pub proof fn lemma_unary_forward(tokens: Seq<Token>, pos: int)
    ensures
        unary(tokens, pos).1 >= pos,
    decreases remaining(tokens, pos), 2nat,
{
    if holds(tokens, pos, TokenType::Bang) || holds(tokens, pos, TokenType::Minus) {
        lemma_unary_forward(tokens, pos + 1);
    } else {
        lemma_primary_forward(tokens, pos);
    }
}

/// An operand never ends before where it began.
pub proof fn lemma_operand_forward(tokens: Seq<Token>, pos: int, level: Level)
    ensures
        operand(tokens, pos, level).1 >= pos,
    decreases remaining(tokens, pos), 2 * tighter(level) + 3,
{
    match level {
        Level::Or => lemma_chain_forward(tokens, pos, Level::And),
        Level::And => lemma_chain_forward(tokens, pos, Level::Equality),
        Level::Equality => lemma_chain_forward(tokens, pos, Level::Comparison),
        Level::Comparison => lemma_chain_forward(tokens, pos, Level::Term),
        Level::Term => lemma_chain_forward(tokens, pos, Level::Factor),
        Level::Factor => lemma_unary_forward(tokens, pos),
    }
}

/// A chain never ends before where it began.
pub proof fn lemma_chain_forward(tokens: Seq<Token>, pos: int, level: Level)
    ensures
        chain(tokens, pos, level).1 >= pos,
    decreases remaining(tokens, pos), 2 * tighter(level) + 4,
{
    lemma_operand_forward(tokens, pos, level);
    let (first, end) = operand(tokens, pos, level);
    if let Ok(left) = first {
        lemma_chain_rest_forward(tokens, end, level, left);
    }
}

/// The rest of a chain never ends before where it began.
pub proof fn lemma_chain_rest_forward(tokens: Seq<Token>, pos: int, level: Level, left: Expr)
    ensures
        chain_rest(tokens, pos, level, left).1 >= pos,
    decreases remaining(tokens, pos), 0nat,
{
    if !at_end(tokens, pos) && joins(level, tokens[pos].token_type) {
        lemma_operand_forward(tokens, pos + 1, level);
        let (next, end) = operand(tokens, pos + 1, level);
        if let Ok(right) = next {
            lemma_chain_rest_forward(tokens, end, level, joined(level, left, tokens[pos], right));
        }
    }
}

/// An assignment never ends before where it began.
pub proof fn lemma_assignment_forward(tokens: Seq<Token>, pos: int)
    ensures
        assignment(tokens, pos).1 >= pos,
    decreases remaining(tokens, pos), 20nat,
{
    lemma_chain_forward(tokens, pos, Level::Or);
    let (first, end) = chain(tokens, pos, Level::Or);
    if first is Ok && holds(tokens, end, TokenType::Equal) {
        lemma_assignment_forward(tokens, end + 1);
    }
}

/// An expression never ends before where it began.
pub proof fn lemma_expression_forward(tokens: Seq<Token>, pos: int)
    ensures
        expression(tokens, pos).1 >= pos,
    decreases remaining(tokens, pos), 21nat,
{
    lemma_assignment_forward(tokens, pos);
}

/// An expression statement never ends before where it began, and it ends
/// behind that where it is well formed.
pub proof fn lemma_expression_statement_forward(tokens: Seq<Token>, pos: int)
    ensures
        expression_statement(tokens, pos).1 >= pos,
        expression_statement(tokens, pos).0 is Ok ==> expression_statement(tokens, pos).1 > pos,
    decreases remaining(tokens, pos), 22nat,
{
    lemma_expression_forward(tokens, pos);
}

/// What follows `print` never ends before where it began.
pub proof fn lemma_print_statement_forward(tokens: Seq<Token>, pos: int)
    ensures
        print_statement(tokens, pos).1 >= pos,
    decreases remaining(tokens, pos), 26nat,
{
    lemma_expression_forward(tokens, pos);
}

/// What follows `let` never ends before where it began.
pub proof fn lemma_var_declaration_forward(tokens: Seq<Token>, pos: int)
    ensures
        var_declaration(tokens, pos).1 >= pos,
    decreases remaining(tokens, pos), 26nat,
{
    if holds(tokens, pos, TokenType::Identifier) && holds(tokens, pos + 1, TokenType::Equal) {
        lemma_expression_forward(tokens, pos + 2);
    }
}

/// The declarations of a block never end before where they began.
pub proof fn lemma_block_items_forward(tokens: Seq<Token>, pos: int, done: Seq<StmtView>)
    ensures
        block_items(tokens, pos, done).1 >= pos,
    decreases remaining(tokens, pos), 25nat,
{
    if !holds(tokens, pos, TokenType::RightBrace) && !at_end(tokens, pos) {
        lemma_declaration_forward(tokens, pos);
        let (next, end) = declaration(tokens, pos);
        if let Ok(statement) = next {
            lemma_block_items_forward(tokens, end, done.push(statement));
        }
    }
}

/// What follows `{` never ends before where it began.
pub proof fn lemma_block_forward(tokens: Seq<Token>, pos: int)
    ensures
        block(tokens, pos).1 >= pos,
    decreases remaining(tokens, pos), 26nat,
{
    lemma_block_items_forward(tokens, pos, Seq::empty());
}

/// What follows `if` never ends before where it began.
pub proof fn lemma_if_statement_forward(tokens: Seq<Token>, pos: int)
    ensures
        if_statement(tokens, pos).1 >= pos,
    decreases remaining(tokens, pos), 26nat,
{
    lemma_expression_forward(tokens, pos);
    let (test, end) = expression(tokens, pos);
    if test is Ok {
        lemma_statement_forward(tokens, end);
        let (first, middle) = statement(tokens, end);
        if first is Ok && holds(tokens, middle, TokenType::Else) {
            lemma_statement_forward(tokens, middle + 1);
        }
    }
}

/// A statement never ends before where it began, and it ends behind that
/// where it is well formed.
pub proof fn lemma_statement_forward(tokens: Seq<Token>, pos: int)
    ensures
        statement(tokens, pos).1 >= pos,
        statement(tokens, pos).0 is Ok ==> statement(tokens, pos).1 > pos,
    decreases remaining(tokens, pos), 23nat,
{
    if holds(tokens, pos, TokenType::Print) {
        lemma_print_statement_forward(tokens, pos + 1);
    } else if holds(tokens, pos, TokenType::LeftBrace) {
        lemma_block_forward(tokens, pos + 1);
    } else if holds(tokens, pos, TokenType::If) {
        lemma_if_statement_forward(tokens, pos + 1);
    } else {
        lemma_expression_statement_forward(tokens, pos);
    }
}

/// A declaration that does not begin at the end ends behind where it
/// began, well formed or not: every declaration uses up a token.
pub proof fn lemma_declaration_forward(tokens: Seq<Token>, pos: int)
    ensures
        declaration(tokens, pos).1 >= pos,
        !at_end(tokens, pos) ==> declaration(tokens, pos).1 > pos,
    decreases remaining(tokens, pos), 24nat,
{
    if holds(tokens, pos, TokenType::Let) {
        lemma_var_declaration_forward(tokens, pos + 1);
        lemma_synchronize_forward(tokens, var_declaration(tokens, pos + 1).1);
    } else {
        lemma_statement_forward(tokens, pos);
        lemma_synchronize_forward(tokens, statement(tokens, pos).1);
    }
}

/// The operators of a level group from the left, and each takes what the
/// next tighter level reads as its operands: a chain is its first operand,
/// carried on; behind an operator stands one operand, and the two sides,
/// joined, are carried on in their turn; where no operator of the level
/// stands, the chain ends.
pub proof fn lemma_chain_groups_left(tokens: Seq<Token>, pos: int, level: Level, left: Expr)
    ensures
        operand(tokens, pos, level) matches (Ok(first), end) ==> chain(tokens, pos, level)
            == chain_rest(tokens, end, level, first),
        !at_end(tokens, pos) && joins(level, tokens[pos].token_type) ==> (operand(
            tokens,
            pos + 1,
            level,
        ) matches (Ok(right), end) ==> chain_rest(tokens, pos, level, left) == chain_rest(
            tokens,
            end,
            level,
            joined(level, left, tokens[pos], right),
        )),
        !(!at_end(tokens, pos) && joins(level, tokens[pos].token_type)) ==> chain_rest(
            tokens,
            pos,
            level,
            left,
        ) == (Ok::<Expr, ParseError>(left), pos),
{
    lemma_operand_forward(tokens, pos, level);
    lemma_operand_forward(tokens, pos + 1, level);
}

/// The statements and faults of a program are those of its first
/// declaration, followed by those of the program behind it.
pub proof fn lemma_program_unfolds(
    tokens: Seq<Token>,
    pos: int,
    statements: Seq<StmtView>,
    errors: Seq<ParseError>,
)
    requires
        !at_end(tokens, pos),
    ensures
        program_from(tokens, pos, statements, errors) == match declaration(tokens, pos) {
            (Ok(statement), end) => program_from(tokens, end, statements.push(statement), errors),
            (Err(error), end) => program_from(tokens, end, statements, errors.push(error)),
        },
{
    lemma_declaration_forward(tokens, pos);
}

} // verus!
