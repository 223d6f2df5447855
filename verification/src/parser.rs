//! The recursive-descent parser: one method for each level of the grammar,
//! each proved to read what [`crate::grammar`] says stands at its position.

use vstd::prelude::*;
use crate::error::{ParseError, ParseErrorKind};
use crate::expr::{BinaryOp, Expr, LogicalOp, UnaryOp};
use crate::grammar::{
    assignment, at_end, binary_operator, block, block_items, chain, chain_rest, consume,
    declaration, error_at, expression, expression_statement, holds, holds_any, if_statement,
    joined, lemma_operators, next_boundary, onward, operand, operators, primary, print_statement,
    program_from, remaining, statement, step, synchronize, unary, var_declaration,
    well_terminated, Level,
};
use crate::stmt::{lemma_stmt_views, stmt_views, Stmt, StmtView};
use crate::token::{LiteralValue, Token, TokenType};
use crate::value::Value;

verus! {

/// A parser over a token stream, with the position that it has read up to.
pub struct Parser {
    tokens: Vec<Token>,
    current: usize,
}

/// The operator that an infix token of this type stands for.
fn operator_for(token_type: TokenType) -> (operator: BinaryOp)
    ensures
        operator == binary_operator(token_type),
{
    match token_type {
        TokenType::Minus => BinaryOp::Minus,
        TokenType::Plus => BinaryOp::Plus,
        TokenType::Slash => BinaryOp::Slash,
        TokenType::Star => BinaryOp::Star,
        TokenType::Greater => BinaryOp::Greater,
        TokenType::GreaterEqual => BinaryOp::GreaterEqual,
        TokenType::Less => BinaryOp::Less,
        TokenType::LessEqual => BinaryOp::LessEqual,
        TokenType::EqualEqual => BinaryOp::EqualEqual,
        _ => BinaryOp::BangEqual,
    }
}

/// The fault of the given kind at `token`.
fn fault(kind: ParseErrorKind, token: &Token) -> (error: ParseError)
    ensures
        error == error_at(kind, *token),
{
    ParseError { kind, line_number: token.line_number, lexeme: token.lexeme.clone() }
}

/// The outcome of parsing a statement, with the statement taken by its view.
pub open spec fn stmt_outcome(parsed: Result<Stmt, ParseError>) -> Result<StmtView, ParseError> {
    match parsed {
        Ok(statement) => Ok(statement@),
        Err(error) => Err(error),
    }
}

/// The views of a list grow with the list.
proof fn lemma_push_view(statements: Seq<Stmt>, statement: Stmt)
    ensures
        stmt_views(statements.push(statement)) == stmt_views(statements).push(statement@),
{
    lemma_stmt_views(statements);
    lemma_stmt_views(statements.push(statement));
}

/// One step along a chain: where an operator of the level stands, its
/// operand follows and the two sides are carried on as one; else the chain
/// ends.
proof fn lemma_chain_step(
    tokens: Seq<Token>,
    pos: int,
    level: Level,
    left: Expr,
    token_types: Seq<TokenType>,
)
    requires
        token_types =~= operators(level),
    ensures
        chain_rest(tokens, pos, level, left) == if holds_any(tokens, pos, token_types) {
            match operand(tokens, pos + 1, level) {
                (Ok(right), end) => chain_rest(
                    tokens,
                    onward(pos + 1, end),
                    level,
                    joined(level, left, tokens[pos], right),
                ),
                (Err(error), end) => (Err(error), end),
            }
        } else {
            (Ok(left), pos)
        },
{
    lemma_operators(tokens, pos, level);
}

impl Parser {
    /// The tokens that the parser reads.
    pub closed spec fn tokens(&self) -> Seq<Token> {
        self.tokens@
    }

    /// The index of the token that is read next.
    pub closed spec fn position(&self) -> int {
        self.current as int
    }

    /// Whether the stream ends with the end marker and the position lies in it.
    pub closed spec fn wf(&self) -> bool {
        &&& well_terminated(self.tokens@)
        &&& self.current < self.tokens.len()
    }

    /// Whether `tokens` can be parsed: whether they end with the end marker.
    pub fn accepts(tokens: &Vec<Token>) -> (accepted: bool)
        ensures
            accepted == well_terminated(tokens@),
    {
        tokens.len() > 0 && tokens[tokens.len() - 1].token_type == TokenType::Eof
    }

    /// Whether the parser reads the stream that `before` read, at a position
    /// that is not before the one of `before`.
    spec fn continues(&self, before: &Parser) -> bool {
        &&& self.wf()
        &&& self.tokens@ == before.tokens@
        &&& self.current >= before.current
    }

    /// A parser at the start of `tokens`.
    pub fn new(tokens: Vec<Token>) -> (parser: Self)
        requires
            well_terminated(tokens@),
        ensures
            parser.wf(),
            parser.tokens() == tokens@,
            parser.position() == 0,
    {
        Self { tokens, current: 0 }
    }

    /// Parses the rest of the stream: the statements of the declarations
    /// that are well formed, in order, and one fault for each of the others.
    /// After a fault, reading is taken up at the next statement boundary.
    pub fn parse(&mut self) -> (parsed: (Vec<Stmt>, Vec<ParseError>))
        requires
            old(self).wf(),
        ensures
            final(self).wf(),
            final(self).tokens() == old(self).tokens(),
            at_end(final(self).tokens(), final(self).position()),
            (stmt_views(parsed.0@), parsed.1@) == program_from(
                old(self).tokens(),
                old(self).position(),
                Seq::empty(),
                Seq::empty(),
            ),
    {
        let mut statements: Vec<Stmt> = Vec::new();
        let mut errors: Vec<ParseError> = Vec::new();
        while !self.is_at_end()
            invariant
                self.wf(),
                self.tokens@ == old(self).tokens@,
                program_from(
                    self.tokens@,
                    self.current as int,
                    stmt_views(statements@),
                    errors@,
                ) == program_from(
                    old(self).tokens@,
                    old(self).current as int,
                    Seq::empty(),
                    Seq::empty(),
                ),
            decreases remaining(self.tokens@, self.current as int),
        {
            match self.declaration() {
                Ok(found) => {
                    proof {
                        lemma_push_view(statements@, found);
                    }
                    statements.push(found);
                },
                Err(error) => {
                    errors.push(error);
                },
            }
        }
        (statements, errors)
    }

    /// `declaration -> "let" IDENT ("=" expression)? ";" | statement`; after a
    /// fault the parser stands where reading is taken up again.
    fn declaration(&mut self) -> (parsed: Result<Stmt, ParseError>)
        requires
            old(self).wf(),
        ensures
            final(self).continues(old(self)),
            !at_end(old(self).tokens@, old(self).current as int) ==> final(self).current > old(
                self,
            ).current,
            (stmt_outcome(parsed), final(self).current as int) == declaration(
                old(self).tokens@,
                old(self).current as int,
            ),
        decreases remaining(old(self).tokens@, old(self).current as int), 24nat,
    {
        if self.match_tokens(&[TokenType::Let]) {
            match self.var_declaration() {
                Ok(found) => {
                    return Ok(found);
                },
                Err(error) => {
                    self.synchronize();
                    return Err(error);
                },
            }
        }
        match self.statement() {
            Ok(found) => Ok(found),
            Err(error) => {
                self.synchronize();
                Err(error)
            },
        }
    }

    /// What follows `let`: `IDENT ("=" expression)? ";"`
    fn var_declaration(&mut self) -> (parsed: Result<Stmt, ParseError>)
        requires
            old(self).wf(),
        ensures
            final(self).continues(old(self)),
            parsed is Ok ==> final(self).current > old(self).current,
            (stmt_outcome(parsed), final(self).current as int) == var_declaration(
                old(self).tokens@,
                old(self).current as int,
            ),
        decreases remaining(old(self).tokens@, old(self).current as int), 26nat,
    {
        let name = self.consume(TokenType::Identifier)?;
        let mut initializer = Expr::Literal { value: Value::Nil };
        if self.match_tokens(&[TokenType::Equal]) {
            initializer = self.expression()?;
        }
        let _ = self.consume(TokenType::Semicolon)?;
        Ok(Stmt::Let { name, initializer })
    }

    /// `statement -> printStmt | block | ifStmt | exprStmt`
    fn statement(&mut self) -> (parsed: Result<Stmt, ParseError>)
        requires
            old(self).wf(),
        ensures
            final(self).continues(old(self)),
            parsed is Ok ==> final(self).current > old(self).current,
            (stmt_outcome(parsed), final(self).current as int) == statement(
                old(self).tokens@,
                old(self).current as int,
            ),
        decreases remaining(old(self).tokens@, old(self).current as int), 23nat,
    {
        if self.match_tokens(&[TokenType::Print]) {
            self.print_statement()
        } else if self.match_tokens(&[TokenType::LeftBrace]) {
            self.block()
        } else if self.match_tokens(&[TokenType::If]) {
            self.if_statement()
        } else {
            self.expression_statement()
        }
    }

    /// What follows `print`: `expression ";"`
    fn print_statement(&mut self) -> (parsed: Result<Stmt, ParseError>)
        requires
            old(self).wf(),
        ensures
            final(self).continues(old(self)),
            parsed is Ok ==> final(self).current > old(self).current,
            (stmt_outcome(parsed), final(self).current as int) == print_statement(
                old(self).tokens@,
                old(self).current as int,
            ),
        decreases remaining(old(self).tokens@, old(self).current as int), 26nat,
    {
        let expr = self.expression()?;
        let _ = self.consume(TokenType::Semicolon)?;
        Ok(Stmt::Print(expr))
    }

    /// `exprStmt -> expression ";"`
    fn expression_statement(&mut self) -> (parsed: Result<Stmt, ParseError>)
        requires
            old(self).wf(),
        ensures
            final(self).continues(old(self)),
            parsed is Ok ==> final(self).current > old(self).current,
            (stmt_outcome(parsed), final(self).current as int) == expression_statement(
                old(self).tokens@,
                old(self).current as int,
            ),
        decreases remaining(old(self).tokens@, old(self).current as int), 22nat,
    {
        let expr = self.expression()?;
        let _ = self.consume(TokenType::Semicolon)?;
        Ok(Stmt::Expression(expr))
    }

    /// What follows `if`: `expression statement ("else" statement)?`
    fn if_statement(&mut self) -> (parsed: Result<Stmt, ParseError>)
        requires
            old(self).wf(),
        ensures
            final(self).continues(old(self)),
            (stmt_outcome(parsed), final(self).current as int) == if_statement(
                old(self).tokens@,
                old(self).current as int,
            ),
        decreases remaining(old(self).tokens@, old(self).current as int), 26nat,
    {
        let condition = self.expression()?;
        let then_branch = self.statement()?;
        if self.match_tokens(&[TokenType::Else]) {
            let else_branch = self.statement()?;
            return Ok(
                Stmt::If {
                    condition,
                    then_branch: Box::new(then_branch),
                    else_branch: Some(Box::new(else_branch)),
                },
            );
        }
        Ok(Stmt::If { condition, then_branch: Box::new(then_branch), else_branch: None })
    }

    /// What follows `{`: `declaration* "}"`
    fn block(&mut self) -> (parsed: Result<Stmt, ParseError>)
        requires
            old(self).wf(),
        ensures
            final(self).continues(old(self)),
            parsed is Ok ==> final(self).current > old(self).current,
            (stmt_outcome(parsed), final(self).current as int) == block(
                old(self).tokens@,
                old(self).current as int,
            ),
        decreases remaining(old(self).tokens@, old(self).current as int), 26nat,
    {
        let mut statements: Vec<Stmt> = Vec::new();
        // The end is tested too, for a closing brace that was forgotten.
        while !self.check(TokenType::RightBrace) && !self.is_at_end()
            invariant
                self.continues(old(self)),
                block_items(self.tokens@, self.current as int, stmt_views(statements@))
                    == block_items(
                    old(self).tokens@,
                    old(self).current as int,
                    Seq::<StmtView>::empty(),
                ),
            decreases remaining(self.tokens@, self.current as int),
        {
            let found = self.declaration()?;
            proof {
                lemma_push_view(statements@, found);
            }
            statements.push(found);
        }
        let _ = self.consume(TokenType::RightBrace)?;
        Ok(Stmt::Block { statements })
    }

    /// Whether the end marker is the token to read next.
    fn is_at_end(&self) -> (end: bool)
        requires
            self.wf(),
        ensures
            end == at_end(self.tokens@, self.current as int),
    {
        self.tokens[self.current].token_type == TokenType::Eof
    }

    /// The token to read next.
    fn peek(&self) -> (token: &Token)
        requires
            self.wf(),
        ensures
            *token == self.tokens@[self.current as int],
    {
        &self.tokens[self.current]
    }

    /// The token that was read last.
    fn previous(&self) -> (token: &Token)
        requires
            self.wf(),
            self.current > 0,
        ensures
            *token == self.tokens@[self.current - 1],
    {
        &self.tokens[self.current - 1]
    }

    /// Passes the token to read next, unless it is the end marker.
    fn advance(&mut self)
        requires
            old(self).wf(),
        ensures
            final(self).wf(),
            final(self).tokens@ == old(self).tokens@,
            final(self).current == step(old(self).tokens@, old(self).current as int),
    {
        if !self.is_at_end() {
            self.current += 1;
        }
    }

    /// Whether a token of the given type is the one to read next.
    fn check(&self, token_type: TokenType) -> (found: bool)
        requires
            self.wf(),
        ensures
            found == holds(self.tokens@, self.current as int, token_type),
    {
        if self.is_at_end() {
            return false;
        }
        self.peek().token_type == token_type
    }

    /// Passes the token to read next where it is of one of the given types.
    fn match_tokens(&mut self, token_types: &[TokenType]) -> (matched: bool)
        requires
            old(self).wf(),
        ensures
            final(self).wf(),
            final(self).tokens@ == old(self).tokens@,
            matched == holds_any(old(self).tokens@, old(self).current as int, token_types@),
            final(self).current == if matched {
                old(self).current + 1
            } else {
                old(self).current as int
            },
    {
        let mut index: usize = 0;
        while index < token_types.len()
            invariant
                *self == *old(self),
                self.wf(),
                forall|before: int|
                    0 <= before < index ==> !holds(
                        self.tokens@,
                        self.current as int,
                        #[trigger] token_types@[before],
                    ),
            decreases token_types.len() - index,
        {
            if self.check(token_types[index]) {
                self.advance();
                return true;
            }
            index += 1;
        }
        false
    }

    /// Reads the token to read next where it is of the given type.
    fn consume(&mut self, token_type: TokenType) -> (parsed: Result<Token, ParseError>)
        requires
            old(self).wf(),
        ensures
            final(self).continues(old(self)),
            (parsed, final(self).current as int) == consume(
                old(self).tokens@,
                old(self).current as int,
                token_type,
            ),
    {
        if self.check(token_type) {
            self.advance();
            Ok(self.previous().clone())
        } else {
            Err(fault(ParseErrorKind::UnexpectedToken, self.peek()))
        }
    }

    /// Gives up the token at which a fault was found and every token
    /// behind it up to the next place to take up reading.
    fn synchronize(&mut self)
        requires
            old(self).wf(),
        ensures
            final(self).continues(old(self)),
            !at_end(old(self).tokens@, old(self).current as int) ==> final(self).current > old(
                self,
            ).current,
            final(self).current == synchronize(old(self).tokens@, old(self).current as int),
    {
        self.advance();
        while !self.is_at_end()
            invariant
                self.wf(),
                self.tokens@ == old(self).tokens@,
                self.current >= step(old(self).tokens@, old(self).current as int),
                self.current > 0 || at_end(self.tokens@, self.current as int),
                next_boundary(self.tokens@, self.current as int) == synchronize(
                    old(self).tokens@,
                    old(self).current as int,
                ),
            decreases self.tokens.len() - self.current,
        {
            if self.previous().token_type == TokenType::Semicolon {
                return ;
            }
            match self.peek().token_type {
                TokenType::Class
                | TokenType::Fun
                | TokenType::Let
                | TokenType::For
                | TokenType::If
                | TokenType::While
                | TokenType::Print
                | TokenType::Return => {
                    return ;
                },
                _ => {
                    self.advance();
                },
            }
        }
    }

    /// `primary -> NUMBER | STRING | "true" | "false" | "nil" | IDENT | "(" expression ")"`
    fn primary(&mut self) -> (parsed: Result<Expr, ParseError>)
        requires
            old(self).wf(),
        ensures
            final(self).continues(old(self)),
            (parsed, final(self).current as int) == primary(
                old(self).tokens@,
                old(self).current as int,
            ),
        decreases remaining(old(self).tokens@, old(self).current as int), 1nat,
    {
        if self.match_tokens(&[TokenType::False]) {
            Ok(Expr::Literal { value: Value::Boolean(false) })
        } else if self.match_tokens(&[TokenType::True]) {
            Ok(Expr::Literal { value: Value::Boolean(true) })
        } else if self.match_tokens(&[TokenType::Nil]) {
            Ok(Expr::Literal { value: Value::Nil })
        } else if self.match_tokens(&[TokenType::String]) {
            match &self.previous().literal {
                Some(LiteralValue::Text(text)) => Ok(
                    Expr::Literal { value: Value::Text(text.clone()) },
                ),
                _ => Err(fault(ParseErrorKind::MissingLiteral, self.peek())),
            }
        } else if self.match_tokens(&[TokenType::Number]) {
            match &self.previous().literal {
                Some(LiteralValue::Number(bits)) => Ok(
                    Expr::Literal { value: Value::Number(*bits) },
                ),
                _ => Err(fault(ParseErrorKind::MissingLiteral, self.peek())),
            }
        } else if self.match_tokens(&[TokenType::Identifier]) {
            Ok(Expr::Variable { name: self.previous().clone() })
        } else if self.match_tokens(&[TokenType::LeftParen]) {
            let expr = self.expression()?;
            let _ = self.consume(TokenType::RightParen)?;
            Ok(Expr::Grouping { expression: Box::new(expr) })
        } else {
            Err(fault(ParseErrorKind::ExpectedExpression, self.peek()))
        }
    }

    /// `assignment -> IDENT "=" assignment | logic_or`
    fn assignment(&mut self) -> (parsed: Result<Expr, ParseError>)
        requires
            old(self).wf(),
        ensures
            final(self).continues(old(self)),
            (parsed, final(self).current as int) == assignment(
                old(self).tokens@,
                old(self).current as int,
            ),
        decreases remaining(old(self).tokens@, old(self).current as int), 20nat,
    {
        let expr = self.logic_or()?;
        if self.match_tokens(&[TokenType::Equal]) {
            let equals = self.previous().clone();
            let value = self.assignment()?;
            return match expr {
                Expr::Variable { name } => Ok(Expr::Assign { name, value: Box::new(value) }),
                _ => Err(fault(ParseErrorKind::InvalidAssignmentTarget, &equals)),
            };
        }
        Ok(expr)
    }

    /// `logic_or -> logic_and ("or" logic_and)*`
    fn logic_or(&mut self) -> (parsed: Result<Expr, ParseError>)
        requires
            old(self).wf(),
        ensures
            final(self).continues(old(self)),
            (parsed, final(self).current as int) == chain(
                old(self).tokens@,
                old(self).current as int,
                Level::Or,
            ),
        decreases remaining(old(self).tokens@, old(self).current as int), 14nat,
    {
        let mut expr = self.logic_and()?;
        loop
            invariant
                self.continues(old(self)),
                chain_rest(self.tokens@, self.current as int, Level::Or, expr) == chain(
                    old(self).tokens@,
                    old(self).current as int,
                    Level::Or,
                ),
            ensures
                chain_rest(self.tokens@, self.current as int, Level::Or, expr) == (
                    Ok::<Expr, ParseError>(expr),
                    self.current as int,
                ),
            decreases remaining(self.tokens@, self.current as int),
        {
            let token_types = [TokenType::Or];
            proof {
                lemma_chain_step(
                    self.tokens@,
                    self.current as int,
                    Level::Or,
                    expr,
                    token_types@,
                );
            }
            if !self.match_tokens(&token_types) {
                break ;
            }
            let token = self.previous().clone();
            let right = self.logic_and()?;
            expr = Expr::Logical {
                left: Box::new(expr),
                operator: LogicalOp::Or,
                token,
                right: Box::new(right),
            };
        }
        Ok(expr)
    }

    /// `logic_and -> equality ("and" equality)*`
    fn logic_and(&mut self) -> (parsed: Result<Expr, ParseError>)
        requires
            old(self).wf(),
        ensures
            final(self).continues(old(self)),
            (parsed, final(self).current as int) == chain(
                old(self).tokens@,
                old(self).current as int,
                Level::And,
            ),
        decreases remaining(old(self).tokens@, old(self).current as int), 12nat,
    {
        let mut expr = self.equality()?;
        loop
            invariant
                self.continues(old(self)),
                chain_rest(self.tokens@, self.current as int, Level::And, expr) == chain(
                    old(self).tokens@,
                    old(self).current as int,
                    Level::And,
                ),
            ensures
                chain_rest(self.tokens@, self.current as int, Level::And, expr) == (
                    Ok::<Expr, ParseError>(expr),
                    self.current as int,
                ),
            decreases remaining(self.tokens@, self.current as int),
        {
            let token_types = [TokenType::And];
            proof {
                lemma_chain_step(
                    self.tokens@,
                    self.current as int,
                    Level::And,
                    expr,
                    token_types@,
                );
            }
            if !self.match_tokens(&token_types) {
                break ;
            }
            let token = self.previous().clone();
            let right = self.equality()?;
            expr = Expr::Logical {
                left: Box::new(expr),
                operator: LogicalOp::And,
                token,
                right: Box::new(right),
            };
        }
        Ok(expr)
    }

    /// `equality -> comparison (("!=" | "==") comparison)*`
    fn equality(&mut self) -> (parsed: Result<Expr, ParseError>)
        requires
            old(self).wf(),
        ensures
            final(self).continues(old(self)),
            (parsed, final(self).current as int) == chain(
                old(self).tokens@,
                old(self).current as int,
                Level::Equality,
            ),
        decreases remaining(old(self).tokens@, old(self).current as int), 10nat,
    {
        let mut expr = self.comparision()?;
        loop
            invariant
                self.continues(old(self)),
                chain_rest(self.tokens@, self.current as int, Level::Equality, expr) == chain(
                    old(self).tokens@,
                    old(self).current as int,
                    Level::Equality,
                ),
            ensures
                chain_rest(self.tokens@, self.current as int, Level::Equality, expr) == (
                    Ok::<Expr, ParseError>(expr),
                    self.current as int,
                ),
            decreases remaining(self.tokens@, self.current as int),
        {
            let token_types = [TokenType::BangEqual, TokenType::EqualEqual];
            proof {
                lemma_chain_step(
                    self.tokens@,
                    self.current as int,
                    Level::Equality,
                    expr,
                    token_types@,
                );
            }
            if !self.match_tokens(&token_types) {
                break ;
            }
            let token = self.previous().clone();
            let right = self.comparision()?;
            let operator = operator_for(token.token_type);
            expr = Expr::Binary { left: Box::new(expr), operator, token, right: Box::new(right) };
        }
        Ok(expr)
    }

    /// `comparison -> term ((">" | ">=" | "<" | "<=") term)*`
    fn comparision(&mut self) -> (parsed: Result<Expr, ParseError>)
        requires
            old(self).wf(),
        ensures
            final(self).continues(old(self)),
            (parsed, final(self).current as int) == chain(
                old(self).tokens@,
                old(self).current as int,
                Level::Comparison,
            ),
        decreases remaining(old(self).tokens@, old(self).current as int), 8nat,
    {
        let mut expr = self.term()?;
        loop
            invariant
                self.continues(old(self)),
                chain_rest(self.tokens@, self.current as int, Level::Comparison, expr) == chain(
                    old(self).tokens@,
                    old(self).current as int,
                    Level::Comparison,
                ),
            ensures
                chain_rest(self.tokens@, self.current as int, Level::Comparison, expr) == (
                    Ok::<Expr, ParseError>(expr),
                    self.current as int,
                ),
            decreases remaining(self.tokens@, self.current as int),
        {
            let token_types = [
                TokenType::Greater,
                TokenType::GreaterEqual,
                TokenType::Less,
                TokenType::LessEqual,
            ];
            proof {
                lemma_chain_step(
                    self.tokens@,
                    self.current as int,
                    Level::Comparison,
                    expr,
                    token_types@,
                );
            }
            if !self.match_tokens(&token_types) {
                break ;
            }
            let token = self.previous().clone();
            let right = self.term()?;
            let operator = operator_for(token.token_type);
            expr = Expr::Binary { left: Box::new(expr), operator, token, right: Box::new(right) };
        }
        Ok(expr)
    }

    /// `term -> factor (("-" | "+") factor)*`
    fn term(&mut self) -> (parsed: Result<Expr, ParseError>)
        requires
            old(self).wf(),
        ensures
            final(self).continues(old(self)),
            (parsed, final(self).current as int) == chain(
                old(self).tokens@,
                old(self).current as int,
                Level::Term,
            ),
        decreases remaining(old(self).tokens@, old(self).current as int), 6nat,
    {
        let mut expr = self.factor()?;
        loop
            invariant
                self.continues(old(self)),
                chain_rest(self.tokens@, self.current as int, Level::Term, expr) == chain(
                    old(self).tokens@,
                    old(self).current as int,
                    Level::Term,
                ),
            ensures
                chain_rest(self.tokens@, self.current as int, Level::Term, expr) == (
                    Ok::<Expr, ParseError>(expr),
                    self.current as int,
                ),
            decreases remaining(self.tokens@, self.current as int),
        {
            let token_types = [TokenType::Minus, TokenType::Plus];
            proof {
                lemma_chain_step(
                    self.tokens@,
                    self.current as int,
                    Level::Term,
                    expr,
                    token_types@,
                );
            }
            if !self.match_tokens(&token_types) {
                break ;
            }
            let token = self.previous().clone();
            let right = self.factor()?;
            let operator = operator_for(token.token_type);
            expr = Expr::Binary { left: Box::new(expr), operator, token, right: Box::new(right) };
        }
        Ok(expr)
    }

    /// `factor -> unary (("/" | "*") unary)*`
    fn factor(&mut self) -> (parsed: Result<Expr, ParseError>)
        requires
            old(self).wf(),
        ensures
            final(self).continues(old(self)),
            (parsed, final(self).current as int) == chain(
                old(self).tokens@,
                old(self).current as int,
                Level::Factor,
            ),
        decreases remaining(old(self).tokens@, old(self).current as int), 4nat,
    {
        let mut expr = self.unary()?;
        loop
            invariant
                self.continues(old(self)),
                chain_rest(self.tokens@, self.current as int, Level::Factor, expr) == chain(
                    old(self).tokens@,
                    old(self).current as int,
                    Level::Factor,
                ),
            ensures
                chain_rest(self.tokens@, self.current as int, Level::Factor, expr) == (
                    Ok::<Expr, ParseError>(expr),
                    self.current as int,
                ),
            decreases remaining(self.tokens@, self.current as int),
        {
            let token_types = [TokenType::Slash, TokenType::Star];
            proof {
                lemma_chain_step(
                    self.tokens@,
                    self.current as int,
                    Level::Factor,
                    expr,
                    token_types@,
                );
            }
            if !self.match_tokens(&token_types) {
                break ;
            }
            let token = self.previous().clone();
            let right = self.unary()?;
            let operator = operator_for(token.token_type);
            expr = Expr::Binary { left: Box::new(expr), operator, token, right: Box::new(right) };
        }
        Ok(expr)
    }

    /// `unary -> ("!" | "-") unary | primary`
    fn unary(&mut self) -> (parsed: Result<Expr, ParseError>)
        requires
            old(self).wf(),
        ensures
            final(self).continues(old(self)),
            (parsed, final(self).current as int) == unary(
                old(self).tokens@,
                old(self).current as int,
            ),
        decreases remaining(old(self).tokens@, old(self).current as int), 2nat,
    {
        if self.match_tokens(&[TokenType::Bang, TokenType::Minus]) {
            let token = self.previous().clone();
            let operator = if token.token_type == TokenType::Bang {
                UnaryOp::Bang
            } else {
                UnaryOp::Minus
            };
            let right = self.unary()?;
            return Ok(Expr::Unary { operator, token, right: Box::new(right) });
        }
        self.primary()
    }

    /// `expression -> assignment`
    fn expression(&mut self) -> (parsed: Result<Expr, ParseError>)
        requires
            old(self).wf(),
        ensures
            final(self).continues(old(self)),
            (parsed, final(self).current as int) == expression(
                old(self).tokens@,
                old(self).current as int,
            ),
        decreases remaining(old(self).tokens@, old(self).current as int), 21nat,
    {
        self.assignment()
    }
}

} // verus!
