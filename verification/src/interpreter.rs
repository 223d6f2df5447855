//! The interpreter: it walks the statement and expression trees and keeps
//! the scope chain and the printed values.

use vstd::prelude::*;
use vstd::string::StringExecFns;
use crate::environment::Environment;
use crate::error::{RuntimeError, RuntimeErrorKind};
use crate::expr::{BinaryOp, Expr, LogicalOp, UnaryOp};
use crate::number::{number_less, number_less_equal, number_negate, number_same, ArithOp};
use crate::semantics::{
    binary_value, evaluate, execute, run, type_error, unary_value, Arithmetic, Machine,
};
use crate::stmt::{lemma_stmt_views, stmt_views, Stmt};
use crate::token::Token;
use crate::value::{Value, ValueView};

verus! {

/// Whether `arithmetic` can be called on every operation and every pair of
/// patterns.
pub open spec fn callable<F: Fn(ArithOp, u64, u64) -> u64>(arithmetic: F) -> bool {
    forall|operation: ArithOp, left: u64, right: u64|
        call_requires(arithmetic, (operation, left, right))
}

/// Whether `arithmetic` computes `model`: whatever it returns for an
/// operation and two patterns is what `model` gives for them.
pub open spec fn computes<F: Fn(ArithOp, u64, u64) -> u64>(arithmetic: F, model: Arithmetic)
    -> bool {
    forall|operation: ArithOp, left: u64, right: u64, result: u64|
        call_ensures(arithmetic, (operation, left, right), result) ==> result == model(
            operation,
            left,
            right,
        )
}

/// The outcome of an evaluation with its value taken by its view.
pub open spec fn value_outcome(outcome: Result<Value, RuntimeError>) -> Result<
    ValueView,
    RuntimeError,
> {
    match outcome {
        Ok(value) => Ok(value@),
        Err(error) => Err(error),
    }
}

/// The views of printed values.
pub open spec fn views(values: Seq<Value>) -> Seq<ValueView> {
    values.map_values(|value: Value| value@)
}

/// An interpreter with its scope chain, the values it has printed, and the
/// arithmetic it was given. What it does is stated for every function that
/// the arithmetic computes.
pub struct Interpreter<F: Fn(ArithOp, u64, u64) -> u64> {
    environment: Environment,
    arithmetic: F,
    output: Vec<Value>,
}

impl<F: Fn(ArithOp, u64, u64) -> u64> Interpreter<F> {
    /// The scopes in reach and the values printed so far.
    pub closed spec fn machine(&self) -> Machine {
        Machine { scopes: self.environment@, output: views(self.output@) }
    }

    /// The arithmetic that the interpreter was given.
    pub closed spec fn arithmetic(&self) -> F {
        self.arithmetic
    }

    /// Whether the global scope is there and the arithmetic can be called.
    pub closed spec fn wf(&self) -> bool {
        &&& self.environment.wf()
        &&& callable(self.arithmetic)
    }

    /// An interpreter that has printed nothing and whose one scope, the
    /// global one, binds nothing.
    pub fn new(arithmetic: F) -> (interpreter: Self)
        requires
            callable(arithmetic),
        ensures
            interpreter.wf(),
            interpreter.arithmetic() == arithmetic,
            interpreter.machine() == (Machine {
                scopes: seq![Map::<Seq<char>, ValueView>::empty()],
                output: Seq::<ValueView>::empty(),
            }),
    {
        let interpreter = Interpreter {
            environment: Environment::new(),
            arithmetic,
            output: Vec::new(),
        };
        assert(views(interpreter.output@) =~= Seq::<ValueView>::empty());
        interpreter
    }

    /// The values printed so far, oldest first.
    pub fn output(&self) -> (printed: &Vec<Value>)
        ensures
            views(printed@) == self.machine().output,
    {
        &self.output
    }

    /// Asks the arithmetic for one result.
    fn compute(&self, operation: ArithOp, left: u64, right: u64) -> (result: u64)
        requires
            self.wf(),
        ensures
            forall|model: Arithmetic|
                computes(self.arithmetic(), model) ==> result == model(operation, left, right),
    {
        let arithmetic = &self.arithmetic;
        arithmetic(operation, left, right)
    }

    /// All is true but `nil` and `false`.
    pub fn is_truthy(&self, value: &Value) -> (result: bool)
        ensures
            result == crate::value::truthy(value@),
    {
        value.is_truthy()
    }

    /// The pattern of `operand` where it is a number.
    fn check_number_operand(&self, operand: &Value) -> (number: Option<u64>)
        ensures
            number == match operand@ {
                ValueView::Number(bits) => Some(bits),
                _ => None,
            },
    {
        match operand {
            Value::Number(bits) => Some(*bits),
            _ => None,
        }
    }

    /// The patterns of the two operands where both are numbers.
    fn check_number_operands(&self, left: &Value, right: &Value) -> (numbers: Option<(u64, u64)>)
        ensures
            numbers == match (left@, right@) {
                (ValueView::Number(a), ValueView::Number(b)) => Some((a, b)),
                _ => None,
            },
    {
        match self.check_number_operand(left) {
            Some(a) => match self.check_number_operand(right) {
                Some(b) => Some((a, b)),
                None => None,
            },
            None => None,
        }
    }

    /// Applies a prefix operator to the value of its operand.
    fn unary_operation(&self, operator: UnaryOp, token: &Token, operand: Value) -> (outcome:
        Result<Value, RuntimeError>)
        ensures
            value_outcome(outcome) == unary_value(operator, *token, operand@),
    {
        match operator {
            UnaryOp::Minus => match self.check_number_operand(&operand) {
                Some(bits) => Ok(Value::Number(number_negate(bits))),
                None => Err(type_error_at(token)),
            },
            UnaryOp::Bang => Ok(Value::Boolean(!self.is_truthy(&operand))),
        }
    }

    /// Applies an infix operator to the values of its operands.
    fn binary_operation(
        &self,
        operator: BinaryOp,
        token: &Token,
        left: Value,
        right: Value,
    ) -> (outcome: Result<Value, RuntimeError>)
        requires
            self.wf(),
        ensures
            forall|model: Arithmetic|
                computes(self.arithmetic(), model) ==> value_outcome(outcome) == binary_value(
                    model,
                    operator,
                    *token,
                    left@,
                    right@,
                ),
    {
        match operator {
            BinaryOp::EqualEqual => Ok(Value::Boolean(left.is_equal(&right))),
            BinaryOp::BangEqual => Ok(Value::Boolean(!left.is_equal(&right))),
            BinaryOp::Plus => match (left, right) {
                (Value::Number(a), Value::Number(b)) => Ok(
                    Value::Number(self.compute(ArithOp::Add, a, b)),
                ),
                (Value::Text(a), Value::Text(b)) => Ok(Value::Text(a.concat(b.as_str()))),
                _ => Err(type_error_at(token)),
            },
            _ => match self.check_number_operands(&left, &right) {
                Some((a, b)) => match operator {
                    BinaryOp::Minus => Ok(Value::Number(self.compute(ArithOp::Subtract, a, b))),
                    BinaryOp::Slash => Ok(Value::Number(self.compute(ArithOp::Divide, a, b))),
                    BinaryOp::Star => Ok(Value::Number(self.compute(ArithOp::Multiply, a, b))),
                    BinaryOp::Greater => Ok(Value::Boolean(number_less(b, a))),
                    BinaryOp::GreaterEqual => Ok(Value::Boolean(number_less_equal(b, a))),
                    BinaryOp::Less => Ok(Value::Boolean(number_less(a, b))),
                    _ => Ok(Value::Boolean(number_less_equal(a, b))),
                },
                None => Err(type_error_at(token)),
            },
        }
    }

    /// Runs the statements in order, up to the first fault. What was printed
    /// and assigned before a fault stays so; every block that was entered
    /// has been left again.
    pub fn interpreter(&mut self, statements: &Vec<Stmt>) -> (outcome: Result<(), RuntimeError>)
        requires
            old(self).wf(),
        ensures
            final(self).wf(),
            final(self).arithmetic() == old(self).arithmetic(),
            final(self).machine().scopes.len() == old(self).machine().scopes.len(),
            forall|model: Arithmetic|
                computes(old(self).arithmetic(), model) ==> (final(self).machine(), outcome)
                    == run(model, old(self).machine(), stmt_views(statements@), 0),
        decreases statements, 1nat,
    {
        let mut index: usize = 0;
        while index < statements.len()
            invariant
                index <= statements.len(),
                self.wf(),
                self.arithmetic() == old(self).arithmetic(),
                self.machine().scopes.len() == old(self).machine().scopes.len(),
                forall|model: Arithmetic|
                    computes(self.arithmetic(), model) ==> run(
                        model,
                        old(self).machine(),
                        stmt_views(statements@),
                        0,
                    ) == run(model, self.machine(), stmt_views(statements@), index as int),
            decreases statements.len() - index,
        {
            proof {
                lemma_stmt_views(statements@);
            }
            match self.execute(&statements[index]) {
                Ok(_) => {},
                Err(error) => {
                    return Err(error);
                },
            }
            index += 1;
        }
        proof {
            lemma_stmt_views(statements@);
        }
        Ok(())
    }

    /// Runs one statement.
    fn execute(&mut self, statement: &Stmt) -> (outcome: Result<(), RuntimeError>)
        requires
            old(self).wf(),
        ensures
            final(self).wf(),
            final(self).arithmetic() == old(self).arithmetic(),
            final(self).machine().scopes.len() == old(self).machine().scopes.len(),
            forall|model: Arithmetic|
                computes(old(self).arithmetic(), model) ==> (final(self).machine(), outcome)
                    == execute(model, old(self).machine(), statement@),
        decreases statement, 0nat,
    {
        match statement {
            Stmt::Expression(expr) => {
                match self.evaluate(expr) {
                    Ok(_) => Ok(()),
                    Err(error) => Err(error),
                }
            },
            Stmt::Print(expr) => {
                match self.evaluate(expr) {
                    Ok(value) => {
                        self.output.push(value);
                        assert(views(self.output@) =~= views(old(self).output@).push(value@));
                        Ok(())
                    },
                    Err(error) => Err(error),
                }
            },
            Stmt::Let { name, initializer } => {
                match initializer {
                    Expr::Literal { value: Value::Nil } => Ok(()),
                    _ => match self.evaluate(initializer) {
                        Ok(value) => {
                            self.environment.define(name.lexeme.clone(), value);
                            Ok(())
                        },
                        Err(error) => Err(error),
                    },
                }
            },
            Stmt::Block { statements } => {
                self.environment.push_scope();
                let outcome = self.interpreter(statements);
                self.environment.pop_scope();
                outcome
            },
            Stmt::If { condition, then_branch, else_branch } => {
                match self.evaluate(condition) {
                    Ok(value) => {
                        if self.is_truthy(&value) {
                            self.execute(then_branch)
                        } else {
                            match else_branch {
                                Some(branch) => self.execute(branch),
                                None => Ok(()),
                            }
                        }
                    },
                    Err(error) => Err(error),
                }
            },
        }
    }

    /// Evaluates `expr`: its value, or the first fault met. What was
    /// assigned before a fault stays assigned.
    pub fn evaluate(&mut self, expr: &Expr) -> (outcome: Result<Value, RuntimeError>)
        requires
            old(self).wf(),
        ensures
            final(self).wf(),
            final(self).arithmetic() == old(self).arithmetic(),
            final(self).machine().output == old(self).machine().output,
            final(self).machine().scopes.len() == old(self).machine().scopes.len(),
            forall|model: Arithmetic|
                computes(old(self).arithmetic(), model) ==> (
                    final(self).machine().scopes,
                    value_outcome(outcome),
                ) == evaluate(model, old(self).machine().scopes, *expr),
        decreases expr, 1nat,
    {
        self.match_expr(expr)
    }

    /// Evaluates `expr` by the form of its root.
    fn match_expr(&mut self, expr: &Expr) -> (outcome: Result<Value, RuntimeError>)
        requires
            old(self).wf(),
        ensures
            final(self).wf(),
            final(self).arithmetic() == old(self).arithmetic(),
            final(self).machine().output == old(self).machine().output,
            final(self).machine().scopes.len() == old(self).machine().scopes.len(),
            forall|model: Arithmetic|
                computes(old(self).arithmetic(), model) ==> (
                    final(self).machine().scopes,
                    value_outcome(outcome),
                ) == evaluate(model, old(self).machine().scopes, *expr),
        decreases expr, 0nat,
    {
        match expr {
            Expr::Literal { value } => Ok(value.clone()),
            Expr::Grouping { expression } => self.evaluate(expression),
            Expr::Unary { operator, token, right } => {
                match self.evaluate(right) {
                    Ok(operand) => self.unary_operation(*operator, token, operand),
                    Err(error) => Err(error),
                }
            },
            Expr::Variable { name } => {
                proof {
                    crate::environment::lemma_resolve(self.environment@, name.lexeme@);
                }
                self.environment.get(name)
            },
            Expr::Assign { name, value } => {
                match self.evaluate(value) {
                    Ok(stored) => {
                        proof {
                            crate::environment::lemma_resolve(self.environment@, name.lexeme@);
                        }
                        match self.environment.assign(name, stored.clone()) {
                            Ok(_) => Ok(stored),
                            Err(error) => Err(error),
                        }
                    },
                    Err(error) => Err(error),
                }
            },
            Expr::Logical { left, operator, token, right } => {
                match self.evaluate(left) {
                    Ok(left_value) => {
                        let decided = match operator {
                            LogicalOp::Or => self.is_truthy(&left_value),
                            LogicalOp::And => !self.is_truthy(&left_value),
                        };
                        if decided {
                            Ok(left_value)
                        } else {
                            self.evaluate(right)
                        }
                    },
                    Err(error) => Err(error),
                }
            },
            Expr::Binary { left, operator, token, right } => {
                match self.evaluate(left) {
                    Ok(left_value) => match self.evaluate(right) {
                        Ok(right_value) => self.binary_operation(
                            *operator,
                            token,
                            left_value,
                            right_value,
                        ),
                        Err(error) => Err(error),
                    },
                    Err(error) => Err(error),
                }
            },
        }
    }
}

/// The fault of an operand that the operator at `token` does not take.
fn type_error_at(token: &Token) -> (error: RuntimeError)
    ensures
        error == type_error(*token),
{
    RuntimeError {
        kind: RuntimeErrorKind::TypeError,
        line_number: token.line_number,
        lexeme: token.lexeme.clone(),
    }
}

} // verus!
