//! What a program means: the value of an expression and the effect of a
//! statement, as functions of the scope chain.
//!
//! The functions take the arithmetic as a parameter, so every statement
//! about them holds for whatever arithmetic the interpreter is given.

use vstd::prelude::*;
use crate::environment::{
    assigned, defined, lemma_assign_then_lookup, lemma_define_then_lookup, lemma_resolve,
    lemma_shadow, lookup, name_error, Chain,
};
use crate::error::{RuntimeError, RuntimeErrorKind};
use crate::expr::{BinaryOp, Expr, LogicalOp, UnaryOp};
use crate::number::{less, less_equal, negated, same, ArithOp};
use crate::stmt::StmtView;
use crate::token::Token;
use crate::value::{same_kind, truthy, values_equal, Value, ValueView};

verus! {

/// The arithmetic of a run: the pattern that each rounded operation gives
/// for two operand patterns.
pub type Arithmetic = spec_fn(ArithOp, u64, u64) -> u64;

/// What a run can be observed by: the scopes in reach and the values
/// printed so far, oldest first.
pub struct Machine {
    pub scopes: Chain,
    pub output: Seq<ValueView>,
}

/// The fault of an operand whose kind the operator at `token` does not take.
pub open spec fn type_error(token: Token) -> RuntimeError {
    RuntimeError {
        kind: RuntimeErrorKind::TypeError,
        line_number: token.line_number,
        lexeme: token.lexeme,
    }
}

/// The value of a prefix operator applied to `operand`.
pub open spec fn unary_value(operator: UnaryOp, token: Token, operand: ValueView) -> Result<
    ValueView,
    RuntimeError,
> {
    match operator {
        UnaryOp::Minus => match operand {
            ValueView::Number(bits) => Ok(ValueView::Number(negated(bits))),
            _ => Err(type_error(token)),
        },
        UnaryOp::Bang => Ok(ValueView::Boolean(!truthy(operand))),
    }
}

/// The value of an infix operator applied to two numbers.
pub open spec fn numeric_value(arithmetic: Arithmetic, operator: BinaryOp, left: u64, right: u64)
    -> ValueView {
    match operator {
        BinaryOp::Plus => ValueView::Number(arithmetic(ArithOp::Add, left, right)),
        BinaryOp::Minus => ValueView::Number(arithmetic(ArithOp::Subtract, left, right)),
        BinaryOp::Slash => ValueView::Number(arithmetic(ArithOp::Divide, left, right)),
        BinaryOp::Star => ValueView::Number(arithmetic(ArithOp::Multiply, left, right)),
        BinaryOp::Greater => ValueView::Boolean(less(right, left)),
        BinaryOp::GreaterEqual => ValueView::Boolean(less_equal(right, left)),
        BinaryOp::Less => ValueView::Boolean(less(left, right)),
        BinaryOp::LessEqual => ValueView::Boolean(less_equal(left, right)),
        BinaryOp::EqualEqual => ValueView::Boolean(same(left, right)),
        BinaryOp::BangEqual => ValueView::Boolean(!same(left, right)),
    }
}

/// The value of an infix operator applied to two values. The two equality
/// operators take any pair; `+` takes two numbers or two texts; every other
/// operator takes two numbers.
pub open spec fn binary_value(
    arithmetic: Arithmetic,
    operator: BinaryOp,
    token: Token,
    left: ValueView,
    right: ValueView,
) -> Result<ValueView, RuntimeError> {
    match operator {
        BinaryOp::EqualEqual => Ok(ValueView::Boolean(values_equal(left, right))),
        BinaryOp::BangEqual => Ok(ValueView::Boolean(!values_equal(left, right))),
        _ => match (left, right) {
            (ValueView::Number(a), ValueView::Number(b)) => Ok(
                numeric_value(arithmetic, operator, a, b),
            ),
            (ValueView::Text(a), ValueView::Text(b)) if operator == BinaryOp::Plus => Ok(
                ValueView::Text(a + b),
            ),
            _ => Err(type_error(token)),
        },
    }
}

/// Whether the left operand alone decides a logical operator: a true one
/// decides `or`, a false one decides `and`.
pub open spec fn decides(operator: LogicalOp, left: ValueView) -> bool {
    match operator {
        LogicalOp::Or => truthy(left),
        LogicalOp::And => !truthy(left),
    }
}

/// The value of `expr` in `scopes`, and the scopes after its assignments.
/// Operands are evaluated from left to right; the first fault ends the
/// evaluation, and what was assigned before it stays assigned.
pub open spec fn evaluate(arithmetic: Arithmetic, scopes: Chain, expr: Expr) -> (
    Chain,
    Result<ValueView, RuntimeError>,
)
    decreases expr,
{
    match expr {
        Expr::Literal { value } => (scopes, Ok(value@)),
        Expr::Grouping { expression } => evaluate(arithmetic, scopes, *expression),
        Expr::Unary { operator, token, right } => {
            let (after, operand) = evaluate(arithmetic, scopes, *right);
            match operand {
                Ok(value) => (after, unary_value(operator, token, value)),
                Err(error) => (after, Err(error)),
            }
        },
        Expr::Binary { left, operator, token, right } => {
            let (between, first) = evaluate(arithmetic, scopes, *left);
            match first {
                Ok(left_value) => {
                    let (after, second) = evaluate(arithmetic, between, *right);
                    match second {
                        Ok(right_value) => (
                            after,
                            binary_value(arithmetic, operator, token, left_value, right_value),
                        ),
                        Err(error) => (after, Err(error)),
                    }
                },
                Err(error) => (between, Err(error)),
            }
        },
        Expr::Logical { left, operator, token, right } => {
            let (between, first) = evaluate(arithmetic, scopes, *left);
            match first {
                Ok(left_value) => if decides(operator, left_value) {
                    (between, Ok(left_value))
                } else {
                    evaluate(arithmetic, between, *right)
                },
                Err(error) => (between, Err(error)),
            }
        },
        Expr::Variable { name } => match lookup(scopes, name.lexeme@) {
            Some(value) => (scopes, Ok(value)),
            None => (scopes, Err(name_error(name))),
        },
        Expr::Assign { name, value } => {
            let (after, outcome) = evaluate(arithmetic, scopes, *value);
            match outcome {
                Ok(stored) => match assigned(after, name.lexeme@, stored) {
                    Some(chain) => (chain, Ok(stored)),
                    None => (after, Err(name_error(name))),
                },
                Err(error) => (after, Err(error)),
            }
        },
    }
}

/// Whether a `let` binds nothing: whether the literal `nil` stands in the
/// place of its initializer, as it does where none was written.
pub open spec fn binds_nothing(initializer: Expr) -> bool {
    initializer matches Expr::Literal { value } && value is Nil
}

/// The machine after one statement, and whether the statement ran to its
/// end. A block runs in a scope of its own, which is gone when the block is
/// left, by its end or by a fault.
pub open spec fn execute(arithmetic: Arithmetic, machine: Machine, statement: StmtView) -> (
    Machine,
    Result<(), RuntimeError>,
)
    decreases statement, 0nat,
{
    match statement {
        StmtView::Expression(expr) => {
            let (scopes, outcome) = evaluate(arithmetic, machine.scopes, expr);
            match outcome {
                Ok(_) => (Machine { scopes, output: machine.output }, Ok(())),
                Err(error) => (Machine { scopes, output: machine.output }, Err(error)),
            }
        },
        StmtView::Print(expr) => {
            let (scopes, outcome) = evaluate(arithmetic, machine.scopes, expr);
            match outcome {
                Ok(value) => (Machine { scopes, output: machine.output.push(value) }, Ok(())),
                Err(error) => (Machine { scopes, output: machine.output }, Err(error)),
            }
        },
        StmtView::Let { name, initializer } => if binds_nothing(initializer) {
            (machine, Ok(()))
        } else {
            let (scopes, outcome) = evaluate(arithmetic, machine.scopes, initializer);
            match outcome {
                Ok(value) => (
                    Machine {
                        scopes: defined(scopes, name.lexeme@, value),
                        output: machine.output,
                    },
                    Ok(()),
                ),
                Err(error) => (Machine { scopes, output: machine.output }, Err(error)),
            }
        },
        StmtView::Block { statements } => {
            let entered = Machine {
                scopes: machine.scopes.push(Map::empty()),
                output: machine.output,
            };
            let (inner, outcome) = run(arithmetic, entered, statements, 0);
            (Machine { scopes: inner.scopes.drop_last(), output: inner.output }, outcome)
        },
        StmtView::If { condition, then_branch, else_branch } => {
            let (scopes, outcome) = evaluate(arithmetic, machine.scopes, condition);
            let tested = Machine { scopes, output: machine.output };
            match outcome {
                Ok(value) => if truthy(value) {
                    execute(arithmetic, tested, *then_branch)
                } else {
                    match else_branch {
                        Some(branch) => execute(arithmetic, tested, *branch),
                        None => (tested, Ok(())),
                    }
                },
                Err(error) => (tested, Err(error)),
            }
        },
    }
}

/// The machine after the statements from index `from` on, run in order up
/// to the first fault.
pub open spec fn run(
    arithmetic: Arithmetic,
    machine: Machine,
    statements: Seq<StmtView>,
    from: int,
) -> (Machine, Result<(), RuntimeError>)
    decreases statements, statements.len() - from,
{
    if 0 <= from < statements.len() {
        let (next, outcome) = execute(arithmetic, machine, statements[from]);
        match outcome {
            Ok(_) => run(arithmetic, next, statements, from + 1),
            Err(error) => (next, Err(error)),
        }
    } else {
        (machine, Ok(()))
    }
}

/// The rounded operation that an arithmetic operator stands for.
pub open spec fn operation_of(operator: BinaryOp) -> ArithOp {
    match operator {
        BinaryOp::Plus => ArithOp::Add,
        BinaryOp::Minus => ArithOp::Subtract,
        BinaryOp::Star => ArithOp::Multiply,
        _ => ArithOp::Divide,
    }
}

/// Whether the expression is made of numbers, the operators `+ - * /` and
/// parentheses alone.
pub open spec fn is_arithmetic(expr: Expr) -> bool
    decreases expr,
{
    match expr {
        Expr::Literal { value } => value is Number,
        Expr::Grouping { expression } => is_arithmetic(*expression),
        Expr::Binary { left, operator, token, right } => {
            &&& operator == BinaryOp::Plus || operator == BinaryOp::Minus || operator
                == BinaryOp::Star || operator == BinaryOp::Slash
            &&& is_arithmetic(*left)
            &&& is_arithmetic(*right)
        },
        _ => false,
    }
}

/// The number that an arithmetic expression is worth: a literal is worth
/// itself, parentheses are worth what they hold, and an operator is worth
/// its operation applied to what its two sides are worth.
pub open spec fn arithmetic_value(arithmetic: Arithmetic, expr: Expr) -> u64
    recommends
        is_arithmetic(expr),
    decreases expr,
{
    match expr {
        Expr::Literal { value } => match value {
            Value::Number(bits) => bits,
            _ => 0,
        },
        Expr::Grouping { expression } => arithmetic_value(arithmetic, *expression),
        Expr::Binary { left, operator, token, right } => arithmetic(
            operation_of(operator),
            arithmetic_value(arithmetic, *left),
            arithmetic_value(arithmetic, *right),
        ),
        _ => 0,
    }
}

/// An arithmetic expression evaluates to the number that it is worth, in
/// any scopes, and changes none of them.
pub proof fn lemma_arithmetic(arithmetic: Arithmetic, scopes: Chain, expr: Expr)
    requires
        is_arithmetic(expr),
    ensures
        evaluate(arithmetic, scopes, expr) == (
            scopes,
            Ok::<ValueView, RuntimeError>(ValueView::Number(arithmetic_value(arithmetic, expr))),
        ),
    decreases expr,
{
    match expr {
        Expr::Grouping { expression } => {
            lemma_arithmetic(arithmetic, scopes, *expression);
        },
        Expr::Binary { left, operator, token, right } => {
            lemma_arithmetic(arithmetic, scopes, *left);
            lemma_arithmetic(arithmetic, scopes, *right);
        },
        _ => {},
    }
}

/// Evaluation opens and closes no scope.
pub proof fn lemma_evaluate_keeps_depth(arithmetic: Arithmetic, scopes: Chain, expr: Expr)
    ensures
        evaluate(arithmetic, scopes, expr).0.len() == scopes.len(),
    decreases expr,
{
    match expr {
        Expr::Literal { value } => {},
        Expr::Grouping { expression } => {
            lemma_evaluate_keeps_depth(arithmetic, scopes, *expression);
        },
        Expr::Unary { operator, token, right } => {
            lemma_evaluate_keeps_depth(arithmetic, scopes, *right);
        },
        Expr::Binary { left, operator, token, right } => {
            lemma_evaluate_keeps_depth(arithmetic, scopes, *left);
            let between = evaluate(arithmetic, scopes, *left).0;
            lemma_evaluate_keeps_depth(arithmetic, between, *right);
        },
        Expr::Logical { left, operator, token, right } => {
            lemma_evaluate_keeps_depth(arithmetic, scopes, *left);
            let between = evaluate(arithmetic, scopes, *left).0;
            lemma_evaluate_keeps_depth(arithmetic, between, *right);
        },
        Expr::Variable { name } => {},
        Expr::Assign { name, value } => {
            lemma_evaluate_keeps_depth(arithmetic, scopes, *value);
            let (after, outcome) = evaluate(arithmetic, scopes, *value);
            if let Ok(stored) = outcome {
                lemma_resolve(after, name.lexeme@);
            }
        },
    }
}

/// A statement leaves as many scopes in reach as it found, whether it runs
/// to its end or stops at a fault: every block that is entered is left.
pub proof fn lemma_execute_keeps_depth(
    arithmetic: Arithmetic,
    machine: Machine,
    statement: StmtView,
)
    requires
        machine.scopes.len() > 0,
    ensures
        execute(arithmetic, machine, statement).0.scopes.len() == machine.scopes.len(),
    decreases statement, 0nat,
{
    match statement {
        StmtView::Expression(expr) => {
            lemma_evaluate_keeps_depth(arithmetic, machine.scopes, expr);
        },
        StmtView::Print(expr) => {
            lemma_evaluate_keeps_depth(arithmetic, machine.scopes, expr);
        },
        StmtView::Let { name, initializer } => {
            lemma_evaluate_keeps_depth(arithmetic, machine.scopes, initializer);
        },
        StmtView::Block { statements } => {
            let entered = Machine {
                scopes: machine.scopes.push(Map::empty()),
                output: machine.output,
            };
            lemma_run_keeps_depth(arithmetic, entered, statements, 0);
        },
        StmtView::If { condition, then_branch, else_branch } => {
            lemma_evaluate_keeps_depth(arithmetic, machine.scopes, condition);
            let scopes = evaluate(arithmetic, machine.scopes, condition).0;
            let tested = Machine { scopes, output: machine.output };
            lemma_execute_keeps_depth(arithmetic, tested, *then_branch);
            if let Some(branch) = else_branch {
                lemma_execute_keeps_depth(arithmetic, tested, *branch);
            }
        },
    }
}

/// A list of statements leaves as many scopes in reach as it found.
pub proof fn lemma_run_keeps_depth(
    arithmetic: Arithmetic,
    machine: Machine,
    statements: Seq<StmtView>,
    from: int,
)
    requires
        machine.scopes.len() > 0,
    ensures
        run(arithmetic, machine, statements, from).0.scopes.len() == machine.scopes.len(),
    decreases statements, statements.len() - from,
{
    if 0 <= from < statements.len() {
        lemma_execute_keeps_depth(arithmetic, machine, statements[from]);
        let (next, outcome) = execute(arithmetic, machine, statements[from]);
        if outcome is Ok {
            lemma_run_keeps_depth(arithmetic, next, statements, from + 1);
        }
    }
}

/// A name reads as what the innermost scope that defines it holds, and
/// reading changes no scope; a name that no scope defines is a name fault
/// at the name's own token.
pub proof fn lemma_read(arithmetic: Arithmetic, scopes: Chain, name: Token)
    ensures
        evaluate(arithmetic, scopes, Expr::Variable { name }).0 == scopes,
        evaluate(arithmetic, scopes, Expr::Variable { name }).1 == match lookup(
            scopes,
            name.lexeme@,
        ) {
            Some(value) => Ok::<ValueView, RuntimeError>(value),
            None => Err(name_error(name)),
        },
{
}

/// What was declared reads as what it was declared as; what was assigned
/// reads as what was assigned.
pub proof fn lemma_declare_assign_read(
    arithmetic: Arithmetic,
    machine: Machine,
    name: Token,
    first: Value,
    second: Value,
)
    requires
        machine.scopes.len() > 0,
        !(first is Nil),
    ensures
        ({
            let declared = execute(
                arithmetic,
                machine,
                StmtView::Let { name, initializer: Expr::Literal { value: first } },
            ).0;
            let assigned = evaluate(
                arithmetic,
                declared.scopes,
                Expr::Assign { name, value: Box::new(Expr::Literal { value: second }) },
            );
            &&& evaluate(arithmetic, declared.scopes, Expr::Variable { name }).1 == Ok::<
                ValueView,
                RuntimeError,
            >(first@)
            &&& assigned.1 == Ok::<ValueView, RuntimeError>(second@)
            &&& evaluate(arithmetic, assigned.0, Expr::Variable { name }).1 == Ok::<
                ValueView,
                RuntimeError,
            >(second@)
        }),
{
    let initializer = Expr::Literal { value: first };
    let declared = execute(arithmetic, machine, StmtView::Let { name, initializer }).0;
    lemma_define_then_lookup(machine.scopes, name.lexeme@, first@, name.lexeme@);
    lemma_assign_then_lookup(declared.scopes, name.lexeme@, second@, name.lexeme@);
    assert(evaluate(arithmetic, declared.scopes, Expr::Literal { value: second }) == (
        declared.scopes,
        Ok::<ValueView, RuntimeError>(second@),
    ));
}

/// `+` joins two texts and adds two numbers; every other pair of operands
/// is a type fault at the operator's token.
pub proof fn lemma_plus(arithmetic: Arithmetic, token: Token, left: ValueView, right: ValueView)
    ensures
        binary_value(arithmetic, BinaryOp::Plus, token, left, right) == match (left, right) {
            (ValueView::Text(a), ValueView::Text(b)) => Ok::<ValueView, RuntimeError>(
                ValueView::Text(a + b),
            ),
            (ValueView::Number(a), ValueView::Number(b)) => Ok(
                ValueView::Number(arithmetic(ArithOp::Add, a, b)),
            ),
            _ => Err(type_error(token)),
        },
{
}

/// Where the left operand decides a logical operator, the expression is
/// worth the left operand itself, and the right operand is not evaluated:
/// whatever stands in its place, the value and the scopes come out the same.
pub proof fn lemma_short_circuit(
    arithmetic: Arithmetic,
    scopes: Chain,
    left: Expr,
    operator: LogicalOp,
    token: Token,
    right: Expr,
    other: Expr,
)
    requires
        evaluate(arithmetic, scopes, left).1 matches Ok(value) && decides(operator, value),
    ensures
        evaluate(
            arithmetic,
            scopes,
            Expr::Logical { left: Box::new(left), operator, token, right: Box::new(right) },
        ) == evaluate(arithmetic, scopes, left),
        evaluate(
            arithmetic,
            scopes,
            Expr::Logical { left: Box::new(left), operator, token, right: Box::new(right) },
        ) == evaluate(
            arithmetic,
            scopes,
            Expr::Logical { left: Box::new(left), operator, token, right: Box::new(other) },
        ),
{
}

/// `false and x` is `false` and `true or x` is `true`, whatever `x` is, and
/// no scope changes.
pub proof fn lemma_literal_short_circuit(
    arithmetic: Arithmetic,
    scopes: Chain,
    token: Token,
    right: Expr,
)
    ensures
        evaluate(
            arithmetic,
            scopes,
            Expr::Logical {
                left: Box::new(Expr::Literal { value: Value::Boolean(false) }),
                operator: LogicalOp::And,
                token,
                right: Box::new(right),
            },
        ) == (scopes, Ok::<ValueView, RuntimeError>(ValueView::Boolean(false))),
        evaluate(
            arithmetic,
            scopes,
            Expr::Logical {
                left: Box::new(Expr::Literal { value: Value::Boolean(true) }),
                operator: LogicalOp::Or,
                token,
                right: Box::new(right),
            },
        ) == (scopes, Ok::<ValueView, RuntimeError>(ValueView::Boolean(true))),
{
    let no = Expr::Literal { value: Value::Boolean(false) };
    let yes = Expr::Literal { value: Value::Boolean(true) };
    assert(evaluate(arithmetic, scopes, no) == (
        scopes,
        Ok::<ValueView, RuntimeError>(ValueView::Boolean(false)),
    ));
    assert(evaluate(arithmetic, scopes, yes) == (
        scopes,
        Ok::<ValueView, RuntimeError>(ValueView::Boolean(true)),
    ));
}

/// Where the left operand does not decide a logical operator, the
/// expression is worth its right operand, evaluated behind the left one.
pub proof fn lemma_logical_falls_through(
    arithmetic: Arithmetic,
    scopes: Chain,
    left: Expr,
    operator: LogicalOp,
    token: Token,
    right: Expr,
)
    requires
        evaluate(arithmetic, scopes, left).1 matches Ok(value) && !decides(operator, value),
    ensures
        evaluate(
            arithmetic,
            scopes,
            Expr::Logical { left: Box::new(left), operator, token, right: Box::new(right) },
        ) == evaluate(arithmetic, evaluate(arithmetic, scopes, left).0, right),
{
}

/// An `if` runs the one branch that its condition selects, behind the
/// condition: the then-branch where the condition is true, else the
/// else-branch, and nothing where there is none. The other branch has no
/// part in the outcome.
pub proof fn lemma_if_selects(
    arithmetic: Arithmetic,
    machine: Machine,
    condition: Expr,
    then_branch: StmtView,
    else_branch: Option<Box<StmtView>>,
)
    requires
        evaluate(arithmetic, machine.scopes, condition).1 is Ok,
    ensures
        ({
            let (scopes, outcome) = evaluate(arithmetic, machine.scopes, condition);
            let tested = Machine { scopes, output: machine.output };
            let whole = execute(
                arithmetic,
                machine,
                StmtView::If { condition, then_branch: Box::new(then_branch), else_branch },
            );
            if truthy(outcome->Ok_0) {
                whole == execute(arithmetic, tested, then_branch)
            } else {
                match else_branch {
                    Some(branch) => whole == execute(arithmetic, tested, *branch),
                    None => whole == (tested, Ok::<(), RuntimeError>(())),
                }
            }
        }),
{
}

/// The two equality operators take every pair of values and never fault:
/// `==` is worth whether the values are equal, `!=` whether they are not.
pub proof fn lemma_equality_is_total(
    arithmetic: Arithmetic,
    token: Token,
    left: ValueView,
    right: ValueView,
)
    ensures
        binary_value(arithmetic, BinaryOp::EqualEqual, token, left, right) == Ok::<
            ValueView,
            RuntimeError,
        >(ValueView::Boolean(values_equal(left, right))),
        binary_value(arithmetic, BinaryOp::BangEqual, token, left, right) == Ok::<
            ValueView,
            RuntimeError,
        >(ValueView::Boolean(!values_equal(left, right))),
{
}

/// A comparison for equality faults only where one of its operands does.
pub proof fn lemma_equality_faults_with_operand(
    arithmetic: Arithmetic,
    scopes: Chain,
    left: Expr,
    token: Token,
    right: Expr,
)
    requires
        evaluate(arithmetic, scopes, left).1 is Ok,
        evaluate(arithmetic, evaluate(arithmetic, scopes, left).0, right).1 is Ok,
    ensures
        evaluate(
            arithmetic,
            scopes,
            Expr::Binary {
                left: Box::new(left),
                operator: BinaryOp::EqualEqual,
                token,
                right: Box::new(right),
            },
        ).1 is Ok,
{
}

/// `nil` equals `nil`; values of two kinds are never equal; equality does
/// not depend on the order of its operands.
pub proof fn lemma_equality_by_kind(left: ValueView, right: ValueView)
    ensures
        values_equal(ValueView::Nil, ValueView::Nil),
        !same_kind(left, right) ==> !values_equal(left, right),
        values_equal(left, right) == values_equal(right, left),
{
}

/// A `let` in a block of its own binds nothing outside the block: when the
/// block is left, every scope is as the initializer left it, and an outer
/// binding of the same name is as before.
pub proof fn lemma_let_is_local(
    arithmetic: Arithmetic,
    machine: Machine,
    name: Token,
    value: Value,
)
    requires
        machine.scopes.len() > 0,
    ensures
        execute(
            arithmetic,
            machine,
            StmtView::Block {
                statements: seq![StmtView::Let { name, initializer: Expr::Literal { value } }],
            },
        ) == (machine, Ok::<(), RuntimeError>(())),
{
    let initializer = Expr::Literal { value };
    let declaration = StmtView::Let { name, initializer };
    let body = seq![declaration];
    let entered = Machine { scopes: machine.scopes.push(Map::empty()), output: machine.output };
    let inner = execute(arithmetic, entered, declaration).0;
    assert(run(arithmetic, entered, body, 0) == run(arithmetic, inner, body, 1));
    if !binds_nothing(initializer) {
        lemma_shadow(machine.scopes, name.lexeme@, value@);
    } else {
        assert(entered.scopes.drop_last() =~= machine.scopes);
    }
}

/// Whether the expression holds no assignment.
pub open spec fn assigns_nothing(expr: Expr) -> bool
    decreases expr,
{
    match expr {
        Expr::Literal { value } => true,
        Expr::Variable { name } => true,
        Expr::Grouping { expression } => assigns_nothing(*expression),
        Expr::Unary { operator, token, right } => assigns_nothing(*right),
        Expr::Binary { left, operator, token, right } => assigns_nothing(*left)
            && assigns_nothing(*right),
        Expr::Logical { left, operator, token, right } => assigns_nothing(*left)
            && assigns_nothing(*right),
        Expr::Assign { name, value } => false,
    }
}

/// An expression that holds no assignment changes no scope, whether it is
/// worth a value or stops at a fault.
pub proof fn lemma_reading_changes_nothing(arithmetic: Arithmetic, scopes: Chain, expr: Expr)
    requires
        assigns_nothing(expr),
    ensures
        evaluate(arithmetic, scopes, expr).0 == scopes,
    decreases expr,
{
    match expr {
        Expr::Grouping { expression } => {
            lemma_reading_changes_nothing(arithmetic, scopes, *expression);
        },
        Expr::Unary { operator, token, right } => {
            lemma_reading_changes_nothing(arithmetic, scopes, *right);
        },
        Expr::Binary { left, operator, token, right } => {
            lemma_reading_changes_nothing(arithmetic, scopes, *left);
            lemma_reading_changes_nothing(arithmetic, scopes, *right);
        },
        Expr::Logical { left, operator, token, right } => {
            lemma_reading_changes_nothing(arithmetic, scopes, *left);
            lemma_reading_changes_nothing(arithmetic, scopes, *right);
        },
        _ => {},
    }
}

/// Nothing that was printed is taken back: what a statement leaves as the
/// output begins with the output that it found, whether the statement runs
/// to its end or stops at a fault.
pub proof fn lemma_execute_keeps_output(
    arithmetic: Arithmetic,
    machine: Machine,
    statement: StmtView,
)
    ensures
        machine.output.is_prefix_of(execute(arithmetic, machine, statement).0.output),
    decreases statement, 0nat,
{
    match statement {
        StmtView::Block { statements } => {
            let entered = Machine {
                scopes: machine.scopes.push(Map::empty()),
                output: machine.output,
            };
            lemma_run_keeps_output(arithmetic, entered, statements, 0);
        },
        StmtView::If { condition, then_branch, else_branch } => {
            let scopes = evaluate(arithmetic, machine.scopes, condition).0;
            let tested = Machine { scopes, output: machine.output };
            lemma_execute_keeps_output(arithmetic, tested, *then_branch);
            if let Some(branch) = else_branch {
                lemma_execute_keeps_output(arithmetic, tested, *branch);
            }
        },
        _ => {},
    }
}

/// Nothing that was printed is taken back by a list of statements.
pub proof fn lemma_run_keeps_output(
    arithmetic: Arithmetic,
    machine: Machine,
    statements: Seq<StmtView>,
    from: int,
)
    ensures
        machine.output.is_prefix_of(run(arithmetic, machine, statements, from).0.output),
    decreases statements, statements.len() - from,
{
    if 0 <= from < statements.len() {
        lemma_execute_keeps_output(arithmetic, machine, statements[from]);
        let (next, outcome) = execute(arithmetic, machine, statements[from]);
        if outcome is Ok {
            lemma_run_keeps_output(arithmetic, next, statements, from + 1);
        }
    }
}

/// Statements run strictly one behind the other: a list put together from
/// two parts runs as the first part and then, from the machine that the
/// first part left, as the second; a fault in the first part ends the run,
/// and the second part is not begun.
pub proof fn lemma_run_in_sequence(
    arithmetic: Arithmetic,
    machine: Machine,
    first: Seq<StmtView>,
    second: Seq<StmtView>,
    from: int,
)
    requires
        0 <= from <= first.len(),
    ensures
        run(arithmetic, machine, first + second, from) == match run(
            arithmetic,
            machine,
            first,
            from,
        ) {
            (between, Ok(_)) => run(arithmetic, between, second, 0),
            (stopped, Err(error)) => (stopped, Err(error)),
        },
    decreases first.len() - from,
{
    let whole = first + second;
    if from < first.len() {
        assert(whole[from] == first[from]);
        let (next, outcome) = execute(arithmetic, machine, first[from]);
        if outcome is Ok {
            lemma_run_in_sequence(arithmetic, next, first, second, from + 1);
        }
    } else {
        lemma_run_shifted(arithmetic, machine, first, second, 0);
    }
}

/// The second part of a list runs as it runs alone.
proof fn lemma_run_shifted(
    arithmetic: Arithmetic,
    machine: Machine,
    first: Seq<StmtView>,
    second: Seq<StmtView>,
    from: int,
)
    requires
        0 <= from <= second.len(),
    ensures
        run(arithmetic, machine, first + second, first.len() + from) == run(
            arithmetic,
            machine,
            second,
            from,
        ),
    decreases second.len() - from,
{
    let whole = first + second;
    if from < second.len() {
        assert(whole[first.len() + from] == second[from]);
        let (next, outcome) = execute(arithmetic, machine, second[from]);
        if outcome is Ok {
            lemma_run_shifted(arithmetic, next, first, second, from + 1);
        }
    }
}

} // verus!
