//! Runtime values and the two rules that hold for every pair of them:
//! truthiness and equality.

use vstd::prelude::*;
use vstd::string::StringExecFns;
use crate::number::{number_same, same};

verus! {

/// A value of the language: what a literal denotes and what an expression
/// evaluates to. A number is held as its binary64 bit pattern.
///
/// `==` compares what is held; the equality of the language, which knows
/// that a NaN equals nothing and that the two zeros are equal, is
/// [`Value::is_equal`].
#[derive(Debug, PartialEq)]
pub enum Value {
    Number(u64),
    Text(String),
    Boolean(bool),
    Nil,
}

/// The mathematical content of a [`Value`].
pub enum ValueView {
    Number(u64),
    Text(Seq<char>),
    Boolean(bool),
    Nil,
}

impl View for Value {
    type V = ValueView;

    open spec fn view(&self) -> ValueView {
        match *self {
            Value::Number(bits) => ValueView::Number(bits),
            Value::Text(text) => ValueView::Text(text@),
            Value::Boolean(flag) => ValueView::Boolean(flag),
            Value::Nil => ValueView::Nil,
        }
    }
}

/// Every value counts as true but `false` and `nil`.
pub open spec fn truthy(value: ValueView) -> bool {
    match value {
        ValueView::Boolean(flag) => flag,
        ValueView::Nil => false,
        _ => true,
    }
}

/// Equality of the language: numbers, texts and booleans are compared by
/// value, `nil` equals `nil` alone, and values of two kinds are never equal.
pub open spec fn values_equal(left: ValueView, right: ValueView) -> bool {
    match (left, right) {
        (ValueView::Number(a), ValueView::Number(b)) => same(a, b),
        (ValueView::Text(a), ValueView::Text(b)) => a == b,
        (ValueView::Boolean(a), ValueView::Boolean(b)) => a == b,
        (ValueView::Nil, ValueView::Nil) => true,
        _ => false,
    }
}

/// The text that `print` shows for a value that is no number: a text as it
/// is, a boolean as `true` or `false`, and `nil` as `nil`. A number is shown
/// by its decimal digits, which its pattern alone does not give.
pub open spec fn shown(value: ValueView) -> Option<Seq<char>> {
    match value {
        ValueView::Number(_) => None,
        ValueView::Text(content) => Some(content),
        ValueView::Boolean(flag) => Some(
            if flag {
                "true"@
            } else {
                "false"@
            },
        ),
        ValueView::Nil => Some("nil"@),
    }
}

/// Whether the two values are of one kind: two numbers, two texts, two
/// booleans, or `nil` twice.
pub open spec fn same_kind(left: ValueView, right: ValueView) -> bool {
    match (left, right) {
        (ValueView::Number(_), ValueView::Number(_)) => true,
        (ValueView::Text(_), ValueView::Text(_)) => true,
        (ValueView::Boolean(_), ValueView::Boolean(_)) => true,
        (ValueView::Nil, ValueView::Nil) => true,
        _ => false,
    }
}

impl Clone for Value {
    fn clone(&self) -> (copy: Self)
        ensures
            copy == *self,
    {
        match self {
            Value::Number(bits) => Value::Number(*bits),
            Value::Text(text) => Value::Text(text.clone()),
            Value::Boolean(flag) => Value::Boolean(*flag),
            Value::Nil => Value::Nil,
        }
    }
}

impl Value {
    /// Whether the value counts as true.
    pub fn is_truthy(&self) -> (result: bool)
        ensures
            result == truthy(self@),
    {
        match self {
            Value::Boolean(flag) => *flag,
            Value::Nil => false,
            _ => true,
        }
    }

    /// The text that `print` shows for the value, unless it is a number.
    pub fn text(&self) -> (text: Option<String>)
        ensures
            match shown(self@) {
                Some(content) => text is Some && text->Some_0@ == content,
                None => text is None,
            },
    {
        match self {
            Value::Number(_) => None,
            Value::Text(content) => Some(content.clone()),
            Value::Boolean(flag) => if *flag {
                Some(String::from_str("true"))
            } else {
                Some(String::from_str("false"))
            },
            Value::Nil => Some(String::from_str("nil")),
        }
    }

    /// Whether the two values are equal in the language.
    pub fn is_equal(&self, other: &Value) -> (result: bool)
        ensures
            result == values_equal(self@, other@),
    {
        match (self, other) {
            (Value::Number(a), Value::Number(b)) => number_same(*a, *b),
            (Value::Text(a), Value::Text(b)) => *a == *b,
            (Value::Boolean(a), Value::Boolean(b)) => *a == *b,
            (Value::Nil, Value::Nil) => true,
            _ => false,
        }
    }
}

} // verus!
