//! Diagnostics of the parser and of the interpreter. Each names the line and
//! the lexeme of the token at which the fault was found, and has a message
//! that spells both out.

use vstd::prelude::*;
use vstd::string::StringExecFns;

verus! {

/// Why a statement could not be parsed.
#[derive(Clone, Copy, Debug, PartialEq, Eq, Structural)]
pub enum ParseErrorKind {
    /// No expression can start with the token.
    ExpectedExpression,
    /// The token that the grammar asks for next is not there.
    UnexpectedToken,
    /// A number or string token came without its payload.
    MissingLiteral,
    /// The left side of `=` is no plain variable.
    InvalidAssignmentTarget,
}

/// A fault in the token stream.
#[derive(Debug, PartialEq)]
pub struct ParseError {
    pub kind: ParseErrorKind,
    pub line_number: usize,
    pub lexeme: String,
}

/// Why evaluation stopped.
#[derive(Clone, Copy, Debug, PartialEq, Eq, Structural)]
pub enum RuntimeErrorKind {
    /// An operand is of a kind that the operator does not take.
    TypeError,
    /// No scope in reach defines the name.
    NameError,
}

/// A fault met while running a program.
#[derive(Debug, PartialEq)]
pub struct RuntimeError {
    pub kind: RuntimeErrorKind,
    pub line_number: usize,
    pub lexeme: String,
}

/// The character of a decimal digit.
pub open spec fn digit(value: nat) -> char
    recommends
        value < 10,
{
    if value == 0 {
        '0'
    } else if value == 1 {
        '1'
    } else if value == 2 {
        '2'
    } else if value == 3 {
        '3'
    } else if value == 4 {
        '4'
    } else if value == 5 {
        '5'
    } else if value == 6 {
        '6'
    } else if value == 7 {
        '7'
    } else if value == 8 {
        '8'
    } else {
        '9'
    }
}

/// The decimal digits of a number, without leading zeros.
pub open spec fn decimal(number: nat) -> Seq<char>
    decreases number,
{
    if number < 10 {
        seq![digit(number)]
    } else {
        decimal(number / 10).push(digit(number % 10))
    }
}

/// What a message says of a parse fault of the given kind.
pub open spec fn parse_reason(kind: ParseErrorKind) -> Seq<char> {
    match kind {
        ParseErrorKind::ExpectedExpression => "an expression is expected"@,
        ParseErrorKind::UnexpectedToken => "another token is expected"@,
        ParseErrorKind::MissingLiteral => "a literal came without its value"@,
        ParseErrorKind::InvalidAssignmentTarget => "only a variable can be assigned to"@,
    }
}

/// What a message says of a runtime fault of the given kind.
pub open spec fn runtime_reason(kind: RuntimeErrorKind) -> Seq<char> {
    match kind {
        RuntimeErrorKind::TypeError => "an operand is of the wrong kind"@,
        RuntimeErrorKind::NameError => "the name is not defined"@,
    }
}

/// The message of a fault: its line, its lexeme between quotes, and the
/// reason.
pub open spec fn message(line_number: usize, lexeme: Seq<char>, reason: Seq<char>) -> Seq<char> {
    "line "@ + decimal(line_number as nat) + ", at '"@ + lexeme + "': "@ + reason
}

/// The text of one decimal digit.
fn digit_text(value: usize) -> (text: &'static str)
    requires
        value < 10,
    ensures
        text@ == seq![digit(value as nat)],
{
    proof {
        reveal_strlit("0");
        reveal_strlit("1");
        reveal_strlit("2");
        reveal_strlit("3");
        reveal_strlit("4");
        reveal_strlit("5");
        reveal_strlit("6");
        reveal_strlit("7");
        reveal_strlit("8");
        reveal_strlit("9");
    }
    let text = if value == 0 {
        "0"
    } else if value == 1 {
        "1"
    } else if value == 2 {
        "2"
    } else if value == 3 {
        "3"
    } else if value == 4 {
        "4"
    } else if value == 5 {
        "5"
    } else if value == 6 {
        "6"
    } else if value == 7 {
        "7"
    } else if value == 8 {
        "8"
    } else {
        "9"
    };
    text
}

/// Writes a number in decimal digits.
pub fn decimal_text(number: usize) -> (text: String)
    ensures
        text@ == decimal(number as nat),
    decreases number,
{
    if number < 10 {
        String::from_str(digit_text(number))
    } else {
        let text = decimal_text(number / 10).concat(digit_text(number % 10));
        text
    }
}

/// Puts a message together.
fn message_text(line_number: usize, lexeme: &String, reason: &str) -> (text: String)
    ensures
        text@ == message(line_number, lexeme@, reason@),
{
    String::from_str("line ").concat(decimal_text(line_number).as_str()).concat(", at '").concat(
        lexeme.as_str(),
    ).concat("': ").concat(reason)
}

impl ParseError {
    /// The message of the fault, with its line and its lexeme.
    pub fn message(&self) -> (text: String)
        ensures
            text@ == message(self.line_number, self.lexeme@, parse_reason(self.kind)),
    {
        let reason = match self.kind {
            ParseErrorKind::ExpectedExpression => "an expression is expected",
            ParseErrorKind::UnexpectedToken => "another token is expected",
            ParseErrorKind::MissingLiteral => "a literal came without its value",
            ParseErrorKind::InvalidAssignmentTarget => "only a variable can be assigned to",
        };
        message_text(self.line_number, &self.lexeme, reason)
    }
}

impl RuntimeError {
    /// The message of the fault, with its line and its lexeme.
    pub fn message(&self) -> (text: String)
        ensures
            text@ == message(self.line_number, self.lexeme@, runtime_reason(self.kind)),
    {
        let reason = match self.kind {
            RuntimeErrorKind::TypeError => "an operand is of the wrong kind",
            RuntimeErrorKind::NameError => "the name is not defined",
        };
        message_text(self.line_number, &self.lexeme, reason)
    }
}

} // verus!
