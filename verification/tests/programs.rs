use treewalk::error::decimal_text;
use treewalk::{
    ArithOp, BinaryOp, Expr, Interpreter, LiteralValue, LogicalOp, ParseError, ParseErrorKind,
    Parser, RuntimeError, RuntimeErrorKind, Stmt, Token, TokenType, UnaryOp, Value,
};

// ---------------------------------------------------------------------------
// What the parser and the interpreter are handed from outside: tokens, and
// the arithmetic of the machine.

fn keyword(word: &str) -> Option<TokenType> {
    Some(match word {
        "and" => TokenType::And,
        "class" => TokenType::Class,
        "else" => TokenType::Else,
        "false" => TokenType::False,
        "fun" => TokenType::Fun,
        "for" => TokenType::For,
        "if" => TokenType::If,
        "let" => TokenType::Let,
        "nil" => TokenType::Nil,
        "or" => TokenType::Or,
        "print" => TokenType::Print,
        "return" => TokenType::Return,
        "super" => TokenType::Super,
        "this" => TokenType::This,
        "true" => TokenType::True,
        "while" => TokenType::While,
        _ => return None,
    })
}

fn scan(source: &str) -> Vec<Token> {
    let chars: Vec<char> = source.chars().collect();
    let mut tokens = Vec::new();
    let mut line = 1;
    let mut at = 0;
    while at < chars.len() {
        let start = at;
        let c = chars[at];
        at += 1;
        let followed_by_equal = at < chars.len() && chars[at] == '=';
        let simple = match c {
            '\n' => {
                line += 1;
                continue;
            }
            ' ' | '\t' | '\r' => continue,
            '(' => Some(TokenType::LeftParen),
            ')' => Some(TokenType::RightParen),
            '{' => Some(TokenType::LeftBrace),
            '}' => Some(TokenType::RightBrace),
            ',' => Some(TokenType::Comma),
            '.' => Some(TokenType::Dot),
            '-' => Some(TokenType::Minus),
            '+' => Some(TokenType::Plus),
            ';' => Some(TokenType::Semicolon),
            '/' => Some(TokenType::Slash),
            '*' => Some(TokenType::Star),
            '!' | '=' | '<' | '>' => {
                if followed_by_equal {
                    at += 1;
                }
                Some(match (c, followed_by_equal) {
                    ('!', false) => TokenType::Bang,
                    ('!', true) => TokenType::BangEqual,
                    ('=', false) => TokenType::Equal,
                    ('=', true) => TokenType::EqualEqual,
                    ('<', false) => TokenType::Less,
                    ('<', true) => TokenType::LessEqual,
                    ('>', false) => TokenType::Greater,
                    _ => TokenType::GreaterEqual,
                })
            }
            _ => None,
        };
        if let Some(token_type) = simple {
            let lexeme: String = chars[start..at].iter().collect();
            tokens.push(Token::new(token_type, lexeme, None, line));
        } else if c == '"' {
            while at < chars.len() && chars[at] != '"' {
                if chars[at] == '\n' {
                    line += 1;
                }
                at += 1;
            }
            assert!(at < chars.len(), "unterminated string");
            at += 1;
            let lexeme: String = chars[start..at].iter().collect();
            let text: String = chars[start + 1..at - 1].iter().collect();
            let literal = Some(LiteralValue::Text(text));
            tokens.push(Token::new(TokenType::String, lexeme, literal, line));
        } else if c.is_ascii_digit() {
            while at < chars.len() && chars[at].is_ascii_digit() {
                at += 1;
            }
            if at + 1 < chars.len() && chars[at] == '.' && chars[at + 1].is_ascii_digit() {
                at += 1;
                while at < chars.len() && chars[at].is_ascii_digit() {
                    at += 1;
                }
            }
            let lexeme: String = chars[start..at].iter().collect();
            let value: f64 = lexeme.parse().unwrap();
            let literal = Some(LiteralValue::Number(value.to_bits()));
            tokens.push(Token::new(TokenType::Number, lexeme, literal, line));
        } else if c.is_ascii_alphabetic() || c == '_' {
            while at < chars.len() && (chars[at].is_ascii_alphanumeric() || chars[at] == '_') {
                at += 1;
            }
            let lexeme: String = chars[start..at].iter().collect();
            let token_type = keyword(&lexeme).unwrap_or(TokenType::Identifier);
            tokens.push(Token::new(token_type, lexeme, None, line));
        } else {
            panic!("unexpected character {c:?}");
        }
    }
    tokens.push(Token::new(TokenType::Eof, String::new(), None, line));
    tokens
}

fn arithmetic(operation: ArithOp, left: u64, right: u64) -> u64 {
    let (a, b) = (f64::from_bits(left), f64::from_bits(right));
    let result = match operation {
        ArithOp::Add => a + b,
        ArithOp::Subtract => a - b,
        ArithOp::Multiply => a * b,
        ArithOp::Divide => a / b,
    };
    result.to_bits()
}

/// An arithmetic that gives back its left operand.
fn left_only(_: ArithOp, left: u64, _: u64) -> u64 {
    left
}

/// An arithmetic that gives back its right operand.
fn right_only(_: ArithOp, _: u64, right: u64) -> u64 {
    right
}

/// An arithmetic that tells which operation it was asked for.
fn name_it(operation: ArithOp, _: u64, _: u64) -> u64 {
    match operation {
        ArithOp::Add => 1,
        ArithOp::Subtract => 2,
        ArithOp::Multiply => 3,
        ArithOp::Divide => 4,
    }
}

type Arithmetic = fn(ArithOp, u64, u64) -> u64;

fn interpreter() -> Interpreter<Arithmetic> {
    Interpreter::new(arithmetic as Arithmetic)
}

fn parse(source: &str) -> (Vec<Stmt>, Vec<ParseError>) {
    let tokens = scan(source);
    assert!(Parser::accepts(&tokens));
    Parser::new(tokens).parse()
}

fn parse_clean(source: &str) -> Vec<Stmt> {
    let (statements, errors) = parse(source);
    assert_eq!(errors, vec![]);
    statements
}

/// Runs a program and gives what it printed, with the fault that ended it.
fn run(source: &str) -> (Vec<Value>, Result<(), RuntimeError>) {
    let statements = parse_clean(source);
    let mut machine = interpreter();
    let outcome = machine.interpreter(&statements);
    (machine.output().clone(), outcome)
}

fn printed(source: &str) -> Vec<Value> {
    let (output, outcome) = run(source);
    assert_eq!(outcome, Ok(()));
    output
}

/// The value of one expression, written without its semicolon.
fn value_of(source: &str) -> Result<Value, RuntimeError> {
    let statements = parse_clean(&format!("{source};"));
    assert_eq!(statements.len(), 1);
    match &statements[0] {
        Stmt::Expression(expr) => interpreter().evaluate(expr),
        other => panic!("not an expression: {other:?}"),
    }
}

fn number(value: f64) -> Value {
    Value::Number(value.to_bits())
}

fn text(value: &str) -> Value {
    Value::Text(value.to_string())
}

fn number_literal(value: f64) -> Expr {
    Expr::Literal { value: number(value) }
}

fn token(token_type: TokenType, lexeme: &str, line: usize) -> Token {
    Token::new(token_type, lexeme.to_string(), None, line)
}

fn binary(
    left: Expr,
    operator: BinaryOp,
    token_type: TokenType,
    lexeme: &str,
    right: Expr,
) -> Expr {
    Expr::Binary {
        left: Box::new(left),
        operator,
        token: token(token_type, lexeme, 1),
        right: Box::new(right),
    }
}

fn variable(name: &str, line: usize) -> Expr {
    Expr::Variable { name: token(TokenType::Identifier, name, line) }
}

fn fault(kind: ParseErrorKind, line_number: usize, lexeme: &str) -> ParseError {
    ParseError { kind, line_number, lexeme: lexeme.to_string() }
}

fn type_error(line_number: usize, lexeme: &str) -> RuntimeError {
    RuntimeError { kind: RuntimeErrorKind::TypeError, line_number, lexeme: lexeme.to_string() }
}

fn name_error(line_number: usize, lexeme: &str) -> RuntimeError {
    RuntimeError { kind: RuntimeErrorKind::NameError, line_number, lexeme: lexeme.to_string() }
}

// ---------------------------------------------------------------------------
// The parser.

#[test]
fn parser_test_one() {
    let sources = "1.0 * 3.0 * 2.0 + 2.0 * 4.0 == 11.0".to_string();
    let tok = scan(&sources);
    assert_eq!(tok.len(), 12);
    assert_eq!(tok[11].token_type, TokenType::Eof);
    let (statements, errors) = Parser::new(tok).parse();
    assert!(statements.is_empty());
    assert_eq!(errors, vec![fault(ParseErrorKind::UnexpectedToken, 1, "")]);
}

#[test]
fn parser_test_two() {
    let sources = "1.0 >= * 3.0".to_string();
    let tok = scan(&sources);
    let (statements, errors) = Parser::new(tok).parse();
    assert!(statements.is_empty());
    assert_eq!(errors, vec![fault(ParseErrorKind::ExpectedExpression, 1, "*")]);
}

#[test]
fn parser_test_three() {
    let sources = "1.0 >= 1.0 + 2.0 == 4.0".to_string();
    let tok = scan(&sources);
    let (statements, errors) = Parser::new(tok).parse();
    assert!(statements.is_empty());
    assert_eq!(errors, vec![fault(ParseErrorKind::UnexpectedToken, 1, "")]);
}

#[test]
fn parser_test_four() {
    let sources = "- - - - - - - - true".to_string();
    let tok = scan(&sources);
    let (statements, errors) = Parser::new(tok).parse();
    assert!(statements.is_empty());
    assert_eq!(errors, vec![fault(ParseErrorKind::UnexpectedToken, 1, "")]);
}

#[test]
fn parser_test_five() {
    let sources = "1.0 + ".to_string();
    let tok = scan(&sources);
    let (statements, errors) = Parser::new(tok).parse();
    assert!(statements.is_empty());
    assert_eq!(errors, vec![fault(ParseErrorKind::ExpectedExpression, 1, "")]);
}

#[test]
fn parser_test_six() {
    let sources = "1.0 + 2.0; \n 2.0 * 3.0 + 4.0;\n".to_string();
    let tok = scan(&sources);
    let (statements, errors) = Parser::new(tok).parse();
    assert_eq!(errors, vec![]);
    let (one, two) = (number_literal(1.0), number_literal(2.0));
    let sum = binary(one, BinaryOp::Plus, TokenType::Plus, "+", two);
    let product = Expr::Binary {
        left: Box::new(number_literal(2.0)),
        operator: BinaryOp::Star,
        token: token(TokenType::Star, "*", 2),
        right: Box::new(number_literal(3.0)),
    };
    let second = Expr::Binary {
        left: Box::new(product),
        operator: BinaryOp::Plus,
        token: token(TokenType::Plus, "+", 2),
        right: Box::new(number_literal(4.0)),
    };
    assert_eq!(statements, vec![Stmt::Expression(sum), Stmt::Expression(second)]);
}

#[test]
fn parser_test_seven() {
    let sources = "var abc = 123.0; \n print abc;\n print  2.0 * abc + 4.0;\n".to_string();
    let tok = scan(&sources);
    let (statements, errors) = Parser::new(tok).parse();
    assert_eq!(errors, vec![fault(ParseErrorKind::UnexpectedToken, 1, "abc")]);
    let product = Expr::Binary {
        left: Box::new(number_literal(2.0)),
        operator: BinaryOp::Star,
        token: token(TokenType::Star, "*", 3),
        right: Box::new(variable("abc", 3)),
    };
    let sum = Expr::Binary {
        left: Box::new(product),
        operator: BinaryOp::Plus,
        token: token(TokenType::Plus, "+", 3),
        right: Box::new(number_literal(4.0)),
    };
    assert_eq!(statements, vec![Stmt::Print(variable("abc", 2)), Stmt::Print(sum)]);
}

#[test]
fn parser_test_eight() {
    let sources =
        "var abc = 123.0; var ltl = true; \n print abc;\n print  2.0 * abc + 4.0 > 0.0 == true;"
            .to_string();
    let tok = scan(&sources);
    let (statements, errors) = Parser::new(tok).parse();
    assert_eq!(
        errors,
        vec![
            fault(ParseErrorKind::UnexpectedToken, 1, "abc"),
            fault(ParseErrorKind::UnexpectedToken, 1, "ltl"),
        ]
    );
    assert_eq!(statements.len(), 2);
    assert_eq!(statements[0], Stmt::Print(variable("abc", 2)));
    match &statements[1] {
        Stmt::Print(Expr::Binary { left, operator: BinaryOp::EqualEqual, right, .. }) => {
            assert!(matches!(**left, Expr::Binary { operator: BinaryOp::Greater, .. }));
            assert_eq!(**right, Expr::Literal { value: Value::Boolean(true) });
        }
        other => panic!("not the comparison under ==: {other:?}"),
    }
}

#[test]
fn parser_test_nine() {
    let sources = "var abc = 123.0;var bbb =10.0; abc =bbb= 10.0;".to_string();
    let tok = scan(&sources);
    let (statements, errors) = Parser::new(tok).parse();
    assert_eq!(
        errors,
        vec![
            fault(ParseErrorKind::UnexpectedToken, 1, "abc"),
            fault(ParseErrorKind::UnexpectedToken, 1, "bbb"),
        ]
    );
    let inner = Expr::Assign {
        name: token(TokenType::Identifier, "bbb", 1),
        value: Box::new(number_literal(10.0)),
    };
    let outer =
        Expr::Assign { name: token(TokenType::Identifier, "abc", 1), value: Box::new(inner) };
    assert_eq!(statements, vec![Stmt::Expression(outer)]);
}

#[test]
fn empty_program_has_no_statements() {
    let (statements, errors) = parse("");
    assert!(statements.is_empty());
    assert!(errors.is_empty());
}

#[test]
fn a_stream_without_its_end_marker_is_not_accepted() {
    assert!(!Parser::accepts(&vec![]));
    assert!(!Parser::accepts(&vec![token(TokenType::Semicolon, ";", 1)]));
    assert!(Parser::accepts(&vec![token(TokenType::Eof, "", 1)]));
}

#[test]
fn one_malformed_statement_costs_one_error_and_nothing_else() {
    let (statements, errors) = parse("1.0 + * 2.0;\nprint 1.0;\nlet a = 2.0;");
    assert_eq!(errors, vec![fault(ParseErrorKind::ExpectedExpression, 1, "*")]);
    assert_eq!(
        statements,
        vec![
            Stmt::Print(number_literal(1.0)),
            Stmt::Let {
                name: token(TokenType::Identifier, "a", 3),
                initializer: number_literal(2.0),
            },
        ]
    );
}

#[test]
fn reading_is_taken_up_at_a_keyword_too() {
    let (statements, errors) = parse("1.0 2.0 print 3.0;");
    assert_eq!(errors, vec![fault(ParseErrorKind::UnexpectedToken, 1, "2.0")]);
    assert_eq!(statements, vec![Stmt::Print(number_literal(3.0))]);
}

#[test]
fn every_malformed_statement_is_reported() {
    let (statements, errors) = parse("(1.0;\n= 2.0;\nprint;\nprint 4.0;");
    assert_eq!(
        errors,
        vec![
            fault(ParseErrorKind::UnexpectedToken, 1, ";"),
            fault(ParseErrorKind::ExpectedExpression, 2, "="),
            fault(ParseErrorKind::ExpectedExpression, 3, ";"),
        ]
    );
    assert_eq!(statements, vec![Stmt::Print(number_literal(4.0))]);
}

#[test]
fn factors_bind_tighter_than_terms() {
    let statements = parse_clean("1.0 + 2.0 * 3.0;");
    let (two, three) = (number_literal(2.0), number_literal(3.0));
    let product = binary(two, BinaryOp::Star, TokenType::Star, "*", three);
    let sum = binary(number_literal(1.0), BinaryOp::Plus, TokenType::Plus, "+", product);
    assert_eq!(statements, vec![Stmt::Expression(sum)]);
}

#[test]
fn infix_operators_group_from_the_left() {
    let statements = parse_clean("8.0 - 3.0 - 2.0;");
    let (eight, three) = (number_literal(8.0), number_literal(3.0));
    let first = binary(eight, BinaryOp::Minus, TokenType::Minus, "-", three);
    let whole = binary(first, BinaryOp::Minus, TokenType::Minus, "-", number_literal(2.0));
    assert_eq!(statements, vec![Stmt::Expression(whole)]);
}

#[test]
fn every_infix_operator_is_read() {
    let cases = [
        ("-", TokenType::Minus, BinaryOp::Minus),
        ("+", TokenType::Plus, BinaryOp::Plus),
        ("/", TokenType::Slash, BinaryOp::Slash),
        ("*", TokenType::Star, BinaryOp::Star),
        (">", TokenType::Greater, BinaryOp::Greater),
        (">=", TokenType::GreaterEqual, BinaryOp::GreaterEqual),
        ("<", TokenType::Less, BinaryOp::Less),
        ("<=", TokenType::LessEqual, BinaryOp::LessEqual),
        ("==", TokenType::EqualEqual, BinaryOp::EqualEqual),
        ("!=", TokenType::BangEqual, BinaryOp::BangEqual),
    ];
    for (lexeme, token_type, operator) in cases {
        let statements = parse_clean(&format!("1.0 {lexeme} 2.0;"));
        let (one, two) = (number_literal(1.0), number_literal(2.0));
        let expected = binary(one, operator, token_type, lexeme, two);
        assert_eq!(statements, vec![Stmt::Expression(expected)], "{lexeme}");
    }
}

#[test]
fn and_binds_tighter_than_or() {
    let statements = parse_clean("a or b and c;");
    let and = Expr::Logical {
        left: Box::new(variable("b", 1)),
        operator: LogicalOp::And,
        token: token(TokenType::And, "and", 1),
        right: Box::new(variable("c", 1)),
    };
    let or = Expr::Logical {
        left: Box::new(variable("a", 1)),
        operator: LogicalOp::Or,
        token: token(TokenType::Or, "or", 1),
        right: Box::new(and),
    };
    assert_eq!(statements, vec![Stmt::Expression(or)]);
}

#[test]
fn unary_operators_nest_to_the_right() {
    let statements = parse_clean("!-1.0;");
    let minus = Expr::Unary {
        operator: UnaryOp::Minus,
        token: token(TokenType::Minus, "-", 1),
        right: Box::new(number_literal(1.0)),
    };
    let bang = Expr::Unary {
        operator: UnaryOp::Bang,
        token: token(TokenType::Bang, "!", 1),
        right: Box::new(minus),
    };
    assert_eq!(statements, vec![Stmt::Expression(bang)]);
}

#[test]
fn parentheses_make_a_grouping() {
    let statements = parse_clean("(1.0 + 2.0) * 3.0;");
    let (one, two) = (number_literal(1.0), number_literal(2.0));
    let sum = binary(one, BinaryOp::Plus, TokenType::Plus, "+", two);
    let grouping = Expr::Grouping { expression: Box::new(sum) };
    let product = binary(grouping, BinaryOp::Star, TokenType::Star, "*", number_literal(3.0));
    assert_eq!(statements, vec![Stmt::Expression(product)]);
}

#[test]
fn literals_are_read_with_their_payload() {
    let statements = parse_clean("\"hi\"; true; false; nil; 2.5;");
    assert_eq!(
        statements,
        vec![
            Stmt::Expression(Expr::Literal { value: text("hi") }),
            Stmt::Expression(Expr::Literal { value: Value::Boolean(true) }),
            Stmt::Expression(Expr::Literal { value: Value::Boolean(false) }),
            Stmt::Expression(Expr::Literal { value: Value::Nil }),
            Stmt::Expression(number_literal(2.5)),
        ]
    );
}

#[test]
fn a_literal_token_without_payload_is_a_fault_at_the_token_behind_it() {
    let tokens = vec![
        token(TokenType::Number, "1.0", 1),
        token(TokenType::Semicolon, ";", 2),
        token(TokenType::String, "\"x\"", 3),
        token(TokenType::Semicolon, ";", 4),
        token(TokenType::Eof, "", 5),
    ];
    let (statements, errors) = Parser::new(tokens).parse();
    assert!(statements.is_empty());
    assert_eq!(
        errors,
        vec![
            fault(ParseErrorKind::MissingLiteral, 2, ";"),
            fault(ParseErrorKind::MissingLiteral, 4, ";"),
        ]
    );
}

#[test]
fn a_literal_token_with_the_wrong_payload_is_a_fault() {
    let tokens = vec![
        Token::new(
            TokenType::Number,
            "1.0".to_string(),
            Some(LiteralValue::Text("1.0".to_string())),
            1,
        ),
        token(TokenType::Semicolon, ";", 1),
        token(TokenType::Eof, "", 1),
    ];
    let (statements, errors) = Parser::new(tokens).parse();
    assert!(statements.is_empty());
    assert_eq!(errors, vec![fault(ParseErrorKind::MissingLiteral, 1, ";")]);
}

#[test]
fn only_a_variable_can_be_assigned_to() {
    let (statements, errors) = parse("a = 1.0;\n(a) = 2.0;\n1.0 = 3.0;\na + b = 4.0;");
    assert_eq!(
        errors,
        vec![
            fault(ParseErrorKind::InvalidAssignmentTarget, 2, "="),
            fault(ParseErrorKind::InvalidAssignmentTarget, 3, "="),
            fault(ParseErrorKind::InvalidAssignmentTarget, 4, "="),
        ]
    );
    assert_eq!(statements.len(), 1);
}

#[test]
fn let_without_initializer_holds_nil() {
    let statements = parse_clean("let a;");
    assert_eq!(
        statements,
        vec![Stmt::Let {
            name: token(TokenType::Identifier, "a", 1),
            initializer: Expr::Literal { value: Value::Nil },
        }]
    );
}

#[test]
fn let_needs_a_name_and_a_semicolon() {
    let (statements, errors) = parse("let 1.0;\nlet a = 1.0\nprint a;");
    assert_eq!(
        errors,
        vec![
            fault(ParseErrorKind::UnexpectedToken, 1, "1.0"),
            fault(ParseErrorKind::UnexpectedToken, 3, "print"),
        ]
    );
    assert!(statements.is_empty());
}

#[test]
fn a_block_owns_its_declarations() {
    let statements = parse_clean("{ let a = 1.0; print a; { } }");
    assert_eq!(
        statements,
        vec![Stmt::Block {
            statements: vec![
                Stmt::Let {
                    name: token(TokenType::Identifier, "a", 1),
                    initializer: number_literal(1.0),
                },
                Stmt::Print(variable("a", 1)),
                Stmt::Block { statements: vec![] },
            ],
        }]
    );
}

#[test]
fn a_block_that_is_not_closed_is_a_fault_at_the_end() {
    let (statements, errors) = parse("{ print 1.0;");
    assert!(statements.is_empty());
    assert_eq!(errors, vec![fault(ParseErrorKind::UnexpectedToken, 1, "")]);
}

#[test]
fn a_fault_in_a_block_gives_up_the_block() {
    let (statements, errors) = parse("{ 1.0 +; print 2.0; } print 3.0;");
    assert_eq!(
        errors,
        vec![
            fault(ParseErrorKind::ExpectedExpression, 1, ";"),
            fault(ParseErrorKind::ExpectedExpression, 1, "}"),
        ]
    );
    assert_eq!(statements, vec![Stmt::Print(number_literal(3.0))]);
}

#[test]
fn if_takes_a_statement_and_an_optional_else() {
    let statements = parse_clean("if a print 1.0; else { print 2.0; } if b print 3.0;");
    assert_eq!(
        statements,
        vec![
            Stmt::If {
                condition: variable("a", 1),
                then_branch: Box::new(Stmt::Print(number_literal(1.0))),
                else_branch: Some(Box::new(Stmt::Block {
                    statements: vec![Stmt::Print(number_literal(2.0))],
                })),
            },
            Stmt::If {
                condition: variable("b", 1),
                then_branch: Box::new(Stmt::Print(number_literal(3.0))),
                else_branch: None,
            },
        ]
    );
}

#[test]
fn else_belongs_to_the_nearest_if() {
    let statements = parse_clean("if a if b print 1.0; else print 2.0;");
    match &statements[..] {
        [Stmt::If { then_branch, else_branch: None, .. }] => {
            assert!(matches!(**then_branch, Stmt::If { else_branch: Some(_), .. }));
        }
        other => panic!("not one if without else: {other:?}"),
    }
}

#[test]
fn a_parser_that_has_parsed_finds_nothing_more() {
    let mut parser = Parser::new(scan("print 1.0; print"));
    let (statements, errors) = parser.parse();
    assert_eq!(statements.len(), 1);
    assert_eq!(errors.len(), 1);
    let (statements, errors) = parser.parse();
    assert!(statements.is_empty());
    assert!(errors.is_empty());
}

#[test]
fn faults_carry_their_line() {
    let (_, errors) = parse("print 1.0;\n\nprint 2.0 +;\n");
    assert_eq!(errors, vec![fault(ParseErrorKind::ExpectedExpression, 3, ";")]);
}

// ---------------------------------------------------------------------------
// The interpreter.

#[test]
fn test_inter_one() {
    let sources = "1.0 * 3.0 * 2.0 + 2.0 * 4.1 = 14.0".to_string();
    let tok = scan(&sources);
    let (pas, errors) = Parser::new(tok).parse();
    assert!(pas.is_empty());
    assert_eq!(errors, vec![fault(ParseErrorKind::InvalidAssignmentTarget, 1, "=")]);
}

#[test]
fn test_inter_two() {
    let sources =
        "1.0 * 3.0 * ( 2.0 + 14.0 ) * 4.0 / 8.0 ; \n print \" Successfully!! \"; ".to_string();
    let tok = scan(&sources);
    let (pas, errors) = Parser::new(tok).parse();
    assert_eq!(errors, vec![]);
    let mut machine = interpreter();
    assert_eq!(machine.interpreter(&pas), Ok(()));
    assert_eq!(machine.output(), &vec![text(" Successfully!! ")]);
    match &pas[0] {
        Stmt::Expression(expr) => assert_eq!(interpreter().evaluate(expr), Ok(number(24.0))),
        other => panic!("not an expression: {other:?}"),
    }
}

#[test]
fn test_inter_three() {
    let sources = "let a = 10.0; let b = 2.0; print a + b + 12.0; ".to_string();
    let tok = scan(&sources);
    let (pas, errors) = Parser::new(tok).parse();
    assert_eq!(errors, vec![]);
    let mut machine = interpreter();
    assert_eq!(machine.interpreter(&pas), Ok(()));
    assert_eq!(machine.output(), &vec![number(24.0)]);
}

#[test]
fn test_inter_four() {
    let sources = "let a = 10.0; let b = 2.0; print a + b + 12.0 >= 25.0 == true; ".to_string();
    let tok = scan(&sources);
    let (pas, errors) = Parser::new(tok).parse();
    assert_eq!(errors, vec![]);
    let mut machine = interpreter();
    assert_eq!(machine.interpreter(&pas), Ok(()));
    assert_eq!(machine.output(), &vec![Value::Boolean(false)]);
}

#[test]
fn test_inter_five() {
    let sources = "let a = 10.0; print a = 20.0; a = a + 20.0; print a ; ".to_string();
    let tok = scan(&sources);
    let (pas, errors) = Parser::new(tok).parse();
    assert_eq!(errors, vec![]);
    let mut machine = interpreter();
    assert_eq!(machine.interpreter(&pas), Ok(()));
    assert_eq!(machine.output(), &vec![number(20.0), number(40.0)]);
}

#[test]
fn arithmetic_follows_precedence_and_grouping() {
    assert_eq!(value_of("1.0 * 3.0 * 2.0 + 2.0 * 4.1"), Ok(number(14.2)));
    assert_eq!(value_of("1.0 * 3.0 * 2.0 + 2.0 * 4.1"), Ok(number(1.0 * 3.0 * 2.0 + 2.0 * 4.1)));
    assert_eq!(value_of("2.0 + 3.0 * 4.0"), Ok(number(14.0)));
    assert_eq!(value_of("(2.0 + 3.0) * 4.0"), Ok(number(20.0)));
    assert_eq!(value_of("8.0 - 3.0 - 2.0"), Ok(number(3.0)));
    assert_eq!(value_of("8.0 - (3.0 - 2.0)"), Ok(number(7.0)));
    assert_eq!(value_of("8.0 / 4.0 / 2.0"), Ok(number(1.0)));
    assert_eq!(value_of("1.0 / 3.0"), Ok(number(1.0 / 3.0)));
    assert_eq!(value_of("0.1 + 0.2"), Ok(number(0.1 + 0.2)));
    assert_eq!(value_of("-2.0 * -3.0"), Ok(number(6.0)));
    assert_eq!(value_of("- - 2.0"), Ok(number(2.0)));
}

#[test]
fn division_by_zero_follows_the_rules_of_floats() {
    assert_eq!(value_of("1.0 / 0.0"), Ok(number(f64::INFINITY)));
    assert_eq!(value_of("-1.0 / 0.0"), Ok(number(f64::NEG_INFINITY)));
    match value_of("0.0 / 0.0") {
        Ok(Value::Number(bits)) => assert!(f64::from_bits(bits).is_nan()),
        other => panic!("not a number: {other:?}"),
    }
    assert_eq!(value_of("0.0 / 0.0 == 0.0 / 0.0"), Ok(Value::Boolean(false)));
    assert_eq!(value_of("0.0 / 0.0 != 0.0 / 0.0"), Ok(Value::Boolean(true)));
}

#[test]
fn the_arithmetic_is_asked_in_the_order_of_the_operands() {
    let statements = parse_clean("1.0 - 2.0;");
    let Stmt::Expression(expr) = &statements[0] else { panic!("not an expression") };
    let mut first = Interpreter::new(left_only as Arithmetic);
    let mut second = Interpreter::new(right_only as Arithmetic);
    assert_eq!(first.evaluate(expr), Ok(number(1.0)));
    assert_eq!(second.evaluate(expr), Ok(number(2.0)));
}

#[test]
fn each_operator_asks_for_its_own_operation() {
    let cases = [("5.0 + 6.0;", 1), ("5.0 - 6.0;", 2), ("5.0 * 6.0;", 3), ("5.0 / 6.0;", 4)];
    for (source, expected) in cases {
        let statements = parse_clean(source);
        let Stmt::Expression(expr) = &statements[0] else { panic!("not an expression") };
        let mut machine = Interpreter::new(name_it as Arithmetic);
        assert_eq!(machine.evaluate(expr), Ok(Value::Number(expected)), "{source}");
    }
}

#[test]
fn plus_concatenates_two_texts() {
    assert_eq!(value_of("\"a\" + \"b\""), Ok(text("ab")));
    assert_eq!(value_of("\"\" + \"\""), Ok(text("")));
    assert_eq!(value_of("\"a\" + \"b\" + \"c\""), Ok(text("abc")));
}

#[test]
fn plus_takes_no_mixed_pair() {
    assert_eq!(value_of("\"a\" + 1.0"), Err(type_error(1, "+")));
    assert_eq!(value_of("1.0 + \"a\""), Err(type_error(1, "+")));
    assert_eq!(value_of("nil + nil"), Err(type_error(1, "+")));
    assert_eq!(value_of("true + 1.0"), Err(type_error(1, "+")));
}

#[test]
fn arithmetic_and_comparison_take_numbers_only() {
    for operator in ["-", "*", "/", ">", ">=", "<", "<="] {
        assert_eq!(
            value_of(&format!("\"a\" {operator} \"b\"")),
            Err(type_error(1, operator)),
            "{operator}"
        );
        assert_eq!(
            value_of(&format!("1.0 {operator} nil")),
            Err(type_error(1, operator)),
            "{operator}"
        );
        assert_eq!(
            value_of(&format!("true {operator} 1.0")),
            Err(type_error(1, operator)),
            "{operator}"
        );
    }
}

#[test]
fn comparisons_order_numbers() {
    assert_eq!(value_of("1.0 < 2.0"), Ok(Value::Boolean(true)));
    assert_eq!(value_of("2.0 < 1.0"), Ok(Value::Boolean(false)));
    assert_eq!(value_of("2.0 < 2.0"), Ok(Value::Boolean(false)));
    assert_eq!(value_of("2.0 <= 2.0"), Ok(Value::Boolean(true)));
    assert_eq!(value_of("3.0 <= 2.0"), Ok(Value::Boolean(false)));
    assert_eq!(value_of("2.0 > 1.0"), Ok(Value::Boolean(true)));
    assert_eq!(value_of("1.0 > 2.0"), Ok(Value::Boolean(false)));
    assert_eq!(value_of("2.0 >= 2.0"), Ok(Value::Boolean(true)));
    assert_eq!(value_of("1.0 >= 2.0"), Ok(Value::Boolean(false)));
    assert_eq!(value_of("-1.0 < 1.0"), Ok(Value::Boolean(true)));
    assert_eq!(value_of("-2.0 < -1.0"), Ok(Value::Boolean(true)));
    assert_eq!(value_of("0.0 / 0.0 < 1.0"), Ok(Value::Boolean(false)));
    assert_eq!(value_of("0.0 / 0.0 >= 1.0"), Ok(Value::Boolean(false)));
}

#[test]
fn unary_minus_takes_a_number() {
    assert_eq!(value_of("-3.5"), Ok(number(-3.5)));
    assert_eq!(value_of("-0.0"), Ok(number(-0.0)));
    assert_eq!(value_of("-\"a\""), Err(type_error(1, "-")));
    assert_eq!(value_of("-nil"), Err(type_error(1, "-")));
    assert_eq!(value_of("-true"), Err(type_error(1, "-")));
}

#[test]
fn bang_gives_the_complement_of_truthiness() {
    assert_eq!(value_of("!true"), Ok(Value::Boolean(false)));
    assert_eq!(value_of("!false"), Ok(Value::Boolean(true)));
    assert_eq!(value_of("!nil"), Ok(Value::Boolean(true)));
    assert_eq!(value_of("!0.0"), Ok(Value::Boolean(false)));
    assert_eq!(value_of("!\"\""), Ok(Value::Boolean(false)));
    assert_eq!(value_of("!!nil"), Ok(Value::Boolean(false)));
}

#[test]
fn only_false_and_nil_are_falsy() {
    let machine = interpreter();
    assert!(!machine.is_truthy(&Value::Boolean(false)));
    assert!(!machine.is_truthy(&Value::Nil));
    assert!(machine.is_truthy(&Value::Boolean(true)));
    assert!(machine.is_truthy(&number(0.0)));
    assert!(machine.is_truthy(&number(f64::NAN)));
    assert!(machine.is_truthy(&text("")));
    assert!(machine.is_truthy(&text("false")));
}

#[test]
fn equality_takes_every_pair() {
    assert_eq!(value_of("1.0 == \"1.0\""), Ok(Value::Boolean(false)));
    assert_eq!(value_of("nil == nil"), Ok(Value::Boolean(true)));
    assert_eq!(value_of("nil == false"), Ok(Value::Boolean(false)));
    assert_eq!(value_of("1.0 != \"1.0\""), Ok(Value::Boolean(true)));
    assert_eq!(value_of("nil != nil"), Ok(Value::Boolean(false)));
    assert_eq!(value_of("nil != false"), Ok(Value::Boolean(true)));
    assert_eq!(value_of("1.0 == 1.0"), Ok(Value::Boolean(true)));
    assert_eq!(value_of("1.0 == 2.0"), Ok(Value::Boolean(false)));
    assert_eq!(value_of("0.0 == -0.0"), Ok(Value::Boolean(true)));
    assert_eq!(value_of("\"a\" == \"a\""), Ok(Value::Boolean(true)));
    assert_eq!(value_of("\"a\" == \"b\""), Ok(Value::Boolean(false)));
    assert_eq!(value_of("true == true"), Ok(Value::Boolean(true)));
    assert_eq!(value_of("true == false"), Ok(Value::Boolean(false)));
    assert_eq!(value_of("true == 1.0"), Ok(Value::Boolean(false)));
    assert_eq!(value_of("\"\" == nil"), Ok(Value::Boolean(false)));
    assert_eq!(value_of("0.0 == false"), Ok(Value::Boolean(false)));
}

#[test]
fn equality_is_decided_for_every_pair_of_values() {
    let values = [
        number(1.0),
        number(f64::NAN),
        text("1.0"),
        text(""),
        Value::Boolean(true),
        Value::Boolean(false),
        Value::Nil,
    ];
    for (i, left) in values.iter().enumerate() {
        for (j, right) in values.iter().enumerate() {
            let expected = i == j && i != 1;
            assert_eq!(left.is_equal(right), expected, "{left:?} == {right:?}");
            assert_eq!(right.is_equal(left), expected, "{right:?} == {left:?}");
            for (operator, token_type, lexeme, result) in [
                (BinaryOp::EqualEqual, TokenType::EqualEqual, "==", expected),
                (BinaryOp::BangEqual, TokenType::BangEqual, "!=", !expected),
            ] {
                let expr = binary(
                    Expr::Literal { value: left.clone() },
                    operator,
                    token_type,
                    lexeme,
                    Expr::Literal { value: right.clone() },
                );
                assert_eq!(interpreter().evaluate(&expr), Ok(Value::Boolean(result)));
            }
        }
    }
}

#[test]
fn a_variable_is_declared_assigned_and_read() {
    let statements = parse_clean("let a = 10.0; a = a + 20.0;");
    let mut machine = interpreter();
    assert_eq!(machine.interpreter(&statements), Ok(()));
    assert_eq!(machine.evaluate(&variable("a", 1)), Ok(number(30.0)));
    assert_eq!(machine.evaluate(&variable("b", 7)), Err(name_error(7, "b")));
}

#[test]
fn reading_an_undeclared_name_is_a_name_error() {
    assert_eq!(value_of("a"), Err(name_error(1, "a")));
    assert_eq!(run("print 1.0;\nprint a;"), (vec![number(1.0)], Err(name_error(2, "a"))));
}

#[test]
fn assigning_an_undeclared_name_is_a_name_error() {
    assert_eq!(value_of("a = 1.0"), Err(name_error(1, "a")));
    let statements = parse_clean("a = 1.0;");
    let mut machine = interpreter();
    assert_eq!(machine.interpreter(&statements), Err(name_error(1, "a")));
    assert_eq!(machine.evaluate(&variable("a", 1)), Err(name_error(1, "a")));
}

#[test]
fn assignment_is_an_expression_worth_what_it_stores() {
    assert_eq!(printed("let a = 1.0; let b = 2.0; print a = b = 3.0; print a; print b;"), vec![
        number(3.0),
        number(3.0),
        number(3.0)
    ]);
}

#[test]
fn let_without_initializer_binds_nothing() {
    assert_eq!(run("let a; print a;"), (vec![], Err(name_error(1, "a"))));
    assert_eq!(run("let a; a = 1.0;"), (vec![], Err(name_error(1, "a"))));
    assert_eq!(run("let a = nil; print a;"), (vec![], Err(name_error(1, "a"))));
    assert_eq!(printed("let a = 1.0; let a; print a;"), vec![number(1.0)]);
}

#[test]
fn let_defines_again_in_the_same_scope() {
    assert_eq!(printed("let a = 1.0; let a = \"x\"; print a;"), vec![text("x")]);
}

#[test]
fn a_block_shadows_and_restores() {
    assert_eq!(printed("let a = 1.0; { let a = 2.0; print a; } print a;"), vec![
        number(2.0),
        number(1.0)
    ]);
}

#[test]
fn a_block_assigns_to_the_scope_that_defines_the_name() {
    assert_eq!(printed("let a = 1.0; { a = 2.0; { a = a + 1.0; } } print a;"), vec![number(3.0)]);
    assert_eq!(printed("let a = 1.0; { let a = 5.0; a = 6.0; print a; } print a;"), vec![
        number(6.0),
        number(1.0)
    ]);
}

#[test]
fn what_a_block_binds_is_gone_behind_it() {
    assert_eq!(run("{ let a = 1.0; } print a;"), (vec![], Err(name_error(1, "a"))));
}

#[test]
fn a_fault_in_a_block_leaves_the_block() {
    let statements = parse_clean("let a = 1.0; { let a = 2.0; { let b = 3.0; print c; } }");
    let mut machine = interpreter();
    assert_eq!(machine.interpreter(&statements), Err(name_error(1, "c")));
    assert_eq!(machine.evaluate(&variable("a", 1)), Ok(number(1.0)));
    assert_eq!(machine.evaluate(&variable("b", 1)), Err(name_error(1, "b")));
    let more = parse_clean("let d = 4.0; { } print d;");
    assert_eq!(machine.interpreter(&more), Ok(()));
    assert_eq!(machine.output(), &vec![number(4.0)]);
}

#[test]
fn a_fault_ends_the_run_and_rolls_nothing_back() {
    let statements = parse_clean("let a = 1.0; print a; a = 2.0; print -\"x\"; print a; a = 3.0;");
    let mut machine = interpreter();
    assert_eq!(machine.interpreter(&statements), Err(type_error(1, "-")));
    assert_eq!(machine.output(), &vec![number(1.0)]);
    assert_eq!(machine.evaluate(&variable("a", 1)), Ok(number(2.0)));
}

#[test]
fn a_fault_in_the_right_operand_keeps_what_the_left_one_assigned() {
    let statements = parse_clean("let a = 1.0; (a = 2.0) + b;");
    let mut machine = interpreter();
    assert_eq!(machine.interpreter(&statements), Err(name_error(1, "b")));
    assert_eq!(machine.evaluate(&variable("a", 1)), Ok(number(2.0)));
}

#[test]
fn both_operands_are_evaluated_before_their_kinds_are_tested() {
    let statements = parse_clean("let a = 1.0; \"x\" - (a = 2.0);");
    let mut machine = interpreter();
    assert_eq!(machine.interpreter(&statements), Err(type_error(1, "-")));
    assert_eq!(machine.evaluate(&variable("a", 1)), Ok(number(2.0)));
}

#[test]
fn and_stops_at_a_falsy_left_operand() {
    assert_eq!(value_of("false and (1.0 / 0.0)"), Ok(Value::Boolean(false)));
    assert_eq!(value_of("false and missing"), Ok(Value::Boolean(false)));
    assert_eq!(value_of("nil and missing"), Ok(Value::Nil));
    assert_eq!(value_of("false and -\"x\""), Ok(Value::Boolean(false)));
    assert_eq!(printed("let a = 1.0; false and (a = 2.0); print a;"), vec![number(1.0)]);
}

#[test]
fn or_stops_at_a_truthy_left_operand() {
    assert_eq!(value_of("true or missing"), Ok(Value::Boolean(true)));
    assert_eq!(value_of("1.0 or missing"), Ok(number(1.0)));
    assert_eq!(value_of("\"\" or missing"), Ok(text("")));
    assert_eq!(printed("let a = 1.0; true or (a = 2.0); print a;"), vec![number(1.0)]);
}

#[test]
fn logical_operators_give_an_operand_itself() {
    assert_eq!(value_of("1.0 and 2.0"), Ok(number(2.0)));
    assert_eq!(value_of("true and nil"), Ok(Value::Nil));
    assert_eq!(value_of("nil or \"x\""), Ok(text("x")));
    assert_eq!(value_of("false or false"), Ok(Value::Boolean(false)));
    assert_eq!(value_of("true and missing"), Err(name_error(1, "missing")));
    assert_eq!(value_of("false or missing"), Err(name_error(1, "missing")));
    assert_eq!(value_of("missing and true"), Err(name_error(1, "missing")));
}

#[test]
fn if_runs_the_branch_that_its_condition_selects() {
    assert_eq!(printed("if false print 1.0; else print 2.0;"), vec![number(2.0)]);
    assert_eq!(printed("if true print 1.0; else print 2.0;"), vec![number(1.0)]);
    assert_eq!(printed("if true print 1.0;"), vec![number(1.0)]);
    assert_eq!(printed("if false print 1.0;"), vec![]);
    assert_eq!(printed("if nil print 1.0; else print 2.0;"), vec![number(2.0)]);
    assert_eq!(printed("if 0.0 print 1.0; else print 2.0;"), vec![number(1.0)]);
    assert_eq!(printed("if \"\" print 1.0; else print 2.0;"), vec![number(1.0)]);
}

#[test]
fn if_does_not_touch_the_branch_it_leaves_out() {
    assert_eq!(printed("if false print missing; else print 2.0;"), vec![number(2.0)]);
    assert_eq!(printed("if true print 1.0; else print missing;"), vec![number(1.0)]);
    assert_eq!(printed("if false print missing;"), vec![]);
    assert_eq!(
        run("if missing print 1.0; else print 2.0;"),
        (vec![], Err(name_error(1, "missing")))
    );
}

#[test]
fn print_keeps_the_values_in_order() {
    assert_eq!(printed("print 1.5; print \"a\"; print true; print nil; print false;"), vec![
        number(1.5),
        text("a"),
        Value::Boolean(true),
        Value::Nil,
        Value::Boolean(false),
    ]);
}

#[test]
fn an_expression_statement_prints_nothing() {
    assert_eq!(printed("1.0 + 2.0; \"a\";"), vec![]);
}

#[test]
fn values_are_shown_as_text() {
    assert_eq!(text("raw \"text\"").text(), Some("raw \"text\"".to_string()));
    assert_eq!(Value::Boolean(true).text(), Some("true".to_string()));
    assert_eq!(Value::Boolean(false).text(), Some("false".to_string()));
    assert_eq!(Value::Nil.text(), Some("nil".to_string()));
    assert_eq!(number(1.5).text(), None);
}

#[test]
fn a_new_interpreter_has_printed_nothing() {
    let machine = interpreter();
    assert!(machine.output().is_empty());
}

#[test]
fn runtime_faults_carry_line_and_lexeme() {
    assert_eq!(
        run("print 1.0;\n\nprint 1.0 <\n nil;"),
        (vec![number(1.0)], Err(type_error(3, "<")))
    );
    assert_eq!(run("\n\nlong_name = 1.0;"), (vec![], Err(name_error(3, "long_name"))));
}

#[test]
fn messages_spell_out_line_and_lexeme() {
    assert_eq!(
        fault(ParseErrorKind::ExpectedExpression, 3, ";").message(),
        "line 3, at ';': an expression is expected"
    );
    assert_eq!(
        fault(ParseErrorKind::UnexpectedToken, 10, "").message(),
        "line 10, at '': another token is expected"
    );
    assert_eq!(
        fault(ParseErrorKind::MissingLiteral, 0, "\"x\"").message(),
        "line 0, at '\"x\"': a literal came without its value"
    );
    assert_eq!(
        fault(ParseErrorKind::InvalidAssignmentTarget, 1234567, "=").message(),
        "line 1234567, at '=': only a variable can be assigned to"
    );
    assert_eq!(type_error(42, "+").message(), "line 42, at '+': an operand is of the wrong kind");
    assert_eq!(name_error(7, "abc").message(), "line 7, at 'abc': the name is not defined");
}

#[test]
fn numbers_are_written_in_decimal() {
    for number in [0usize, 1, 9, 10, 11, 99, 100, 101, 1090, 65535, 1_000_000, usize::MAX] {
        assert_eq!(decimal_text(number), number.to_string());
    }
}

#[test]
fn the_message_of_a_fault_found_by_the_parser() {
    let (_, errors) = parse("print 1.0;\nprint (2.0;\n");
    let messages: Vec<String> = errors.iter().map(ParseError::message).collect();
    assert_eq!(messages, vec!["line 2, at ';': another token is expected".to_string()]);
}

#[test]
fn the_message_of_a_fault_found_while_running() {
    let (_, outcome) = run("print 1.0;\n\nprint 1.0 + \"a\";");
    assert_eq!(outcome.unwrap_err().message(), "line 3, at '+': an operand is of the wrong kind");
}

#[test]
fn a_list_runs_as_its_parts_one_behind_the_other() {
    let whole = parse_clean("let a = 1.0; print a; a = a + 1.0; print a;");
    let first = parse_clean("let a = 1.0; print a;");
    let second = parse_clean("a = a + 1.0; print a;");
    let mut at_once = interpreter();
    assert_eq!(at_once.interpreter(&whole), Ok(()));
    let mut in_parts = interpreter();
    assert_eq!(in_parts.interpreter(&first), Ok(()));
    assert_eq!(in_parts.interpreter(&second), Ok(()));
    assert_eq!(at_once.output(), in_parts.output());
    assert_eq!(at_once.output(), &vec![number(1.0), number(2.0)]);
}

#[test]
fn an_expression_without_assignment_changes_no_variable() {
    let statements = parse_clean("let a = 1.0; let b = \"x\";");
    let mut machine = interpreter();
    assert_eq!(machine.interpreter(&statements), Ok(()));
    let more = parse_clean("(a + 2.0) * -a < 0.0 or b == nil; !b and a; a - b;");
    assert_eq!(machine.interpreter(&more), Err(type_error(1, "-")));
    assert_eq!(machine.evaluate(&variable("a", 1)), Ok(number(1.0)));
    assert_eq!(machine.evaluate(&variable("b", 1)), Ok(text("x")));
}
