use anix::expr::Expr;
use anix::interpreter::{Evaluation, Interpreter, NumericRequest, RuntimeErrorType};
use anix::number::Number;
use anix::parser::Parser;
use anix::runner::{run, RunStep};
use anix::token::{Literal, Token, TokenType};
use anix::value::Value;

fn num(v: f64) -> Number {
    Number { bits: v.to_bits(), text: v.to_string() }
}

fn value_of(n: &Number) -> f64 {
    f64::from_bits(n.bits)
}

fn compute(request: NumericRequest) -> Number {
    match request {
        NumericRequest::Add(a, b) => num(value_of(&a) + value_of(&b)),
        NumericRequest::Subtract(a, b) => num(value_of(&a) - value_of(&b)),
        NumericRequest::Multiply(a, b) => num(value_of(&a) * value_of(&b)),
        NumericRequest::Divide(a, b) => num(value_of(&a) / value_of(&b)),
        NumericRequest::Negate(a) => num(-value_of(&a)),
    }
}

/// Runs `source` to its end: the lines written, each with whether it goes to
/// the error stream, whether the run succeeded, and how many values were asked.
fn run_to_end(source: &str) -> (Vec<(bool, String)>, bool, usize) {
    let source = source.to_string();
    let mut numbers = Vec::new();
    let mut results = Vec::new();
    loop {
        match run(&source, &numbers, &results) {
            RunStep::NeedsNumber(text) => numbers.push(num(text.parse().unwrap())),
            RunStep::NeedsResult(request) => results.push(compute(request)),
            RunStep::Finished { lines, success } => {
                let lines = lines.into_iter().map(|l| (l.to_stderr, l.text)).collect();
                return (lines, success, numbers.len() + results.len());
            },
        }
    }
}

fn out(text: &str) -> (bool, String) {
    (false, text.to_string())
}

fn err(text: &str) -> (bool, String) {
    (true, text.to_string())
}

#[test]
fn run_describes_tokens_statements_and_output() {
    let (lines, success, asked) = run_to_end("var a = 1; print a + 2;");
    assert!(success);
    assert_eq!(asked, 3);
    assert_eq!(
        lines,
        vec![
            out("Token Var (var)"),
            out("Token Identifier (a)"),
            out("Token Equal (=)"),
            out("Token Number (1)"),
            out("Token Semicolon (;)"),
            out("Token Print (print)"),
            out("Token Identifier (a)"),
            out("Token Plus (+)"),
            out("Token Number (2)"),
            out("Token Semicolon (;)"),
            out("Token Eof"),
            out("0: var(a = 1)"),
            out("1: print((+ a 2))"),
            out("3"),
        ]
    );
}

#[test]
fn run_stops_after_scan_errors() {
    let (lines, success, _) = run_to_end("print 1;\n@");
    assert!(!success);
    assert_eq!(lines, vec![out("[line 2] Error : Unexpected lexeme @")]);
}

#[test]
fn run_stops_after_parse_errors() {
    let (lines, success, _) = run_to_end("1 2;");
    assert!(!success);
    assert_eq!(
        lines,
        vec![
            out("Token Number (1)"),
            out("Token Number (2)"),
            out("Token Semicolon (;)"),
            out("Token Eof"),
            out("Expected ';' found 2"),
        ]
    );
}

#[test]
fn run_reports_runtime_errors() {
    let (lines, success, _) = run_to_end("print 1; print 1 - true;");
    assert!(!success);
    let n = lines.len();
    assert_eq!(lines[n - 3], out("1"));
    assert_eq!(lines[n - 2], err("[line 1] Runtime error at '-'"));
    assert_eq!(lines[n - 1], out("Type error: Operands should be Number, got 1 and true"));
    let (lines, success, _) = run_to_end("print y;");
    assert!(!success);
    let n = lines.len();
    assert_eq!(lines[n - 2], err("[line 1] Runtime error at 'y'"));
    assert_eq!(lines[n - 1], err("Undefined variable."));
}

#[test]
fn evaluate_left_operand_first() {
    let y = Token::from_operand(TokenType::Identifier, "y", 1);
    let z = Token::from_operand(TokenType::Identifier, "z", 1);
    let plus = Token::from_operand(TokenType::Plus, "+", 1);
    let mut interpreter = Interpreter::new();
    let both_undefined = Expr::Binary {
        left: Box::new(Expr::Variable(y.clone())),
        op: plus.clone(),
        right: Box::new(Expr::Variable(z.clone())),
    };
    match interpreter.evaluate(&both_undefined) {
        Evaluation::Failed(e) => {
            assert!(matches!(e.kind, RuntimeErrorType::UndefinedVariable));
            assert_eq!(e.token, y);
        },
        _ => panic!("the left operand fails"),
    }
    let right_undefined = Expr::Binary {
        left: Box::new(Expr::Literal(Literal::Num(num(1.0)))),
        op: plus,
        right: Box::new(Expr::Variable(z.clone())),
    };
    match interpreter.evaluate(&right_undefined) {
        Evaluation::Failed(e) => assert_eq!(e.token, z),
        _ => panic!("the right operand fails"),
    }
}

#[test]
fn evaluate_leaves_and_requests() {
    let mut interpreter = Interpreter::new();
    let grouped = Expr::Grouping(Box::new(Expr::Literal(Literal::Bool(true))));
    assert!(matches!(interpreter.evaluate(&grouped), Evaluation::Value(Value::Boolean(true))));
    let semicolon = Token::from_operand(TokenType::Semicolon, ";", 3);
    match interpreter.evaluate(&Expr::Error(semicolon.clone())) {
        Evaluation::Failed(e) => {
            assert!(matches!(e.kind, RuntimeErrorType::ParserError));
            assert_eq!(e.token, semicolon);
        },
        _ => panic!("an error node fails"),
    }
    let negated = Expr::Unary {
        op: Token::from_operand(TokenType::Minus, "-", 1),
        right: Box::new(Expr::Literal(Literal::Num(num(2.0)))),
    };
    match interpreter.evaluate(&negated) {
        Evaluation::Pending(NumericRequest::Negate(a)) => assert_eq!(a, num(2.0)),
        _ => panic!("the negation is needed"),
    }
    interpreter.supply(num(-2.0));
    match interpreter.evaluate(&negated) {
        Evaluation::Value(Value::Number(n)) => assert_eq!(n, num(-2.0)),
        _ => panic!("the supplied result is the value"),
    }
}

#[test]
fn parser_can_parse_and_records_errors() {
    let one = Token::from_literal(TokenType::Number, Literal::Num(num(1.0)), 1);
    let two = Token::from_literal(TokenType::Number, Literal::Num(num(2.0)), 1);
    let sc = Token::from_operand(TokenType::Semicolon, ";", 1);
    let eof = Token::new(TokenType::Eof, "".to_string(), None, 1);
    let bare = Token::new(TokenType::Number, "3".to_string(), None, 1);
    assert!(!Parser::can_parse(&vec![one.clone(), sc.clone()]));
    assert!(!Parser::can_parse(&vec![bare, eof.clone()]));
    assert!(!Parser::can_parse(&vec![]));
    let tokens = vec![one, two, sc, eof];
    assert!(Parser::can_parse(&tokens));
    let mut parser = Parser::new(tokens);
    let stmts = parser.parse();
    assert_eq!(stmts.len(), 1);
    let messages: Vec<String> = parser.recorded_errors().iter().map(|e| e.msg.clone()).collect();
    assert_eq!(messages, vec!["Expected ';' found 2".to_string()]);
}
