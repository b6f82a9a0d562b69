use anix::environment::Environment;
use anix::expr::Expr;
use anix::stmt::Stmt;
use anix::interpreter::{
    is_equal, Interpretation, Interpreter, NumericRequest, RuntimeError, RuntimeErrorType,
};
use anix::number::Number;
use anix::parser::Parser;
use anix::runner::{error, report, runtime_error, split_scanned};
use anix::scanner::{Scanner, Scanning};
use anix::token::{Token, TokenType};
use anix::value::Value;

fn num(v: f64) -> Number {
    Number { bits: v.to_bits(), text: v.to_string() }
}

fn value_of(n: &Number) -> f64 {
    f64::from_bits(n.bits)
}

fn compute(request: NumericRequest) -> Number {
    match request {
        NumericRequest::Add(a, b) => num(value_of(&a) + value_of(&b)),
        NumericRequest::Subtract(a, b) => num(value_of(&a) - value_of(&b)),
        NumericRequest::Multiply(a, b) => num(value_of(&a) * value_of(&b)),
        NumericRequest::Divide(a, b) => num(value_of(&a) / value_of(&b)),
        NumericRequest::Negate(a) => num(-value_of(&a)),
    }
}

/// Scans, parses and runs `source`: the printed lines and the run-time error, if any.
fn run(interpreter: &mut Interpreter, source: &str) -> (Vec<String>, Option<RuntimeError>) {
    let mut scanner = Scanner::new(&source.to_string());
    let results = loop {
        match scanner.scan_tokens() {
            Scanning::Finished(results) => break results,
            Scanning::NeedsNumber(text) => scanner.supply_number(num(text.parse().unwrap())),
        }
    };
    let (tokens, errors) = split_scanned(&results);
    assert!(errors.is_empty());
    let mut parser = Parser::new(tokens);
    let stmts = parser.parse();
    assert!(parser.errors.is_empty());
    loop {
        match interpreter.interpret(&stmts) {
            Interpretation::Finished { outcome, printed } => return (printed, outcome.err()),
            Interpretation::NeedsNumber(request) => interpreter.supply(compute(request)),
        }
    }
}

fn outputs(source: &str) -> Vec<String> {
    let (printed, err) = run(&mut Interpreter::new(), source);
    assert!(err.is_none());
    printed
}

fn failure(source: &str) -> RuntimeError {
    run(&mut Interpreter::new(), source).1.expect("a run-time error")
}

fn message(e: &RuntimeError) -> String {
    match &e.kind {
        RuntimeErrorType::TypeError { message } => message.clone(),
        RuntimeErrorType::OperationError { message } => message.clone(),
        RuntimeErrorType::UndefinedVariable => "undefined".to_string(),
        RuntimeErrorType::ParserError => "parser".to_string(),
    }
}

#[test]
fn interpreting_arithmetic() {
    assert_eq!(outputs("print 1 + 2 * 3;"), vec!["7"]);
    assert_eq!(outputs("print (1 + 2) * 3;"), vec!["9"]);
    assert_eq!(outputs("print 10 / 4 - 0.5;"), vec!["2"]);
    assert_eq!(outputs("print -(2 + 3);"), vec!["-5"]);
    assert_eq!(outputs("print \"ab\" + \"cd\";"), vec!["abcd"]);
}

#[test]
fn interpreting_comparisons_and_equality() {
    assert_eq!(
        outputs("print 1 < 2; print 2 <= 2; print 3 > 4; print 4 >= 5; print 1 == 1; print 1 != 1;"),
        vec!["true", "true", "false", "false", "true", "false"]
    );
    assert_eq!(outputs("print \"a\" == \"a\"; print nil == nil; print true != false;"), vec!["true", "true", "true"]);
    assert_eq!(outputs("print !nil; print !0; print !false; print !\"\";"), vec!["true", "false", "true", "false"]);
}

#[test]
fn interpreting_variables() {
    assert_eq!(outputs("var a = 1; var b; print b; b = a + 1; print b; print a = 5; print a;"), vec!["nil", "2", "5", "5"]);
}

#[test]
fn interpreting_keeps_bindings_between_runs() {
    let mut interpreter = Interpreter::new();
    let (printed, err) = run(&mut interpreter, "var x = 40;");
    assert!(printed.is_empty() && err.is_none());
    let (printed, err) = run(&mut interpreter, "print x + 2;");
    assert!(err.is_none());
    assert_eq!(printed, vec!["42"]);
}

#[test]
fn interpreting_errors() {
    let e = failure("print 1 + \"a\";");
    assert_eq!(message(&e), "Operands should be Number or String, got 1 and a");
    assert_eq!(e.token.lexeme, "+");
    let e = failure("print 1 - true;");
    assert_eq!(message(&e), "Operands should be Number, got 1 and true");
    let e = failure("print 1 / 0;");
    assert_eq!(message(&e), "Division by 0.0");
    let e = failure("print 1 == \"1\";");
    assert_eq!(message(&e), "Operands should be of same type, got 1 and 1");
    let e = failure("print -\"x\";");
    assert_eq!(message(&e), "Operand should be number, got x");
    let e = failure("print y;");
    assert_eq!(message(&e), "undefined");
    assert_eq!(e.token.lexeme, "y");
    let e = failure("y = 1;");
    assert_eq!(message(&e), "undefined");
}

#[test]
fn interpreting_prints_before_error() {
    let (printed, err) = run(&mut Interpreter::new(), "print 1; print nil + 1; print 2;");
    assert_eq!(printed, vec!["1"]);
    assert!(err.is_some());
}

#[test]
fn interpreting_asks_for_arithmetic() {
    let one = Token::from_literal(TokenType::Number, anix::token::Literal::Num(num(1.0)), 1);
    let plus = Token::from_operand(TokenType::Plus, "+", 1);
    let sc = Token::from_operand(TokenType::Semicolon, ";", 1);
    let eof = Token::new(TokenType::Eof, "".to_string(), None, 0);
    let mut parser = Parser::new(vec![one.clone(), plus, one, sc, eof]);
    let stmts = parser.parse();
    let mut interpreter = Interpreter::new();
    match interpreter.interpret(&stmts) {
        Interpretation::NeedsNumber(NumericRequest::Add(a, b)) => {
            assert_eq!(a, num(1.0));
            assert_eq!(b, num(1.0));
        },
        _ => panic!("the sum is needed"),
    }
    interpreter.supply(num(2.0));
    match interpreter.interpret(&stmts) {
        Interpretation::Finished { outcome, printed } => {
            assert!(outcome.is_ok());
            assert!(printed.is_empty());
        },
        _ => panic!("the run is finished"),
    }
}

#[test]
fn finished_run_is_stable_under_extra_results() {
    let mut interpreter = Interpreter::new();
    interpreter.supply(num(99.0));
    let (printed, err) = run(&mut interpreter, "print 3 < 4;");
    assert!(err.is_none());
    assert_eq!(printed, vec!["true"]);
}

#[test]
fn number_comparisons_follow_ieee() {
    let nan = num(f64::NAN);
    let zero = num(0.0);
    let negative_zero = num(-0.0);
    assert!(!nan.equals(&nan));
    assert!(zero.equals(&negative_zero));
    assert!(!nan.less(&zero) && !zero.less(&nan));
    assert!(num(-2.0).less(&num(-1.0)));
    assert!(num(-1.0).less(&num(0.5)));
    assert!(num(1.0).less_equal(&num(1.0)));
    assert!(!num(2.0).less_equal(&num(1.0)));
    assert!(negative_zero.is_zero());
    assert!(nan.is_nan() && !zero.is_nan());
    assert!(num(f64::NEG_INFINITY).less(&num(-1e300)));
}

#[test]
fn values_and_truthiness() {
    let interpreter = Interpreter::new();
    assert!(!interpreter.is_truthy(&Value::Nil));
    assert!(!interpreter.is_truthy(&Value::Boolean(false)));
    assert!(interpreter.is_truthy(&Value::Number(num(0.0))));
    assert!(interpreter.is_truthy(&Value::String(String::new())));
    assert!(is_equal(&Value::Number(num(0.0)), &Value::Number(num(-0.0))));
    assert!(!is_equal(&Value::Number(num(f64::NAN)), &Value::Number(num(f64::NAN))));
    assert!(!is_equal(&Value::Nil, &Value::Boolean(false)));
    assert_eq!(Value::Nil.to_text(), "nil");
    assert_eq!(Value::Number(num(1.5)).to_text(), "1.5");
}

#[test]
fn environment_read_after_write() {
    let mut env = Environment::new();
    let x = Token::from_operand(TokenType::Identifier, "x", 1);
    let y = Token::from_operand(TokenType::Identifier, "y", 1);
    assert_eq!(env.get(&x), None);
    assert!(!env.assign(&x, Value::Nil));
    assert_eq!(env.get(&x), None);
    env.define(&x, Value::Boolean(true));
    assert_eq!(env.get(&x), Some(Value::Boolean(true)));
    assert_eq!(env.get(&y), None);
    assert!(env.assign(&x, Value::String("s".to_string())));
    assert_eq!(env.get(&x), Some(Value::String("s".to_string())));
    env.define(&x, Value::Nil);
    assert_eq!(env.get(&x), Some(Value::Nil));
}

#[test]
fn reports() {
    assert_eq!(error(3, "oops"), "[line 3] Error : oops");
    assert_eq!(report(120, "at end", "bad"), "[line 120] Error at end: bad");
    let e = failure("print 1 / 0;");
    let (heading, detail) = runtime_error(&e);
    assert_eq!(heading, "[line 1] Runtime error at '/'");
    assert_eq!(detail, "Invalid operation: Division by 0.0");
    let e = failure("print -nil;");
    assert_eq!(runtime_error(&e).1, "Type error: Operand should be number, got nil");
    let e = failure("print z;");
    assert_eq!(runtime_error(&e).1, "Undefined variable.");
}

#[test]
fn interpreting_error_nodes_and_unknown_operators() {
    let comma = Token::from_operand(TokenType::Comma, ",", 7);
    let bad = Expr::Binary {
        left: Box::new(Expr::Literal(anix::token::Literal::Nil)),
        op: comma.clone(),
        right: Box::new(Expr::Literal(anix::token::Literal::Nil)),
    };
    let mut interpreter = Interpreter::new();
    match interpreter.interpret(&vec![Stmt::Expr(bad)]) {
        Interpretation::Finished { outcome: Err(e), .. } => {
            assert!(matches!(e.kind, RuntimeErrorType::ParserError));
            assert_eq!(e.token, comma);
            assert_eq!(runtime_error(&e).1, "Parser error detected.");
        },
        _ => panic!("a parser error is expected"),
    }
    let semicolon = Token::from_operand(TokenType::Semicolon, ";", 2);
    match interpreter.interpret(&vec![Stmt::Print(Expr::Error(semicolon.clone()))]) {
        Interpretation::Finished { outcome: Err(e), printed } => {
            assert!(matches!(e.kind, RuntimeErrorType::ParserError));
            assert_eq!(e.token, semicolon);
            assert!(printed.is_empty());
        },
        _ => panic!("a parser error is expected"),
    }
}

#[test]
fn equality_is_symmetric() {
    let values = vec![
        Value::Nil,
        Value::Boolean(true),
        Value::Number(num(1.0)),
        Value::Number(num(f64::NAN)),
        Value::String("a".to_string()),
    ];
    for x in &values {
        for y in &values {
            assert_eq!(is_equal(x, y), is_equal(y, x));
        }
    }
}

#[test]
fn evaluation_without_assignment_keeps_bindings() {
    let mut interpreter = Interpreter::new();
    let (_, err) = run(&mut interpreter, "var x = 3;");
    assert!(err.is_none());
    let (printed, err) = run(&mut interpreter, "print x * 2; print x - nil;");
    assert_eq!(printed, vec!["6"]);
    assert!(err.is_some());
    let (printed, err) = run(&mut interpreter, "print x;");
    assert!(err.is_none());
    assert_eq!(printed, vec!["3"]);
}

#[test]
fn binary_evaluates_left_operand_first() {
    let e = failure("print y + (1 / 0);");
    assert_eq!(message(&e), "undefined");
    assert_eq!(e.token.lexeme, "y");
    let e = failure("print 1 + z;");
    assert_eq!(e.token.lexeme, "z");
    let mut interpreter = Interpreter::new();
    let (_, err) = run(&mut interpreter, "var a = 1;");
    assert!(err.is_none());
    let (_, err) = run(&mut interpreter, "print (a = 2) + y;");
    assert_eq!(err.expect("an undefined variable").token.lexeme, "y");
    let (_, err) = run(&mut interpreter, "print w + (a = 3);");
    assert_eq!(err.expect("an undefined variable").token.lexeme, "w");
    let (printed, err) = run(&mut interpreter, "print a;");
    assert!(err.is_none());
    assert_eq!(printed, vec!["2"]);
}

#[test]
fn groupings_and_literals_evaluate_directly() {
    assert_eq!(outputs("print (((4)));"), vec!["4"]);
    assert_eq!(outputs("print \"s\"; print true; print nil;"), vec!["s", "true", "nil"]);
}

#[test]
fn run_stops_at_first_failure() {
    let mut interpreter = Interpreter::new();
    let (printed, err) =
        run(&mut interpreter, "var a = 1; print a; a = 2; print z; a = 3; print 4;");
    assert_eq!(printed, vec!["1"]);
    assert_eq!(err.expect("an undefined variable").token.lexeme, "z");
    let (printed, err) = run(&mut interpreter, "print a;");
    assert!(err.is_none());
    assert_eq!(printed, vec!["2"]);
}

#[test]
fn enough_results_finish_the_run() {
    let source = "print 1 + 2 * -3;".to_string();
    let mut scanner = Scanner::new(&source);
    let mut numbers_asked = 0;
    let results = loop {
        match scanner.scan_tokens() {
            Scanning::Finished(results) => break results,
            Scanning::NeedsNumber(text) => {
                numbers_asked += 1;
                scanner.supply_number(num(text.parse().unwrap()));
            },
        }
    };
    assert_eq!(numbers_asked, 3);
    assert!(numbers_asked <= source.chars().count());
    let (tokens, _) = split_scanned(&results);
    let token_count = tokens.len();
    let mut parser = Parser::new(tokens);
    let stmts = parser.parse();
    assert!(stmts.len() <= token_count);
    let mut interpreter = Interpreter::new();
    let mut results_asked = 0;
    let printed = loop {
        match interpreter.interpret(&stmts) {
            Interpretation::Finished { outcome, printed } => {
                assert!(outcome.is_ok());
                break printed;
            },
            Interpretation::NeedsNumber(request) => {
                results_asked += 1;
                interpreter.supply(compute(request));
            },
        }
    };
    assert_eq!(results_asked, 3);
    assert_eq!(printed, vec!["-5"]);
}
