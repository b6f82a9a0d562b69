use anix::expr::Expr;
use anix::number::Number;
use anix::parser::Parser;
use anix::stmt::Stmt;
use anix::token::{Literal, Token, TokenType};

fn num(v: f64) -> Number {
    Number { bits: v.to_bits(), text: v.to_string() }
}

fn parse_tokens(mut tokens: Vec<Token>) -> Vec<Stmt> {
    // Add EOF token for valid sequence
    tokens.push(Token::new(TokenType::Eof, "".to_string(), None, 0));

    let mut parser = Parser::new(tokens);
    parser.parse()
}

fn parse_with_errors(mut tokens: Vec<Token>) -> (Vec<Stmt>, Vec<String>) {
    tokens.push(Token::new(TokenType::Eof, "".to_string(), None, 0));
    let mut parser = Parser::new(tokens);
    let stmts = parser.parse();
    let messages = parser.errors.iter().map(|e| e.msg.clone()).collect();
    (stmts, messages)
}

#[test]
fn test_number() {
    let value = 12.3;
    let num_token = Token::from_literal(TokenType::Number, Literal::Num(num(value)), 0);
    let sc = Token::from_operand(TokenType::Semicolon, ";", 0);

    let tokens = vec![num_token, sc];
    let stmts = parse_tokens(tokens);

    assert_eq!(stmts.len(), 1);
    assert_eq!(stmts[0], Stmt::Expr(Expr::Literal(Literal::Num(num(value)))))
}

#[test]
fn test_number_product() {
    let value = 12.3;
    let op = Token::from_operand(TokenType::Star, "*", 0);
    let num_token = Token::from_literal(TokenType::Number, Literal::Num(num(value)), 0);
    let sc = Token::from_operand(TokenType::Semicolon, ";", 0);

    let tokens = vec![num_token.clone(), op.clone(), num_token.clone(), sc];
    let stmts = parse_tokens(tokens);

    assert_eq!(stmts.len(), 1);
    assert_eq!(
        stmts[0],
        Stmt::Expr(Expr::Binary {
            left: Box::new(Expr::Literal(Literal::Num(num(value)))),
            op: op,
            right: Box::new(Expr::Literal(Literal::Num(num(value)))),
        })
    )
}

#[test]
fn test_bool_gt() {
    let value = true;
    let boolean = Token::from_operand(TokenType::True, "true", 0);
    let op = Token::from_operand(TokenType::GreaterEqual, ">=", 0);
    let sc = Token::from_operand(TokenType::Semicolon, ";", 0);

    let tokens = vec![boolean.clone(), op.clone(), boolean.clone(), sc];
    let stmts = parse_tokens(tokens);

    assert_eq!(stmts.len(), 1);
    assert_eq!(
        stmts[0],
        Stmt::Expr(Expr::Binary {
            left: Box::new(Expr::Literal(Literal::Bool(value))),
            op,
            right: Box::new(Expr::Literal(Literal::Bool(value)))
        })
    );
}

#[test]
fn test_unary_minus() {
    let value = 12.3;
    let num_token = Token::from_literal(TokenType::Number, Literal::Num(num(value)), 0);
    let op = Token::from_operand(TokenType::Minus, "-", 0);
    let sc = Token::from_operand(TokenType::Semicolon, ";", 0);

    let tokens = vec![op.clone(), num_token, sc];
    let stmts = parse_tokens(tokens);

    assert_eq!(stmts.len(), 1);
    assert_eq!(
        stmts[0],
        Stmt::Expr(Expr::Unary {
            op,
            right: Box::new(Expr::Literal(Literal::Num(num(value))))
        })
    )
}

#[test]
fn test_operator_precedence_product() {
    let value1 = 12.3;
    let num1 = Token::from_literal(TokenType::Number, Literal::Num(num(value1)), 0);
    let op1 = Token::from_operand(TokenType::Plus, "+", 0);
    let value2 = 2.13;
    let num2 = Token::from_literal(TokenType::Number, Literal::Num(num(value2)), 0);
    let op2 = Token::from_operand(TokenType::Star, "*", 0);
    let value3 = 31.2;
    let num3 = Token::from_literal(TokenType::Number, Literal::Num(num(value3)), 0);
    let sc = Token::from_operand(TokenType::Semicolon, ";", 0);

    let tokens = vec![num1, op1.clone(), num2, op2.clone(), num3, sc];
    let stmts = parse_tokens(tokens);

    assert_eq!(stmts.len(), 1);
    assert_eq!(
        stmts[0],
        Stmt::Expr(Expr::Binary {
            left: Box::new(Expr::Literal(Literal::Num(num(value1)))),
            op: op1,
            right: Box::new(Expr::Binary {
                left: Box::new(Expr::Literal(Literal::Num(num(value2)))),
                op: op2,
                right: Box::new(Expr::Literal(Literal::Num(num(value3)))),
            })
        })
    );
}

#[test]
fn test_grouping() {
    let l_par = Token::from_operand(TokenType::LeftParen, "(", 0);
    let value1 = 12.3;
    let num1 = Token::from_literal(TokenType::Number, Literal::Num(num(value1)), 0);
    let op1 = Token::from_operand(TokenType::Plus, "+", 0);
    let value2 = 2.13;
    let num2 = Token::from_literal(TokenType::Number, Literal::Num(num(value2)), 0);
    let r_par = Token::from_operand(TokenType::RightParen, ")", 0);
    let op2 = Token::from_operand(TokenType::Star, "*", 0);
    let value3 = 31.2;
    let num3 = Token::from_literal(TokenType::Number, Literal::Num(num(value3)), 0);
    let sc = Token::from_operand(TokenType::Semicolon, ";", 0);

    let tokens = vec![l_par, num1, op1.clone(), num2, r_par, op2.clone(), num3, sc];
    let stmts = parse_tokens(tokens);

    assert_eq!(stmts.len(), 1);
    assert_eq!(
        stmts[0],
        Stmt::Expr(Expr::Binary {
            left: Box::new(Expr::Grouping(Box::new(Expr::Binary {
                left: Box::new(Expr::Literal(Literal::Num(num(value1)))),
                op: op1,
                right: Box::new(Expr::Literal(Literal::Num(num(value2))))
            }))),
            op: op2,
            right: Box::new(Expr::Literal(Literal::Num(num(value3))))
        })
    );
}

#[test]
fn test_print_stmt() {
    let print = Token::from_operand(TokenType::Print, "print", 0);
    let value1 = 12.3;
    let num1 = Token::from_literal(TokenType::Number, Literal::Num(num(value1)), 0);
    let op = Token::from_operand(TokenType::Plus, "+", 0);
    let value2 = 2.13;
    let num2 = Token::from_literal(TokenType::Number, Literal::Num(num(value2)), 0);
    let sc = Token::from_operand(TokenType::Semicolon, ";", 0);

    let tokens = vec![print, num1, op.clone(), num2, sc];
    let stmts = parse_tokens(tokens);

    assert_eq!(stmts.len(), 1);
    assert_eq!(
        stmts[0],
        Stmt::Print(Expr::Binary {
            left: Box::new(Expr::Literal(Literal::Num(num(value1)))),
            op: op.clone(),
            right: Box::new(Expr::Literal(Literal::Num(num(value2))))
        })
    );
}

#[test]
fn test_var_init_stmt() {
    let str = "var1";
    let name = Token::from_literal(TokenType::Identifier, Literal::String(str.to_string()), 0);
    let equal = Token::from_operand(TokenType::Equal, "=", 0);
    let value = 12.3;
    let num_token = Token::from_literal(TokenType::Number, Literal::Num(num(value)), 0);

    let var = Token::from_operand(TokenType::Var, "var", 0);
    let sc = Token::from_operand(TokenType::Semicolon, ";", 0);

    let tokens = vec![var, name.clone(), equal, num_token, sc];
    let stmts = parse_tokens(tokens);

    assert_eq!(stmts.len(), 1);
    assert_eq!(
        stmts[0],
        Stmt::Var {
            name,
            init: Some(Expr::Literal(Literal::Num(num(value))))
        }
    );
}

#[test]
fn test_var_uninit_stmt() {
    let str = "var1";
    let name = Token::from_literal(TokenType::Identifier, Literal::String(str.to_string()), 0);

    let var = Token::from_operand(TokenType::Var, "var", 0);
    let sc = Token::from_operand(TokenType::Semicolon, ";", 0);

    let tokens = vec![var, name.clone(), sc];
    let stmts = parse_tokens(tokens);

    assert_eq!(stmts.len(), 1);
    assert_eq!(stmts[0], Stmt::Var { name, init: None });
}

#[test]
fn test_multiple_stmt() {
    let value1 = 12.3;
    let num1 = Token::from_literal(TokenType::Number, Literal::Num(num(value1)), 0);
    let op1 = Token::from_operand(TokenType::Plus, "+", 0);
    let value2 = 2.13;
    let num2 = Token::from_literal(TokenType::Number, Literal::Num(num(value2)), 0);

    let print = Token::from_operand(TokenType::Print, "print", 0);
    let value3 = 31.2;
    let num3 = Token::from_literal(TokenType::Number, Literal::Num(num(value3)), 0);
    let op2 = Token::from_operand(TokenType::Star, "*", 0);
    let value4 = 23.1;
    let num4 = Token::from_literal(TokenType::Number, Literal::Num(num(value4)), 0);

    let sc = Token::from_operand(TokenType::Semicolon, ";", 0);

    let tokens = vec![
        num1,
        op1.clone(),
        num2,
        sc.clone(),
        print,
        num3,
        op2.clone(),
        num4,
        sc,
    ];
    let stmts = parse_tokens(tokens);

    assert_eq!(stmts.len(), 2);
    assert_eq!(
        stmts[0],
        Stmt::Expr(Expr::Binary {
            left: Box::new(Expr::Literal(Literal::Num(num(value1)))),
            op: op1,
            right: Box::new(Expr::Literal(Literal::Num(num(value2))))
        })
    );
    assert_eq!(
        stmts[1],
        Stmt::Print(Expr::Binary {
            left: Box::new(Expr::Literal(Literal::Num(num(value3)))),
            op: op2,
            right: Box::new(Expr::Literal(Literal::Num(num(value4))))
        })
    );
}

#[test]
fn parser_assignment_value_is_an_equality() {
    let a = Token::from_operand(TokenType::Identifier, "a", 1);
    let b = Token::from_operand(TokenType::Identifier, "b", 1);
    let eq = Token::from_operand(TokenType::Equal, "=", 1);
    let eqeq = Token::from_operand(TokenType::EqualEqual, "==", 1);
    let one = Token::from_literal(TokenType::Number, Literal::Num(num(1.0)), 1);
    let sc = Token::from_operand(TokenType::Semicolon, ";", 1);
    let stmts = parse_tokens(vec![a.clone(), eq, b.clone(), eqeq.clone(), one, sc]);
    assert_eq!(
        stmts,
        vec![Stmt::Expr(Expr::Assign {
            name: a,
            value: Box::new(Expr::Binary {
                left: Box::new(Expr::Variable(b)),
                op: eqeq,
                right: Box::new(Expr::Literal(Literal::Num(num(1.0)))),
            }),
        })]
    );
}

#[test]
fn parser_chained_assignment_stops_at_second_equal() {
    let a = Token::from_operand(TokenType::Identifier, "a", 1);
    let b = Token::from_operand(TokenType::Identifier, "b", 1);
    let eq = Token::from_operand(TokenType::Equal, "=", 1);
    let one = Token::from_literal(TokenType::Number, Literal::Num(num(1.0)), 1);
    let sc = Token::from_operand(TokenType::Semicolon, ";", 1);
    let print = Token::from_operand(TokenType::Print, "print", 2);
    let (stmts, messages) = parse_with_errors(vec![
        a,
        eq.clone(),
        b.clone(),
        eq.clone(),
        one.clone(),
        sc.clone(),
        print,
        b.clone(),
        sc,
    ]);
    assert_eq!(messages, vec!["Expected ';' found =".to_string()]);
    assert_eq!(
        stmts,
        vec![Stmt::Expr(Expr::Error(eq)), Stmt::Print(Expr::Variable(b))]
    );
}

#[test]
fn parser_reports_missing_semicolon_and_recovers() {
    let one = Token::from_literal(TokenType::Number, Literal::Num(num(1.0)), 1);
    let two = Token::from_literal(TokenType::Number, Literal::Num(num(2.0)), 1);
    let sc = Token::from_operand(TokenType::Semicolon, ";", 1);
    let print = Token::from_operand(TokenType::Print, "print", 2);
    let three = Token::from_literal(TokenType::Number, Literal::Num(num(3.0)), 2);
    let (stmts, messages) =
        parse_with_errors(vec![one, two.clone(), sc.clone(), print, three, sc]);
    assert_eq!(messages, vec!["Expected ';' found 2".to_string()]);
    assert_eq!(stmts.len(), 2);
    assert_eq!(stmts[0], Stmt::Expr(Expr::Error(two)));
    assert_eq!(stmts[1], Stmt::Print(Expr::Literal(Literal::Num(num(3.0)))));
}

#[test]
fn parser_reports_invalid_assignment_target() {
    let one = Token::from_literal(TokenType::Number, Literal::Num(num(1.0)), 1);
    let eq = Token::from_operand(TokenType::Equal, "=", 1);
    let two = Token::from_literal(TokenType::Number, Literal::Num(num(2.0)), 1);
    let sc = Token::from_operand(TokenType::Semicolon, ";", 1);
    let (stmts, messages) = parse_with_errors(vec![one, eq, two, sc]);
    // Recovery skips past the `;`, so the statement then misses its `;`.
    assert_eq!(
        messages,
        vec!["Invalid assignment target, found 1".to_string(), "Expected ';' found ".to_string()]
    );
    let eof = Token::new(TokenType::Eof, "".to_string(), None, 0);
    assert_eq!(stmts, vec![Stmt::Expr(Expr::Error(eof))]);
}

#[test]
fn parser_reports_missing_expression_and_parenthesis() {
    let l_par = Token::from_operand(TokenType::LeftParen, "(", 1);
    let one = Token::from_literal(TokenType::Number, Literal::Num(num(1.0)), 1);
    let sc = Token::from_operand(TokenType::Semicolon, ";", 1);
    let (_, messages) = parse_with_errors(vec![l_par, one, sc.clone()]);
    assert_eq!(messages[0], "Expected ')', found ;");
    let (_, messages) = parse_with_errors(vec![sc]);
    assert_eq!(messages[0], "Expected expression, found ;");
    let var = Token::from_operand(TokenType::Var, "var", 1);
    let (_, messages) = parse_with_errors(vec![var]);
    assert_eq!(messages[0], "Expected variable name, found ");
}

#[test]
fn parser_stops_at_end() {
    let stmts = parse_tokens(vec![]);
    assert!(stmts.is_empty());
}

#[test]
fn parser_errors_leave_error_nodes() {
    let var = Token::from_operand(TokenType::Var, "var", 1);
    let sc = Token::from_operand(TokenType::Semicolon, ";", 1);
    let print = Token::from_operand(TokenType::Print, "print", 2);
    let one = Token::from_literal(TokenType::Number, Literal::Num(num(1.0)), 2);
    let (stmts, messages) =
        parse_with_errors(vec![var, sc.clone(), print.clone(), one.clone(), sc.clone()]);
    assert_eq!(messages, vec!["Expected variable name, found ;".to_string()]);
    assert_eq!(
        stmts,
        vec![
            Stmt::Expr(Expr::Error(sc.clone())),
            Stmt::Print(Expr::Literal(Literal::Num(num(1.0)))),
        ]
    );
    let (stmts, messages) = parse_with_errors(vec![print, one, sc]);
    assert!(messages.is_empty());
    assert_eq!(stmts, vec![Stmt::Print(Expr::Literal(Literal::Num(num(1.0))))]);
}
