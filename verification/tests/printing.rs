use anix::expr::{print_ast, Expr};
use anix::number::Number;
use anix::stmt::{print_stmt, Stmt};
use anix::token::{Literal, Token, TokenType};

fn num(v: f64) -> Number {
    Number { bits: v.to_bits(), text: v.to_string() }
}

#[test]
fn test_print() {
    let expression = Expr::Binary {
        left: Box::new(Expr::Unary {
            op: Token {
                kind: TokenType::Minus,
                lexeme: "-".to_string(),
                literal: None,
                line: 1,
            },
            right: Box::new(Expr::Literal(Literal::Num(num(123.0)))),
        }),
        op: Token {
            kind: TokenType::Star,
            lexeme: "*".to_string(),
            literal: None,
            line: 1,
        },
        right: Box::new(Expr::Grouping(Box::new(Expr::Literal(Literal::Num(num(45.67)))))),
    };

    let result = print_ast(&expression);

    assert_eq!(result, "(* (- 123) (group 45.67))");
}

#[test]
fn printing_literals_and_errors() {
    assert_eq!(print_ast(&Expr::Literal(Literal::Nil)), "Nil");
    assert_eq!(print_ast(&Expr::Literal(Literal::Bool(true))), "true");
    assert_eq!(print_ast(&Expr::Literal(Literal::Bool(false))), "false");
    assert_eq!(print_ast(&Expr::Literal(Literal::String("hi".to_string()))), "hi");
    let semicolon = Token::from_operand(TokenType::Semicolon, ";", 3);
    assert_eq!(print_ast(&Expr::Error(semicolon)), "Error");
}

#[test]
fn printing_variables_and_assignments() {
    let name = Token::from_operand(TokenType::Identifier, "x", 1);
    assert_eq!(print_ast(&Expr::Variable(name.clone())), "x");
    let assign = Expr::Assign {
        name: name.clone(),
        value: Box::new(Expr::Literal(Literal::Num(num(2.5)))),
    };
    assert_eq!(print_ast(&assign), "(= x 2.5)");
}

#[test]
fn printing_statements() {
    let name = Token::from_operand(TokenType::Identifier, "x", 1);
    let one = Expr::Literal(Literal::Num(num(1.0)));
    assert_eq!(print_stmt(&Stmt::Print(Expr::Literal(Literal::Num(num(1.0))))), "print(1)");
    assert_eq!(print_stmt(&Stmt::Expr(one)), "1");
    assert_eq!(print_stmt(&Stmt::Var { name: name.clone(), init: None }), "var(x)");
    assert_eq!(
        print_stmt(&Stmt::Var { name, init: Some(Expr::Literal(Literal::Bool(true))) }),
        "var(x = true)"
    );
}

#[test]
fn token_constructors_and_description() {
    let t = Token::from_literal(TokenType::Number, Literal::Num(num(12.5)), 4);
    assert_eq!(t.lexeme, "12.5");
    assert_eq!(t.literal, Some(Literal::Num(num(12.5))));
    assert_eq!(t.line, 4);
    assert_eq!(t.to_text(), "Token Number (12.5)");
    let eof = Token::new(TokenType::Eof, "".to_string(), None, 0);
    assert_eq!(eof.to_text(), "Token Eof");
    let op = Token::from_operand(TokenType::BangEqual, "!=", 2);
    assert_eq!(op.to_text(), "Token BangEqual (!=)");
    assert_eq!(op.literal, None);
    let nil = Token::from_literal(TokenType::Nil, Literal::Nil, 1);
    assert_eq!(nil.lexeme, "Nil");
}
