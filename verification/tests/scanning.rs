use anix::number::Number;
use anix::runner::split_scanned;
use anix::scanner::{ScanError, Scanner, Scanning};
use anix::token::{Literal, Token, TokenType};

fn num(v: f64) -> Number {
    Number { bits: v.to_bits(), text: v.to_string() }
}

fn scan(source: &str) -> Vec<Result<Token, ScanError>> {
    let mut scanner = Scanner::new(&source.to_string());
    loop {
        match scanner.scan_tokens() {
            Scanning::Finished(tokens) => return tokens,
            Scanning::NeedsNumber(text) => scanner.supply_number(num(text.parse().unwrap())),
        }
    }
}

fn kinds(source: &str) -> Vec<TokenType> {
    scan(source).into_iter().map(|r| r.ok().unwrap().kind).collect()
}

#[test]
fn scanning_operators() {
    assert_eq!(
        kinds("(){},.-+;*/ ! != = == < <= > >="),
        vec![
            TokenType::LeftParen,
            TokenType::RightParen,
            TokenType::LeftBrace,
            TokenType::RightBrace,
            TokenType::Comma,
            TokenType::Dot,
            TokenType::Minus,
            TokenType::Plus,
            TokenType::Semicolon,
            TokenType::Star,
            TokenType::Slash,
            TokenType::Bang,
            TokenType::BangEqual,
            TokenType::Equal,
            TokenType::EqualEqual,
            TokenType::Less,
            TokenType::LessEqual,
            TokenType::Greater,
            TokenType::GreaterEqual,
            TokenType::Eof,
        ]
    );
}

#[test]
fn scanning_keywords_and_identifiers() {
    assert_eq!(
        kinds("and class else false for fun if nil or print return super this true var while _x1 varx"),
        vec![
            TokenType::And,
            TokenType::Class,
            TokenType::Else,
            TokenType::False,
            TokenType::For,
            TokenType::Fun,
            TokenType::If,
            TokenType::Nil,
            TokenType::Or,
            TokenType::Print,
            TokenType::Return,
            TokenType::Super,
            TokenType::This,
            TokenType::True,
            TokenType::Var,
            TokenType::While,
            TokenType::Identifier,
            TokenType::Identifier,
            TokenType::Eof,
        ]
    );
}

#[test]
fn scanning_numbers_asks_for_their_values() {
    let mut scanner = Scanner::new(&"12.5 + 7. + 3".to_string());
    match scanner.scan_tokens() {
        Scanning::NeedsNumber(text) => assert_eq!(text, "12.5"),
        Scanning::Finished(_) => panic!("a number value is needed"),
    }
    scanner.supply_number(num(12.5));
    match scanner.scan_tokens() {
        Scanning::NeedsNumber(text) => assert_eq!(text, "7"),
        Scanning::Finished(_) => panic!("a number value is needed"),
    }
    scanner.supply_number(num(7.0));
    match scanner.scan_tokens() {
        Scanning::NeedsNumber(text) => assert_eq!(text, "3"),
        Scanning::Finished(_) => panic!("a number value is needed"),
    }
    scanner.supply_number(num(3.0));
    let tokens = match scanner.scan_tokens() {
        Scanning::Finished(tokens) => tokens,
        Scanning::NeedsNumber(_) => panic!("all values were supplied"),
    };
    let tokens: Vec<Token> = tokens.into_iter().map(|r| r.ok().unwrap()).collect();
    assert_eq!(tokens[0], Token::new(TokenType::Number, "12.5".to_string(), Some(Literal::Num(num(12.5))), 1));
    assert_eq!(tokens[1].kind, TokenType::Plus);
    assert_eq!(tokens[2].lexeme, "7");
    assert_eq!(tokens[3].kind, TokenType::Dot);
    assert_eq!(tokens[5].literal, Some(Literal::Num(num(3.0))));
    assert_eq!(tokens[6], Token::new(TokenType::Eof, "".to_string(), None, 0));
}

#[test]
fn scanning_strings_and_lines() {
    let tokens: Vec<Token> = scan("\"a\nb\" x\ny").into_iter().map(|r| r.ok().unwrap()).collect();
    assert_eq!(tokens[0].kind, TokenType::String);
    assert_eq!(tokens[0].lexeme, "\"a\nb\"");
    assert_eq!(tokens[0].literal, Some(Literal::String("a\nb".to_string())));
    assert_eq!(tokens[0].line, 2);
    assert_eq!(tokens[1].line, 2);
    assert_eq!(tokens[2].line, 3);
}

#[test]
fn scanning_errors() {
    let results = scan("@ \"open\nend");
    let (tokens, errors) = split_scanned(&results);
    assert_eq!(errors.len(), 2);
    assert_eq!(errors[0].line, 1);
    assert_eq!(errors[0].message, "Unexpected lexeme @");
    assert_eq!(errors[1].line, 2);
    assert_eq!(errors[1].message, "Unterminated string \"open\nend");
    assert_eq!(tokens.len(), 1);
    assert_eq!(tokens[0].kind, TokenType::Eof);
}

#[test]
fn scanning_comments() {
    assert_eq!(kinds("1 // ignored ( text\n2"), vec![TokenType::Number, TokenType::Number, TokenType::Eof]);
    assert_eq!(kinds("// only a comment"), vec![TokenType::Eof]);
}

#[test]
fn scanning_empty_source() {
    assert_eq!(kinds(""), vec![TokenType::Eof]);
}

#[test]
fn finished_scan_is_stable_under_extra_numbers() {
    let mut scanner = Scanner::new(&"x = 1;".to_string());
    scanner.supply_number(num(1.0));
    scanner.supply_number(num(99.0));
    let tokens = match scanner.scan_tokens() {
        Scanning::Finished(tokens) => tokens,
        Scanning::NeedsNumber(_) => panic!("the value was supplied"),
    };
    assert_eq!(tokens.len(), 5);
    assert_eq!(tokens[2].as_ref().ok().unwrap().literal, Some(Literal::Num(num(1.0))));
}
