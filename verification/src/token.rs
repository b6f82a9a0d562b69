//! Tokens and literals.

use vstd::prelude::*;

use crate::number::{Number, SpecNumber};

verus! {

/// The kinds of token of the language.
#[derive(Clone, Copy, Debug, PartialEq, Eq, Structural)]
pub enum TokenType {
    // Single-character tokens.
    LeftParen,
    RightParen,
    LeftBrace,
    RightBrace,
    Comma,
    Dot,
    Minus,
    Plus,
    Semicolon,
    Slash,
    Star,
    // One or two character tokens.
    Bang,
    BangEqual,
    Equal,
    EqualEqual,
    Greater,
    GreaterEqual,
    Less,
    LessEqual,
    // Literals.
    Identifier,
    String,
    Number,
    // Keywords.
    And,
    Class,
    Else,
    False,
    Fun,
    For,
    If,
    Nil,
    Or,
    Print,
    Return,
    Super,
    This,
    True,
    Var,
    While,
    Eof,
}

/// A literal value written in the source.
#[derive(Debug, PartialEq)]
pub enum Literal {
    String(String),
    Num(Number),
    Bool(bool),
    Nil,
}

/// The mathematical twin of [`Literal`].
pub enum SpecLiteral {
    String(Seq<char>),
    Num(SpecNumber),
    Bool(bool),
    Nil,
}

impl View for Literal {
    type V = SpecLiteral;

    open spec fn view(&self) -> SpecLiteral {
        match self {
            Literal::String(s) => SpecLiteral::String(s@),
            Literal::Num(n) => SpecLiteral::Num(n@),
            Literal::Bool(b) => SpecLiteral::Bool(*b),
            Literal::Nil => SpecLiteral::Nil,
        }
    }
}

/// A token: its kind, the source text it was scanned from, its literal value
/// if it has one, and the line it stands on.
#[derive(Debug, PartialEq)]
pub struct Token {
    pub kind: TokenType,
    pub lexeme: String,
    pub literal: Option<Literal>,
    pub line: usize,
}

/// The mathematical twin of [`Token`].
pub struct SpecToken {
    pub kind: TokenType,
    pub lexeme: Seq<char>,
    pub literal: Option<SpecLiteral>,
    pub line: usize,
}

pub open spec fn literal_option_view(l: Option<Literal>) -> Option<SpecLiteral> {
    match l {
        Some(v) => Some(v@),
        None => None,
    }
}

impl View for Token {
    type V = SpecToken;

    open spec fn view(&self) -> SpecToken {
        SpecToken {
            kind: self.kind,
            lexeme: self.lexeme@,
            literal: literal_option_view(self.literal),
            line: self.line,
        }
    }
}

/// How a literal is written: a string as itself, a number as its decimal
/// rendering, a boolean as `true` or `false`, and nil as `Nil`.
pub open spec fn literal_text(l: SpecLiteral) -> Seq<char> {
    match l {
        SpecLiteral::String(s) => s,
        SpecLiteral::Num(n) => n.text,
        SpecLiteral::Bool(b) => if b { seq!['t', 'r', 'u', 'e'] } else { seq!['f', 'a', 'l', 's', 'e'] },
        SpecLiteral::Nil => seq!['N', 'i', 'l'],
    }
}

impl Clone for Literal {
    fn clone(&self) -> (r: Literal)
        ensures
            r == *self,
    {
        match self {
            Literal::String(s) => Literal::String(s.clone()),
            Literal::Num(n) => Literal::Num(n.duplicate()),
            Literal::Bool(b) => Literal::Bool(*b),
            Literal::Nil => Literal::Nil,
        }
    }
}

impl Literal {
    /// The text of the literal, as [`literal_text`] says.
    pub fn to_text(&self) -> (s: String)
        ensures
            s@ == literal_text(self@),
    {
        match self {
            Literal::String(s) => s.clone(),
            Literal::Num(n) => n.text.clone(),
            Literal::Bool(b) => {
                if *b {
                    let r = "true".to_owned();
                    proof { reveal_strlit("true"); }
                    r
                } else {
                    let r = "false".to_owned();
                    proof { reveal_strlit("false"); }
                    r
                }
            },
            Literal::Nil => {
                let r = "Nil".to_owned();
                proof { reveal_strlit("Nil"); }
                r
            },
        }
    }
}

impl Clone for Token {
    fn clone(&self) -> (r: Token)
        ensures
            r == *self,
    {
        let literal = match &self.literal {
            Some(l) => Some(l.clone()),
            None => None,
        };
        Token { kind: self.kind, lexeme: self.lexeme.clone(), literal, line: self.line }
    }
}

impl Token {
    pub fn new(kind: TokenType, lexeme: String, literal: Option<Literal>, line: usize) -> (t: Token)
        ensures
            t.kind == kind,
            t.lexeme == lexeme,
            t.literal == literal,
            t.line == line,
    {
        Token { kind: kind, lexeme: lexeme, literal: literal, line: line }
    }

    /// A token whose lexeme is the text of its literal.
    pub fn from_literal(kind: TokenType, literal: Literal, line: usize) -> (t: Token)
        ensures
            t@ == (SpecToken {
                kind,
                lexeme: literal_text(literal@),
                literal: Some(literal@),
                line,
            }),
    {
        let lexeme = literal.to_text();
        Token::new(kind, lexeme, Some(literal), line)
    }

    /// A token without literal, written as `lexeme`.
    pub fn from_operand(kind: TokenType, lexeme: &str, line: usize) -> (t: Token)
        ensures
            t@ == (SpecToken { kind, lexeme: lexeme@, literal: None, line }),
    {
        Token::new(kind, lexeme.to_owned(), None, line)
    }
}

/// The name of a kind of token, as it is written in the source of this library.
pub open spec fn kind_name(kind: TokenType) -> Seq<char> {
    match kind {
        TokenType::LeftParen => "LeftParen"@,
        TokenType::RightParen => "RightParen"@,
        TokenType::LeftBrace => "LeftBrace"@,
        TokenType::RightBrace => "RightBrace"@,
        TokenType::Comma => "Comma"@,
        TokenType::Dot => "Dot"@,
        TokenType::Minus => "Minus"@,
        TokenType::Plus => "Plus"@,
        TokenType::Semicolon => "Semicolon"@,
        TokenType::Slash => "Slash"@,
        TokenType::Star => "Star"@,
        TokenType::Bang => "Bang"@,
        TokenType::BangEqual => "BangEqual"@,
        TokenType::Equal => "Equal"@,
        TokenType::EqualEqual => "EqualEqual"@,
        TokenType::Greater => "Greater"@,
        TokenType::GreaterEqual => "GreaterEqual"@,
        TokenType::Less => "Less"@,
        TokenType::LessEqual => "LessEqual"@,
        TokenType::Identifier => "Identifier"@,
        TokenType::String => "String"@,
        TokenType::Number => "Number"@,
        TokenType::And => "And"@,
        TokenType::Class => "Class"@,
        TokenType::Else => "Else"@,
        TokenType::False => "False"@,
        TokenType::Fun => "Fun"@,
        TokenType::For => "For"@,
        TokenType::If => "If"@,
        TokenType::Nil => "Nil"@,
        TokenType::Or => "Or"@,
        TokenType::Print => "Print"@,
        TokenType::Return => "Return"@,
        TokenType::Super => "Super"@,
        TokenType::This => "This"@,
        TokenType::True => "True"@,
        TokenType::Var => "Var"@,
        TokenType::While => "While"@,
        TokenType::Eof => "Eof"@,
    }
}

/// The name of a kind of token, as [`kind_name`] says.
pub fn kind_name_of(kind: TokenType) -> (s: &'static str)
    ensures
        s@ == kind_name(kind),
{
    match kind {
        TokenType::LeftParen => "LeftParen",
        TokenType::RightParen => "RightParen",
        TokenType::LeftBrace => "LeftBrace",
        TokenType::RightBrace => "RightBrace",
        TokenType::Comma => "Comma",
        TokenType::Dot => "Dot",
        TokenType::Minus => "Minus",
        TokenType::Plus => "Plus",
        TokenType::Semicolon => "Semicolon",
        TokenType::Slash => "Slash",
        TokenType::Star => "Star",
        TokenType::Bang => "Bang",
        TokenType::BangEqual => "BangEqual",
        TokenType::Equal => "Equal",
        TokenType::EqualEqual => "EqualEqual",
        TokenType::Greater => "Greater",
        TokenType::GreaterEqual => "GreaterEqual",
        TokenType::Less => "Less",
        TokenType::LessEqual => "LessEqual",
        TokenType::Identifier => "Identifier",
        TokenType::String => "String",
        TokenType::Number => "Number",
        TokenType::And => "And",
        TokenType::Class => "Class",
        TokenType::Else => "Else",
        TokenType::False => "False",
        TokenType::Fun => "Fun",
        TokenType::For => "For",
        TokenType::If => "If",
        TokenType::Nil => "Nil",
        TokenType::Or => "Or",
        TokenType::Print => "Print",
        TokenType::Return => "Return",
        TokenType::Super => "Super",
        TokenType::This => "This",
        TokenType::True => "True",
        TokenType::Var => "Var",
        TokenType::While => "While",
        TokenType::Eof => "Eof",
    }
}

/// How a token is described: `Token Eof` for the end, else `Token <kind> (<lexeme>)`.
pub open spec fn described(t: SpecToken) -> Seq<char> {
    if t.kind == TokenType::Eof {
        "Token "@ + kind_name(t.kind)
    } else {
        "Token "@ + kind_name(t.kind) + " ("@ + t.lexeme + ")"@
    }
}

impl Token {
    /// The description of the token, as [`described`] says.
    pub fn to_text(&self) -> (s: String)
        ensures
            s@ == described(self@),
    {
        let mut s = "Token ".to_owned();
        s.append(kind_name_of(self.kind));
        if self.kind != TokenType::Eof {
            s.append(" (");
            s.append(self.lexeme.as_str());
            s.append(")");
        }
        s
    }
}

} // verus!
