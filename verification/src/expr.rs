//! Expressions and their printed form.

use vstd::prelude::*;

use crate::token::{literal_text, Literal, SpecLiteral, SpecToken, Token};

verus! {

/// An expression of the language.
#[derive(Debug, PartialEq)]
pub enum Expr {
    Assign { name: Token, value: Box<Expr> },
    Binary { left: Box<Expr>, op: Token, right: Box<Expr> },
    Grouping(Box<Expr>),
    Literal(Literal),
    Unary { op: Token, right: Box<Expr> },
    Variable(Token),
    /// What the parser leaves where it met an error.
    Error(Token),
}

/// The mathematical twin of [`Expr`].
pub enum SpecExpr {
    Assign { name: SpecToken, value: Box<SpecExpr> },
    Binary { left: Box<SpecExpr>, op: SpecToken, right: Box<SpecExpr> },
    Grouping(Box<SpecExpr>),
    Literal(SpecLiteral),
    Unary { op: SpecToken, right: Box<SpecExpr> },
    Variable(SpecToken),
    Error(SpecToken),
}

pub open spec fn expr_view(e: Expr) -> SpecExpr
    decreases e,
{
    match e {
        Expr::Assign { name, value } => SpecExpr::Assign {
            name: name@,
            value: Box::new(expr_view(*value)),
        },
        Expr::Binary { left, op, right } => SpecExpr::Binary {
            left: Box::new(expr_view(*left)),
            op: op@,
            right: Box::new(expr_view(*right)),
        },
        Expr::Grouping(inside) => SpecExpr::Grouping(Box::new(expr_view(*inside))),
        Expr::Literal(l) => SpecExpr::Literal(l@),
        Expr::Unary { op, right } => SpecExpr::Unary { op: op@, right: Box::new(expr_view(*right)) },
        Expr::Variable(name) => SpecExpr::Variable(name@),
        Expr::Error(t) => SpecExpr::Error(t@),
    }
}

impl View for Expr {
    type V = SpecExpr;

    open spec fn view(&self) -> SpecExpr {
        expr_view(*self)
    }
}

/// The parts, each after a space.
pub open spec fn spaced(parts: Seq<Seq<char>>) -> Seq<char>
    decreases parts.len(),
{
    if parts.len() == 0 {
        Seq::empty()
    } else {
        spaced(parts.drop_last()) + " "@ + parts.last()
    }
}

/// `(name part1 part2 ...)`.
pub open spec fn parenthesized(name: Seq<char>, parts: Seq<Seq<char>>) -> Seq<char> {
    "("@ + name + spaced(parts) + ")"@
}

/// The printed form of an expression: operators in prefix position inside
/// parentheses, a grouping as `(group ...)`, a literal as its text, a
/// variable as its name, an assignment as `(= name value)` and an error as
/// `Error`.
pub open spec fn printed(e: SpecExpr) -> Seq<char>
    decreases e,
{
    match e {
        SpecExpr::Assign { name, value } => parenthesized("="@, seq![name.lexeme, printed(*value)]),
        SpecExpr::Binary { left, op, right } => parenthesized(
            op.lexeme,
            seq![printed(*left), printed(*right)],
        ),
        SpecExpr::Grouping(inside) => parenthesized("group"@, seq![printed(*inside)]),
        SpecExpr::Literal(l) => literal_text(l),
        SpecExpr::Unary { op, right } => parenthesized(op.lexeme, seq![printed(*right)]),
        SpecExpr::Variable(name) => name.lexeme,
        SpecExpr::Error(_) => "Error"@,
    }
}

/// `(name part1 part2 ...)`.
pub fn parenthesize(name: &str, parts: &Vec<String>) -> (s: String)
    ensures
        s@ == parenthesized(name@, parts@.map_values(|p: String| p@)),
{
    let ghost views = parts@.map_values(|p: String| p@);
    let mut result = "(".to_owned();
    result.append(name);
    let mut i: usize = 0;
    while i < parts.len()
        invariant
            0 <= i <= parts.len(),
            views == parts@.map_values(|p: String| p@),
            result@ == "("@ + name@ + spaced(views.take(i as int)),
        decreases parts.len() - i,
    {
        result.append(" ");
        result.append(parts[i].as_str());
        proof {
            assert(views.take(i + 1).drop_last() =~= views.take(i as int));
        }
        i = i + 1;
    }
    assert(views.take(parts.len() as int) =~= views);
    result.append(")");
    result
}

/// The printed form of an expression, as [`printed`] says.
pub fn print_ast(expr: &Expr) -> (s: String)
    ensures
        s@ == printed(expr@),
    decreases expr,
{
    match expr {
        Expr::Assign { name, value } => {
            let parts = vec![name.lexeme.clone(), print_ast(value)];
            let r = parenthesize("=", &parts);
            assert(parts@.map_values(|p: String| p@) =~= seq![name.lexeme@, printed(value@)]);
            r
        },
        Expr::Binary { left, op, right } => {
            let parts = vec![print_ast(left), print_ast(right)];
            let r = parenthesize(op.lexeme.as_str(), &parts);
            assert(parts@.map_values(|p: String| p@) =~= seq![printed(left@), printed(right@)]);
            r
        },
        Expr::Grouping(inside) => {
            let parts = vec![print_ast(inside)];
            let r = parenthesize("group", &parts);
            assert(parts@.map_values(|p: String| p@) =~= seq![printed(inside@)]);
            r
        },
        Expr::Literal(literal) => literal.to_text(),
        Expr::Unary { op, right } => {
            let parts = vec![print_ast(right)];
            let r = parenthesize(op.lexeme.as_str(), &parts);
            assert(parts@.map_values(|p: String| p@) =~= seq![printed(right@)]);
            r
        },
        Expr::Variable(name) => name.lexeme.clone(),
        Expr::Error(_) => "Error".to_owned(),
    }
}

} // verus!
