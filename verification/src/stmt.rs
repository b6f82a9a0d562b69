//! Statements and their printed form.

use vstd::prelude::*;

use crate::expr::{print_ast, printed, Expr, SpecExpr};
use crate::token::{SpecToken, Token};

verus! {

/// A statement of the language.
#[derive(Debug, PartialEq)]
pub enum Stmt {
    Expr(Expr),
    Print(Expr),
    Var { name: Token, init: Option<Expr> },
}

/// The mathematical twin of [`Stmt`].
pub enum SpecStmt {
    Expr(SpecExpr),
    Print(SpecExpr),
    Var { name: SpecToken, init: Option<SpecExpr> },
}

impl View for Stmt {
    type V = SpecStmt;

    open spec fn view(&self) -> SpecStmt {
        match self {
            Stmt::Expr(e) => SpecStmt::Expr(e@),
            Stmt::Print(e) => SpecStmt::Print(e@),
            Stmt::Var { name, init } => SpecStmt::Var {
                name: name@,
                init: match init {
                    Some(e) => Some(e@),
                    None => None,
                },
            },
        }
    }
}

pub open spec fn stmts_view(stmts: Seq<Stmt>) -> Seq<SpecStmt> {
    stmts.map_values(|s: Stmt| s@)
}

/// The printed form of a statement: an expression statement as its
/// expression, `print(...)` for a print statement, and `var(name)` or
/// `var(name = ...)` for a declaration.
pub open spec fn printed_stmt(s: SpecStmt) -> Seq<char> {
    match s {
        SpecStmt::Expr(e) => printed(e),
        SpecStmt::Print(e) => "print("@ + printed(e) + ")"@,
        SpecStmt::Var { name, init } => match init {
            Some(e) => "var("@ + name.lexeme + " = "@ + printed(e) + ")"@,
            None => "var("@ + name.lexeme + ")"@,
        },
    }
}

/// The printed form of a statement, as [`printed_stmt`] says.
pub fn print_stmt(stmt: &Stmt) -> (s: String)
    ensures
        s@ == printed_stmt(stmt@),
{
    match stmt {
        Stmt::Expr(expr) => print_ast(expr),
        Stmt::Print(expr) => {
            let mut r = "print(".to_owned();
            let inner = print_ast(expr);
            r.append(inner.as_str());
            r.append(")");
            r
        },
        Stmt::Var { name, init } => {
            let mut r = "var(".to_owned();
            r.append(name.lexeme.as_str());
            match init {
                Some(e) => {
                    r.append(" = ");
                    let inner = print_ast(e);
                    r.append(inner.as_str());
                },
                None => {},
            }
            r.append(")");
            r
        },
    }
}

} // verus!
