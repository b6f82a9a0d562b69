//! The grammar of the language as functions on token sequences.
//!
//! Each rule is a function from a token sequence and a position to the tree
//! it builds, the position after it and the errors it met. The recursive
//! rules are closed; each comes with a lemma that unfolds it once into its
//! step function, which says how the rule combines the parses of its parts.
//!
//! ```text
//! program     = declaration* EOF ;
//! declaration = varDecl | statement ;
//! varDecl     = "var" IDENTIFIER ( "=" expression )? ";" ;
//! statement   = exprStmt | printStmt ;
//! exprStmt    = expression ";" ;
//! printStmt   = "print" expression ";" ;
//! expression  = assignment ;
//! assignment  = IDENTIFIER "=" equality | equality ;
//! equality    = comparison ( ( "!=" | "==" ) comparison )* ;
//! comparison  = term ( ( ">" | ">=" | "<" | "<=" ) term )* ;
//! term        = factor ( ( "-" | "+" ) factor )* ;
//! factor      = unary ( ( "/" | "*" ) unary )* ;
//! unary       = ( "!" | "-" ) unary | primary ;
//! primary     = NUMBER | STRING | "true" | "false" | "nil" | "(" expression ")" | IDENTIFIER ;
//! ```
//!
//! On an error the parser records it, skips to the next statement boundary
//! and leaves an `Error` node in the tree.

use vstd::prelude::*;

use crate::expr::{printed, SpecExpr};
use crate::stmt::SpecStmt;
use crate::token::{SpecLiteral, SpecToken, TokenType};

verus! {

/// The mathematical twin of a parser error: its line, message and token.
pub struct SpecParserError {
    pub line: usize,
    pub msg: Seq<char>,
    pub token: SpecToken,
}

/// The error `msg` at `token`.
pub open spec fn parse_error(msg: Seq<char>, token: SpecToken) -> SpecParserError {
    SpecParserError { line: token.line, msg, token }
}

pub open spec fn at_end(ts: Seq<SpecToken>, p: int) -> bool {
    ts[p].kind == TokenType::Eof
}

/// Whether the token at `p` is of kind `kind` and not the end.
pub open spec fn check(ts: Seq<SpecToken>, p: int, kind: TokenType) -> bool {
    !at_end(ts, p) && ts[p].kind == kind
}

/// Whether the token at `p` is of one of `kinds` and not the end.
pub open spec fn check_any(ts: Seq<SpecToken>, p: int, kinds: Seq<TokenType>) -> bool {
    !at_end(ts, p) && kinds.contains(ts[p].kind)
}

/// Whether a statement may start with a token of this kind.
pub open spec fn starts_statement(kind: TokenType) -> bool {
    kind == TokenType::Class || kind == TokenType::Fun || kind == TokenType::Var || kind
        == TokenType::For || kind == TokenType::If || kind == TokenType::While || kind
        == TokenType::Print || kind == TokenType::Return
}

/// Skipping from `p` on: stop at the end, after a semicolon, or before a
/// token that starts a statement.
pub open spec fn skip_from(ts: Seq<SpecToken>, p: int) -> int
    decreases ts.len() - p,
{
    if p < 1 || p >= ts.len() || at_end(ts, p) {
        p
    } else if ts[p - 1].kind == TokenType::Semicolon {
        p
    } else if starts_statement(ts[p].kind) {
        p
    } else {
        skip_from(ts, p + 1)
    }
}

/// Where recovery from an error at `p` resumes: past the token at `p`, then
/// to the next statement boundary.
pub open spec fn synchronized(ts: Seq<SpecToken>, p: int) -> int {
    skip_from(ts, if at_end(ts, p) { p } else { p + 1 })
}

/// A parse of an expression: the tree, the position after it and the errors met.
pub type ExprParse = (SpecExpr, int, Seq<SpecParserError>);

/// What stands for a parse outside the token sequence.
pub open spec fn no_parse(p: int) -> ExprParse {
    (SpecExpr::Literal(SpecLiteral::Nil), p, Seq::empty())
}

pub open spec fn equality_kinds() -> Seq<TokenType> {
    seq![TokenType::BangEqual, TokenType::EqualEqual]
}

pub open spec fn comparison_kinds() -> Seq<TokenType> {
    seq![TokenType::Greater, TokenType::GreaterEqual, TokenType::Less, TokenType::LessEqual]
}

pub open spec fn term_kinds() -> Seq<TokenType> {
    seq![TokenType::Minus, TokenType::Plus]
}

pub open spec fn factor_kinds() -> Seq<TokenType> {
    seq![TokenType::Slash, TokenType::Star]
}

pub open spec fn unary_kinds() -> Seq<TokenType> {
    seq![TokenType::Bang, TokenType::Minus]
}

// ---- The steps of the rules.

/// `assignment` at `p`, from `left`, the `equality` at `p`, and `value`, the
/// `equality` after the `=` that may follow it.
pub open spec fn assignment_step(ts: Seq<SpecToken>, p: int, left: ExprParse, value: ExprParse) -> ExprParse {
    let (e, p1, er) = left;
    if p < 0 || p >= ts.len() || p1 < p || p1 >= ts.len() {
        no_parse(p)
    } else if check(ts, p1, TokenType::Equal) {
        let equal = ts[p1];
        let (v, p2, er2) = value;
        match e {
            SpecExpr::Variable(name) => (SpecExpr::Assign { name, value: Box::new(v) }, p2, er + er2),
            _ => (
                SpecExpr::Error(equal),
                synchronized(ts, p2),
                er + er2 + seq![
                    parse_error("Invalid assignment target, found "@ + printed(e), equal),
                ],
            ),
        }
    } else {
        left
    }
}

/// A binary level at `p`: its first operand `first`, then `rest`, the
/// operators and operands that follow it.
pub open spec fn level_step(ts: Seq<SpecToken>, p: int, first: ExprParse, rest: ExprParse) -> ExprParse {
    if p < 0 || p >= ts.len() || first.1 < p || first.1 > ts.len() {
        no_parse(p)
    } else {
        rest
    }
}

/// More operands after `left`, which ends at `p` with errors `er`: `right`
/// is the operand after the operator at `p`, and `more` what follows it.
pub open spec fn rest_step(
    ts: Seq<SpecToken>,
    kinds: Seq<TokenType>,
    left: SpecExpr,
    p: int,
    er: Seq<SpecParserError>,
    right: ExprParse,
    more: ExprParse,
) -> ExprParse {
    if p < 0 || p >= ts.len() || !check_any(ts, p, kinds) {
        (left, p, er)
    } else if right.1 < p + 1 || right.1 > ts.len() {
        no_parse(p)
    } else {
        more
    }
}

/// The tree that joins `left` and `right` with the operator at `p`.
pub open spec fn joined(ts: Seq<SpecToken>, left: SpecExpr, p: int, right: SpecExpr) -> SpecExpr {
    SpecExpr::Binary { left: Box::new(left), op: ts[p], right: Box::new(right) }
}

/// `unary` at `p`: `operand` is the `unary` after a prefix operator at `p`,
/// `plain` the `primary` at `p`.
pub open spec fn unary_step(ts: Seq<SpecToken>, p: int, operand: ExprParse, plain: ExprParse) -> ExprParse {
    if p < 0 || p >= ts.len() {
        no_parse(p)
    } else if check_any(ts, p, unary_kinds()) {
        let (r, p1, er) = operand;
        (SpecExpr::Unary { op: ts[p], right: Box::new(r) }, p1, er)
    } else {
        plain
    }
}

/// `primary` at `p`: `inner` is the expression after a `(` at `p`.
pub open spec fn primary_step(ts: Seq<SpecToken>, p: int, inner: ExprParse) -> ExprParse {
    if p < 0 || p >= ts.len() {
        no_parse(p)
    } else {
        let t = ts[p];
        if check(ts, p, TokenType::False) {
            (SpecExpr::Literal(SpecLiteral::Bool(false)), p + 1, Seq::empty())
        } else if check(ts, p, TokenType::True) {
            (SpecExpr::Literal(SpecLiteral::Bool(true)), p + 1, Seq::empty())
        } else if check(ts, p, TokenType::Nil) {
            (SpecExpr::Literal(SpecLiteral::Nil), p + 1, Seq::empty())
        } else if check(ts, p, TokenType::Number) || check(ts, p, TokenType::String) {
            (SpecExpr::Literal(t.literal->0), p + 1, Seq::empty())
        } else if check(ts, p, TokenType::Identifier) {
            (SpecExpr::Variable(t), p + 1, Seq::empty())
        } else if check(ts, p, TokenType::LeftParen) {
            let (e, p1, er) = inner;
            if check(ts, p1, TokenType::RightParen) {
                (SpecExpr::Grouping(Box::new(e)), p1 + 1, er)
            } else {
                let tok = ts[p1];
                (
                    SpecExpr::Error(tok),
                    synchronized(ts, p1),
                    er + seq![parse_error("Expected ')', found "@ + tok.lexeme, tok)],
                )
            }
        } else {
            (
                SpecExpr::Error(t),
                synchronized(ts, p),
                seq![parse_error("Expected expression, found "@ + t.lexeme, t)],
            )
        }
    }
}

// ---- The rules.

pub closed spec fn parse_expression(ts: Seq<SpecToken>, p: int) -> ExprParse
    decreases ts.len() - p, 12nat,
{
    parse_assignment(ts, p)
}

pub closed spec fn parse_assignment(ts: Seq<SpecToken>, p: int) -> ExprParse
    decreases ts.len() - p, 11nat,
{
    if p < 0 || p >= ts.len() {
        no_parse(p)
    } else {
        let left = parse_equality(ts, p);
        let value = if p <= left.1 < ts.len() {
            parse_equality(ts, left.1 + 1)
        } else {
            no_parse(p)
        };
        assignment_step(ts, p, left, value)
    }
}

pub closed spec fn parse_equality(ts: Seq<SpecToken>, p: int) -> ExprParse
    decreases ts.len() - p, 10nat,
{
    if p < 0 || p >= ts.len() {
        no_parse(p)
    } else {
        let first = parse_comparison(ts, p);
        let rest = if p <= first.1 <= ts.len() {
            equality_rest(ts, first.0, first.1, first.2)
        } else {
            no_parse(p)
        };
        level_step(ts, p, first, rest)
    }
}

/// More `==` and `!=` operands after `left`, which ends at `p`.
pub closed spec fn equality_rest(ts: Seq<SpecToken>, left: SpecExpr, p: int, er: Seq<SpecParserError>) -> ExprParse
    decreases ts.len() - p, 9nat,
{
    if p < 0 || p >= ts.len() {
        (left, p, er)
    } else {
        let right = parse_comparison(ts, p + 1);
        let more = if p + 1 <= right.1 <= ts.len() {
            equality_rest(ts, joined(ts, left, p, right.0), right.1, er + right.2)
        } else {
            no_parse(p)
        };
        rest_step(ts, equality_kinds(), left, p, er, right, more)
    }
}

pub closed spec fn parse_comparison(ts: Seq<SpecToken>, p: int) -> ExprParse
    decreases ts.len() - p, 8nat,
{
    if p < 0 || p >= ts.len() {
        no_parse(p)
    } else {
        let first = parse_term(ts, p);
        let rest = if p <= first.1 <= ts.len() {
            comparison_rest(ts, first.0, first.1, first.2)
        } else {
            no_parse(p)
        };
        level_step(ts, p, first, rest)
    }
}

/// More `>`, `>=`, `<` and `<=` operands after `left`, which ends at `p`.
pub closed spec fn comparison_rest(ts: Seq<SpecToken>, left: SpecExpr, p: int, er: Seq<SpecParserError>) -> ExprParse
    decreases ts.len() - p, 7nat,
{
    if p < 0 || p >= ts.len() {
        (left, p, er)
    } else {
        let right = parse_term(ts, p + 1);
        let more = if p + 1 <= right.1 <= ts.len() {
            comparison_rest(ts, joined(ts, left, p, right.0), right.1, er + right.2)
        } else {
            no_parse(p)
        };
        rest_step(ts, comparison_kinds(), left, p, er, right, more)
    }
}

pub closed spec fn parse_term(ts: Seq<SpecToken>, p: int) -> ExprParse
    decreases ts.len() - p, 6nat,
{
    if p < 0 || p >= ts.len() {
        no_parse(p)
    } else {
        let first = parse_factor(ts, p);
        let rest = if p <= first.1 <= ts.len() {
            term_rest(ts, first.0, first.1, first.2)
        } else {
            no_parse(p)
        };
        level_step(ts, p, first, rest)
    }
}

/// More `-` and `+` operands after `left`, which ends at `p`.
pub closed spec fn term_rest(ts: Seq<SpecToken>, left: SpecExpr, p: int, er: Seq<SpecParserError>) -> ExprParse
    decreases ts.len() - p, 5nat,
{
    if p < 0 || p >= ts.len() {
        (left, p, er)
    } else {
        let right = parse_factor(ts, p + 1);
        let more = if p + 1 <= right.1 <= ts.len() {
            term_rest(ts, joined(ts, left, p, right.0), right.1, er + right.2)
        } else {
            no_parse(p)
        };
        rest_step(ts, term_kinds(), left, p, er, right, more)
    }
}

pub closed spec fn parse_factor(ts: Seq<SpecToken>, p: int) -> ExprParse
    decreases ts.len() - p, 4nat,
{
    if p < 0 || p >= ts.len() {
        no_parse(p)
    } else {
        let first = parse_unary(ts, p);
        let rest = if p <= first.1 <= ts.len() {
            factor_rest(ts, first.0, first.1, first.2)
        } else {
            no_parse(p)
        };
        level_step(ts, p, first, rest)
    }
}

/// More `/` and `*` operands after `left`, which ends at `p`.
pub closed spec fn factor_rest(ts: Seq<SpecToken>, left: SpecExpr, p: int, er: Seq<SpecParserError>) -> ExprParse
    decreases ts.len() - p, 3nat,
{
    if p < 0 || p >= ts.len() {
        (left, p, er)
    } else {
        let right = parse_unary(ts, p + 1);
        let more = if p + 1 <= right.1 <= ts.len() {
            factor_rest(ts, joined(ts, left, p, right.0), right.1, er + right.2)
        } else {
            no_parse(p)
        };
        rest_step(ts, factor_kinds(), left, p, er, right, more)
    }
}

pub closed spec fn parse_unary(ts: Seq<SpecToken>, p: int) -> ExprParse
    decreases ts.len() - p, 2nat,
{
    if p < 0 || p >= ts.len() {
        no_parse(p)
    } else {
        unary_step(ts, p, parse_unary(ts, p + 1), parse_primary(ts, p))
    }
}

pub closed spec fn parse_primary(ts: Seq<SpecToken>, p: int) -> ExprParse
    decreases ts.len() - p, 1nat,
{
    if p < 0 || p >= ts.len() {
        no_parse(p)
    } else {
        primary_step(ts, p, parse_expression(ts, p + 1))
    }
}

// ---- One unfolding of each rule.

pub proof fn lemma_expression(ts: Seq<SpecToken>, p: int)
    ensures
        parse_expression(ts, p) == parse_assignment(ts, p),
{
}

pub proof fn lemma_assignment(ts: Seq<SpecToken>, p: int)
    requires
        0 <= p < ts.len(),
    ensures
        parse_assignment(ts, p) == assignment_step(
            ts,
            p,
            parse_equality(ts, p),
            parse_equality(ts, parse_equality(ts, p).1 + 1),
        ),
{
}

pub proof fn lemma_equality(ts: Seq<SpecToken>, p: int)
    requires
        0 <= p < ts.len(),
    ensures
        ({
            let first = parse_comparison(ts, p);
            parse_equality(ts, p) == level_step(ts, p, first, equality_rest(ts, first.0, first.1, first.2))
        }),
{
}

pub proof fn lemma_equality_rest(ts: Seq<SpecToken>, left: SpecExpr, p: int, er: Seq<SpecParserError>)
    requires
        0 <= p < ts.len(),
    ensures
        ({
            let right = parse_comparison(ts, p + 1);
            equality_rest(ts, left, p, er) == rest_step(
                ts,
                equality_kinds(),
                left,
                p,
                er,
                right,
                equality_rest(ts, joined(ts, left, p, right.0), right.1, er + right.2),
            )
        }),
{
}

pub proof fn lemma_comparison(ts: Seq<SpecToken>, p: int)
    requires
        0 <= p < ts.len(),
    ensures
        ({
            let first = parse_term(ts, p);
            parse_comparison(ts, p) == level_step(ts, p, first, comparison_rest(ts, first.0, first.1, first.2))
        }),
{
}

pub proof fn lemma_comparison_rest(ts: Seq<SpecToken>, left: SpecExpr, p: int, er: Seq<SpecParserError>)
    requires
        0 <= p < ts.len(),
    ensures
        ({
            let right = parse_term(ts, p + 1);
            comparison_rest(ts, left, p, er) == rest_step(
                ts,
                comparison_kinds(),
                left,
                p,
                er,
                right,
                comparison_rest(ts, joined(ts, left, p, right.0), right.1, er + right.2),
            )
        }),
{
}

pub proof fn lemma_term(ts: Seq<SpecToken>, p: int)
    requires
        0 <= p < ts.len(),
    ensures
        ({
            let first = parse_factor(ts, p);
            parse_term(ts, p) == level_step(ts, p, first, term_rest(ts, first.0, first.1, first.2))
        }),
{
}

pub proof fn lemma_term_rest(ts: Seq<SpecToken>, left: SpecExpr, p: int, er: Seq<SpecParserError>)
    requires
        0 <= p < ts.len(),
    ensures
        ({
            let right = parse_factor(ts, p + 1);
            term_rest(ts, left, p, er) == rest_step(
                ts,
                term_kinds(),
                left,
                p,
                er,
                right,
                term_rest(ts, joined(ts, left, p, right.0), right.1, er + right.2),
            )
        }),
{
}

pub proof fn lemma_factor(ts: Seq<SpecToken>, p: int)
    requires
        0 <= p < ts.len(),
    ensures
        ({
            let first = parse_unary(ts, p);
            parse_factor(ts, p) == level_step(ts, p, first, factor_rest(ts, first.0, first.1, first.2))
        }),
{
}

pub proof fn lemma_factor_rest(ts: Seq<SpecToken>, left: SpecExpr, p: int, er: Seq<SpecParserError>)
    requires
        0 <= p < ts.len(),
    ensures
        ({
            let right = parse_unary(ts, p + 1);
            factor_rest(ts, left, p, er) == rest_step(
                ts,
                factor_kinds(),
                left,
                p,
                er,
                right,
                factor_rest(ts, joined(ts, left, p, right.0), right.1, er + right.2),
            )
        }),
{
}

pub proof fn lemma_unary(ts: Seq<SpecToken>, p: int)
    requires
        0 <= p < ts.len(),
    ensures
        parse_unary(ts, p) == unary_step(ts, p, parse_unary(ts, p + 1), parse_primary(ts, p)),
{
}

pub proof fn lemma_primary(ts: Seq<SpecToken>, p: int)
    requires
        0 <= p < ts.len(),
    ensures
        parse_primary(ts, p) == primary_step(ts, p, parse_expression(ts, p + 1)),
{
}

// ---- Errors and error nodes.

/// Whether an expression holds an error node.
pub open spec fn has_error_node(e: SpecExpr) -> bool
    decreases e,
{
    match e {
        SpecExpr::Assign { value, .. } => has_error_node(*value),
        SpecExpr::Binary { left, right, .. } => has_error_node(*left) || has_error_node(*right),
        SpecExpr::Grouping(inside) => has_error_node(*inside),
        SpecExpr::Unary { right, .. } => has_error_node(*right),
        SpecExpr::Error(_) => true,
        _ => false,
    }
}

/// Whether a parse met errors exactly when its tree holds an error node.
pub open spec fn errors_match(r: ExprParse) -> bool {
    r.2.len() > 0 <==> has_error_node(r.0)
}

proof fn lemma_rest_errors(
    ts: Seq<SpecToken>,
    kinds: Seq<TokenType>,
    left: SpecExpr,
    p: int,
    er: Seq<SpecParserError>,
    right: ExprParse,
    more: ExprParse,
)
    requires
        er.len() > 0 <==> has_error_node(left),
        errors_match(right),
        0 <= p < ts.len() && check_any(ts, p, kinds) && p + 1 <= right.1 <= ts.len() ==> errors_match(
            more,
        ),
    ensures
        errors_match(rest_step(ts, kinds, left, p, er, right, more)),
{
}

proof fn lemma_joined_errors(
    ts: Seq<SpecToken>,
    left: SpecExpr,
    p: int,
    er: Seq<SpecParserError>,
    right: ExprParse,
)
    requires
        er.len() > 0 <==> has_error_node(left),
        errors_match(right),
    ensures
        (er + right.2).len() > 0 <==> has_error_node(joined(ts, left, p, right.0)),
{
}

proof fn lemma_expression_errors(ts: Seq<SpecToken>, p: int)
    ensures
        errors_match(parse_expression(ts, p)),
    decreases ts.len() - p, 12nat,
{
    lemma_assignment_errors(ts, p);
}

proof fn lemma_assignment_errors(ts: Seq<SpecToken>, p: int)
    ensures
        errors_match(parse_assignment(ts, p)),
    decreases ts.len() - p, 11nat,
{
    if 0 <= p < ts.len() {
        let left = parse_equality(ts, p);
        lemma_equality_errors(ts, p);
        if p <= left.1 < ts.len() {
            lemma_equality_errors(ts, left.1 + 1);
        }
    }
}

proof fn lemma_equality_errors(ts: Seq<SpecToken>, p: int)
    ensures
        errors_match(parse_equality(ts, p)),
    decreases ts.len() - p, 10nat,
{
    if 0 <= p < ts.len() {
        let first = parse_comparison(ts, p);
        lemma_comparison_errors(ts, p);
        if p <= first.1 <= ts.len() {
            lemma_equality_rest_errors(ts, first.0, first.1, first.2);
        }
    }
}

proof fn lemma_equality_rest_errors(ts: Seq<SpecToken>, left: SpecExpr, p: int, er: Seq<SpecParserError>)
    requires
        er.len() > 0 <==> has_error_node(left),
    ensures
        errors_match(equality_rest(ts, left, p, er)),
    decreases ts.len() - p, 9nat,
{
    if 0 <= p < ts.len() {
        let right = parse_comparison(ts, p + 1);
        lemma_comparison_errors(ts, p + 1);
        let more = if p + 1 <= right.1 <= ts.len() {
            lemma_joined_errors(ts, left, p, er, right);
            lemma_equality_rest_errors(ts, joined(ts, left, p, right.0), right.1, er + right.2);
            equality_rest(ts, joined(ts, left, p, right.0), right.1, er + right.2)
        } else {
            no_parse(p)
        };
        lemma_rest_errors(ts, equality_kinds(), left, p, er, right, more);
    }
}

proof fn lemma_comparison_errors(ts: Seq<SpecToken>, p: int)
    ensures
        errors_match(parse_comparison(ts, p)),
    decreases ts.len() - p, 8nat,
{
    if 0 <= p < ts.len() {
        let first = parse_term(ts, p);
        lemma_term_errors(ts, p);
        if p <= first.1 <= ts.len() {
            lemma_comparison_rest_errors(ts, first.0, first.1, first.2);
        }
    }
}

proof fn lemma_comparison_rest_errors(ts: Seq<SpecToken>, left: SpecExpr, p: int, er: Seq<SpecParserError>)
    requires
        er.len() > 0 <==> has_error_node(left),
    ensures
        errors_match(comparison_rest(ts, left, p, er)),
    decreases ts.len() - p, 7nat,
{
    if 0 <= p < ts.len() {
        let right = parse_term(ts, p + 1);
        lemma_term_errors(ts, p + 1);
        let more = if p + 1 <= right.1 <= ts.len() {
            lemma_joined_errors(ts, left, p, er, right);
            lemma_comparison_rest_errors(ts, joined(ts, left, p, right.0), right.1, er + right.2);
            comparison_rest(ts, joined(ts, left, p, right.0), right.1, er + right.2)
        } else {
            no_parse(p)
        };
        lemma_rest_errors(ts, comparison_kinds(), left, p, er, right, more);
    }
}

proof fn lemma_term_errors(ts: Seq<SpecToken>, p: int)
    ensures
        errors_match(parse_term(ts, p)),
    decreases ts.len() - p, 6nat,
{
    if 0 <= p < ts.len() {
        let first = parse_factor(ts, p);
        lemma_factor_errors(ts, p);
        if p <= first.1 <= ts.len() {
            lemma_term_rest_errors(ts, first.0, first.1, first.2);
        }
    }
}

proof fn lemma_term_rest_errors(ts: Seq<SpecToken>, left: SpecExpr, p: int, er: Seq<SpecParserError>)
    requires
        er.len() > 0 <==> has_error_node(left),
    ensures
        errors_match(term_rest(ts, left, p, er)),
    decreases ts.len() - p, 5nat,
{
    if 0 <= p < ts.len() {
        let right = parse_factor(ts, p + 1);
        lemma_factor_errors(ts, p + 1);
        let more = if p + 1 <= right.1 <= ts.len() {
            lemma_joined_errors(ts, left, p, er, right);
            lemma_term_rest_errors(ts, joined(ts, left, p, right.0), right.1, er + right.2);
            term_rest(ts, joined(ts, left, p, right.0), right.1, er + right.2)
        } else {
            no_parse(p)
        };
        lemma_rest_errors(ts, term_kinds(), left, p, er, right, more);
    }
}

proof fn lemma_factor_errors(ts: Seq<SpecToken>, p: int)
    ensures
        errors_match(parse_factor(ts, p)),
    decreases ts.len() - p, 4nat,
{
    if 0 <= p < ts.len() {
        let first = parse_unary(ts, p);
        lemma_unary_errors(ts, p);
        if p <= first.1 <= ts.len() {
            lemma_factor_rest_errors(ts, first.0, first.1, first.2);
        }
    }
}

proof fn lemma_factor_rest_errors(ts: Seq<SpecToken>, left: SpecExpr, p: int, er: Seq<SpecParserError>)
    requires
        er.len() > 0 <==> has_error_node(left),
    ensures
        errors_match(factor_rest(ts, left, p, er)),
    decreases ts.len() - p, 3nat,
{
    if 0 <= p < ts.len() {
        let right = parse_unary(ts, p + 1);
        lemma_unary_errors(ts, p + 1);
        let more = if p + 1 <= right.1 <= ts.len() {
            lemma_joined_errors(ts, left, p, er, right);
            lemma_factor_rest_errors(ts, joined(ts, left, p, right.0), right.1, er + right.2);
            factor_rest(ts, joined(ts, left, p, right.0), right.1, er + right.2)
        } else {
            no_parse(p)
        };
        lemma_rest_errors(ts, factor_kinds(), left, p, er, right, more);
    }
}

proof fn lemma_unary_errors(ts: Seq<SpecToken>, p: int)
    ensures
        errors_match(parse_unary(ts, p)),
    decreases ts.len() - p, 2nat,
{
    if 0 <= p < ts.len() {
        lemma_unary_errors(ts, p + 1);
        lemma_primary_errors(ts, p);
    }
}

proof fn lemma_primary_errors(ts: Seq<SpecToken>, p: int)
    ensures
        errors_match(parse_primary(ts, p)),
    decreases ts.len() - p, 1nat,
{
    if 0 <= p < ts.len() {
        lemma_expression_errors(ts, p + 1);
    }
}

// ---- Parses stop at the end-of-file token.

/// Whether `e` is the position of an end-of-file token at or after `p`.
pub open spec fn eof_at(ts: Seq<SpecToken>, p: int, e: int) -> bool {
    0 <= p <= e < ts.len() && ts[e].kind == TokenType::Eof
}

proof fn lemma_skip_from_stays(ts: Seq<SpecToken>, p: int, e: int)
    requires
        p <= e < ts.len(),
        0 <= e,
        ts[e].kind == TokenType::Eof,
    ensures
        skip_from(ts, p) <= e,
    decreases ts.len() - p,
{
    if !(p < 1 || p >= ts.len() || at_end(ts, p)) && ts[p - 1].kind != TokenType::Semicolon
        && !starts_statement(ts[p].kind) {
        lemma_skip_from_stays(ts, p + 1, e);
    }
}

proof fn lemma_synchronized_stays(ts: Seq<SpecToken>, p: int, e: int)
    requires
        p <= e < ts.len(),
        0 <= e,
        ts[e].kind == TokenType::Eof,
    ensures
        synchronized(ts, p) <= e,
{
    if at_end(ts, p) {
        lemma_skip_from_stays(ts, p, e);
    } else {
        lemma_skip_from_stays(ts, p + 1, e);
    }
}

proof fn lemma_expression_stays(ts: Seq<SpecToken>, p: int, e: int)
    requires
        eof_at(ts, p, e),
    ensures
        parse_expression(ts, p).1 <= e,
    decreases ts.len() - p, 12nat,
{
    lemma_assignment_stays(ts, p, e);
}

proof fn lemma_assignment_step_stays(ts: Seq<SpecToken>, p: int, left: ExprParse, value: ExprParse, e: int)
    requires
        eof_at(ts, p, e),
        left.1 <= e,
        p <= left.1 && check(ts, left.1, TokenType::Equal) ==> value.1 <= e,
    ensures
        assignment_step(ts, p, left, value).1 <= e,
{
    if p <= left.1 && check(ts, left.1, TokenType::Equal) {
        lemma_synchronized_stays(ts, value.1, e);
    }
}

#[verifier::rlimit(60)]
proof fn lemma_assignment_stays(ts: Seq<SpecToken>, p: int, e: int)
    requires
        eof_at(ts, p, e),
    ensures
        parse_assignment(ts, p).1 <= e,
    decreases ts.len() - p, 11nat,
{
    lemma_assignment(ts, p);
    let left = parse_equality(ts, p);
    lemma_equality_stays(ts, p, e);
    let value = parse_equality(ts, left.1 + 1);
    if p <= left.1 && check(ts, left.1, TokenType::Equal) {
        lemma_equality_stays(ts, left.1 + 1, e);
    }
    lemma_assignment_step_stays(ts, p, left, value, e);
}

proof fn lemma_equality_stays(ts: Seq<SpecToken>, p: int, e: int)
    requires
        eof_at(ts, p, e),
    ensures
        parse_equality(ts, p).1 <= e,
    decreases ts.len() - p, 10nat,
{
    let first = parse_comparison(ts, p);
    lemma_comparison_stays(ts, p, e);
    if p <= first.1 {
        lemma_equality_rest_stays(ts, first.0, first.1, first.2, e);
    }
}

proof fn lemma_equality_rest_stays(
    ts: Seq<SpecToken>,
    left: SpecExpr,
    p: int,
    er: Seq<SpecParserError>,
    e: int,
)
    requires
        eof_at(ts, p, e),
    ensures
        equality_rest(ts, left, p, er).1 <= e,
    decreases ts.len() - p, 9nat,
{
    if p < e {
        let right = parse_comparison(ts, p + 1);
        lemma_comparison_stays(ts, p + 1, e);
        if p + 1 <= right.1 {
            lemma_equality_rest_stays(ts, joined(ts, left, p, right.0), right.1, er + right.2, e);
        }
    }
}

proof fn lemma_comparison_stays(ts: Seq<SpecToken>, p: int, e: int)
    requires
        eof_at(ts, p, e),
    ensures
        parse_comparison(ts, p).1 <= e,
    decreases ts.len() - p, 8nat,
{
    let first = parse_term(ts, p);
    lemma_term_stays(ts, p, e);
    if p <= first.1 {
        lemma_comparison_rest_stays(ts, first.0, first.1, first.2, e);
    }
}

proof fn lemma_comparison_rest_stays(
    ts: Seq<SpecToken>,
    left: SpecExpr,
    p: int,
    er: Seq<SpecParserError>,
    e: int,
)
    requires
        eof_at(ts, p, e),
    ensures
        comparison_rest(ts, left, p, er).1 <= e,
    decreases ts.len() - p, 7nat,
{
    if p < e {
        let right = parse_term(ts, p + 1);
        lemma_term_stays(ts, p + 1, e);
        if p + 1 <= right.1 {
            lemma_comparison_rest_stays(ts, joined(ts, left, p, right.0), right.1, er + right.2, e);
        }
    }
}

proof fn lemma_term_stays(ts: Seq<SpecToken>, p: int, e: int)
    requires
        eof_at(ts, p, e),
    ensures
        parse_term(ts, p).1 <= e,
    decreases ts.len() - p, 6nat,
{
    let first = parse_factor(ts, p);
    lemma_factor_stays(ts, p, e);
    if p <= first.1 {
        lemma_term_rest_stays(ts, first.0, first.1, first.2, e);
    }
}

proof fn lemma_term_rest_stays(
    ts: Seq<SpecToken>,
    left: SpecExpr,
    p: int,
    er: Seq<SpecParserError>,
    e: int,
)
    requires
        eof_at(ts, p, e),
    ensures
        term_rest(ts, left, p, er).1 <= e,
    decreases ts.len() - p, 5nat,
{
    if p < e {
        let right = parse_factor(ts, p + 1);
        lemma_factor_stays(ts, p + 1, e);
        if p + 1 <= right.1 {
            lemma_term_rest_stays(ts, joined(ts, left, p, right.0), right.1, er + right.2, e);
        }
    }
}

proof fn lemma_factor_stays(ts: Seq<SpecToken>, p: int, e: int)
    requires
        eof_at(ts, p, e),
    ensures
        parse_factor(ts, p).1 <= e,
    decreases ts.len() - p, 4nat,
{
    let first = parse_unary(ts, p);
    lemma_unary_stays(ts, p, e);
    if p <= first.1 {
        lemma_factor_rest_stays(ts, first.0, first.1, first.2, e);
    }
}

proof fn lemma_factor_rest_stays(
    ts: Seq<SpecToken>,
    left: SpecExpr,
    p: int,
    er: Seq<SpecParserError>,
    e: int,
)
    requires
        eof_at(ts, p, e),
    ensures
        factor_rest(ts, left, p, er).1 <= e,
    decreases ts.len() - p, 3nat,
{
    if p < e {
        let right = parse_unary(ts, p + 1);
        lemma_unary_stays(ts, p + 1, e);
        if p + 1 <= right.1 {
            lemma_factor_rest_stays(ts, joined(ts, left, p, right.0), right.1, er + right.2, e);
        }
    }
}

proof fn lemma_unary_stays(ts: Seq<SpecToken>, p: int, e: int)
    requires
        eof_at(ts, p, e),
    ensures
        parse_unary(ts, p).1 <= e,
    decreases ts.len() - p, 2nat,
{
    if p < e {
        lemma_unary_stays(ts, p + 1, e);
    }
    lemma_primary_stays(ts, p, e);
}

proof fn lemma_primary_stays(ts: Seq<SpecToken>, p: int, e: int)
    requires
        eof_at(ts, p, e),
    ensures
        parse_primary(ts, p).1 <= e,
    decreases ts.len() - p, 1nat,
{
    lemma_primary(ts, p);
    lemma_synchronized_stays(ts, p, e);
    if p < e {
        lemma_expression_stays(ts, p + 1, e);
        let inner = parse_expression(ts, p + 1);
        lemma_synchronized_stays(ts, inner.1, e);
    }
}

// ---- Statements.

/// A parse of a statement: the statement, the position after it and the errors met.
pub type StmtParse = (SpecStmt, int, Seq<SpecParserError>);

/// The statement left where `;` was expected at `p`.
pub open spec fn missing_semicolon(ts: Seq<SpecToken>, p: int, er: Seq<SpecParserError>) -> StmtParse {
    let tok = ts[p];
    (
        SpecStmt::Expr(SpecExpr::Error(tok)),
        synchronized(ts, p),
        er + seq![parse_error("Expected ';' found "@ + tok.lexeme, tok)],
    )
}

pub open spec fn parse_expression_statement(ts: Seq<SpecToken>, p: int) -> StmtParse {
    let (e, p1, er) = parse_expression(ts, p);
    if check(ts, p1, TokenType::Semicolon) {
        (SpecStmt::Expr(e), p1 + 1, er)
    } else {
        missing_semicolon(ts, p1, er)
    }
}

pub open spec fn parse_print_statement(ts: Seq<SpecToken>, p: int) -> StmtParse {
    let (e, p1, er) = parse_expression(ts, p);
    if check(ts, p1, TokenType::Semicolon) {
        (SpecStmt::Print(e), p1 + 1, er)
    } else {
        missing_semicolon(ts, p1, er)
    }
}

pub open spec fn parse_statement(ts: Seq<SpecToken>, p: int) -> StmtParse {
    if check(ts, p, TokenType::Print) {
        parse_print_statement(ts, p + 1)
    } else {
        parse_expression_statement(ts, p)
    }
}

pub open spec fn parse_var_declaration(ts: Seq<SpecToken>, p: int) -> StmtParse {
    if !check(ts, p, TokenType::Identifier) {
        let tok = ts[p];
        (
            SpecStmt::Expr(SpecExpr::Error(tok)),
            synchronized(ts, p),
            seq![parse_error("Expected variable name, found "@ + tok.lexeme, tok)],
        )
    } else {
        let name = ts[p];
        let q = p + 1;
        let (init, q1, er) = if check(ts, q, TokenType::Equal) {
            let (e, q2, er) = parse_expression(ts, q + 1);
            (Some(e), q2, er)
        } else {
            (None, q, Seq::empty())
        };
        if check(ts, q1, TokenType::Semicolon) {
            (SpecStmt::Var { name, init }, q1 + 1, er)
        } else {
            missing_semicolon(ts, q1, er)
        }
    }
}

pub open spec fn parse_declaration(ts: Seq<SpecToken>, p: int) -> StmtParse {
    if check(ts, p, TokenType::Var) {
        parse_var_declaration(ts, p + 1)
    } else {
        parse_statement(ts, p)
    }
}

/// Whether a statement holds an error node.
pub open spec fn statement_has_error_node(s: SpecStmt) -> bool {
    match s {
        SpecStmt::Expr(e) => has_error_node(e),
        SpecStmt::Print(e) => has_error_node(e),
        SpecStmt::Var { init, .. } => match init {
            Some(e) => has_error_node(e),
            None => false,
        },
    }
}

/// A declaration's parse meets errors exactly when its statement holds an
/// error node.
pub proof fn lemma_declaration_errors(ts: Seq<SpecToken>, p: int)
    ensures
        ({
            let r = parse_declaration(ts, p);
            r.2.len() > 0 <==> statement_has_error_node(r.0)
        }),
{
    lemma_expression_errors(ts, p);
    lemma_expression_errors(ts, p + 1);
    lemma_expression_errors(ts, p + 3);
}

proof fn lemma_expression_statement_stays(ts: Seq<SpecToken>, q: int, e: int)
    requires
        eof_at(ts, q, e),
    ensures
        parse_expression_statement(ts, q).1 <= e,
        parse_print_statement(ts, q).1 <= e,
{
    lemma_expression_stays(ts, q, e);
    lemma_synchronized_stays(ts, parse_expression(ts, q).1, e);
}

proof fn lemma_var_declaration_stays(ts: Seq<SpecToken>, q: int, e: int)
    requires
        eof_at(ts, q, e),
    ensures
        parse_var_declaration(ts, q).1 <= e,
{
    lemma_synchronized_stays(ts, q, e);
    if check(ts, q, TokenType::Identifier) {
        let r = q + 1;
        lemma_synchronized_stays(ts, r, e);
        if check(ts, r, TokenType::Equal) {
            lemma_expression_stays(ts, r + 1, e);
            lemma_synchronized_stays(ts, parse_expression(ts, r + 1).1, e);
        }
    }
}

/// A declaration parsed before an end-of-file token at `e` ends at or
/// before it.
pub proof fn lemma_declaration_stays(ts: Seq<SpecToken>, p: int, e: int)
    requires
        eof_at(ts, p, e),
    ensures
        parse_declaration(ts, p).1 <= e,
{
    if check(ts, p, TokenType::Var) {
        lemma_var_declaration_stays(ts, p + 1, e);
    } else if check(ts, p, TokenType::Print) {
        lemma_expression_statement_stays(ts, p + 1, e);
    } else {
        lemma_expression_statement_stays(ts, p, e);
    }
}

/// The declarations from `p` to the end: the statements, the errors met and
/// the position of the end.
pub open spec fn parse_from(ts: Seq<SpecToken>, p: int) -> (Seq<SpecStmt>, Seq<SpecParserError>, int)
    decreases ts.len() - p,
{
    if p < 0 || p >= ts.len() || at_end(ts, p) {
        (Seq::empty(), Seq::empty(), p)
    } else {
        let (s, p1, er) = parse_declaration(ts, p);
        if p1 <= p || p1 > ts.len() {
            (Seq::empty(), Seq::empty(), p)
        } else {
            let (rest, er2, end) = parse_from(ts, p1);
            (seq![s] + rest, er + er2, end)
        }
    }
}

} // verus!
