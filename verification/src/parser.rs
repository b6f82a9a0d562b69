//! Parsing tokens into statements, by recursive descent with recovery, as
//! the grammar module says.

use vstd::prelude::*;

use crate::expr::{print_ast, printed, Expr};
use crate::grammar::{
    at_end, check, check_any, comparison_rest, equality_rest, factor_rest, lemma_assignment,
    lemma_comparison, lemma_comparison_rest, lemma_equality, lemma_equality_rest,
    lemma_expression, lemma_factor, lemma_factor_rest, lemma_primary, lemma_term,
    lemma_term_rest, lemma_unary, missing_semicolon, parse_assignment, parse_comparison,
    parse_declaration, parse_equality, parse_error, parse_expression,
    parse_expression_statement, parse_factor, parse_from, parse_primary, parse_print_statement,
    parse_statement, parse_term, parse_unary, parse_var_declaration, skip_from, synchronized,
    term_rest, SpecParserError,
};
use crate::stmt::{stmts_view, SpecStmt, Stmt};
use crate::token::{Literal, SpecToken, Token, TokenType};

verus! {

/// An error met while parsing: its line, its message and the token where it arose.
pub struct ParserError {
    pub line: usize,
    pub msg: String,
    pub token: Token,
}

impl View for ParserError {
    type V = SpecParserError;

    open spec fn view(&self) -> SpecParserError {
        SpecParserError { line: self.line, msg: self.msg@, token: self.token@ }
    }
}

pub open spec fn errors_view(errors: Seq<ParserError>) -> Seq<SpecParserError> {
    errors.map_values(|e: ParserError| e@)
}

pub open spec fn tokens_view(tokens: Seq<Token>) -> Seq<SpecToken> {
    tokens.map_values(|t: Token| t@)
}

/// Whether an end-of-file token stands at `p` or after it.
pub open spec fn eof_ahead(ts: Seq<SpecToken>, p: int) -> bool {
    exists|i: int| p <= i < ts.len() && #[trigger] ts[i].kind == TokenType::Eof
}

/// Whether every number and string token carries its literal.
pub open spec fn literals_present(ts: Seq<SpecToken>) -> bool {
    forall|i: int|
        0 <= i < ts.len() && (ts[i].kind == TokenType::Number || ts[i].kind == TokenType::String)
            ==> #[trigger] ts[i].literal is Some
}

/// What parsing from `p` needs: an end-of-file token at or after `p`, and
/// literals in number and string tokens.
pub open spec fn parsable(ts: Seq<SpecToken>, p: int) -> bool {
    &&& 0 <= p < ts.len()
    &&& eof_ahead(ts, p)
    &&& literals_present(ts)
}

proof fn lemma_eof_ahead_next(ts: Seq<SpecToken>, p: int)
    requires
        0 <= p,
        eof_ahead(ts, p),
        !at_end(ts, p),
    ensures
        p + 1 < ts.len(),
        eof_ahead(ts, p + 1),
{
    let i = choose|i: int| p <= i < ts.len() && #[trigger] ts[i].kind == TokenType::Eof;
    assert(i != p);
    assert(p + 1 <= i < ts.len() && ts[i].kind == TokenType::Eof);
}

proof fn lemma_check_two(ts: Seq<SpecToken>, p: int, a: TokenType, b: TokenType)
    ensures
        check_any(ts, p, seq![a, b]) == (check(ts, p, a) || check(ts, p, b)),
{
    let kinds = seq![a, b];
    assert(kinds[0] == a && kinds[1] == b);
    if kinds.contains(ts[p].kind) {
        let j = choose|j: int| 0 <= j < kinds.len() && kinds[j] == ts[p].kind;
        assert(j == 0 || j == 1);
    }
}

proof fn lemma_eof_ahead_in_range(ts: Seq<SpecToken>, p: int)
    requires
        eof_ahead(ts, p),
    ensures
        p < ts.len(),
{
}

fn invalid_target_message(expr: &Expr) -> (msg: String)
    ensures
        msg@ == "Invalid assignment target, found "@ + printed(expr@),
{
    let mut msg = "Invalid assignment target, found ".to_owned();
    let shown = print_ast(expr);
    msg.append(shown.as_str());
    msg
}

/// A parser over a list of tokens.
pub struct Parser {
    tokens: Vec<Token>,
    current: usize,
    pub errors: Vec<ParserError>,
}

impl Parser {
    /// The tokens, as a sequence.
    pub closed spec fn token_list(&self) -> Seq<SpecToken> {
        tokens_view(self.tokens@)
    }

    /// The position of the next token to read.
    pub closed spec fn position(&self) -> int {
        self.current as int
    }

    /// The errors met so far.
    pub closed spec fn error_list(&self) -> Seq<SpecParserError> {
        errors_view(self.errors@)
    }

    spec fn wf(&self) -> bool {
        parsable(self.token_list(), self.current as int)
    }

    spec fn ts(&self) -> Seq<SpecToken> {
        self.token_list()
    }

    spec fn err_view(&self) -> Seq<SpecParserError> {
        errors_view(self.errors@)
    }

    /// A parser at the first of `tokens`, without errors.
    pub fn new(tokens: Vec<Token>) -> (p: Parser)
        ensures
            p.token_list() == tokens_view(tokens@),
            p.position() == 0,
            p.error_list() == Seq::<SpecParserError>::empty(),
    {
        let p = Parser { tokens: tokens, current: 0, errors: Vec::new() };
        assert(p.error_list() =~= Seq::<SpecParserError>::empty());
        p
    }

    /// The errors recorded so far, as held in `errors`.
    pub fn recorded_errors(&self) -> (errors: &Vec<ParserError>)
        ensures
            errors_view(errors@) == self.error_list(),
    {
        &self.errors
    }

    /// Whether a parser can read `tokens` from the first: they hold an
    /// end-of-file token, and every number and string token carries its
    /// literal.
    pub fn can_parse(tokens: &Vec<Token>) -> (b: bool)
        ensures
            b == parsable(tokens_view(tokens@), 0),
    {
        let ghost ts = tokens_view(tokens@);
        let mut has_eof = false;
        let mut i: usize = 0;
        while i < tokens.len()
            invariant
                i <= tokens.len(),
                ts == tokens_view(tokens@),
                has_eof == exists|j: int| 0 <= j < i && #[trigger] ts[j].kind == TokenType::Eof,
                forall|j: int|
                    0 <= j < i && (ts[j].kind == TokenType::Number || ts[j].kind == TokenType::String)
                        ==> #[trigger] ts[j].literal is Some,
            decreases tokens.len() - i,
        {
            let t = &tokens[i];
            assert(ts[i as int] == t@);
            let is_literal_kind = match t.kind {
                TokenType::Number => true,
                TokenType::String => true,
                _ => false,
            };
            if is_literal_kind && t.literal.is_none() {
                assert(ts[i as int].literal is None);
                assert(!literals_present(ts));
                return false;
            }
            let is_eof = match t.kind {
                TokenType::Eof => true,
                _ => false,
            };
            if is_eof {
                assert(ts[i as int].kind == TokenType::Eof);
                has_eof = true;
            }
            assert(has_eof == exists|j: int| 0 <= j < i + 1 && #[trigger] ts[j].kind == TokenType::Eof);
            i = i + 1;
        }
        if has_eof {
            assert(eof_ahead(ts, 0));
        }
        has_eof
    }

    fn is_at_end(&self) -> (b: bool)
        requires
            self.wf(),
        ensures
            b == at_end(self.ts(), self.current as int),
    {
        proof { lemma_eof_ahead_in_range(self.ts(), self.current as int); }
        self.tokens[self.current].kind == TokenType::Eof
    }

    fn peek(&self) -> (t: Token)
        requires
            self.wf(),
        ensures
            t@ == self.ts()[self.current as int],
    {
        proof { lemma_eof_ahead_in_range(self.ts(), self.current as int); }
        self.tokens[self.current].clone()
    }

    fn previous(&self) -> (t: Token)
        requires
            1 <= self.current <= self.tokens.len(),
        ensures
            t@ == self.ts()[self.current - 1],
    {
        self.tokens[self.current - 1].clone()
    }

    fn check(&self, kind: TokenType) -> (b: bool)
        requires
            self.wf(),
        ensures
            b == check(self.ts(), self.current as int, kind),
    {
        if self.is_at_end() {
            return false;
        }
        self.tokens[self.current].kind == kind
    }

    /// Moves past the current token, unless it is the end.
    fn advance(&mut self)
        requires
            old(self).wf(),
        ensures
            final(self).wf(),
            final(self).tokens == old(self).tokens,
            final(self).errors == old(self).errors,
            final(self).current == if at_end(old(self).ts(), old(self).current as int) {
                old(self).current as int
            } else {
                old(self).current + 1
            },
    {
        if !self.is_at_end() {
            let n = self.tokens.len();
            proof {
                lemma_eof_ahead_next(self.ts(), self.current as int);
                assert(self.ts().len() == n);
            }
            self.current = self.current + 1;
        }
    }

    fn matches(&mut self, kinds: &[TokenType]) -> (b: bool)
        requires
            old(self).wf(),
        ensures
            b == check_any(old(self).ts(), old(self).current as int, kinds@),
            final(self).wf(),
            final(self).tokens == old(self).tokens,
            final(self).errors == old(self).errors,
            final(self).current == old(self).current + if b { 1int } else { 0int },
    {
        let mut i: usize = 0;
        while i < kinds.len()
            invariant
                self == old(self),
                self.wf(),
                i <= kinds.len(),
                forall|j: int| 0 <= j < i ==> !check(self.ts(), self.current as int, #[trigger] kinds@[j]),
            decreases kinds.len() - i,
        {
            if self.check(kinds[i]) {
                self.advance();
                return true;
            }
            i = i + 1;
        }
        proof {
            if check_any(self.ts(), self.current as int, kinds@) {
                let j = choose|j: int| 0 <= j < kinds@.len() && kinds@[j] == self.ts()[self.current as int].kind;
                assert(check(self.ts(), self.current as int, kinds@[j]));
            }
        }
        false
    }

    fn consume(&mut self, kind: TokenType) -> (b: bool)
        requires
            old(self).wf(),
        ensures
            b == check(old(self).ts(), old(self).current as int, kind),
            final(self).wf(),
            final(self).tokens == old(self).tokens,
            final(self).errors == old(self).errors,
            final(self).current == old(self).current + if b { 1int } else { 0int },
    {
        if self.check(kind) {
            self.advance();
            return true;
        }
        false
    }

    fn error(&mut self, msg: String, token: Token)
        ensures
            final(self).tokens == old(self).tokens,
            final(self).current == old(self).current,
            errors_view(final(self).errors@) == errors_view(old(self).errors@) + seq![
                parse_error(msg@, token@),
            ],
    {
        let line = token.line;
        self.errors.push(ParserError { line: line, msg: msg, token: token });
        assert(errors_view(self.errors@) =~= errors_view(old(self).errors@) + seq![
            parse_error(msg@, token@),
        ]);
    }

    fn synchronize(&mut self)
        requires
            old(self).wf(),
            old(self).current >= 1 || !at_end(old(self).ts(), old(self).current as int),
        ensures
            final(self).wf(),
            final(self).tokens == old(self).tokens,
            final(self).errors == old(self).errors,
            final(self).current == synchronized(old(self).ts(), old(self).current as int),
            final(self).current >= old(self).current,
            !at_end(old(self).ts(), old(self).current as int) ==> final(self).current
                > old(self).current,
    {
        self.advance();
        while !self.is_at_end()
            invariant
                self.wf(),
                self.tokens == old(self).tokens,
                self.errors == old(self).errors,
                self.current >= 1,
                self.current >= old(self).current,
                !at_end(old(self).ts(), old(self).current as int) ==> self.current
                    > old(self).current,
                skip_from(self.ts(), self.current as int) == synchronized(
                    old(self).ts(),
                    old(self).current as int,
                ),
            decreases self.tokens.len() - self.current,
        {
            proof { lemma_eof_ahead_in_range(self.ts(), self.current as int); }
            if self.previous().kind == TokenType::Semicolon {
                return;
            }
            match self.peek().kind {
                TokenType::Class
                | TokenType::Fun
                | TokenType::Var
                | TokenType::For
                | TokenType::If
                | TokenType::While
                | TokenType::Print
                | TokenType::Return => return,
                _ => {
                    self.advance();
                },
            }
        }
    }
}



impl Parser {
    spec fn can_sync(&self) -> bool {
        self.current >= 1 || !at_end(self.ts(), self.current as int)
    }

    /// `self` follows `before` by reading tokens forward, with the same
    /// tokens and the errors of `before` kept at the front.
    spec fn advanced_from(&self, before: &Parser) -> bool {
        &&& self.wf()
        &&& self.can_sync()
        &&& self.tokens == before.tokens
        &&& before.current <= self.current
        &&& !at_end(before.ts(), before.current as int) ==> before.current < self.current
    }

    fn equality(&mut self) -> (e: Expr)
        requires
            old(self).wf(),
            old(self).can_sync(),
        ensures
            final(self).advanced_from(old(self)),
            ({
                let r = parse_equality(old(self).ts(), old(self).current as int);
                &&& e@ == r.0
                &&& final(self).current == r.1
                &&& final(self).err_view() == old(self).err_view() + r.2
            }),
        decreases old(self).tokens.len() - old(self).current, 10nat,
    {
        let ghost ts = self.ts();
        let ghost p0 = self.current as int;
        let ghost errs0 = self.err_view();
        proof { lemma_equality(ts, p0); }
        let mut expr = self.comparison();
        let ghost mut er = parse_comparison(ts, p0).2;
        while self.matches(&[TokenType::BangEqual, TokenType::EqualEqual])
            invariant
                self.advanced_from(old(self)),
                ts == self.ts(),
                self.err_view() == errs0 + er,
                p0 == old(self).current,
                errs0 == old(self).err_view(),
                parse_equality(ts, p0) == equality_rest(ts, expr@, self.current as int, er),
            decreases self.tokens.len() - self.current,
        {
            let ghost p = self.current - 1;
            proof { lemma_equality_rest(ts, expr@, p, er); }
            let operator = self.previous();
            let right = self.comparison();
            proof {
                assert(errs0 + er + parse_comparison(ts, p + 1).2 =~= errs0 + (er + parse_comparison(ts, p + 1).2));
                er = er + parse_comparison(ts, p + 1).2;
            }
            expr = Expr::Binary { left: Box::new(expr), op: operator, right: Box::new(right) };
        }
        proof { lemma_equality_rest(ts, expr@, self.current as int, er); }
        expr
    }

    fn comparison(&mut self) -> (e: Expr)
        requires
            old(self).wf(),
            old(self).can_sync(),
        ensures
            final(self).advanced_from(old(self)),
            ({
                let r = parse_comparison(old(self).ts(), old(self).current as int);
                &&& e@ == r.0
                &&& final(self).current == r.1
                &&& final(self).err_view() == old(self).err_view() + r.2
            }),
        decreases old(self).tokens.len() - old(self).current, 8nat,
    {
        let ghost ts = self.ts();
        let ghost p0 = self.current as int;
        let ghost errs0 = self.err_view();
        proof { lemma_comparison(ts, p0); }
        let mut expr = self.term();
        let ghost mut er = parse_term(ts, p0).2;
        while self.matches(&[TokenType::Greater, TokenType::GreaterEqual, TokenType::Less, TokenType::LessEqual])
            invariant
                self.advanced_from(old(self)),
                ts == self.ts(),
                self.err_view() == errs0 + er,
                p0 == old(self).current,
                errs0 == old(self).err_view(),
                parse_comparison(ts, p0) == comparison_rest(ts, expr@, self.current as int, er),
            decreases self.tokens.len() - self.current,
        {
            let ghost p = self.current - 1;
            proof { lemma_comparison_rest(ts, expr@, p, er); }
            let operator = self.previous();
            let right = self.term();
            proof {
                assert(errs0 + er + parse_term(ts, p + 1).2 =~= errs0 + (er + parse_term(ts, p + 1).2));
                er = er + parse_term(ts, p + 1).2;
            }
            expr = Expr::Binary { left: Box::new(expr), op: operator, right: Box::new(right) };
        }
        proof { lemma_comparison_rest(ts, expr@, self.current as int, er); }
        expr
    }

    fn term(&mut self) -> (e: Expr)
        requires
            old(self).wf(),
            old(self).can_sync(),
        ensures
            final(self).advanced_from(old(self)),
            ({
                let r = parse_term(old(self).ts(), old(self).current as int);
                &&& e@ == r.0
                &&& final(self).current == r.1
                &&& final(self).err_view() == old(self).err_view() + r.2
            }),
        decreases old(self).tokens.len() - old(self).current, 6nat,
    {
        let ghost ts = self.ts();
        let ghost p0 = self.current as int;
        let ghost errs0 = self.err_view();
        proof { lemma_term(ts, p0); }
        let mut expr = self.factor();
        let ghost mut er = parse_factor(ts, p0).2;
        while self.matches(&[TokenType::Minus, TokenType::Plus])
            invariant
                self.advanced_from(old(self)),
                ts == self.ts(),
                self.err_view() == errs0 + er,
                p0 == old(self).current,
                errs0 == old(self).err_view(),
                parse_term(ts, p0) == term_rest(ts, expr@, self.current as int, er),
            decreases self.tokens.len() - self.current,
        {
            let ghost p = self.current - 1;
            proof { lemma_term_rest(ts, expr@, p, er); }
            let operator = self.previous();
            let right = self.factor();
            proof {
                assert(errs0 + er + parse_factor(ts, p + 1).2 =~= errs0 + (er + parse_factor(ts, p + 1).2));
                er = er + parse_factor(ts, p + 1).2;
            }
            expr = Expr::Binary { left: Box::new(expr), op: operator, right: Box::new(right) };
        }
        proof { lemma_term_rest(ts, expr@, self.current as int, er); }
        expr
    }

    fn factor(&mut self) -> (e: Expr)
        requires
            old(self).wf(),
            old(self).can_sync(),
        ensures
            final(self).advanced_from(old(self)),
            ({
                let r = parse_factor(old(self).ts(), old(self).current as int);
                &&& e@ == r.0
                &&& final(self).current == r.1
                &&& final(self).err_view() == old(self).err_view() + r.2
            }),
        decreases old(self).tokens.len() - old(self).current, 4nat,
    {
        let ghost ts = self.ts();
        let ghost p0 = self.current as int;
        let ghost errs0 = self.err_view();
        proof { lemma_factor(ts, p0); }
        let mut expr = self.unary();
        let ghost mut er = parse_unary(ts, p0).2;
        while self.matches(&[TokenType::Slash, TokenType::Star])
            invariant
                self.advanced_from(old(self)),
                ts == self.ts(),
                self.err_view() == errs0 + er,
                p0 == old(self).current,
                errs0 == old(self).err_view(),
                parse_factor(ts, p0) == factor_rest(ts, expr@, self.current as int, er),
            decreases self.tokens.len() - self.current,
        {
            let ghost p = self.current - 1;
            proof { lemma_factor_rest(ts, expr@, p, er); }
            let operator = self.previous();
            let right = self.unary();
            proof {
                assert(errs0 + er + parse_unary(ts, p + 1).2 =~= errs0 + (er + parse_unary(ts, p + 1).2));
                er = er + parse_unary(ts, p + 1).2;
            }
            expr = Expr::Binary { left: Box::new(expr), op: operator, right: Box::new(right) };
        }
        proof { lemma_factor_rest(ts, expr@, self.current as int, er); }
        expr
    }

    fn unary(&mut self) -> (e: Expr)
        requires
            old(self).wf(),
            old(self).can_sync(),
        ensures
            final(self).advanced_from(old(self)),
            ({
                let r = parse_unary(old(self).ts(), old(self).current as int);
                &&& e@ == r.0
                &&& final(self).current == r.1
                &&& final(self).err_view() == old(self).err_view() + r.2
            }),
        decreases old(self).tokens.len() - old(self).current, 2nat,
    {
        proof { lemma_unary(self.ts(), self.current as int); }
        if self.matches(&[TokenType::Bang, TokenType::Minus]) {
            let operator = self.previous();
            let right = self.unary();
            return Expr::Unary { op: operator, right: Box::new(right) };
        }
        self.primary()
    }

    fn primary(&mut self) -> (e: Expr)
        requires
            old(self).wf(),
            old(self).can_sync(),
        ensures
            final(self).advanced_from(old(self)),
            ({
                let r = parse_primary(old(self).ts(), old(self).current as int);
                &&& e@ == r.0
                &&& final(self).current == r.1
                &&& final(self).err_view() == old(self).err_view() + r.2
            }),
        decreases old(self).tokens.len() - old(self).current, 1nat,
    {
        let ghost ts = self.ts();
        let ghost p = self.current as int;
        proof { lemma_primary(ts, p); }
        if self.consume(TokenType::False) {
            return Expr::Literal(Literal::Bool(false));
        }
        if self.consume(TokenType::True) {
            return Expr::Literal(Literal::Bool(true));
        }
        if self.consume(TokenType::Nil) {
            return Expr::Literal(Literal::Nil);
        }
        proof { lemma_check_two(ts, p, TokenType::Number, TokenType::String); }
        if self.matches(&[TokenType::Number, TokenType::String]) {
            let token = self.previous();
            assert(ts[p].literal is Some);
            let literal = token.literal.unwrap();
            return Expr::Literal(literal);
        }
        if self.consume(TokenType::Identifier) {
            return Expr::Variable(self.previous());
        }
        if self.consume(TokenType::LeftParen) {
            let expr = self.expression();
            if !self.consume(TokenType::RightParen) {
                let token = self.peek();
                let mut msg = "Expected ')', found ".to_owned();
                msg.append(token.lexeme.as_str());
                self.error(msg, token.clone());
                self.synchronize();
                return Expr::Error(token);
            }
            return Expr::Grouping(Box::new(expr));
        }
        let token = self.peek();
        let mut msg = "Expected expression, found ".to_owned();
        msg.append(token.lexeme.as_str());
        self.error(msg, token.clone());
        self.synchronize();
        Expr::Error(token)
    }

    fn expression(&mut self) -> (e: Expr)
        requires
            old(self).wf(),
            old(self).can_sync(),
        ensures
            final(self).advanced_from(old(self)),
            ({
                let r = parse_expression(old(self).ts(), old(self).current as int);
                &&& e@ == r.0
                &&& final(self).current == r.1
                &&& final(self).err_view() == old(self).err_view() + r.2
            }),
        decreases old(self).tokens.len() - old(self).current, 12nat,
    {
        proof { lemma_expression(self.ts(), self.current as int); }
        self.assignment()
    }

    fn assignment(&mut self) -> (e: Expr)
        requires
            old(self).wf(),
            old(self).can_sync(),
        ensures
            final(self).advanced_from(old(self)),
            ({
                let r = parse_assignment(old(self).ts(), old(self).current as int);
                &&& e@ == r.0
                &&& final(self).current == r.1
                &&& final(self).err_view() == old(self).err_view() + r.2
            }),
        decreases old(self).tokens.len() - old(self).current, 11nat,
    {
        let ghost ts = self.ts();
        let ghost p = self.current as int;
        proof { lemma_assignment(ts, p); }
        let expr = self.equality();
        if self.consume(TokenType::Equal) {
            let equal = self.previous();
            let value = self.equality();
            if let Expr::Variable(name) = expr {
                return Expr::Assign { name: name, value: Box::new(value) };
            }
            let msg = invalid_target_message(&expr);
            self.error(msg, equal.clone());
            self.synchronize();
            return Expr::Error(equal);
        }
        expr
    }

    /// The statement left where `;` was expected.
    fn missing_semicolon(&mut self) -> (s: Stmt)
        requires
            old(self).wf(),
            old(self).can_sync(),
        ensures
            final(self).wf(),
            final(self).can_sync(),
            final(self).tokens == old(self).tokens,
            final(self).current >= old(self).current,
            !at_end(old(self).ts(), old(self).current as int) ==> final(self).current
                > old(self).current,
            ({
                let r = missing_semicolon(old(self).ts(), old(self).current as int, Seq::empty());
                &&& s@ == r.0
                &&& final(self).current == r.1
                &&& final(self).err_view() == old(self).err_view() + r.2
            }),
    {
        let token = self.peek();
        let mut msg = "Expected ';' found ".to_owned();
        msg.append(token.lexeme.as_str());
        self.error(msg, token.clone());
        self.synchronize();
        Stmt::Expr(Expr::Error(token))
    }

    fn expression_statement(&mut self) -> (s: Stmt)
        requires
            old(self).wf(),
            old(self).can_sync(),
        ensures
            final(self).advanced_from(old(self)),
            ({
                let r = parse_expression_statement(old(self).ts(), old(self).current as int);
                &&& s@ == r.0
                &&& final(self).current == r.1
                &&& final(self).err_view() == old(self).err_view() + r.2
            }),
    {
        let ghost ts = self.ts();
        let ghost p = self.current as int;
        let ghost errs0 = self.err_view();
        let expr = self.expression();
        if !self.consume(TokenType::Semicolon) {
            let ghost er = parse_expression(ts, p).2;
            let r = self.missing_semicolon();
            assert(errs0 + er + missing_semicolon(ts, parse_expression(ts, p).1, Seq::empty()).2
                =~= errs0 + missing_semicolon(ts, parse_expression(ts, p).1, er).2);
            return r;
        }
        Stmt::Expr(expr)
    }

    fn print_statement(&mut self) -> (s: Stmt)
        requires
            old(self).wf(),
            old(self).can_sync(),
        ensures
            final(self).advanced_from(old(self)),
            ({
                let r = parse_print_statement(old(self).ts(), old(self).current as int);
                &&& s@ == r.0
                &&& final(self).current == r.1
                &&& final(self).err_view() == old(self).err_view() + r.2
            }),
    {
        let ghost ts = self.ts();
        let ghost p = self.current as int;
        let ghost errs0 = self.err_view();
        let expr = self.expression();
        if !self.consume(TokenType::Semicolon) {
            let ghost er = parse_expression(ts, p).2;
            let r = self.missing_semicolon();
            assert(errs0 + er + missing_semicolon(ts, parse_expression(ts, p).1, Seq::empty()).2
                =~= errs0 + missing_semicolon(ts, parse_expression(ts, p).1, er).2);
            return r;
        }
        Stmt::Print(expr)
    }

    fn statement(&mut self) -> (s: Stmt)
        requires
            old(self).wf(),
            old(self).can_sync(),
        ensures
            final(self).advanced_from(old(self)),
            ({
                let r = parse_statement(old(self).ts(), old(self).current as int);
                &&& s@ == r.0
                &&& final(self).current == r.1
                &&& final(self).err_view() == old(self).err_view() + r.2
            }),
    {
        if self.consume(TokenType::Print) {
            return self.print_statement();
        }
        self.expression_statement()
    }

    fn var_declaration(&mut self) -> (s: Stmt)
        requires
            old(self).wf(),
            old(self).can_sync(),
        ensures
            final(self).advanced_from(old(self)),
            ({
                let r = parse_var_declaration(old(self).ts(), old(self).current as int);
                &&& s@ == r.0
                &&& final(self).current == r.1
                &&& final(self).err_view() == old(self).err_view() + r.2
            }),
    {
        let ghost ts = self.ts();
        let ghost p = self.current as int;
        let ghost errs0 = self.err_view();
        if !self.consume(TokenType::Identifier) {
            let token = self.peek();
            let mut msg = "Expected variable name, found ".to_owned();
            msg.append(token.lexeme.as_str());
            self.error(msg, token.clone());
            self.synchronize();
            return Stmt::Expr(Expr::Error(token));
        }
        let name = self.previous();
        let mut init = None;
        let ghost mut er: Seq<SpecParserError> = Seq::empty();
        if self.consume(TokenType::Equal) {
            proof { er = parse_expression(ts, p + 2).2; }
            init = Some(self.expression());
        }
        assert(self.err_view() =~= errs0 + er);
        if !self.consume(TokenType::Semicolon) {
            let ghost q1 = self.current as int;
            let r = self.missing_semicolon();
            assert(errs0 + er + missing_semicolon(ts, q1, Seq::empty()).2 =~= errs0
                + missing_semicolon(ts, q1, er).2);
            return r;
        }
        Stmt::Var { name, init }
    }

    fn declaration(&mut self) -> (s: Stmt)
        requires
            old(self).wf(),
            old(self).can_sync(),
        ensures
            final(self).advanced_from(old(self)),
            ({
                let r = parse_declaration(old(self).ts(), old(self).current as int);
                &&& s@ == r.0
                &&& final(self).current == r.1
                &&& final(self).err_view() == old(self).err_view() + r.2
            }),
    {
        if self.consume(TokenType::Var) {
            return self.var_declaration();
        }
        self.statement()
    }

    /// Parses declarations up to the end of the tokens, as [`parse_from`]
    /// says: the statements are returned, the errors added to `errors`, and
    /// the parser stops at the end.
    pub fn parse(&mut self) -> (stmts: Vec<Stmt>)
        requires
            parsable(old(self).token_list(), old(self).position()),
        ensures
            ({
                let r = parse_from(old(self).token_list(), old(self).position());
                &&& stmts_view(stmts@) == r.0
                &&& final(self).error_list() == old(self).error_list() + r.1
                &&& final(self).position() == r.2
                &&& final(self).token_list() == old(self).token_list()
            }),
            at_end(final(self).token_list(), final(self).position()),
    {
        let ghost ts = self.ts();
        let ghost total = parse_from(ts, self.current as int);
        let ghost errs0 = self.err_view();
        let mut statments: Vec<Stmt> = Vec::new();
        let ghost mut er: Seq<SpecParserError> = Seq::empty();
        assert(stmts_view(statments@) =~= Seq::<SpecStmt>::empty());
        assert(self.err_view() =~= errs0 + er);
        assert(total.0 =~= stmts_view(statments@) + parse_from(ts, self.current as int).0);
        assert(total.1 =~= er + parse_from(ts, self.current as int).1);
        while !self.is_at_end()
            invariant
                self.wf(),
                ts == self.ts(),
                self.tokens == old(self).tokens,
                self.err_view() == errs0 + er,
                total.0 == stmts_view(statments@) + parse_from(ts, self.current as int).0,
                total.1 == er + parse_from(ts, self.current as int).1,
                total.2 == parse_from(ts, self.current as int).2,
            decreases self.tokens.len() - self.current,
        {
            let ghost p = self.current as int;
            let ghost before = stmts_view(statments@);
            let stmt = self.declaration();
            let ghost d = parse_declaration(ts, p);
            statments.push(stmt);
            proof {
                assert(stmts_view(statments@) =~= before.push(d.0));
                assert(before + parse_from(ts, p).0 =~= before.push(d.0) + parse_from(ts, d.1).0);
                assert(er + parse_from(ts, p).1 =~= (er + d.2) + parse_from(ts, d.1).1);
                assert(errs0 + er + d.2 =~= errs0 + (er + d.2));
                er = er + d.2;
            }
        }
        assert(stmts_view(statments@) =~= stmts_view(statments@) + Seq::<SpecStmt>::empty());
        assert(er =~= er + Seq::<SpecParserError>::empty());
        statments
    }
}

} // verus!
