//! Evaluation of statements and expressions.
//!
//! Arithmetic on numbers is floating-point work that the library leaves to
//! its host: when evaluation needs a sum, a difference, a product, a quotient
//! or a negation, the interpreter stops and names the computation it needs
//! ([`Interpretation::NeedsNumber`]). The host computes it, hands the result
//! to [`Interpreter::supply`] and asks again; the program is then evaluated
//! anew from its start, the supplied results standing, in order, for the
//! computations it asks for. Comparisons and equality of numbers are decided
//! here, on their IEEE-754 encodings.

use vstd::prelude::*;

use crate::environment::Environment;
use crate::expr::{Expr, SpecExpr};
use crate::number::{
    is_zero, numbers_view, spec_equal, spec_less, spec_less_equal, Number, SpecNumber,
};
use crate::stmt::{stmts_view, SpecStmt, Stmt};
use crate::token::{Literal, SpecLiteral, SpecToken, Token, TokenType};
use crate::value::{shown, SpecValue, Value};

verus! {

/// What went wrong at run time.
pub enum RuntimeErrorType {
    TypeError { message: String },
    OperationError { message: String },
    UndefinedVariable,
    ParserError,
}

/// A run-time error and the token where it arose.
pub struct RuntimeError {
    pub kind: RuntimeErrorType,
    pub token: Token,
}

/// The mathematical twin of [`RuntimeErrorType`].
pub enum SpecRuntimeErrorType {
    TypeError { message: Seq<char> },
    OperationError { message: Seq<char> },
    UndefinedVariable,
    ParserError,
}

/// The mathematical twin of [`RuntimeError`].
pub struct SpecRuntimeError {
    pub kind: SpecRuntimeErrorType,
    pub token: SpecToken,
}

impl View for RuntimeErrorType {
    type V = SpecRuntimeErrorType;

    open spec fn view(&self) -> SpecRuntimeErrorType {
        match self {
            RuntimeErrorType::TypeError { message } => SpecRuntimeErrorType::TypeError {
                message: message@,
            },
            RuntimeErrorType::OperationError { message } => SpecRuntimeErrorType::OperationError {
                message: message@,
            },
            RuntimeErrorType::UndefinedVariable => SpecRuntimeErrorType::UndefinedVariable,
            RuntimeErrorType::ParserError => SpecRuntimeErrorType::ParserError,
        }
    }
}

impl View for RuntimeError {
    type V = SpecRuntimeError;

    open spec fn view(&self) -> SpecRuntimeError {
        SpecRuntimeError { kind: self.kind@, token: self.token@ }
    }
}

/// A floating-point computation that the host performs for the interpreter.
pub enum NumericRequest {
    Add(Number, Number),
    Subtract(Number, Number),
    Multiply(Number, Number),
    Divide(Number, Number),
    Negate(Number),
}

/// The mathematical twin of [`NumericRequest`].
pub enum SpecNumericRequest {
    Add(SpecNumber, SpecNumber),
    Subtract(SpecNumber, SpecNumber),
    Multiply(SpecNumber, SpecNumber),
    Divide(SpecNumber, SpecNumber),
    Negate(SpecNumber),
}

impl View for NumericRequest {
    type V = SpecNumericRequest;

    open spec fn view(&self) -> SpecNumericRequest {
        match self {
            NumericRequest::Add(a, b) => SpecNumericRequest::Add(a@, b@),
            NumericRequest::Subtract(a, b) => SpecNumericRequest::Subtract(a@, b@),
            NumericRequest::Multiply(a, b) => SpecNumericRequest::Multiply(a@, b@),
            NumericRequest::Divide(a, b) => SpecNumericRequest::Divide(a@, b@),
            NumericRequest::Negate(a) => SpecNumericRequest::Negate(a@),
        }
    }
}

/// The outcome of evaluating an expression: its value, the bindings and the
/// count of supplied results used so far after it; or an error with the same;
/// or the computation that is needed and was not supplied.
pub enum SpecEvaluation {
    Value(SpecValue, Map<Seq<char>, SpecValue>, nat),
    Failed(SpecRuntimeError, Map<Seq<char>, SpecValue>, nat),
    Pending(SpecNumericRequest),
}

/// The value of a literal.
pub open spec fn literal_value(l: SpecLiteral) -> SpecValue {
    match l {
        SpecLiteral::String(s) => SpecValue::String(s),
        SpecLiteral::Num(n) => SpecValue::Number(n),
        SpecLiteral::Bool(b) => SpecValue::Boolean(b),
        SpecLiteral::Nil => SpecValue::Nil,
    }
}

/// Only `nil` and `false` are false.
pub open spec fn truthy(v: SpecValue) -> bool {
    match v {
        SpecValue::Nil => false,
        SpecValue::Boolean(b) => b,
        _ => true,
    }
}

/// Equality of values: numbers by IEEE-754 equality, strings and booleans by
/// their contents; values of different kinds are never equal.
pub open spec fn values_equal(x: SpecValue, y: SpecValue) -> bool {
    match (x, y) {
        (SpecValue::Number(a), SpecValue::Number(b)) => spec_equal(a.bits, b.bits),
        (SpecValue::String(a), SpecValue::String(b)) => a == b,
        (SpecValue::Boolean(a), SpecValue::Boolean(b)) => a == b,
        (SpecValue::Nil, SpecValue::Nil) => true,
        _ => false,
    }
}

/// Whether two values are of the same kind.
pub open spec fn same_kind(x: SpecValue, y: SpecValue) -> bool {
    match (x, y) {
        (SpecValue::Number(_), SpecValue::Number(_)) => true,
        (SpecValue::String(_), SpecValue::String(_)) => true,
        (SpecValue::Boolean(_), SpecValue::Boolean(_)) => true,
        (SpecValue::Nil, SpecValue::Nil) => true,
        _ => false,
    }
}

/// `Operands should be <expected>, got <left> and <right>`.
pub open spec fn operands_message(expected: Seq<char>, l: SpecValue, r: SpecValue) -> Seq<char> {
    "Operands should be "@ + expected + ", got "@ + shown(l) + " and "@ + shown(r)
}

pub open spec fn failure(
    kind: SpecRuntimeErrorType,
    token: SpecToken,
    env: Map<Seq<char>, SpecValue>,
    k: nat,
) -> SpecEvaluation {
    SpecEvaluation::Failed(SpecRuntimeError { kind, token }, env, k)
}

/// The result of `request`: the next supplied result if there is one.
pub open spec fn requested(
    request: SpecNumericRequest,
    env: Map<Seq<char>, SpecValue>,
    answers: Seq<SpecNumber>,
    k: nat,
) -> SpecEvaluation {
    if k < answers.len() {
        SpecEvaluation::Value(SpecValue::Number(answers[k as int]), env, k + 1)
    } else {
        SpecEvaluation::Pending(request)
    }
}

/// A binary operator applied to the values of its operands.
pub open spec fn binary_result(
    op: SpecToken,
    l: SpecValue,
    r: SpecValue,
    env: Map<Seq<char>, SpecValue>,
    answers: Seq<SpecNumber>,
    k: nat,
) -> SpecEvaluation {
    let numbers_only = failure(
        SpecRuntimeErrorType::TypeError { message: operands_message("Number"@, l, r) },
        op,
        env,
        k,
    );
    match op.kind {
        TokenType::Plus => match (l, r) {
            (SpecValue::Number(x), SpecValue::Number(y)) => requested(
                SpecNumericRequest::Add(x, y),
                env,
                answers,
                k,
            ),
            (SpecValue::String(x), SpecValue::String(y)) => SpecEvaluation::Value(
                SpecValue::String(x + y),
                env,
                k,
            ),
            _ => failure(
                SpecRuntimeErrorType::TypeError {
                    message: operands_message("Number or String"@, l, r),
                },
                op,
                env,
                k,
            ),
        },
        TokenType::Minus => match (l, r) {
            (SpecValue::Number(x), SpecValue::Number(y)) => requested(
                SpecNumericRequest::Subtract(x, y),
                env,
                answers,
                k,
            ),
            _ => numbers_only,
        },
        TokenType::Star => match (l, r) {
            (SpecValue::Number(x), SpecValue::Number(y)) => requested(
                SpecNumericRequest::Multiply(x, y),
                env,
                answers,
                k,
            ),
            _ => numbers_only,
        },
        TokenType::Slash => match (l, r) {
            (SpecValue::Number(x), SpecValue::Number(y)) => if is_zero(y.bits) {
                failure(
                    SpecRuntimeErrorType::OperationError { message: "Division by 0.0"@ },
                    op,
                    env,
                    k,
                )
            } else {
                requested(SpecNumericRequest::Divide(x, y), env, answers, k)
            },
            _ => numbers_only,
        },
        TokenType::Greater => match (l, r) {
            (SpecValue::Number(x), SpecValue::Number(y)) => SpecEvaluation::Value(
                SpecValue::Boolean(spec_less(y.bits, x.bits)),
                env,
                k,
            ),
            _ => numbers_only,
        },
        TokenType::GreaterEqual => match (l, r) {
            (SpecValue::Number(x), SpecValue::Number(y)) => SpecEvaluation::Value(
                SpecValue::Boolean(spec_less_equal(y.bits, x.bits)),
                env,
                k,
            ),
            _ => numbers_only,
        },
        TokenType::Less => match (l, r) {
            (SpecValue::Number(x), SpecValue::Number(y)) => SpecEvaluation::Value(
                SpecValue::Boolean(spec_less(x.bits, y.bits)),
                env,
                k,
            ),
            _ => numbers_only,
        },
        TokenType::LessEqual => match (l, r) {
            (SpecValue::Number(x), SpecValue::Number(y)) => SpecEvaluation::Value(
                SpecValue::Boolean(spec_less_equal(x.bits, y.bits)),
                env,
                k,
            ),
            _ => numbers_only,
        },
        TokenType::EqualEqual => if same_kind(l, r) {
            SpecEvaluation::Value(SpecValue::Boolean(values_equal(l, r)), env, k)
        } else {
            failure(
                SpecRuntimeErrorType::TypeError { message: operands_message("of same type"@, l, r) },
                op,
                env,
                k,
            )
        },
        TokenType::BangEqual => if same_kind(l, r) {
            SpecEvaluation::Value(SpecValue::Boolean(!values_equal(l, r)), env, k)
        } else {
            failure(
                SpecRuntimeErrorType::TypeError { message: operands_message("of same type"@, l, r) },
                op,
                env,
                k,
            )
        },
        _ => failure(SpecRuntimeErrorType::ParserError, op, env, k),
    }
}

/// A unary operator applied to the value of its operand.
pub open spec fn unary_result(
    op: SpecToken,
    v: SpecValue,
    env: Map<Seq<char>, SpecValue>,
    answers: Seq<SpecNumber>,
    k: nat,
) -> SpecEvaluation {
    match op.kind {
        TokenType::Minus => match v {
            SpecValue::Number(x) => requested(SpecNumericRequest::Negate(x), env, answers, k),
            _ => failure(
                SpecRuntimeErrorType::TypeError {
                    message: "Operand should be number, got "@ + shown(v),
                },
                op,
                env,
                k,
            ),
        },
        TokenType::Bang => SpecEvaluation::Value(SpecValue::Boolean(!truthy(v)), env, k),
        _ => failure(SpecRuntimeErrorType::ParserError, op, env, k),
    }
}

/// The evaluation of an expression from bindings `env`, with `answers` the
/// supplied results of which the first `k` are used.
pub open spec fn evaluation(
    e: SpecExpr,
    env: Map<Seq<char>, SpecValue>,
    answers: Seq<SpecNumber>,
    k: nat,
) -> SpecEvaluation
    decreases e,
{
    match e {
        SpecExpr::Assign { name, value } => match evaluation(*value, env, answers, k) {
            SpecEvaluation::Value(v, env1, k1) => if env1.dom().contains(name.lexeme) {
                SpecEvaluation::Value(v, env1.insert(name.lexeme, v), k1)
            } else {
                failure(SpecRuntimeErrorType::UndefinedVariable, name, env1, k1)
            },
            other => other,
        },
        SpecExpr::Binary { left, op, right } => match evaluation(*left, env, answers, k) {
            SpecEvaluation::Value(l, env1, k1) => match evaluation(*right, env1, answers, k1) {
                SpecEvaluation::Value(r, env2, k2) => binary_result(op, l, r, env2, answers, k2),
                other => other,
            },
            other => other,
        },
        SpecExpr::Grouping(inside) => evaluation(*inside, env, answers, k),
        SpecExpr::Literal(l) => SpecEvaluation::Value(literal_value(l), env, k),
        SpecExpr::Unary { op, right } => match evaluation(*right, env, answers, k) {
            SpecEvaluation::Value(v, env1, k1) => unary_result(op, v, env1, answers, k1),
            other => other,
        },
        SpecExpr::Variable(name) => if env.dom().contains(name.lexeme) {
            SpecEvaluation::Value(env[name.lexeme], env, k)
        } else {
            failure(SpecRuntimeErrorType::UndefinedVariable, name, env, k)
        },
        SpecExpr::Error(t) => failure(SpecRuntimeErrorType::ParserError, t, env, k),
    }
}

/// What executing one statement gives: the bindings and the count of used
/// results after it and the line it printed, if any; or an error; or the
/// computation that is needed.
pub enum SpecExecution {
    Done(Map<Seq<char>, SpecValue>, nat, Option<Seq<char>>),
    Failed(SpecRuntimeError, Map<Seq<char>, SpecValue>),
    Pending(SpecNumericRequest),
}

/// The execution that stops with an evaluation that gave no value.
pub open spec fn stopped(ev: SpecEvaluation) -> SpecExecution {
    match ev {
        SpecEvaluation::Failed(err, env1, _) => SpecExecution::Failed(err, env1),
        SpecEvaluation::Pending(r) => SpecExecution::Pending(r),
        SpecEvaluation::Value(_, env1, k1) => SpecExecution::Done(env1, k1, None),
    }
}

/// Executing a statement: an expression statement evaluates its
/// expression, a print statement also prints the shown value, and a
/// declaration binds the name to the value of its initializer, or to nil.
pub open spec fn execution(
    s: SpecStmt,
    env: Map<Seq<char>, SpecValue>,
    answers: Seq<SpecNumber>,
    k: nat,
) -> SpecExecution {
    match s {
        SpecStmt::Expr(e) => stopped(evaluation(e, env, answers, k)),
        SpecStmt::Print(e) => match evaluation(e, env, answers, k) {
            SpecEvaluation::Value(v, env1, k1) => SpecExecution::Done(env1, k1, Some(shown(v))),
            other => stopped(other),
        },
        SpecStmt::Var { name, init } => match init {
            Some(e) => match evaluation(e, env, answers, k) {
                SpecEvaluation::Value(v, env1, k1) => SpecExecution::Done(
                    env1.insert(name.lexeme, v),
                    k1,
                    None,
                ),
                other => stopped(other),
            },
            None => SpecExecution::Done(env.insert(name.lexeme, SpecValue::Nil), k, None),
        },
    }
}

/// The outcome of running a program: the error that stopped it if any, the
/// bindings it left and the lines it printed; or the computation that is
/// needed.
pub enum SpecRun {
    Finished(Option<SpecRuntimeError>, Map<Seq<char>, SpecValue>, Seq<Seq<char>>),
    Pending(SpecNumericRequest),
}

/// Running `stmts` from the `i`-th on.
pub open spec fn run_from(
    stmts: Seq<SpecStmt>,
    i: int,
    env: Map<Seq<char>, SpecValue>,
    answers: Seq<SpecNumber>,
    k: nat,
    printed: Seq<Seq<char>>,
) -> SpecRun
    decreases stmts.len() - i,
{
    if i < 0 || i >= stmts.len() {
        SpecRun::Finished(None, env, printed)
    } else {
        match execution(stmts[i], env, answers, k) {
            SpecExecution::Done(env1, k1, line) => run_from(
                stmts,
                i + 1,
                env1,
                answers,
                k1,
                match line {
                    Some(l) => printed.push(l),
                    None => printed,
                },
            ),
            SpecExecution::Failed(err, env1) => SpecRun::Finished(Some(err), env1, printed),
            SpecExecution::Pending(r) => SpecRun::Pending(r),
        }
    }
}

/// Running a whole program.
pub open spec fn run_program(
    stmts: Seq<SpecStmt>,
    env: Map<Seq<char>, SpecValue>,
    answers: Seq<SpecNumber>,
) -> SpecRun {
    run_from(stmts, 0, env, answers, 0, Seq::empty())
}

/// The outcome of [`evaluate`].
pub enum Evaluation {
    Value(Value),
    Failed(RuntimeError),
    Pending(NumericRequest),
}

pub open spec fn evaluation_view(
    r: Evaluation,
    env: Map<Seq<char>, SpecValue>,
    k: nat,
) -> SpecEvaluation {
    match r {
        Evaluation::Value(v) => SpecEvaluation::Value(v@, env, k),
        Evaluation::Failed(e) => SpecEvaluation::Failed(e@, env, k),
        Evaluation::Pending(q) => SpecEvaluation::Pending(q@),
    }
}

/// What [`Interpreter::interpret`] gives.
pub enum Interpretation {
    /// The program ran to its end, or to the run-time error in `outcome`;
    /// `printed` holds the lines that its print statements wrote, in order.
    Finished { outcome: Result<(), RuntimeError>, printed: Vec<String> },
    /// The program needs the result of this computation.
    NeedsNumber(NumericRequest),
}

/// `x == y` on values.
pub fn is_equal(x: &Value, y: &Value) -> (b: bool)
    ensures
        b == values_equal(x@, y@),
{
    match (x, y) {
        (Value::Number(a), Value::Number(b)) => a.equals(b),
        (Value::String(a), Value::String(b)) => *a == *b,
        (Value::Boolean(a), Value::Boolean(b)) => *a == *b,
        (Value::Nil, Value::Nil) => true,
        _ => false,
    }
}

fn is_same_kind(x: &Value, y: &Value) -> (b: bool)
    ensures
        b == same_kind(x@, y@),
{
    match (x, y) {
        (Value::Number(_), Value::Number(_)) => true,
        (Value::String(_), Value::String(_)) => true,
        (Value::Boolean(_), Value::Boolean(_)) => true,
        (Value::Nil, Value::Nil) => true,
        _ => false,
    }
}

fn make_operands_message(expected: &str, l: &Value, r: &Value) -> (s: String)
    ensures
        s@ == operands_message(expected@, l@, r@),
{
    let mut s = "Operands should be ".to_owned();
    s.append(expected);
    s.append(", got ");
    let lt = l.to_text();
    s.append(lt.as_str());
    s.append(" and ");
    let rt = r.to_text();
    s.append(rt.as_str());
    s
}

fn fail(kind: RuntimeErrorType, token: &Token) -> (r: Evaluation)
    ensures
        r == Evaluation::Failed(RuntimeError { kind, token: *token }),
{
    Evaluation::Failed(RuntimeError { kind, token: token.clone() })
}

fn type_error(message: String, token: &Token) -> (r: Evaluation)
    ensures
        r == Evaluation::Failed(
            RuntimeError { kind: RuntimeErrorType::TypeError { message }, token: *token },
        ),
{
    fail(RuntimeErrorType::TypeError { message }, token)
}

fn evaluate_litteral(literal: &Literal) -> (v: Value)
    ensures
        v@ == literal_value(literal@),
{
    match literal {
        Literal::Num(x) => Value::Number(x.duplicate()),
        Literal::Bool(b) => Value::Boolean(*b),
        Literal::String(s) => Value::String(s.clone()),
        Literal::Nil => Value::Nil,
    }
}


/// The state of one evaluation of a program: the bindings, the supplied
/// results and how many of them are used.
struct Evaluator<'a> {
    environment: Environment,
    supplied: &'a Vec<Number>,
    used: usize,
}

impl<'a> Evaluator<'a> {
    spec fn answers(&self) -> Seq<SpecNumber> {
        numbers_view(self.supplied@)
    }

    fn request(&mut self, req: NumericRequest) -> (r: Evaluation)
        requires
            old(self).used <= old(self).supplied.len(),
        ensures
            final(self).supplied == old(self).supplied,
            final(self).used <= final(self).supplied.len(),
            evaluation_view(r, final(self).environment@, final(self).used as nat) == requested(
                req@,
                old(self).environment@,
                old(self).answers(),
                old(self).used as nat,
            ),
    {
        if self.used < self.supplied.len() {
            let n = self.supplied[self.used].duplicate();
            self.used = self.used + 1;
            Evaluation::Value(Value::Number(n))
        } else {
            Evaluation::Pending(req)
        }
    }

    fn apply_binary(&mut self, op: &Token, l: Value, r: Value) -> (res: Evaluation)
        requires
            old(self).used <= old(self).supplied.len(),
        ensures
            final(self).supplied == old(self).supplied,
            final(self).used <= final(self).supplied.len(),
            evaluation_view(res, final(self).environment@, final(self).used as nat)
                == binary_result(
                op@,
                l@,
                r@,
                old(self).environment@,
                old(self).answers(),
                old(self).used as nat,
            ),
    {
        match op.kind {
            TokenType::Plus => match (&l, &r) {
                (Value::Number(x), Value::Number(y)) => self.request(
                    NumericRequest::Add(x.duplicate(), y.duplicate()),
                ),
                (Value::String(x), Value::String(y)) => {
                    let mut s = x.clone();
                    s.append(y.as_str());
                    Evaluation::Value(Value::String(s))
                },
                _ => type_error(make_operands_message("Number or String", &l, &r), op),
            },
            TokenType::Minus => match (&l, &r) {
                (Value::Number(x), Value::Number(y)) => self.request(
                    NumericRequest::Subtract(x.duplicate(), y.duplicate()),
                ),
                _ => type_error(make_operands_message("Number", &l, &r), op),
            },
            TokenType::Star => match (&l, &r) {
                (Value::Number(x), Value::Number(y)) => self.request(
                    NumericRequest::Multiply(x.duplicate(), y.duplicate()),
                ),
                _ => type_error(make_operands_message("Number", &l, &r), op),
            },
            TokenType::Slash => match (&l, &r) {
                (Value::Number(x), Value::Number(y)) => {
                    if y.is_zero() {
                        return fail(
                            RuntimeErrorType::OperationError { message: "Division by 0.0".to_owned() },
                            op,
                        );
                    }
                    self.request(NumericRequest::Divide(x.duplicate(), y.duplicate()))
                },
                _ => type_error(make_operands_message("Number", &l, &r), op),
            },
            TokenType::Greater => match (&l, &r) {
                (Value::Number(x), Value::Number(y)) => Evaluation::Value(Value::Boolean(y.less(x))),
                _ => type_error(make_operands_message("Number", &l, &r), op),
            },
            TokenType::GreaterEqual => match (&l, &r) {
                (Value::Number(x), Value::Number(y)) => Evaluation::Value(
                    Value::Boolean(y.less_equal(x)),
                ),
                _ => type_error(make_operands_message("Number", &l, &r), op),
            },
            TokenType::Less => match (&l, &r) {
                (Value::Number(x), Value::Number(y)) => Evaluation::Value(Value::Boolean(x.less(y))),
                _ => type_error(make_operands_message("Number", &l, &r), op),
            },
            TokenType::LessEqual => match (&l, &r) {
                (Value::Number(x), Value::Number(y)) => Evaluation::Value(
                    Value::Boolean(x.less_equal(y)),
                ),
                _ => type_error(make_operands_message("Number", &l, &r), op),
            },
            TokenType::EqualEqual => {
                if is_same_kind(&l, &r) {
                    return Evaluation::Value(Value::Boolean(is_equal(&l, &r)));
                }
                type_error(make_operands_message("of same type", &l, &r), op)
            },
            TokenType::BangEqual => {
                if is_same_kind(&l, &r) {
                    return Evaluation::Value(Value::Boolean(!is_equal(&l, &r)));
                }
                type_error(make_operands_message("of same type", &l, &r), op)
            },
            _ => fail(RuntimeErrorType::ParserError, op),
        }
    }
}


impl<'a> Evaluator<'a> {
    spec fn step_ok(&self, old_self: &Evaluator<'a>) -> bool {
        &&& self.supplied == old_self.supplied
        &&& self.used <= self.supplied.len()
    }

    fn evaluate_unary(&mut self, op: &Token, right: &Expr, Ghost(whole): Ghost<Expr>) -> (res: Evaluation)
        requires
            old(self).used <= old(self).supplied.len(),
            whole == (Expr::Unary { op: *op, right: Box::new(*right) }),
        ensures
            final(self).step_ok(old(self)),
            evaluation_view(res, final(self).environment@, final(self).used as nat) == evaluation(
                SpecExpr::Unary { op: op@, right: Box::new(right@) },
                old(self).environment@,
                old(self).answers(),
                old(self).used as nat,
            ),
        decreases whole, 0nat,
    {
        proof { assert(decreases_to!(whole => *whole->Unary_right)); }
        let value = match self.evaluate(right) {
            Evaluation::Value(v) => v,
            other => return other,
        };
        match op.kind {
            TokenType::Minus => {
                if let Value::Number(x) = &value {
                    return self.request(NumericRequest::Negate(x.duplicate()));
                }
                let mut message = "Operand should be number, got ".to_owned();
                let shown_value = value.to_text();
                message.append(shown_value.as_str());
                type_error(message, op)
            },
            TokenType::Bang => Evaluation::Value(Value::Boolean(!is_truthy_value(&value))),
            _ => fail(RuntimeErrorType::ParserError, op),
        }
    }

    fn evaluate_binary(&mut self, left: &Expr, op: &Token, right: &Expr, Ghost(whole): Ghost<Expr>) -> (res: Evaluation)
        requires
            old(self).used <= old(self).supplied.len(),
            whole == (Expr::Binary { left: Box::new(*left), op: *op, right: Box::new(*right) }),
        ensures
            final(self).step_ok(old(self)),
            evaluation_view(res, final(self).environment@, final(self).used as nat) == evaluation(
                SpecExpr::Binary { left: Box::new(left@), op: op@, right: Box::new(right@) },
                old(self).environment@,
                old(self).answers(),
                old(self).used as nat,
            ),
        decreases whole, 0nat,
    {
        proof {
            assert(decreases_to!(whole => *whole->Binary_left));
            assert(decreases_to!(whole => *whole->Binary_right));
        }
        let l_value = match self.evaluate(left) {
            Evaluation::Value(v) => v,
            other => return other,
        };
        let r_value = match self.evaluate(right) {
            Evaluation::Value(v) => v,
            other => return other,
        };
        self.apply_binary(op, l_value, r_value)
    }

    fn evaluate_assign(&mut self, name: &Token, expr: &Expr, Ghost(whole): Ghost<Expr>) -> (res: Evaluation)
        requires
            old(self).used <= old(self).supplied.len(),
            whole == (Expr::Assign { name: *name, value: Box::new(*expr) }),
        ensures
            final(self).step_ok(old(self)),
            evaluation_view(res, final(self).environment@, final(self).used as nat) == evaluation(
                SpecExpr::Assign { name: name@, value: Box::new(expr@) },
                old(self).environment@,
                old(self).answers(),
                old(self).used as nat,
            ),
        decreases whole, 0nat,
    {
        proof { assert(decreases_to!(whole => *whole->value)); }
        let value = match self.evaluate(expr) {
            Evaluation::Value(v) => v,
            other => return other,
        };
        if !self.environment.assign(name, value.clone()) {
            return fail(RuntimeErrorType::UndefinedVariable, name);
        }
        Evaluation::Value(value)
    }

    fn evaluate_variable(&self, name: &Token) -> (res: Evaluation)
        ensures
            evaluation_view(res, self.environment@, self.used as nat) == evaluation(
                SpecExpr::Variable(name@),
                self.environment@,
                self.answers(),
                self.used as nat,
            ),
    {
        match self.environment.get(name) {
            Some(value) => Evaluation::Value(value),
            None => fail(RuntimeErrorType::UndefinedVariable, name),
        }
    }

    fn evaluate(&mut self, expr: &Expr) -> (res: Evaluation)
        requires
            old(self).used <= old(self).supplied.len(),
        ensures
            final(self).step_ok(old(self)),
            evaluation_view(res, final(self).environment@, final(self).used as nat) == evaluation(
                expr@,
                old(self).environment@,
                old(self).answers(),
                old(self).used as nat,
            ),
        decreases *expr, 1nat,
    {
        match expr {
            Expr::Assign { name, value } => self.evaluate_assign(name, value, Ghost(*expr)),
            Expr::Binary { left, op, right } => self.evaluate_binary(left, op, right, Ghost(*expr)),
            Expr::Literal(literal) => Evaluation::Value(evaluate_litteral(literal)),
            Expr::Grouping(group) => self.evaluate(group),
            Expr::Unary { op, right } => self.evaluate_unary(op, right, Ghost(*expr)),
            Expr::Variable(name) => self.evaluate_variable(name),
            Expr::Error(token) => fail(RuntimeErrorType::ParserError, token),
        }
    }
}

/// Only `nil` and `false` are false.
fn is_truthy_value(value: &Value) -> (b: bool)
    ensures
        b == truthy(value@),
{
    match value {
        Value::Nil => false,
        Value::Boolean(x) => *x,
        _ => true,
    }
}


/// The outcome of executing one statement.
enum Execution {
    Done(Option<String>),
    Failed(RuntimeError),
    Pending(NumericRequest),
}

spec fn execution_view(r: Execution, env: Map<Seq<char>, SpecValue>, k: nat) -> SpecExecution {
    match r {
        Execution::Done(line) => SpecExecution::Done(
            env,
            k,
            match line {
                Some(l) => Some(l@),
                None => None,
            },
        ),
        Execution::Failed(e) => SpecExecution::Failed(e@, env),
        Execution::Pending(q) => SpecExecution::Pending(q@),
    }
}

fn halted(r: Evaluation) -> (x: Execution)
    requires
        !(r is Value),
    ensures
        forall|env: Map<Seq<char>, SpecValue>, k: nat| #[trigger]
            execution_view(x, env, k) == stopped(evaluation_view(r, env, k)),
{
    match r {
        Evaluation::Failed(e) => Execution::Failed(e),
        Evaluation::Pending(q) => Execution::Pending(q),
        Evaluation::Value(_) => Execution::Done(None),
    }
}

impl<'a> Evaluator<'a> {
    fn visit_expr_stmt(&mut self, expr: &Expr) -> (r: Execution)
        requires
            old(self).used <= old(self).supplied.len(),
        ensures
            final(self).step_ok(old(self)),
            execution_view(r, final(self).environment@, final(self).used as nat) == execution(
                SpecStmt::Expr(expr@),
                old(self).environment@,
                old(self).answers(),
                old(self).used as nat,
            ),
    {
        match self.evaluate(expr) {
            Evaluation::Value(_) => Execution::Done(None),
            other => halted(other),
        }
    }

    fn visit_print_stmt(&mut self, expr: &Expr) -> (r: Execution)
        requires
            old(self).used <= old(self).supplied.len(),
        ensures
            final(self).step_ok(old(self)),
            execution_view(r, final(self).environment@, final(self).used as nat) == execution(
                SpecStmt::Print(expr@),
                old(self).environment@,
                old(self).answers(),
                old(self).used as nat,
            ),
    {
        match self.evaluate(expr) {
            Evaluation::Value(value) => Execution::Done(Some(value.to_text())),
            other => halted(other),
        }
    }

    fn visit_var_stmt(&mut self, name: &Token, init: &Option<Expr>) -> (r: Execution)
        requires
            old(self).used <= old(self).supplied.len(),
        ensures
            final(self).step_ok(old(self)),
            execution_view(r, final(self).environment@, final(self).used as nat) == execution(
                SpecStmt::Var {
                    name: name@,
                    init: match init {
                        Some(e) => Some(e@),
                        None => None,
                    },
                },
                old(self).environment@,
                old(self).answers(),
                old(self).used as nat,
            ),
    {
        let value = match init {
            Some(expr) => match self.evaluate(expr) {
                Evaluation::Value(v) => v,
                other => return halted(other),
            },
            None => Value::Nil,
        };
        self.environment.define(name, value);
        Execution::Done(None)
    }

    fn execute(&mut self, stmt: &Stmt) -> (r: Execution)
        requires
            old(self).used <= old(self).supplied.len(),
        ensures
            final(self).step_ok(old(self)),
            execution_view(r, final(self).environment@, final(self).used as nat) == execution(
                stmt@,
                old(self).environment@,
                old(self).answers(),
                old(self).used as nat,
            ),
    {
        match stmt {
            Stmt::Expr(expr) => self.visit_expr_stmt(expr),
            Stmt::Print(expr) => self.visit_print_stmt(expr),
            Stmt::Var { name, init } => self.visit_var_stmt(name, init),
        }
    }
}

pub open spec fn lines_view(lines: Seq<String>) -> Seq<Seq<char>> {
    lines.map_values(|l: String| l@)
}

/// The bindings, the supplied results, and what evaluating a program gives.
pub struct Interpreter {
    environment: Environment,
    supplied: Vec<Number>,
}

impl Interpreter {
    /// The variable bindings.
    pub closed spec fn bindings(&self) -> Map<Seq<char>, SpecValue> {
        self.environment@
    }

    /// The results supplied for the computations of the next run.
    pub closed spec fn supplied_results(&self) -> Seq<SpecNumber> {
        numbers_view(self.supplied@)
    }

    /// An interpreter without bindings or supplied results.
    pub fn new() -> (i: Interpreter)
        ensures
            i.bindings() == Map::<Seq<char>, SpecValue>::empty(),
            i.supplied_results() == Seq::<SpecNumber>::empty(),
    {
        let i = Interpreter { environment: Environment::new(), supplied: Vec::new() };
        assert(i.supplied_results() =~= Seq::<SpecNumber>::empty());
        i
    }

    /// Hands the interpreter the result of the computation it asked for last.
    pub fn supply(&mut self, result: Number)
        ensures
            final(self).bindings() == old(self).bindings(),
            final(self).supplied_results() == old(self).supplied_results().push(result@),
    {
        self.supplied.push(result);
        assert(numbers_view(self.supplied@) =~= numbers_view(old(self).supplied@).push(result@));
    }

    /// Only `nil` and `false` are false.
    pub fn is_truthy(&self, value: &Value) -> (b: bool)
        ensures
            b == truthy(value@),
    {
        is_truthy_value(value)
    }

    /// Evaluates an expression from the current bindings, the supplied
    /// results standing in order for the computations it asks for. When a
    /// computation is needed that was not supplied, nothing changes and the
    /// computation is returned. Otherwise its value or its run-time error is
    /// returned, the bindings are those it leaves, and the supplied results
    /// are cleared.
    pub fn evaluate(&mut self, expr: &Expr) -> (r: Evaluation)
        ensures
            match evaluation(expr@, old(self).bindings(), old(self).supplied_results(), 0) {
                SpecEvaluation::Pending(q) => {
                    &&& r matches Evaluation::Pending(req) && req@ == q
                    &&& final(self).bindings() == old(self).bindings()
                    &&& final(self).supplied_results() == old(self).supplied_results()
                },
                SpecEvaluation::Value(v, env, _) => {
                    &&& r matches Evaluation::Value(x) && x@ == v
                    &&& final(self).bindings() == env
                    &&& final(self).supplied_results() == Seq::<SpecNumber>::empty()
                },
                SpecEvaluation::Failed(e, env, _) => {
                    &&& r matches Evaluation::Failed(x) && x@ == e
                    &&& final(self).bindings() == env
                    &&& final(self).supplied_results() == Seq::<SpecNumber>::empty()
                },
            },
    {
        let mut evaluator = Evaluator {
            environment: self.environment.duplicate(),
            supplied: &self.supplied,
            used: 0,
        };
        let r = evaluator.evaluate(expr);
        if let Evaluation::Pending(q) = r {
            return Evaluation::Pending(q);
        }
        let env = evaluator.environment;
        self.environment = env;
        self.supplied = Vec::new();
        assert(self.supplied_results() =~= Seq::<SpecNumber>::empty());
        r
    }

    /// Runs the statements from the current bindings, the supplied results
    /// standing in order for the computations the program asks for. When a
    /// computation is needed that was not supplied, nothing changes and the
    /// computation is returned. Otherwise the program runs to its end or to
    /// its first run-time error, the bindings are those it leaves, the
    /// supplied results are cleared, and the printed lines are returned.
    pub fn interpret(&mut self, statments: &Vec<Stmt>) -> (r: Interpretation)
        ensures
            match run_program(
                stmts_view(statments@),
                old(self).bindings(),
                old(self).supplied_results(),
            ) {
                SpecRun::Pending(q) => {
                    &&& r matches Interpretation::NeedsNumber(req) && req@ == q
                    &&& final(self).bindings() == old(self).bindings()
                    &&& final(self).supplied_results() == old(self).supplied_results()
                },
                SpecRun::Finished(err, env, printed) => {
                    &&& r matches Interpretation::Finished { outcome, printed: lines } && lines_view(
                        lines@,
                    ) == printed && match err {
                        Some(e) => outcome matches Err(x) && x@ == e,
                        None => outcome is Ok,
                    }
                    &&& final(self).bindings() == env
                    &&& final(self).supplied_results() == Seq::<SpecNumber>::empty()
                },
            },
    {
        let ghost stmts = stmts_view(statments@);
        let ghost env0 = self.environment@;
        let ghost answers = numbers_view(self.supplied@);
        let mut evaluator = Evaluator {
            environment: self.environment.duplicate(),
            supplied: &self.supplied,
            used: 0,
        };
        let mut printed: Vec<String> = Vec::new();
        let mut i: usize = 0;
        let mut error: Option<RuntimeError> = None;
        assert(lines_view(printed@) =~= Seq::<Seq<char>>::empty());
        while i < statments.len() && error.is_none()
            invariant
                i <= statments.len(),
                stmts == stmts_view(statments@),
                answers == evaluator.answers(),
                evaluator.used <= evaluator.supplied.len(),
                evaluator.supplied == &self.supplied,
                self.environment@ == env0,
                numbers_view(self.supplied@) == answers,
                match error {
                    None => run_program(stmts, env0, answers) == run_from(
                        stmts,
                        i as int,
                        evaluator.environment@,
                        answers,
                        evaluator.used as nat,
                        lines_view(printed@),
                    ),
                    Some(e) => run_program(stmts, env0, answers) == SpecRun::Finished(
                        Some(e@),
                        evaluator.environment@,
                        lines_view(printed@),
                    ),
                },
            decreases statments.len() - i,
        {
            let ghost before = lines_view(printed@);
            assert(stmts[i as int] == statments@[i as int]@);
            match evaluator.execute(&statments[i]) {
                Execution::Done(line) => {
                    match line {
                        Some(l) => {
                            printed.push(l);
                            assert(lines_view(printed@) =~= before.push(l@));
                        },
                        None => {},
                    }
                },
                Execution::Failed(e) => {
                    error = Some(e);
                },
                Execution::Pending(q) => {
                    return Interpretation::NeedsNumber(q);
                },
            }
            i = i + 1;
        }
        let env = evaluator.environment;
        self.environment = env;
        self.supplied = Vec::new();
        let outcome = match error {
            Some(e) => Err(e),
            None => Ok(()),
        };
        Interpretation::Finished { outcome, printed }
    }
}

} // verus!
