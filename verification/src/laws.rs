//! Properties of the library that relate several of its functions or hold
//! of every input.

use vstd::prelude::*;

use crate::interpreter::{
    binary_result, evaluation, execution, failure, literal_value, requested, run_from, run_program,
    truthy, values_equal, SpecEvaluation, SpecExecution, SpecRun, SpecRuntimeErrorType,
};
use crate::expr::SpecExpr;
use crate::number::{is_nan, spec_equal, spec_less, SpecNumber};
use crate::scanner::{char_at, is_digit};
use crate::scanner::{eof_token, item_seq, scan_from, scanned, step, SpecScan, SpecScanError, SpecStep};
use crate::grammar::{parse_from, statement_has_error_node};
use crate::parser::{eof_ahead, literals_present, parsable};
use crate::runner::{run_outcome, scanned_tokens};
use crate::stmt::SpecStmt;
use crate::token::{kind_name, SpecLiteral, SpecToken, TokenType};
use crate::value::SpecValue;

verus! {

// ---- Bindings.

/// A read after a write: once `name` is bound to `value`, reading `name`
/// gives `value`, and every other name reads as before.
pub proof fn law_read_after_write(
    bindings: Map<Seq<char>, SpecValue>,
    name: Seq<char>,
    value: SpecValue,
    other: Seq<char>,
)
    requires
        other != name,
    ensures
        bindings.insert(name, value).dom().contains(name),
        bindings.insert(name, value)[name] == value,
        bindings.insert(name, value).dom().contains(other) == bindings.dom().contains(other),
        bindings.dom().contains(other) ==> bindings.insert(name, value)[other] == bindings[other],
{
}

// ---- Values.

/// Only `nil` and `false` are false.
pub proof fn law_falsy_values(v: SpecValue)
    ensures
        !truthy(v) <==> (v == SpecValue::Nil || v == SpecValue::Boolean(false)),
{
}

/// Equality of values is symmetric.
pub proof fn law_equality_symmetric(x: SpecValue, y: SpecValue)
    ensures
        values_equal(x, y) == values_equal(y, x),
{
}

/// Two numbers that are not NaN compare in exactly one way; a NaN compares
/// as neither less, equal nor greater.
pub proof fn law_number_trichotomy(a: SpecNumber, b: SpecNumber)
    ensures
        !is_nan(a.bits) && !is_nan(b.bits) ==> {
            &&& spec_less(a.bits, b.bits) || spec_equal(a.bits, b.bits) || spec_less(b.bits, a.bits)
            &&& !(spec_less(a.bits, b.bits) && spec_equal(a.bits, b.bits))
            &&& !(spec_less(a.bits, b.bits) && spec_less(b.bits, a.bits))
            &&& !(spec_equal(a.bits, b.bits) && spec_less(b.bits, a.bits))
        },
        is_nan(a.bits) ==> !spec_less(a.bits, b.bits) && !spec_equal(a.bits, b.bits)
            && !spec_less(b.bits, a.bits),
{
}

/// `!=` gives the opposite of `==`, and both refuse the same operands.
pub proof fn law_not_equal_opposes_equal(
    equal: SpecToken,
    not_equal: SpecToken,
    l: SpecValue,
    r: SpecValue,
    env: Map<Seq<char>, SpecValue>,
    answers: Seq<SpecNumber>,
    k: nat,
)
    requires
        equal.kind == TokenType::EqualEqual,
        not_equal.kind == TokenType::BangEqual,
    ensures
        match binary_result(equal, l, r, env, answers, k) {
            SpecEvaluation::Value(SpecValue::Boolean(b), env1, k1) => binary_result(
                not_equal,
                l,
                r,
                env,
                answers,
                k,
            ) == SpecEvaluation::Value(SpecValue::Boolean(!b), env1, k1),
            SpecEvaluation::Failed(_, _, _) => binary_result(not_equal, l, r, env, answers, k) is Failed,
            _ => false,
        },
{
}

/// The order operators on numbers agree with each other: `>=` holds exactly
/// when `>` or `==` does, `<=` exactly when `<` or `==` does, `a > b` exactly
/// when `b < a`, and `<` and `==` follow the IEEE-754 order and equality; so
/// `x >= x` and `x <= x` hold for every number that is not NaN, and no
/// comparison touches the bindings or the supplied results.
pub proof fn law_order_operators_agree(
    greater: SpecToken,
    greater_equal: SpecToken,
    less: SpecToken,
    less_equal: SpecToken,
    equal: SpecToken,
    x: SpecNumber,
    y: SpecNumber,
    env: Map<Seq<char>, SpecValue>,
    answers: Seq<SpecNumber>,
    k: nat,
)
    requires
        greater.kind == TokenType::Greater,
        greater_equal.kind == TokenType::GreaterEqual,
        less.kind == TokenType::Less,
        less_equal.kind == TokenType::LessEqual,
        equal.kind == TokenType::EqualEqual,
    ensures
        ({
            let (l, r) = (SpecValue::Number(x), SpecValue::Number(y));
            let bool_of = |ev: SpecEvaluation| ev matches SpecEvaluation::Value(SpecValue::Boolean(b), e1, k1)
                && b && e1 == env && k1 == k;
            let is_bool = |ev: SpecEvaluation| ev matches SpecEvaluation::Value(SpecValue::Boolean(_), e1, k1)
                && e1 == env && k1 == k;
            &&& is_bool(binary_result(greater, l, r, env, answers, k))
            &&& is_bool(binary_result(greater_equal, l, r, env, answers, k))
            &&& is_bool(binary_result(less, l, r, env, answers, k))
            &&& is_bool(binary_result(less_equal, l, r, env, answers, k))
            &&& is_bool(binary_result(equal, l, r, env, answers, k))
            &&& bool_of(binary_result(greater_equal, l, r, env, answers, k)) == (bool_of(
                binary_result(greater, l, r, env, answers, k),
            ) || bool_of(binary_result(equal, l, r, env, answers, k)))
            &&& bool_of(binary_result(less_equal, l, r, env, answers, k)) == (bool_of(
                binary_result(less, l, r, env, answers, k),
            ) || bool_of(binary_result(equal, l, r, env, answers, k)))
            &&& bool_of(binary_result(greater, l, r, env, answers, k)) == bool_of(
                binary_result(less, r, l, env, answers, k),
            )
            &&& bool_of(binary_result(less, l, r, env, answers, k)) == spec_less(x.bits, y.bits)
            &&& bool_of(binary_result(equal, l, r, env, answers, k)) == spec_equal(x.bits, y.bits)
            &&& !is_nan(x.bits) ==> bool_of(binary_result(greater_equal, l, l, env, answers, k))
                && bool_of(binary_result(less_equal, l, l, env, answers, k))
                && bool_of(binary_result(equal, l, l, env, answers, k))
                && !bool_of(binary_result(greater, l, l, env, answers, k))
                && !bool_of(binary_result(less, l, l, env, answers, k))
        }),
{
}

/// Whether an expression holds an assignment.
pub open spec fn assigns(e: SpecExpr) -> bool
    decreases e,
{
    match e {
        SpecExpr::Assign { .. } => true,
        SpecExpr::Binary { left, right, .. } => assigns(*left) || assigns(*right),
        SpecExpr::Grouping(inside) => assigns(*inside),
        SpecExpr::Unary { right, .. } => assigns(*right),
        _ => false,
    }
}

/// Evaluating an expression without assignments leaves the bindings as they
/// were, whatever it gives.
pub proof fn law_evaluation_without_assignment_keeps_bindings(
    e: SpecExpr,
    env: Map<Seq<char>, SpecValue>,
    answers: Seq<SpecNumber>,
    k: nat,
)
    requires
        !assigns(e),
    ensures
        match evaluation(e, env, answers, k) {
            SpecEvaluation::Value(_, env1, _) => env1 == env,
            SpecEvaluation::Failed(_, env1, _) => env1 == env,
            SpecEvaluation::Pending(_) => true,
        },
    decreases e,
{
    match e {
        SpecExpr::Binary { left, op, right } => {
            law_evaluation_without_assignment_keeps_bindings(*left, env, answers, k);
            if let SpecEvaluation::Value(l, env1, k1) = evaluation(*left, env, answers, k) {
                law_evaluation_without_assignment_keeps_bindings(*right, env1, answers, k1);
            }
        },
        SpecExpr::Grouping(inside) => {
            law_evaluation_without_assignment_keeps_bindings(*inside, env, answers, k);
        },
        SpecExpr::Unary { op, right } => {
            law_evaluation_without_assignment_keeps_bindings(*right, env, answers, k);
        },
        _ => {},
    }
}

/// A binary expression evaluates its left operand first: when that gives no
/// value, its error or request is the whole result and the right operand is
/// never evaluated; when the left gives a value and the right does not, the
/// right's error or request is the result.
pub proof fn law_binary_left_first(
    left: SpecExpr,
    op: SpecToken,
    right: SpecExpr,
    env: Map<Seq<char>, SpecValue>,
    answers: Seq<SpecNumber>,
    k: nat,
)
    ensures
        ({
            let whole = SpecExpr::Binary { left: Box::new(left), op, right: Box::new(right) };
            match evaluation(left, env, answers, k) {
                SpecEvaluation::Value(_, env1, k1) => !(evaluation(right, env1, answers, k1) is Value)
                    ==> evaluation(whole, env, answers, k) == evaluation(right, env1, answers, k1),
                other => evaluation(whole, env, answers, k) == other,
            }
        }),
{
}

/// A grouping evaluates as the expression inside it; a literal gives its
/// value and an error node a parser error at its token, both leaving the
/// bindings and the supplied results untouched.
pub proof fn law_evaluation_of_leaves(
    inside: SpecExpr,
    literal: SpecLiteral,
    token: SpecToken,
    env: Map<Seq<char>, SpecValue>,
    answers: Seq<SpecNumber>,
    k: nat,
)
    ensures
        evaluation(SpecExpr::Grouping(Box::new(inside)), env, answers, k) == evaluation(
            inside,
            env,
            answers,
            k,
        ),
        evaluation(SpecExpr::Literal(literal), env, answers, k) == SpecEvaluation::Value(
            literal_value(literal),
            env,
            k,
        ),
        evaluation(SpecExpr::Error(token), env, answers, k) == failure(
            SpecRuntimeErrorType::ParserError,
            token,
            env,
            k,
        ),
{
}

/// A declaration binds its name afresh: once it completes, the name is
/// bound to the value of its initializer, or to nil without one, whatever it
/// was bound to before, and every other name is as the initializer left it.
pub proof fn law_declaration_binds_name(
    name: SpecToken,
    init: Option<SpecExpr>,
    other: Seq<char>,
    env: Map<Seq<char>, SpecValue>,
    answers: Seq<SpecNumber>,
    k: nat,
)
    requires
        other != name.lexeme,
    ensures
        match init {
            Some(e) => match evaluation(e, env, answers, k) {
                SpecEvaluation::Value(v, env1, k1) => execution(
                    SpecStmt::Var { name, init },
                    env,
                    answers,
                    k,
                ) matches SpecExecution::Done(env2, k2, line) && env2.dom().contains(name.lexeme)
                    && env2[name.lexeme] == v && k2 == k1 && line is None
                    && env2.dom().contains(other) == env1.dom().contains(other)
                    && (env1.dom().contains(other) ==> env2[other] == env1[other]),
                _ => !(execution(SpecStmt::Var { name, init }, env, answers, k) is Done),
            },
            None => execution(SpecStmt::Var { name, init }, env, answers, k) matches SpecExecution::Done(
                env2,
                k2,
                line,
            ) && env2.dom().contains(name.lexeme) && env2[name.lexeme] == SpecValue::Nil && k2 == k
                && line is None && env2.dom().contains(other) == env.dom().contains(other)
                && (env.dom().contains(other) ==> env2[other] == env[other]),
        },
{
}

// ---- Running programs.

proof fn lemma_run_prefix(
    stmts: Seq<SpecStmt>,
    j: int,
    i: int,
    env: Map<Seq<char>, SpecValue>,
    answers: Seq<SpecNumber>,
    k: nat,
    printed: Seq<Seq<char>>,
)
    requires
        0 <= i <= j <= stmts.len(),
    ensures
        ({
            let pre = run_from(stmts.take(j), i, env, answers, k, printed);
            let full = run_from(stmts, i, env, answers, k, printed);
            &&& !(pre matches SpecRun::Finished(None, _, _)) ==> full == pre
            &&& full matches SpecRun::Finished(None, _, p2) ==> pre matches SpecRun::Finished(
                None,
                _,
                p1,
            ) && p1.len() <= p2.len() && p2.take(p1.len() as int) == p1
        }),
    decreases stmts.len() - i,
{
    let pre = stmts.take(j);
    if i < j {
        assert(pre[i] == stmts[i]);
        if let SpecExecution::Done(env1, k1, line) = execution(stmts[i], env, answers, k) {
            let printed1 = match line {
                Some(l) => printed.push(l),
                None => printed,
            };
            lemma_run_prefix(stmts, j, i + 1, env1, answers, k1, printed1);
        }
    } else {
        lemma_run_lines_grow(stmts, i, env, answers, k, printed);
    }
}

proof fn lemma_run_lines_grow(
    stmts: Seq<SpecStmt>,
    i: int,
    env: Map<Seq<char>, SpecValue>,
    answers: Seq<SpecNumber>,
    k: nat,
    printed: Seq<Seq<char>>,
)
    ensures
        run_from(stmts, i, env, answers, k, printed) matches SpecRun::Finished(_, _, p2) ==> printed.len()
            <= p2.len() && p2.take(printed.len() as int) == printed,
    decreases stmts.len() - i,
{
    if 0 <= i < stmts.len() {
        if let SpecExecution::Done(env1, k1, line) = execution(stmts[i], env, answers, k) {
            let printed1 = match line {
                Some(l) => printed.push(l),
                None => printed,
            };
            lemma_run_lines_grow(stmts, i + 1, env1, answers, k1, printed1);
            if let SpecRun::Finished(_, _, p2) = run_from(stmts, i + 1, env1, answers, k1, printed1) {
                assert(p2.take(printed1.len() as int) == printed1);
                assert(p2.take(printed.len() as int) =~= printed);
            }
        }
    } else {
        assert(printed.take(printed.len() as int) =~= printed);
    }
}

/// A run stops at its first failing statement. When the first `j` statements
/// alone stop with a run-time error (or ask for a computation), the whole
/// program gives exactly that: the same error, the bindings and printed lines
/// of the statements before it, and nothing from the statements after. When
/// the whole program runs to its end without error, so does each of its
/// prefixes, and the lines the prefix prints begin the lines of the program.
pub proof fn law_run_stops_at_first_failure(
    stmts: Seq<SpecStmt>,
    j: int,
    env: Map<Seq<char>, SpecValue>,
    answers: Seq<SpecNumber>,
)
    requires
        0 <= j <= stmts.len(),
    ensures
        ({
            let pre = run_program(stmts.take(j), env, answers);
            let full = run_program(stmts, env, answers);
            &&& !(pre matches SpecRun::Finished(None, _, _)) ==> full == pre
            &&& full matches SpecRun::Finished(None, _, p2) ==> pre matches SpecRun::Finished(
                None,
                _,
                p1,
            ) && p1.len() <= p2.len() && p2.take(p1.len() as int) == p1
        }),
{
    lemma_run_prefix(stmts, j, 0, env, answers, 0, Seq::empty());
}

/// A statement that fails ends the run with its error, keeping the bindings
/// it left and the lines printed before it; one that completes hands its
/// bindings, its count of used results and its printed line to the rest.
pub proof fn law_run_step(
    stmts: Seq<SpecStmt>,
    i: int,
    env: Map<Seq<char>, SpecValue>,
    answers: Seq<SpecNumber>,
    k: nat,
    printed: Seq<Seq<char>>,
)
    requires
        0 <= i < stmts.len(),
    ensures
        match execution(stmts[i], env, answers, k) {
            SpecExecution::Failed(err, env1) => run_from(stmts, i, env, answers, k, printed)
                == SpecRun::Finished(Some(err), env1, printed),
            SpecExecution::Done(env1, k1, line) => run_from(stmts, i, env, answers, k, printed)
                == run_from(
                stmts,
                i + 1,
                env1,
                answers,
                k1,
                match line {
                    Some(l) => printed.push(l),
                    None => printed,
                },
            ),
            SpecExecution::Pending(q) => run_from(stmts, i, env, answers, k, printed)
                == SpecRun::Pending(q),
        },
{
}

// ---- Supplied results.

proof fn lemma_requested_stable(
    request: crate::interpreter::SpecNumericRequest,
    env: Map<Seq<char>, SpecValue>,
    answers: Seq<SpecNumber>,
    extra: Seq<SpecNumber>,
    k: nat,
)
    requires
        !(requested(request, env, answers, k) is Pending),
    ensures
        requested(request, env, answers + extra, k) == requested(request, env, answers, k),
{
    assert((answers + extra)[k as int] == answers[k as int]);
}

proof fn lemma_evaluation_stable(
    e: SpecExpr,
    env: Map<Seq<char>, SpecValue>,
    answers: Seq<SpecNumber>,
    extra: Seq<SpecNumber>,
    k: nat,
)
    requires
        !(evaluation(e, env, answers, k) is Pending),
    ensures
        evaluation(e, env, answers + extra, k) == evaluation(e, env, answers, k),
    decreases e,
{
    let all = answers + extra;
    match e {
        SpecExpr::Assign { name, value } => {
            lemma_evaluation_stable(*value, env, answers, extra, k);
        },
        SpecExpr::Binary { left, op, right } => {
            lemma_evaluation_stable(*left, env, answers, extra, k);
            if let SpecEvaluation::Value(l, env1, k1) = evaluation(*left, env, answers, k) {
                lemma_evaluation_stable(*right, env1, answers, extra, k1);
                if let SpecEvaluation::Value(r, env2, k2) = evaluation(*right, env1, answers, k1) {
                    if k2 < answers.len() {
                        assert(all[k2 as int] == answers[k2 as int]);
                    }
                }
            }
        },
        SpecExpr::Grouping(inside) => {
            lemma_evaluation_stable(*inside, env, answers, extra, k);
        },
        SpecExpr::Unary { op, right } => {
            lemma_evaluation_stable(*right, env, answers, extra, k);
            if let SpecEvaluation::Value(v, env1, k1) = evaluation(*right, env, answers, k) {
                if k1 < answers.len() {
                    assert(all[k1 as int] == answers[k1 as int]);
                }
            }
        },
        _ => {},
    }
}

proof fn lemma_execution_stable(
    s: SpecStmt,
    env: Map<Seq<char>, SpecValue>,
    answers: Seq<SpecNumber>,
    extra: Seq<SpecNumber>,
    k: nat,
)
    requires
        !(execution(s, env, answers, k) is Pending),
    ensures
        execution(s, env, answers + extra, k) == execution(s, env, answers, k),
{
    match s {
        SpecStmt::Expr(e) => lemma_evaluation_stable(e, env, answers, extra, k),
        SpecStmt::Print(e) => lemma_evaluation_stable(e, env, answers, extra, k),
        SpecStmt::Var { name, init } => {
            if let Some(e) = init {
                lemma_evaluation_stable(e, env, answers, extra, k);
            }
        },
    }
}

proof fn lemma_run_stable(
    stmts: Seq<SpecStmt>,
    i: int,
    env: Map<Seq<char>, SpecValue>,
    answers: Seq<SpecNumber>,
    extra: Seq<SpecNumber>,
    k: nat,
    printed: Seq<Seq<char>>,
)
    requires
        run_from(stmts, i, env, answers, k, printed) is Finished,
    ensures
        run_from(stmts, i, env, answers + extra, k, printed) == run_from(
            stmts,
            i,
            env,
            answers,
            k,
            printed,
        ),
    decreases stmts.len() - i,
{
    if 0 <= i < stmts.len() {
        lemma_execution_stable(stmts[i], env, answers, extra, k);
        if let SpecExecution::Done(env1, k1, line) = execution(stmts[i], env, answers, k) {
            lemma_run_stable(
                stmts,
                i + 1,
                env1,
                answers,
                extra,
                k1,
                match line {
                    Some(l) => printed.push(l),
                    None => printed,
                },
            );
        }
    }
}

/// How many computations evaluating `e` can ask for at most: one for each
/// operator node.
pub open spec fn requests(e: SpecExpr) -> nat
    decreases e,
{
    match e {
        SpecExpr::Assign { value, .. } => requests(*value),
        SpecExpr::Binary { left, right, .. } => requests(*left) + requests(*right) + 1,
        SpecExpr::Grouping(inside) => requests(*inside),
        SpecExpr::Unary { right, .. } => requests(*right) + 1,
        _ => 0,
    }
}

/// How many computations executing `s` can ask for at most.
pub open spec fn statement_requests(s: SpecStmt) -> nat {
    match s {
        SpecStmt::Expr(e) => requests(e),
        SpecStmt::Print(e) => requests(e),
        SpecStmt::Var { init, .. } => match init {
            Some(e) => requests(e),
            None => 0,
        },
    }
}

/// How many computations running `stmts` from the `i`-th on can ask for at
/// most.
pub open spec fn program_requests(stmts: Seq<SpecStmt>, i: int) -> nat
    decreases stmts.len() - i,
{
    if i < 0 || i >= stmts.len() {
        0
    } else {
        statement_requests(stmts[i]) + program_requests(stmts, i + 1)
    }
}

proof fn lemma_evaluation_bounded(
    e: SpecExpr,
    env: Map<Seq<char>, SpecValue>,
    answers: Seq<SpecNumber>,
    k: nat,
)
    requires
        k + requests(e) <= answers.len(),
    ensures
        match evaluation(e, env, answers, k) {
            SpecEvaluation::Value(_, _, k1) => k <= k1 <= k + requests(e),
            SpecEvaluation::Failed(_, _, k1) => k <= k1 <= k + requests(e),
            SpecEvaluation::Pending(_) => false,
        },
    decreases e,
{
    match e {
        SpecExpr::Assign { name, value } => {
            lemma_evaluation_bounded(*value, env, answers, k);
        },
        SpecExpr::Binary { left, op, right } => {
            lemma_evaluation_bounded(*left, env, answers, k);
            if let SpecEvaluation::Value(l, env1, k1) = evaluation(*left, env, answers, k) {
                lemma_evaluation_bounded(*right, env1, answers, k1);
            }
        },
        SpecExpr::Grouping(inside) => {
            lemma_evaluation_bounded(*inside, env, answers, k);
        },
        SpecExpr::Unary { op, right } => {
            lemma_evaluation_bounded(*right, env, answers, k);
        },
        _ => {},
    }
}

proof fn lemma_run_bounded(
    stmts: Seq<SpecStmt>,
    i: int,
    env: Map<Seq<char>, SpecValue>,
    answers: Seq<SpecNumber>,
    k: nat,
    printed: Seq<Seq<char>>,
)
    requires
        k + program_requests(stmts, i) <= answers.len(),
    ensures
        run_from(stmts, i, env, answers, k, printed) is Finished,
    decreases stmts.len() - i,
{
    if 0 <= i < stmts.len() {
        let s = stmts[i];
        match s {
            SpecStmt::Expr(e) => lemma_evaluation_bounded(e, env, answers, k),
            SpecStmt::Print(e) => lemma_evaluation_bounded(e, env, answers, k),
            SpecStmt::Var { name, init } => {
                if let Some(e) = init {
                    lemma_evaluation_bounded(e, env, answers, k);
                }
            },
        }
        if let SpecExecution::Done(env1, k1, line) = execution(s, env, answers, k) {
            lemma_run_bounded(
                stmts,
                i + 1,
                env1,
                answers,
                k1,
                match line {
                    Some(l) => printed.push(l),
                    None => printed,
                },
            );
        }
    }
}

/// A program asks for at most one computation per operator node: once that
/// many results are supplied, its run finishes. Since a pending run is
/// answered by one more result at a time, the exchange with the host ends.
pub proof fn law_enough_results_finish(
    stmts: Seq<SpecStmt>,
    env: Map<Seq<char>, SpecValue>,
    answers: Seq<SpecNumber>,
)
    requires
        program_requests(stmts, 0) <= answers.len(),
    ensures
        run_program(stmts, env, answers) is Finished,
{
    lemma_run_bounded(stmts, 0, env, answers, 0, Seq::empty());
}

proof fn lemma_scan_bounded(src: Seq<char>, pos: int, line: nat, numbers: Seq<SpecNumber>, k: nat)
    requires
        0 <= pos,
        k + (src.len() - pos) <= numbers.len(),
    ensures
        scan_from(src, pos, line, numbers, k) is Done,
    decreases src.len() - pos,
{
    if pos < src.len() {
        crate::scanner::lemma_step_advances(src, pos, line, numbers, k);
        if let SpecStep::Emit(item, p2, l2, k2) = step(src, pos, line, numbers, k) {
            lemma_scan_bounded(src, p2, l2, numbers, k2);
        }
    }
}

/// Scanning asks for at most one number per character of the source: once
/// that many are supplied, the scan finishes.
pub proof fn law_enough_numbers_finish(src: Seq<char>, numbers: Seq<SpecNumber>)
    requires
        src.len() <= numbers.len(),
    ensures
        scanned(src, numbers) is Done,
{
    lemma_scan_bounded(src, 0, 1, numbers, 0);
}

/// A run that needed no more results than were supplied is not changed by
/// supplying more: the interpreter can be handed results one by one until
/// the run finishes.
pub proof fn law_finished_run_is_stable(
    stmts: Seq<SpecStmt>,
    env: Map<Seq<char>, SpecValue>,
    answers: Seq<SpecNumber>,
    extra: Seq<SpecNumber>,
)
    requires
        run_program(stmts, env, answers) is Finished,
    ensures
        run_program(stmts, env, answers + extra) == run_program(stmts, env, answers),
{
    lemma_run_stable(stmts, 0, env, answers, extra, 0, Seq::empty());
}

proof fn lemma_scan_stable(
    src: Seq<char>,
    pos: int,
    line: nat,
    numbers: Seq<SpecNumber>,
    extra: Seq<SpecNumber>,
    k: nat,
)
    requires
        scan_from(src, pos, line, numbers, k) is Done,
    ensures
        scan_from(src, pos, line, numbers + extra, k) == scan_from(src, pos, line, numbers, k),
    decreases src.len() - pos,
{
    if 0 <= pos < src.len() {
        if k < numbers.len() {
            assert((numbers + extra)[k as int] == numbers[k as int]);
        }
        if let SpecStep::Emit(item, p2, l2, k2) = step(src, pos, line, numbers, k) {
            assert(step(src, pos, line, numbers + extra, k) == step(src, pos, line, numbers, k));
            if p2 > pos && p2 <= src.len() {
                lemma_scan_stable(src, p2, l2, numbers, extra, k2);
            }
        }
    }
}

/// A scan that needed no more numbers than were supplied is not changed by
/// supplying more.
pub proof fn law_finished_scan_is_stable(src: Seq<char>, numbers: Seq<SpecNumber>, extra: Seq<SpecNumber>)
    requires
        scanned(src, numbers) is Done,
    ensures
        scanned(src, numbers + extra) == scanned(src, numbers),
{
    lemma_scan_stable(src, 0, 1, numbers, extra, 0);
}


/// Whether every token among `items` that is a number or a string carries
/// its literal.
pub open spec fn items_carry_literals(items: Seq<Result<SpecToken, SpecScanError>>) -> bool {
    forall|i: int|
        0 <= i < items.len() ==> match #[trigger] items[i] {
            Ok(t) => (t.kind == TokenType::Number || t.kind == TokenType::String) ==> t.literal is Some,
            Err(_) => true,
        }
}

proof fn lemma_scan_shape(src: Seq<char>, pos: int, line: nat, numbers: Seq<SpecNumber>, k: nat)
    requires
        scan_from(src, pos, line, numbers, k) is Done,
    ensures
        ({
            let items = scan_from(src, pos, line, numbers, k)->Done_0;
            &&& items.len() > 0
            &&& items.last() == Ok::<SpecToken, SpecScanError>(eof_token())
            &&& items_carry_literals(items)
        }),
    decreases src.len() - pos,
{
    if 0 <= pos < src.len() {
        if let SpecStep::Emit(item, p2, l2, k2) = step(src, pos, line, numbers, k) {
            if p2 > pos && p2 <= src.len() {
                lemma_scan_shape(src, p2, l2, numbers, k2);
                let rest = scan_from(src, p2, l2, numbers, k2)->Done_0;
                let items = item_seq(item) + rest;
                assert(items.last() == rest.last());
                assert forall|i: int| 0 <= i < items.len() implies match #[trigger] items[i] {
                    Ok(t) => (t.kind == TokenType::Number || t.kind == TokenType::String)
                        ==> t.literal is Some,
                    Err(_) => true,
                } by {
                    if i >= item_seq(item).len() {
                        assert(items[i] == rest[i - item_seq(item).len()]);
                    }
                }
            } else {
                let items = Seq::<Result<SpecToken, SpecScanError>>::empty();
                assert(false) by {
                    crate::scanner::lemma_step_advances(src, pos, line, numbers, k);
                }
            }
        }
    } else {
        let items = seq![Ok::<SpecToken, SpecScanError>(eof_token())];
        assert(items_carry_literals(items));
    }
}

proof fn lemma_tokens_of_items(items: Seq<Result<SpecToken, SpecScanError>>)
    requires
        items_carry_literals(items),
    ensures
        literals_present(scanned_tokens(items)),
        items.len() > 0 && items.last() == Ok::<SpecToken, SpecScanError>(eof_token()) ==> {
            let ts = scanned_tokens(items);
            ts.len() > 0 && ts.last() == eof_token()
        },
    decreases items.len(),
{
    if items.len() > 0 {
        let prefix = items.drop_last();
        assert(items_carry_literals(prefix)) by {
            assert forall|i: int| 0 <= i < prefix.len() implies match #[trigger] prefix[i] {
                Ok(t) => (t.kind == TokenType::Number || t.kind == TokenType::String)
                    ==> t.literal is Some,
                Err(_) => true,
            } by {
                assert(prefix[i] == items[i]);
            }
        }
        lemma_tokens_of_items(prefix);
        let ts = scanned_tokens(items);
        let before = scanned_tokens(prefix);
        assert(items[items.len() - 1] == items.last());
        assert forall|i: int|
            0 <= i < ts.len() && (ts[i].kind == TokenType::Number || ts[i].kind
                == TokenType::String) implies #[trigger] ts[i].literal is Some by {
            if i < before.len() {
                assert(ts[i] == before[i]);
            }
        }
    }
}

/// Whether every character of `src[from..to]` is a digit.
pub open spec fn all_digits(src: Seq<char>, from: int, to: int) -> bool {
    forall|i: int| from <= i < to ==> is_digit(#[trigger] src[i])
}

proof fn lemma_digit_run(src: Seq<char>, i: int)
    requires
        0 <= i <= src.len(),
    ensures
        i <= crate::scanner::digits_end(src, i) <= src.len(),
        all_digits(src, i, crate::scanner::digits_end(src, i)),
        !is_digit(char_at(src, crate::scanner::digits_end(src, i))),
    decreases src.len() - i,
{
    if i < src.len() && is_digit(src[i]) {
        lemma_digit_run(src, i + 1);
    }
}

/// A number literal is read whole: its token's lexeme is a run of digits,
/// possibly followed by a dot and a second run of digits, and it is the
/// longest such text at its start. The character after it is never a digit,
/// and a lexeme without a dot is never followed by a dot and a digit.
pub proof fn law_number_token_is_longest(
    src: Seq<char>,
    start: int,
    line: nat,
    numbers: Seq<SpecNumber>,
    k: nat,
)
    requires
        0 <= start < src.len(),
        is_digit(src[start]),
        k < numbers.len(),
    ensures
        step(src, start, line, numbers, k) matches SpecStep::Emit(Some(Ok(t)), e, l2, k2) && {
            &&& t.kind == TokenType::Number
            &&& start < e <= src.len()
            &&& t.lexeme == src.subrange(start, e)
            &&& t.literal == Some(SpecLiteral::Num(numbers[k as int]))
            &&& l2 == line && k2 == k + 1
            &&& exists|d: int|
                start < d <= e && all_digits(src, start, d) && (d == e || (src[d] == '.' && d + 1
                    < e && all_digits(src, d + 1, e)))
            &&& !is_digit(char_at(src, e))
            &&& all_digits(src, start, e) ==> !(char_at(src, e) == '.' && is_digit(
                char_at(src, e + 1),
            ))
        },
{
    let p = start + 1;
    lemma_digit_run(src, p);
    let d = crate::scanner::digits_end(src, p);
    if char_at(src, d) == '.' && is_digit(char_at(src, d + 1)) {
        lemma_digit_run(src, d + 1);
        let e = crate::scanner::digits_end(src, d + 1);
        assert(!all_digits(src, start, e)) by {
            assert(!is_digit(src[d]));
        }
        assert(start < d <= e && all_digits(src, start, d) && src[d] == '.' && d + 1 < e
            && all_digits(src, d + 1, e));
    } else {
        assert(start < d && all_digits(src, start, d));
    }
}

/// A finished scan always ends with the end-of-file token.
pub proof fn law_scan_ends_with_eof(src: Seq<char>, numbers: Seq<SpecNumber>)
    requires
        scanned(src, numbers) is Done,
    ensures
        ({
            let items = scanned(src, numbers)->Done_0;
            items.len() > 0 && items.last() == Ok::<SpecToken, SpecScanError>(eof_token())
        }),
{
    lemma_scan_shape(src, 0, 1, numbers, 0);
}

/// The tokens of a finished scan can always be parsed: they end with the
/// end-of-file token, and every number and string token carries its literal.
pub proof fn law_scanned_tokens_parse(src: Seq<char>, numbers: Seq<SpecNumber>)
    requires
        scanned(src, numbers) is Done,
    ensures
        parsable(scanned_tokens(scanned(src, numbers)->Done_0), 0),
{
    let items = scanned(src, numbers)->Done_0;
    lemma_scan_shape(src, 0, 1, numbers, 0);
    lemma_tokens_of_items(items);
    let ts = scanned_tokens(items);
    assert(ts[ts.len() - 1].kind == TokenType::Eof);
    assert(eof_ahead(ts, 0));
}

/// A run of a source asks for values only until it has one per character
/// of the source for its number literals and one per operator node of its
/// statements for its computations; with that many it finishes.
pub proof fn law_run_finishes_with_enough_values(
    src: Seq<char>,
    numbers: Seq<SpecNumber>,
    results: Seq<SpecNumber>,
)
    requires
        src.len() <= numbers.len(),
    ensures
        !(run_outcome(src, numbers, results) is NeedsNumber),
        scanned(src, numbers) matches SpecScan::Done(items) && program_requests(
            parse_from(scanned_tokens(items), 0).0,
            0,
        ) <= results.len() ==> run_outcome(src, numbers, results) is Finished,
{
    law_enough_numbers_finish(src, numbers);
    if let SpecScan::Done(items) = scanned(src, numbers) {
        let stmts = parse_from(scanned_tokens(items), 0).0;
        if program_requests(stmts, 0) <= results.len() {
            law_enough_results_finish(stmts, Map::<Seq<char>, SpecValue>::empty(), results);
        }
    }
}

// ---- Parsing.

/// A parse reports errors exactly when one of the statements it gives holds
/// an error node: each error leaves such a node in the tree, and each such
/// node comes with an error.
pub proof fn law_errors_match_error_nodes(ts: Seq<SpecToken>, p: int)
    ensures
        ({
            let r = parse_from(ts, p);
            r.1.len() > 0 <==> exists|i: int|
                0 <= i < r.0.len() && statement_has_error_node(#[trigger] r.0[i])
        }),
    decreases ts.len() - p,
{
    let r = parse_from(ts, p);
    if 0 <= p < ts.len() && !crate::grammar::at_end(ts, p) {
        let d = crate::grammar::parse_declaration(ts, p);
        crate::grammar::lemma_declaration_errors(ts, p);
        if p < d.1 <= ts.len() {
            law_errors_match_error_nodes(ts, d.1);
            let rest = parse_from(ts, d.1);
            assert(r.0 == seq![d.0] + rest.0);
            assert(r.0[0] == d.0);
            if rest.1.len() > 0 {
                let i = choose|i: int| 0 <= i < rest.0.len() && statement_has_error_node(#[trigger] rest.0[i]);
                assert(r.0[i + 1] == rest.0[i]);
            }
            if exists|i: int| 0 <= i < r.0.len() && statement_has_error_node(#[trigger] r.0[i]) {
                let i = choose|i: int| 0 <= i < r.0.len() && statement_has_error_node(#[trigger] r.0[i]);
                if i > 0 {
                    assert(rest.0[i - 1] == r.0[i]);
                }
            }
        }
    }
}


proof fn lemma_parse_from_stays(ts: Seq<SpecToken>, p: int, e: int)
    requires
        crate::grammar::eof_at(ts, p, e),
    ensures
        parse_from(ts, p).2 <= e,
    decreases ts.len() - p,
{
    if !crate::grammar::at_end(ts, p) {
        crate::grammar::lemma_declaration_stays(ts, p, e);
        let p1 = crate::grammar::parse_declaration(ts, p).1;
        if p < p1 <= ts.len() {
            lemma_parse_from_stays(ts, p1, e);
        }
    }
}

/// Every statement of a parse takes at least one token, and no rule reads
/// past an end-of-file token: the statements parsed from `p` are no more
/// than the tokens from `p` to where the parse ended, which lies within the
/// token sequence, and before the first end-of-file token at or after `p`
/// when there is one.
pub proof fn law_statements_take_tokens(ts: Seq<SpecToken>, p: int)
    requires
        0 <= p <= ts.len(),
    ensures
        ({
            let r = parse_from(ts, p);
            &&& p <= r.2 <= ts.len()
            &&& r.0.len() <= r.2 - p
            &&& eof_ahead(ts, p) ==> r.2 < ts.len() && r.0.len() < ts.len() - p
        }),
{
    lemma_statements_take_tokens(ts, p);
    if eof_ahead(ts, p) {
        let e = choose|i: int| p <= i < ts.len() && #[trigger] ts[i].kind == TokenType::Eof;
        lemma_parse_from_stays(ts, p, e);
    }
}

proof fn lemma_statements_take_tokens(ts: Seq<SpecToken>, p: int)
    requires
        0 <= p <= ts.len(),
    ensures
        ({
            let r = parse_from(ts, p);
            p <= r.2 <= ts.len() && r.0.len() <= r.2 - p
        }),
    decreases ts.len() - p,
{
    if p < ts.len() && !crate::grammar::at_end(ts, p) {
        let p1 = crate::grammar::parse_declaration(ts, p).1;
        if p < p1 <= ts.len() {
            lemma_statements_take_tokens(ts, p1);
        }
    }
}


// ---- Token descriptions.

/// The length, the first two characters and the last character of a name.
spec fn name_signature(s: Seq<char>) -> (int, char, char, char) {
    (s.len() as int, s[0], s[1], s[s.len() - 1])
}

spec fn kind_signature(kind: TokenType) -> (int, char, char, char) {
    match kind {
        TokenType::LeftParen => (9, 'L', 'e', 'n'),
        TokenType::RightParen => (10, 'R', 'i', 'n'),
        TokenType::LeftBrace => (9, 'L', 'e', 'e'),
        TokenType::RightBrace => (10, 'R', 'i', 'e'),
        TokenType::Comma => (5, 'C', 'o', 'a'),
        TokenType::Dot => (3, 'D', 'o', 't'),
        TokenType::Minus => (5, 'M', 'i', 's'),
        TokenType::Plus => (4, 'P', 'l', 's'),
        TokenType::Semicolon => (9, 'S', 'e', 'n'),
        TokenType::Slash => (5, 'S', 'l', 'h'),
        TokenType::Star => (4, 'S', 't', 'r'),
        TokenType::Bang => (4, 'B', 'a', 'g'),
        TokenType::BangEqual => (9, 'B', 'a', 'l'),
        TokenType::Equal => (5, 'E', 'q', 'l'),
        TokenType::EqualEqual => (10, 'E', 'q', 'l'),
        TokenType::Greater => (7, 'G', 'r', 'r'),
        TokenType::GreaterEqual => (12, 'G', 'r', 'l'),
        TokenType::Less => (4, 'L', 'e', 's'),
        TokenType::LessEqual => (9, 'L', 'e', 'l'),
        TokenType::Identifier => (10, 'I', 'd', 'r'),
        TokenType::String => (6, 'S', 't', 'g'),
        TokenType::Number => (6, 'N', 'u', 'r'),
        TokenType::And => (3, 'A', 'n', 'd'),
        TokenType::Class => (5, 'C', 'l', 's'),
        TokenType::Else => (4, 'E', 'l', 'e'),
        TokenType::False => (5, 'F', 'a', 'e'),
        TokenType::Fun => (3, 'F', 'u', 'n'),
        TokenType::For => (3, 'F', 'o', 'r'),
        TokenType::If => (2, 'I', 'f', 'f'),
        TokenType::Nil => (3, 'N', 'i', 'l'),
        TokenType::Or => (2, 'O', 'r', 'r'),
        TokenType::Print => (5, 'P', 'r', 't'),
        TokenType::Return => (6, 'R', 'e', 'n'),
        TokenType::Super => (5, 'S', 'u', 'r'),
        TokenType::This => (4, 'T', 'h', 's'),
        TokenType::True => (4, 'T', 'r', 'e'),
        TokenType::Var => (3, 'V', 'a', 'r'),
        TokenType::While => (5, 'W', 'h', 'e'),
        TokenType::Eof => (3, 'E', 'o', 'f'),
    }
}

proof fn lemma_kind_signature(kind: TokenType)
    ensures
        name_signature(kind_name(kind)) == kind_signature(kind),
{
    match kind {
        TokenType::LeftParen => {
            reveal_strlit("LeftParen");
        },
        TokenType::RightParen => {
            reveal_strlit("RightParen");
        },
        TokenType::LeftBrace => {
            reveal_strlit("LeftBrace");
        },
        TokenType::RightBrace => {
            reveal_strlit("RightBrace");
        },
        TokenType::Comma => {
            reveal_strlit("Comma");
        },
        TokenType::Dot => {
            reveal_strlit("Dot");
        },
        TokenType::Minus => {
            reveal_strlit("Minus");
        },
        TokenType::Plus => {
            reveal_strlit("Plus");
        },
        TokenType::Semicolon => {
            reveal_strlit("Semicolon");
        },
        TokenType::Slash => {
            reveal_strlit("Slash");
        },
        TokenType::Star => {
            reveal_strlit("Star");
        },
        TokenType::Bang => {
            reveal_strlit("Bang");
        },
        TokenType::BangEqual => {
            reveal_strlit("BangEqual");
        },
        TokenType::Equal => {
            reveal_strlit("Equal");
        },
        TokenType::EqualEqual => {
            reveal_strlit("EqualEqual");
        },
        TokenType::Greater => {
            reveal_strlit("Greater");
        },
        TokenType::GreaterEqual => {
            reveal_strlit("GreaterEqual");
        },
        TokenType::Less => {
            reveal_strlit("Less");
        },
        TokenType::LessEqual => {
            reveal_strlit("LessEqual");
        },
        TokenType::Identifier => {
            reveal_strlit("Identifier");
        },
        TokenType::String => {
            reveal_strlit("String");
        },
        TokenType::Number => {
            reveal_strlit("Number");
        },
        TokenType::And => {
            reveal_strlit("And");
        },
        TokenType::Class => {
            reveal_strlit("Class");
        },
        TokenType::Else => {
            reveal_strlit("Else");
        },
        TokenType::False => {
            reveal_strlit("False");
        },
        TokenType::Fun => {
            reveal_strlit("Fun");
        },
        TokenType::For => {
            reveal_strlit("For");
        },
        TokenType::If => {
            reveal_strlit("If");
        },
        TokenType::Nil => {
            reveal_strlit("Nil");
        },
        TokenType::Or => {
            reveal_strlit("Or");
        },
        TokenType::Print => {
            reveal_strlit("Print");
        },
        TokenType::Return => {
            reveal_strlit("Return");
        },
        TokenType::Super => {
            reveal_strlit("Super");
        },
        TokenType::This => {
            reveal_strlit("This");
        },
        TokenType::True => {
            reveal_strlit("True");
        },
        TokenType::Var => {
            reveal_strlit("Var");
        },
        TokenType::While => {
            reveal_strlit("While");
        },
        TokenType::Eof => {
            reveal_strlit("Eof");
        },
    }
}

/// Each kind of token has a name of its own: two kinds are described by the
/// same name only when they are the same kind, so a token's description
/// tells its kind.
pub proof fn law_kind_names_are_distinct(a: TokenType, b: TokenType)
    ensures
        kind_name(a) == kind_name(b) <==> a == b,
{
    lemma_kind_signature(a);
    lemma_kind_signature(b);
    if kind_signature(a) == kind_signature(b) {
        match a {
            TokenType::LeftParen => {},
            TokenType::RightParen => {},
            TokenType::LeftBrace => {},
            TokenType::RightBrace => {},
            TokenType::Comma => {},
            TokenType::Dot => {},
            TokenType::Minus => {},
            TokenType::Plus => {},
            TokenType::Semicolon => {},
            TokenType::Slash => {},
            TokenType::Star => {},
            TokenType::Bang => {},
            TokenType::BangEqual => {},
            TokenType::Equal => {},
            TokenType::EqualEqual => {},
            TokenType::Greater => {},
            TokenType::GreaterEqual => {},
            TokenType::Less => {},
            TokenType::LessEqual => {},
            TokenType::Identifier => {},
            TokenType::String => {},
            TokenType::Number => {},
            TokenType::And => {},
            TokenType::Class => {},
            TokenType::Else => {},
            TokenType::False => {},
            TokenType::Fun => {},
            TokenType::For => {},
            TokenType::If => {},
            TokenType::Nil => {},
            TokenType::Or => {},
            TokenType::Print => {},
            TokenType::Return => {},
            TokenType::Super => {},
            TokenType::This => {},
            TokenType::True => {},
            TokenType::Var => {},
            TokenType::While => {},
            TokenType::Eof => {},
        }
    }
}

} // verus!
