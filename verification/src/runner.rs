//! What a run of a program reports: the texts of its diagnostics, and the
//! split of a scan into tokens and errors.

use vstd::prelude::*;

use crate::grammar::{parse_from, SpecParserError};
use crate::interpreter::{
    run_program, Interpretation, Interpreter, NumericRequest, RuntimeError, RuntimeErrorType,
    SpecNumericRequest, SpecRun, SpecRuntimeError, SpecRuntimeErrorType,
};
use crate::number::{numbers_view, Number, SpecNumber};
use crate::parser::{errors_view, tokens_view, Parser, ParserError};
use crate::scanner::{
    push_char, result_view, results_view, scanned, ScanError, Scanner, Scanning, SpecScan,
    SpecScanError,
};
use crate::stmt::{print_stmt, printed_stmt, stmts_view, SpecStmt, Stmt};
use crate::token::{described, SpecToken, Token};
use crate::value::SpecValue;

verus! {

/// The digit `d`, for `d < 10`.
pub open spec fn digit_char(d: nat) -> char {
    if d == 0 {
        '0'
    } else if d == 1 {
        '1'
    } else if d == 2 {
        '2'
    } else if d == 3 {
        '3'
    } else if d == 4 {
        '4'
    } else if d == 5 {
        '5'
    } else if d == 6 {
        '6'
    } else if d == 7 {
        '7'
    } else if d == 8 {
        '8'
    } else {
        '9'
    }
}

/// The decimal numeral of `n`.
pub open spec fn decimal(n: nat) -> Seq<char>
    decreases n,
{
    if n < 10 {
        seq![digit_char(n)]
    } else {
        decimal(n / 10).push(digit_char(n % 10))
    }
}

fn digit_of(d: usize) -> (c: char)
    requires
        d < 10,
    ensures
        c == digit_char(d as nat),
{
    if d == 0 {
        '0'
    } else if d == 1 {
        '1'
    } else if d == 2 {
        '2'
    } else if d == 3 {
        '3'
    } else if d == 4 {
        '4'
    } else if d == 5 {
        '5'
    } else if d == 6 {
        '6'
    } else if d == 7 {
        '7'
    } else if d == 8 {
        '8'
    } else {
        '9'
    }
}

/// Appends the decimal numeral of `n` to `s`.
fn push_decimal(s: &mut String, n: usize)
    ensures
        final(s)@ == old(s)@ + decimal(n as nat),
    decreases n,
{
    if n >= 10 {
        push_decimal(s, n / 10);
    }
    push_char(s, digit_of(n % 10));
    assert(s@ =~= old(s)@ + decimal(n as nat));
}

/// `[line <line>] Error <pos>: <message>`.
pub open spec fn report_text(line: usize, pos: Seq<char>, message: Seq<char>) -> Seq<char> {
    "[line "@ + decimal(line as nat) + "] Error "@ + pos + ": "@ + message
}

/// The report of an error at a line, as [`report_text`] says.
pub fn report(line: usize, pos: &str, message: &str) -> (s: String)
    ensures
        s@ == report_text(line, pos@, message@),
{
    let mut s = "[line ".to_owned();
    push_decimal(&mut s, line);
    s.append("] Error ");
    s.append(pos);
    s.append(": ");
    s.append(message);
    s
}

/// The report of an error at a line, with no position.
pub fn error(line: usize, message: &str) -> (s: String)
    ensures
        s@ == report_text(line, ""@, message@),
{
    report(line, "", message)
}

/// `[line <line>] Runtime error at '<lexeme>'`.
pub open spec fn runtime_error_heading(e: SpecRuntimeError) -> Seq<char> {
    "[line "@ + decimal(e.token.line as nat) + "] Runtime error at '"@ + e.token.lexeme + "'"@
}

/// What a run-time error says of itself.
pub open spec fn runtime_error_detail(e: SpecRuntimeError) -> Seq<char> {
    match e.kind {
        SpecRuntimeErrorType::TypeError { message } => "Type error: "@ + message,
        SpecRuntimeErrorType::OperationError { message } => "Invalid operation: "@ + message,
        SpecRuntimeErrorType::UndefinedVariable => "Undefined variable."@,
        SpecRuntimeErrorType::ParserError => "Parser error detected."@,
    }
}

/// The two lines that report a run-time error: where it arose, and what it is.
pub fn runtime_error(error: &RuntimeError) -> (lines: (String, String))
    ensures
        lines.0@ == runtime_error_heading(error@),
        lines.1@ == runtime_error_detail(error@),
{
    let mut heading = "[line ".to_owned();
    push_decimal(&mut heading, error.token.line);
    heading.append("] Runtime error at '");
    heading.append(error.token.lexeme.as_str());
    heading.append("'");
    let detail = match &error.kind {
        RuntimeErrorType::TypeError { message } => {
            let mut d = "Type error: ".to_owned();
            d.append(message.as_str());
            d
        },
        RuntimeErrorType::OperationError { message } => {
            let mut d = "Invalid operation: ".to_owned();
            d.append(message.as_str());
            d
        },
        RuntimeErrorType::UndefinedVariable => "Undefined variable.".to_owned(),
        RuntimeErrorType::ParserError => "Parser error detected.".to_owned(),
    };
    (heading, detail)
}

/// The tokens of a scan, in order.
pub open spec fn scanned_tokens(items: Seq<Result<SpecToken, SpecScanError>>) -> Seq<SpecToken>
    decreases items.len(),
{
    if items.len() == 0 {
        Seq::empty()
    } else {
        scanned_tokens(items.drop_last()) + match items.last() {
            Ok(t) => seq![t],
            Err(_) => Seq::empty(),
        }
    }
}

/// The errors of a scan, in order.
pub open spec fn scanned_errors(items: Seq<Result<SpecToken, SpecScanError>>) -> Seq<SpecScanError>
    decreases items.len(),
{
    if items.len() == 0 {
        Seq::empty()
    } else {
        scanned_errors(items.drop_last()) + match items.last() {
            Ok(_) => Seq::empty(),
            Err(e) => seq![e],
        }
    }
}

/// The tokens and the errors of a scan, each in order.
pub fn split_scanned(results: &Vec<Result<Token, ScanError>>) -> (split: (Vec<Token>, Vec<ScanError>))
    ensures
        split.0@.map_values(|t: Token| t@) == scanned_tokens(results_view(results@)),
        split.1@.map_values(|e: ScanError| e@) == scanned_errors(results_view(results@)),
{
    let ghost items = results_view(results@);
    let mut tokens: Vec<Token> = Vec::new();
    let mut errors: Vec<ScanError> = Vec::new();
    let mut i: usize = 0;
    assert(tokens@.map_values(|t: Token| t@) =~= Seq::<SpecToken>::empty());
    assert(errors@.map_values(|e: ScanError| e@) =~= Seq::<SpecScanError>::empty());
    assert(items.take(0) =~= Seq::<Result<SpecToken, SpecScanError>>::empty());
    while i < results.len()
        invariant
            i <= results.len(),
            items == results_view(results@),
            tokens@.map_values(|t: Token| t@) == scanned_tokens(items.take(i as int)),
            errors@.map_values(|e: ScanError| e@) == scanned_errors(items.take(i as int)),
        decreases results.len() - i,
    {
        assert(items.take(i + 1).drop_last() =~= items.take(i as int));
        assert(items.take(i + 1).last() == result_view(results@[i as int]));
        match &results[i] {
            Ok(t) => {
                tokens.push(t.clone());
                assert(tokens@.map_values(|t: Token| t@) =~= scanned_tokens(items.take(i + 1)));
                assert(errors@.map_values(|e: ScanError| e@) =~= scanned_errors(items.take(i + 1)));
            },
            Err(e) => {
                errors.push(e.clone());
                assert(tokens@.map_values(|t: Token| t@) =~= scanned_tokens(items.take(i + 1)));
                assert(errors@.map_values(|e: ScanError| e@) =~= scanned_errors(items.take(i + 1)));
            },
        }
        i = i + 1;
    }
    assert(items.take(results.len() as int) =~= items);
    (tokens, errors)
}


// ---- A run of a program.

/// A line of output, on the error stream or on the standard one.
pub struct Line {
    pub to_stderr: bool,
    pub text: String,
}

/// The mathematical twin of [`Line`].
pub struct SpecLine {
    pub to_stderr: bool,
    pub text: Seq<char>,
}

impl View for Line {
    type V = SpecLine;

    open spec fn view(&self) -> SpecLine {
        SpecLine { to_stderr: self.to_stderr, text: self.text@ }
    }
}

pub open spec fn lines_of(lines: Seq<Line>) -> Seq<SpecLine> {
    lines.map_values(|l: Line| l@)
}

/// A line on the standard stream.
pub open spec fn out_line(text: Seq<char>) -> SpecLine {
    SpecLine { to_stderr: false, text }
}

/// A line on the error stream.
pub open spec fn err_line(text: Seq<char>) -> SpecLine {
    SpecLine { to_stderr: true, text }
}

/// The reports of scan errors, one per line.
pub open spec fn scan_error_lines(errors: Seq<SpecScanError>) -> Seq<SpecLine> {
    errors.map_values(|e: SpecScanError| out_line(report_text(e.line, ""@, e.message)))
}

/// The descriptions of the tokens, one per line.
pub open spec fn token_lines(tokens: Seq<SpecToken>) -> Seq<SpecLine> {
    tokens.map_values(|t: SpecToken| out_line(described(t)))
}

/// The messages of parse errors, one per line.
pub open spec fn parse_error_lines(errors: Seq<SpecParserError>) -> Seq<SpecLine> {
    errors.map_values(|e: SpecParserError| out_line(e.msg))
}

/// The statements, each as `<index>: <printed statement>`.
pub open spec fn statement_lines(stmts: Seq<SpecStmt>) -> Seq<SpecLine> {
    stmts.map(|i: int, s: SpecStmt| out_line(decimal(i as nat) + ": "@ + printed_stmt(s)))
}

/// The lines a program printed.
pub open spec fn printed_lines(printed: Seq<Seq<char>>) -> Seq<SpecLine> {
    printed.map_values(|l: Seq<char>| out_line(l))
}

/// The report of a run-time error: its heading on the error stream, then
/// its detail, on the standard stream for a type error and on the error
/// stream otherwise.
pub open spec fn runtime_error_lines(e: SpecRuntimeError) -> Seq<SpecLine> {
    seq![
        err_line(runtime_error_heading(e)),
        if e.kind is TypeError {
            out_line(runtime_error_detail(e))
        } else {
            err_line(runtime_error_detail(e))
        },
    ]
}

/// What a run of a source gives, with `numbers` the values of its number
/// literals and `results` those of its computations, in order: the text of a
/// number literal or the computation that is needed next, or the lines it
/// writes and whether it succeeded.
pub enum SpecRunStep {
    NeedsNumber(Seq<char>),
    NeedsResult(SpecNumericRequest),
    Finished(Seq<SpecLine>, bool),
}

/// A run of a source: scan it; on scan errors report them and fail.
/// Otherwise describe the tokens and parse them; on parse errors report them
/// and fail. Otherwise print the statements and run them from no bindings,
/// then write the lines they print, and the report of the run-time error
/// that stopped them, if one did, which fails the run.
pub open spec fn run_outcome(src: Seq<char>, numbers: Seq<SpecNumber>, results: Seq<SpecNumber>) -> SpecRunStep {
    match scanned(src, numbers) {
        SpecScan::Needs(text) => SpecRunStep::NeedsNumber(text),
        SpecScan::Done(items) => {
            let errors = scanned_errors(items);
            if errors.len() > 0 {
                SpecRunStep::Finished(scan_error_lines(errors), false)
            } else {
                let ts = scanned_tokens(items);
                let parse = parse_from(ts, 0);
                let shown = token_lines(ts) + parse_error_lines(parse.1);
                if parse.1.len() > 0 {
                    SpecRunStep::Finished(shown, false)
                } else {
                    let shown = shown + statement_lines(parse.0);
                    match run_program(parse.0, Map::<Seq<char>, SpecValue>::empty(), results) {
                        SpecRun::Pending(q) => SpecRunStep::NeedsResult(q),
                        SpecRun::Finished(err, _, printed) => match err {
                            None => SpecRunStep::Finished(shown + printed_lines(printed), true),
                            Some(e) => SpecRunStep::Finished(
                                shown + printed_lines(printed) + runtime_error_lines(e),
                                false,
                            ),
                        },
                    }
                }
            }
        },
    }
}

/// What [`run`] gives.
pub enum RunStep {
    /// The text of the number literal whose value is needed next.
    NeedsNumber(String),
    /// The computation whose result is needed next.
    NeedsResult(NumericRequest),
    /// The lines the run writes, in order, and whether it succeeded.
    Finished { lines: Vec<Line>, success: bool },
}

impl View for RunStep {
    type V = SpecRunStep;

    open spec fn view(&self) -> SpecRunStep {
        match self {
            RunStep::NeedsNumber(t) => SpecRunStep::NeedsNumber(t@),
            RunStep::NeedsResult(q) => SpecRunStep::NeedsResult(q@),
            RunStep::Finished { lines, success } => SpecRunStep::Finished(lines_of(lines@), *success),
        }
    }
}

/// The reports of scan errors, as [`scan_error_lines`] says.
fn scan_error_report(errors: &Vec<ScanError>) -> (lines: Vec<Line>)
    ensures
        lines_of(lines@) == scan_error_lines(errors@.map_values(|e: ScanError| e@)),
{
    let ghost es = errors@.map_values(|e: ScanError| e@);
    let mut lines: Vec<Line> = Vec::new();
    let mut i: usize = 0;
    while i < errors.len()
        invariant
            i <= errors.len(),
            es == errors@.map_values(|e: ScanError| e@),
            lines_of(lines@) == scan_error_lines(es.take(i as int)),
        decreases errors.len() - i,
    {
        let e = &errors[i];
        let text = error(e.line, e.message.as_str());
        let ghost prev = lines@;
        let line = Line { to_stderr: false, text };
        let ghost lv = line@;
        lines.push(line);
        assert(es[i as int] == e@);
        assert(lines_of(lines@) =~= lines_of(prev).push(lv));
        assert(scan_error_lines(es.take(i + 1)) =~= scan_error_lines(es.take(i as int)).push(lv));
        i = i + 1;
    }
    assert(es.take(errors.len() as int) =~= es);
    lines
}

/// Appends the descriptions of the tokens, as [`token_lines`] says.
fn push_token_lines(lines: &mut Vec<Line>, tokens: &Vec<Token>)
    ensures
        lines_of(final(lines)@) == lines_of(old(lines)@) + token_lines(tokens_view(tokens@)),
{
    let ghost ts = tokens_view(tokens@);
    let ghost before = lines_of(lines@);
    let mut i: usize = 0;
    while i < tokens.len()
        invariant
            i <= tokens.len(),
            ts == tokens_view(tokens@),
            lines_of(lines@) == before + token_lines(ts.take(i as int)),
        decreases tokens.len() - i,
    {
        let text = tokens[i].to_text();
        let ghost prev = lines@;
        let line = Line { to_stderr: false, text };
        let ghost lv = line@;
        lines.push(line);
        assert(lines_of(lines@) =~= lines_of(prev).push(lv));
        assert(ts[i as int] == tokens@[i as int]@);
        assert(token_lines(ts.take(i + 1)) =~= token_lines(ts.take(i as int)).push(lv));
        assert(lines_of(lines@) =~= before + token_lines(ts.take(i + 1)));
        i = i + 1;
    }
    assert(ts.take(tokens.len() as int) =~= ts);
}

/// Appends the messages of parse errors, as [`parse_error_lines`] says.
fn push_parse_error_lines(lines: &mut Vec<Line>, errors: &Vec<ParserError>)
    ensures
        lines_of(final(lines)@) == lines_of(old(lines)@) + parse_error_lines(errors_view(errors@)),
{
    let ghost es = errors_view(errors@);
    let ghost before = lines_of(lines@);
    let mut i: usize = 0;
    while i < errors.len()
        invariant
            i <= errors.len(),
            es == errors_view(errors@),
            lines_of(lines@) == before + parse_error_lines(es.take(i as int)),
        decreases errors.len() - i,
    {
        let text = errors[i].msg.clone();
        let ghost prev = lines@;
        let line = Line { to_stderr: false, text };
        let ghost lv = line@;
        lines.push(line);
        assert(lines_of(lines@) =~= lines_of(prev).push(lv));
        assert(es[i as int] == errors@[i as int]@);
        assert(parse_error_lines(es.take(i + 1)) =~= parse_error_lines(es.take(i as int)).push(lv));
        assert(lines_of(lines@) =~= before + parse_error_lines(es.take(i + 1)));
        i = i + 1;
    }
    assert(es.take(errors.len() as int) =~= es);
}

/// Appends the statements, as [`statement_lines`] says.
fn push_statement_lines(lines: &mut Vec<Line>, stmts: &Vec<Stmt>)
    ensures
        lines_of(final(lines)@) == lines_of(old(lines)@) + statement_lines(stmts_view(stmts@)),
{
    let ghost ss = stmts_view(stmts@);
    let ghost before = lines_of(lines@);
    let mut i: usize = 0;
    while i < stmts.len()
        invariant
            i <= stmts.len(),
            ss == stmts_view(stmts@),
            lines_of(lines@) == before + statement_lines(ss.take(i as int)),
        decreases stmts.len() - i,
    {
        let mut text = String::new();
        push_decimal(&mut text, i);
        text.append(": ");
        let shown = print_stmt(&stmts[i]);
        text.append(shown.as_str());
        let ghost prev = lines@;
        let line = Line { to_stderr: false, text };
        let ghost lv = line@;
        lines.push(line);
        assert(lines_of(lines@) =~= lines_of(prev).push(lv));
        assert(ss[i as int] == stmts@[i as int]@);
        assert(statement_lines(ss.take(i + 1)) =~= statement_lines(ss.take(i as int)).push(lv));
        assert(lines_of(lines@) =~= before + statement_lines(ss.take(i + 1)));
        i = i + 1;
    }
    assert(ss.take(stmts.len() as int) =~= ss);
}

/// Appends the lines a program printed, as [`printed_lines`] says.
fn push_printed_lines(lines: &mut Vec<Line>, printed: Vec<String>)
    ensures
        lines_of(final(lines)@) == lines_of(old(lines)@) + printed_lines(
            printed@.map_values(|l: String| l@),
        ),
{
    let ghost ps = printed@.map_values(|l: String| l@);
    let ghost before = lines_of(lines@);
    let mut i: usize = 0;
    while i < printed.len()
        invariant
            i <= printed.len(),
            ps == printed@.map_values(|l: String| l@),
            lines_of(lines@) == before + printed_lines(ps.take(i as int)),
        decreases printed.len() - i,
    {
        let text = printed[i].clone();
        let ghost prev = lines@;
        let line = Line { to_stderr: false, text };
        let ghost lv = line@;
        lines.push(line);
        assert(lines_of(lines@) =~= lines_of(prev).push(lv));
        assert(printed_lines(ps.take(i + 1)) =~= printed_lines(ps.take(i as int)).push(lv));
        assert(lines_of(lines@) =~= before + printed_lines(ps.take(i + 1)));
        i = i + 1;
    }
    assert(ps.take(printed.len() as int) =~= ps);
}

/// Runs a source, the values in `numbers` standing in order for its number
/// literals and those in `results` for its computations, as
/// [`run_outcome`] says. The host calls it again with one more value each
/// time a value is needed.
pub fn run(source: &String, numbers: &Vec<Number>, results: &Vec<Number>) -> (r: RunStep)
    requires
        source@.len() < usize::MAX,
    ensures
        r@ == run_outcome(source@, numbers_view(numbers@), numbers_view(results@)),
{
    let ghost nums = numbers_view(numbers@);
    let ghost answers = numbers_view(results@);
    let mut scanner = Scanner::new(source);
    let mut i: usize = 0;
    while i < numbers.len()
        invariant
            i <= numbers.len(),
            nums == numbers_view(numbers@),
            scanner.text() == source@,
            scanner.supplied_numbers() == nums.take(i as int),
        decreases numbers.len() - i,
    {
        scanner.supply_number(numbers[i].duplicate());
        assert(scanner.supplied_numbers() =~= nums.take(i + 1));
        i = i + 1;
    }
    assert(nums.take(numbers.len() as int) =~= nums);
    let scanned_results = match scanner.scan_tokens() {
        Scanning::NeedsNumber(text) => {
            return RunStep::NeedsNumber(text);
        },
        Scanning::Finished(results) => results,
    };
    let ghost items = results_view(scanned_results@);
    let (tokens, scan_errors) = split_scanned(&scanned_results);
    if scan_errors.len() > 0 {
        let lines = scan_error_report(&scan_errors);
        return RunStep::Finished { lines, success: false };
    }
    let ghost ts = scanned_tokens(items);
    assert(tokens_view(tokens@) == ts);
    proof {
        crate::laws::law_scanned_tokens_parse(source@, nums);
    }
    let mut lines: Vec<Line> = Vec::new();
    push_token_lines(&mut lines, &tokens);
    let mut parser = Parser::new(tokens);
    let stmts = parser.parse();
    let ghost parse = parse_from(ts, 0);
    assert(parser.error_list() =~= parse.1);
    let errors = parser.recorded_errors();
    push_parse_error_lines(&mut lines, errors);
    if errors.len() > 0 {
        return RunStep::Finished { lines, success: false };
    }
    push_statement_lines(&mut lines, &stmts);
    assert(stmts_view(stmts@) == parse.0);
    let ghost shown = token_lines(ts) + parse_error_lines(parse.1) + statement_lines(parse.0);
    assert(lines_of(lines@) == shown);
    let mut interpreter = Interpreter::new();
    let mut j: usize = 0;
    while j < results.len()
        invariant
            j <= results.len(),
            answers == numbers_view(results@),
            interpreter.bindings() == Map::<Seq<char>, SpecValue>::empty(),
            interpreter.supplied_results() == answers.take(j as int),
        decreases results.len() - j,
    {
        interpreter.supply(results[j].duplicate());
        assert(interpreter.supplied_results() =~= answers.take(j + 1));
        j = j + 1;
    }
    assert(answers.take(results.len() as int) =~= answers);
    match interpreter.interpret(&stmts) {
        Interpretation::NeedsNumber(q) => RunStep::NeedsResult(q),
        Interpretation::Finished { outcome, printed } => {
            let ghost printed_view = printed@.map_values(|l: String| l@);
            assert(printed_view == crate::interpreter::lines_view(printed@));
            push_printed_lines(&mut lines, printed);
            assert(lines_of(lines@) == shown + printed_lines(printed_view));
            match outcome {
                Ok(()) => RunStep::Finished { lines, success: true },
                Err(e) => {
                    let (heading, detail) = runtime_error(&e);
                    let ghost start = lines_of(lines@);
                    lines.push(Line { to_stderr: true, text: heading });
                    assert(lines_of(lines@) =~= start.push(err_line(runtime_error_heading(e@))));
                    let detail_to_stderr = match e.kind {
                        RuntimeErrorType::TypeError { .. } => false,
                        _ => true,
                    };
                    let ghost before = lines_of(lines@);
                    lines.push(Line { to_stderr: detail_to_stderr, text: detail });
                    assert(lines_of(lines@) =~= start + runtime_error_lines(e@));
                    RunStep::Finished { lines, success: false }
                },
            }
        },
    }
}

} // verus!
