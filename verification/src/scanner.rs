//! Turning source text into tokens.
//!
//! The value of a number literal is floating-point work that the library
//! leaves to its host: when the scanner meets a number whose value was not
//! supplied, it stops and gives the number's text
//! ([`Scanning::NeedsNumber`]); the host parses it, hands the result to
//! [`Scanner::supply_number`] and asks again. The source is then scanned anew
//! from its start, the supplied numbers standing, in order, for the number
//! literals it meets.

use vstd::prelude::*;

use crate::number::{numbers_view, Number, SpecNumber};
use crate::token::{Literal, SpecLiteral, SpecToken, Token, TokenType};

verus! {

/// An error met while scanning, and its line.
pub struct ScanError {
    pub line: usize,
    pub message: String,
}

/// The mathematical twin of [`ScanError`].
pub struct SpecScanError {
    pub line: usize,
    pub message: Seq<char>,
}

impl View for ScanError {
    type V = SpecScanError;

    open spec fn view(&self) -> SpecScanError {
        SpecScanError { line: self.line, message: self.message@ }
    }
}

impl Clone for ScanError {
    fn clone(&self) -> (r: ScanError)
        ensures
            r == *self,
    {
        ScanError { line: self.line, message: self.message.clone() }
    }
}

pub open spec fn result_view(r: Result<Token, ScanError>) -> Result<SpecToken, SpecScanError> {
    match r {
        Ok(t) => Ok(t@),
        Err(e) => Err(e@),
    }
}

pub open spec fn results_view(rs: Seq<Result<Token, ScanError>>) -> Seq<Result<SpecToken, SpecScanError>> {
    rs.map_values(|r: Result<Token, ScanError>| result_view(r))
}

pub open spec fn is_digit(c: char) -> bool {
    '0' <= c <= '9'
}

pub open spec fn is_alpha(c: char) -> bool {
    ('a' <= c <= 'z') || ('A' <= c <= 'Z') || c == '_'
}

pub open spec fn is_alphanumeric(c: char) -> bool {
    is_digit(c) || is_alpha(c)
}

/// The character at `i`, or `'\0'` past the end.
pub open spec fn char_at(src: Seq<char>, i: int) -> char {
    if 0 <= i < src.len() { src[i] } else { '\0' }
}

/// The end of the run of digits that starts at `i`.
pub open spec fn digits_end(src: Seq<char>, i: int) -> int
    decreases src.len() - i,
{
    if 0 <= i < src.len() && is_digit(src[i]) { digits_end(src, i + 1) } else { i }
}

/// The end of a number whose first digit is at `i - 1`: its digits, then a
/// dot and more digits if a digit follows the dot.
pub open spec fn number_end(src: Seq<char>, i: int) -> int {
    let e = digits_end(src, i);
    if char_at(src, e) == '.' && is_digit(char_at(src, e + 1)) {
        digits_end(src, e + 1)
    } else {
        e
    }
}

/// The end of the run of letters, digits and underscores that starts at `i`.
pub open spec fn word_end(src: Seq<char>, i: int) -> int
    decreases src.len() - i,
{
    if 0 <= i < src.len() && is_alphanumeric(src[i]) { word_end(src, i + 1) } else { i }
}

/// The first position from `i` on that holds `c`, or the end.
pub open spec fn find_char(src: Seq<char>, i: int, c: char) -> int
    decreases src.len() - i,
{
    if 0 <= i < src.len() && src[i] != c { find_char(src, i + 1, c) } else { i }
}

/// The number of line breaks in `s`.
pub open spec fn newlines(s: Seq<char>) -> nat
    decreases s.len(),
{
    if s.len() == 0 {
        0
    } else {
        newlines(s.drop_last()) + if s.last() == '\n' { 1nat } else { 0nat }
    }
}

/// The kind of a reserved word.
pub open spec fn keyword(text: Seq<char>) -> Option<TokenType> {
    if text == "and"@ {
        Some(TokenType::And)
    } else if text == "class"@ {
        Some(TokenType::Class)
    } else if text == "else"@ {
        Some(TokenType::Else)
    } else if text == "false"@ {
        Some(TokenType::False)
    } else if text == "for"@ {
        Some(TokenType::For)
    } else if text == "fun"@ {
        Some(TokenType::Fun)
    } else if text == "if"@ {
        Some(TokenType::If)
    } else if text == "nil"@ {
        Some(TokenType::Nil)
    } else if text == "or"@ {
        Some(TokenType::Or)
    } else if text == "print"@ {
        Some(TokenType::Print)
    } else if text == "return"@ {
        Some(TokenType::Return)
    } else if text == "super"@ {
        Some(TokenType::Super)
    } else if text == "this"@ {
        Some(TokenType::This)
    } else if text == "true"@ {
        Some(TokenType::True)
    } else if text == "var"@ {
        Some(TokenType::Var)
    } else if text == "while"@ {
        Some(TokenType::While)
    } else {
        None
    }
}

/// The kind of a one-character token.
pub open spec fn single_kind(c: char) -> Option<TokenType> {
    if c == '(' {
        Some(TokenType::LeftParen)
    } else if c == ')' {
        Some(TokenType::RightParen)
    } else if c == '{' {
        Some(TokenType::LeftBrace)
    } else if c == '}' {
        Some(TokenType::RightBrace)
    } else if c == ',' {
        Some(TokenType::Comma)
    } else if c == '.' {
        Some(TokenType::Dot)
    } else if c == '-' {
        Some(TokenType::Minus)
    } else if c == '+' {
        Some(TokenType::Plus)
    } else if c == ';' {
        Some(TokenType::Semicolon)
    } else if c == '*' {
        Some(TokenType::Star)
    } else {
        None
    }
}

/// The kinds of the operators `c` alone and `c=`.
pub open spec fn operator_kinds(c: char) -> Option<(TokenType, TokenType)> {
    if c == '!' {
        Some((TokenType::Bang, TokenType::BangEqual))
    } else if c == '=' {
        Some((TokenType::Equal, TokenType::EqualEqual))
    } else if c == '<' {
        Some((TokenType::Less, TokenType::LessEqual))
    } else if c == '>' {
        Some((TokenType::Greater, TokenType::GreaterEqual))
    } else {
        None
    }
}

/// One step of scanning from a token's start: what it adds to the token
/// list, if anything, and the position, line and count of used numbers after
/// it; or the text of a number whose value is needed.
pub enum SpecStep {
    Emit(Option<Result<SpecToken, SpecScanError>>, int, nat, nat),
    Needs(Seq<char>),
}

pub open spec fn plain_token(src: Seq<char>, kind: TokenType, start: int, end: int, line: nat) -> Result<SpecToken, SpecScanError> {
    Ok(SpecToken { kind, lexeme: src.subrange(start, end), literal: None, line: line as usize })
}

pub open spec fn scan_error(message: Seq<char>, src: Seq<char>, start: int, end: int, line: nat) -> Result<SpecToken, SpecScanError> {
    Err(SpecScanError { line: line as usize, message: message + " "@ + src.subrange(start, end) })
}

/// The step of scanning at `start`, a position inside the source.
pub open spec fn step(src: Seq<char>, start: int, line: nat, numbers: Seq<SpecNumber>, k: nat) -> SpecStep {
    let c = src[start];
    let p = start + 1;
    if single_kind(c) is Some {
        SpecStep::Emit(Some(plain_token(src, single_kind(c)->0, start, p, line)), p, line, k)
    } else if operator_kinds(c) is Some {
        let (alone, with_equal) = operator_kinds(c)->0;
        if char_at(src, p) == '=' {
            SpecStep::Emit(Some(plain_token(src, with_equal, start, p + 1, line)), p + 1, line, k)
        } else {
            SpecStep::Emit(Some(plain_token(src, alone, start, p, line)), p, line, k)
        }
    } else if c == '/' {
        if char_at(src, p) == '/' {
            SpecStep::Emit(None, find_char(src, p + 1, '\n'), line, k)
        } else {
            SpecStep::Emit(Some(plain_token(src, TokenType::Slash, start, p, line)), p, line, k)
        }
    } else if c == ' ' || c == '\r' || c == '\t' {
        SpecStep::Emit(None, p, line, k)
    } else if c == '\n' {
        SpecStep::Emit(None, p, line + 1, k)
    } else if c == '"' {
        let e = find_char(src, p, '"');
        let l2 = line + newlines(src.subrange(p, e));
        if e >= src.len() {
            SpecStep::Emit(Some(scan_error("Unterminated string"@, src, start, e, l2)), e, l2, k)
        } else {
            SpecStep::Emit(
                Some(
                    Ok(
                        SpecToken {
                            kind: TokenType::String,
                            lexeme: src.subrange(start, e + 1),
                            literal: Some(SpecLiteral::String(src.subrange(p, e))),
                            line: l2 as usize,
                        },
                    ),
                ),
                e + 1,
                l2,
                k,
            )
        }
    } else if is_digit(c) {
        let e = number_end(src, p);
        if k < numbers.len() {
            SpecStep::Emit(
                Some(
                    Ok(
                        SpecToken {
                            kind: TokenType::Number,
                            lexeme: src.subrange(start, e),
                            literal: Some(SpecLiteral::Num(numbers[k as int])),
                            line: line as usize,
                        },
                    ),
                ),
                e,
                line,
                k + 1,
            )
        } else {
            SpecStep::Needs(src.subrange(start, e))
        }
    } else if is_alpha(c) {
        let e = word_end(src, p);
        let kind = match keyword(src.subrange(start, e)) {
            Some(kw) => kw,
            None => TokenType::Identifier,
        };
        SpecStep::Emit(Some(plain_token(src, kind, start, e, line)), e, line, k)
    } else {
        SpecStep::Emit(Some(scan_error("Unexpected lexeme"@, src, start, p, line)), p, line, k)
    }
}

/// The outcome of scanning: the token list, or the text of a number whose
/// value is needed.
pub enum SpecScan {
    Done(Seq<Result<SpecToken, SpecScanError>>),
    Needs(Seq<char>),
}

/// The token that closes every token list.
pub open spec fn eof_token() -> SpecToken {
    SpecToken { kind: TokenType::Eof, lexeme: Seq::empty(), literal: None, line: 0 }
}

/// `prefix` followed by what scanning gives.
pub open spec fn after(prefix: Seq<Result<SpecToken, SpecScanError>>, rest: SpecScan) -> SpecScan {
    match rest {
        SpecScan::Done(items) => SpecScan::Done(prefix + items),
        SpecScan::Needs(text) => SpecScan::Needs(text),
    }
}

/// Scanning from position `pos` on the given line, with the first `k` of
/// `numbers` used.
pub open spec fn scan_from(src: Seq<char>, pos: int, line: nat, numbers: Seq<SpecNumber>, k: nat) -> SpecScan
    decreases src.len() - pos,
{
    if pos < 0 || pos >= src.len() {
        SpecScan::Done(seq![Ok(eof_token())])
    } else {
        match step(src, pos, line, numbers, k) {
            SpecStep::Needs(text) => SpecScan::Needs(text),
            SpecStep::Emit(item, p2, l2, k2) => if p2 <= pos || p2 > src.len() {
                SpecScan::Done(Seq::empty())
            } else {
                after(
                    match item {
                        Some(it) => seq![it],
                        None => Seq::empty(),
                    },
                    scan_from(src, p2, l2, numbers, k2),
                )
            },
        }
    }
}

/// Scanning a whole source from its first line.
pub open spec fn scanned(src: Seq<char>, numbers: Seq<SpecNumber>) -> SpecScan {
    scan_from(src, 0, 1, numbers, 0)
}

/// The text of `src[from..to]`.
fn text_of(src: &Vec<char>, from: usize, to: usize) -> (s: String)
    requires
        from <= to <= src.len(),
    ensures
        s@ == src@.subrange(from as int, to as int),
{
    let mut s = String::new();
    let mut i = from;
    while i < to
        invariant
            from <= i <= to <= src.len(),
            s@ == src@.subrange(from as int, i as int),
        decreases to - i,
    {
        push_char(&mut s, src[i]);
        assert(s@ =~= src@.subrange(from as int, i + 1));
        i = i + 1;
    }
    s
}

/// Appends `c` to `s`: calls `String::push`, which the Rust documentation
/// says appends the character to the end of the string.
#[verifier::external_body]
pub(crate) fn push_char(s: &mut String, c: char)
    ensures
        final(s)@ == old(s)@.push(c),
{
    s.push(c)
}

/// Whether `src[from..to]` is `word`.
fn word_is(src: &Vec<char>, from: usize, to: usize, word: &str) -> (b: bool)
    requires
        from <= to <= src.len(),
    ensures
        b == (src@.subrange(from as int, to as int) == word@),
{
    let n = word.unicode_len();
    if n != to - from {
        return false;
    }
    let mut i: usize = 0;
    while i < n
        invariant
            n == word@.len(),
            n == to - from,
            from <= to <= src.len(),
            i <= n,
            forall|j: int| 0 <= j < i ==> src@[from + j] == word@[j],
        decreases n - i,
    {
        if src[from + i] != word.get_char(i) {
            assert(src@.subrange(from as int, to as int)[i as int] != word@[i as int]);
            return false;
        }
        i = i + 1;
    }
    assert(src@.subrange(from as int, to as int) =~= word@);
    true
}

/// The kind of a reserved word, as [`keyword`] says.
fn keyword_kind(src: &Vec<char>, from: usize, to: usize) -> (r: Option<TokenType>)
    requires
        from <= to <= src.len(),
    ensures
        r == keyword(src@.subrange(from as int, to as int)),
{
    if word_is(src, from, to, "and") {
        Some(TokenType::And)
    } else if word_is(src, from, to, "class") {
        Some(TokenType::Class)
    } else if word_is(src, from, to, "else") {
        Some(TokenType::Else)
    } else if word_is(src, from, to, "false") {
        Some(TokenType::False)
    } else if word_is(src, from, to, "for") {
        Some(TokenType::For)
    } else if word_is(src, from, to, "fun") {
        Some(TokenType::Fun)
    } else if word_is(src, from, to, "if") {
        Some(TokenType::If)
    } else if word_is(src, from, to, "nil") {
        Some(TokenType::Nil)
    } else if word_is(src, from, to, "or") {
        Some(TokenType::Or)
    } else if word_is(src, from, to, "print") {
        Some(TokenType::Print)
    } else if word_is(src, from, to, "return") {
        Some(TokenType::Return)
    } else if word_is(src, from, to, "super") {
        Some(TokenType::Super)
    } else if word_is(src, from, to, "this") {
        Some(TokenType::This)
    } else if word_is(src, from, to, "true") {
        Some(TokenType::True)
    } else if word_is(src, from, to, "var") {
        Some(TokenType::Var)
    } else if word_is(src, from, to, "while") {
        Some(TokenType::While)
    } else {
        None
    }
}


proof fn lemma_newlines_bound(s: Seq<char>)
    ensures
        newlines(s) <= s.len(),
    decreases s.len(),
{
    if s.len() > 0 {
        lemma_newlines_bound(s.drop_last());
    }
}

proof fn lemma_digits_end(src: Seq<char>, i: int)
    requires
        0 <= i <= src.len(),
    ensures
        i <= digits_end(src, i) <= src.len(),
    decreases src.len() - i,
{
    if 0 <= i < src.len() && is_digit(src[i]) {
        lemma_digits_end(src, i + 1);
    }
}

proof fn lemma_word_end(src: Seq<char>, i: int)
    requires
        0 <= i <= src.len(),
    ensures
        i <= word_end(src, i) <= src.len(),
    decreases src.len() - i,
{
    if 0 <= i < src.len() && is_alphanumeric(src[i]) {
        lemma_word_end(src, i + 1);
    }
}

proof fn lemma_find_char(src: Seq<char>, i: int, c: char)
    requires
        0 <= i <= src.len(),
    ensures
        i <= find_char(src, i, c) <= src.len(),
    decreases src.len() - i,
{
    if 0 <= i < src.len() && src[i] != c {
        lemma_find_char(src, i + 1, c);
    }
}

/// Each step of scanning consumes at least one character and stays inside
/// the source.
pub proof fn lemma_step_advances(src: Seq<char>, start: int, line: nat, numbers: Seq<SpecNumber>, k: nat)
    requires
        0 <= start < src.len(),
    ensures
        step(src, start, line, numbers, k) matches SpecStep::Emit(_, p2, _, _) ==> start < p2
            <= src.len(),
{
    let p = start + 1;
    lemma_digits_end(src, p);
    lemma_word_end(src, p);
    lemma_find_char(src, p, '"');
    if p + 1 <= src.len() {
        lemma_find_char(src, p + 1, '\n');
    }
    let e = digits_end(src, p);
    if char_at(src, e) == '.' && is_digit(char_at(src, e + 1)) {
        lemma_digits_end(src, e + 1);
    }
}

proof fn lemma_after_after(
    a: Seq<Result<SpecToken, SpecScanError>>,
    b: Seq<Result<SpecToken, SpecScanError>>,
    rest: SpecScan,
)
    ensures
        after(a, after(b, rest)) == after(a + b, rest),
{
    match rest {
        SpecScan::Done(items) => {
            assert(a + (b + items) =~= (a + b) + items);
        },
        SpecScan::Needs(_) => {},
    }
}

fn is_digit_char(c: char) -> (b: bool)
    ensures
        b == is_digit(c),
{
    c >= '0' && c <= '9'
}

fn is_alpha_char(c: char) -> (b: bool)
    ensures
        b == is_alpha(c),
{
    (c >= 'a' && c <= 'z') || (c >= 'A' && c <= 'Z') || c == '_'
}

fn is_alphanumeric_char(c: char) -> (b: bool)
    ensures
        b == is_alphanumeric(c),
{
    is_digit_char(c) || is_alpha_char(c)
}

/// The state of one scan of the source.
struct Cursor<'a> {
    source: &'a Vec<char>,
    numbers: &'a Vec<Number>,
    used: usize,
    tokens: Vec<Result<Token, ScanError>>,
    start: usize,
    current: usize,
    line: usize,
}

impl<'a> Cursor<'a> {
    spec fn ok(&self) -> bool {
        &&& self.source.len() < usize::MAX
        &&& self.start <= self.current <= self.source.len()
        &&& self.used <= self.numbers.len()
        &&& 1 <= self.line <= self.current + 1
    }

    spec fn src(&self) -> Seq<char> {
        self.source@
    }

    spec fn same_input(&self, other: &Cursor<'a>) -> bool {
        &&& self.source == other.source
        &&& self.numbers == other.numbers
        &&& self.start == other.start
    }

    fn is_end(&self) -> (b: bool)
        ensures
            b == (self.current >= self.source.len()),
    {
        self.current >= self.source.len()
    }

    fn peek(&self) -> (c: char)
        ensures
            c == char_at(self.source@, self.current as int),
    {
        if self.is_end() {
            return '\0';
        }
        self.source[self.current]
    }

    fn peek_next(&self) -> (c: char)
        requires
            self.current < self.source.len() < usize::MAX,
        ensures
            c == char_at(self.source@, self.current + 1),
    {
        if self.current + 1 >= self.source.len() {
            return '\0';
        }
        self.source[self.current + 1]
    }

    fn advance(&mut self) -> (c: char)
        requires
            old(self).current < old(self).source.len(),
        ensures
            c == old(self).source@[old(self).current as int],
            final(self).current == old(self).current + 1,
            final(self).same_input(old(self)),
            final(self).used == old(self).used,
            final(self).line == old(self).line,
            final(self).tokens == old(self).tokens,
    {
        let c = self.source[self.current];
        self.current = self.current + 1;
        c
    }

    fn matches(&mut self, expected: char) -> (b: bool)
        requires
            old(self).current <= old(self).source.len(),
        ensures
            b == (char_at(old(self).source@, old(self).current as int) == expected && old(
                self,
            ).current < old(self).source.len()),
            final(self).current == old(self).current + if b { 1int } else { 0int },
            final(self).same_input(old(self)),
            final(self).used == old(self).used,
            final(self).line == old(self).line,
            final(self).tokens == old(self).tokens,
    {
        if self.is_end() {
            return false;
        }
        if self.source[self.current] != expected {
            return false;
        }
        self.current = self.current + 1;
        true
    }

    fn add_token(&mut self, kind: TokenType)
        requires
            old(self).start <= old(self).current <= old(self).source.len(),
        ensures
            final(self).current == old(self).current,
            final(self).same_input(old(self)),
            final(self).used == old(self).used,
            final(self).line == old(self).line,
            results_view(final(self).tokens@) == results_view(old(self).tokens@) + seq![
                plain_token(
                    old(self).src(),
                    kind,
                    old(self).start as int,
                    old(self).current as int,
                    old(self).line as nat,
                ),
            ],
    {
        let text = text_of(self.source, self.start, self.current);
        self.tokens.push(Ok(Token::new(kind, text, None, self.line)));
        assert(results_view(self.tokens@) =~= results_view(old(self).tokens@) + seq![
            plain_token(self.src(), kind, self.start as int, self.current as int, self.line as nat),
        ]);
    }

    fn add_error(&mut self, message: &str)
        requires
            old(self).start <= old(self).current <= old(self).source.len(),
        ensures
            final(self).current == old(self).current,
            final(self).same_input(old(self)),
            final(self).used == old(self).used,
            final(self).line == old(self).line,
            results_view(final(self).tokens@) == results_view(old(self).tokens@) + seq![
                scan_error(
                    message@,
                    old(self).src(),
                    old(self).start as int,
                    old(self).current as int,
                    old(self).line as nat,
                ),
            ],
    {
        let text = text_of(self.source, self.start, self.current);
        let mut full = message.to_owned();
        full.append(" ");
        full.append(text.as_str());
        self.tokens.push(Err(ScanError { line: self.line, message: full }));
        assert(results_view(self.tokens@) =~= results_view(old(self).tokens@) + seq![
            scan_error(message@, self.src(), self.start as int, self.current as int, self.line as nat),
        ]);
    }
}


pub open spec fn item_seq(item: Option<Result<SpecToken, SpecScanError>>) -> Seq<Result<SpecToken, SpecScanError>> {
    match item {
        Some(it) => seq![it],
        None => Seq::empty(),
    }
}

impl<'a> Cursor<'a> {
    /// `self` is what one step of scanning from the token start of `before`
    /// leaves, and `r` is the text of a number it needs, if any.
    spec fn stepped(&self, before: &Cursor<'a>, r: Option<String>) -> bool {
        &&& self.same_input(before)
        &&& self.ok()
        &&& match step(
            before.src(),
            before.start as int,
            before.line as nat,
            numbers_view(before.numbers@),
            before.used as nat,
        ) {
            SpecStep::Needs(t) => r matches Some(text) && text@ == t,
            SpecStep::Emit(item, p2, l2, k2) => {
                &&& r is None
                &&& self.current == p2
                &&& self.line == l2
                &&& self.used == k2
                &&& results_view(self.tokens@) == results_view(before.tokens@) + item_seq(item)
            },
        }
    }

    fn number(&mut self) -> (r: Option<String>)
        requires
            old(self).ok(),
            old(self).current == old(self).start + 1,
            is_digit(old(self).source@[old(self).start as int]),
        ensures
            final(self).stepped(old(self), r),
    {
        while is_digit_char(self.peek())
            invariant
                self.ok(),
                self.same_input(old(self)),
                self.line == old(self).line,
                self.used == old(self).used,
                self.tokens == old(self).tokens,
                old(self).current <= self.current,
                digits_end(self.src(), old(self).current as int) == digits_end(
                    self.src(),
                    self.current as int,
                ),
            decreases self.source.len() - self.current,
        {
            self.advance();
        }
        if self.peek() == '.' && is_digit_char(self.peek_next()) {
            self.advance();
            let ghost dot = self.current;
            while is_digit_char(self.peek())
                invariant
                    self.ok(),
                    self.same_input(old(self)),
                    self.line == old(self).line,
                    self.used == old(self).used,
                    self.tokens == old(self).tokens,
                    dot <= self.current,
                    digits_end(self.src(), dot as int) == digits_end(self.src(), self.current as int),
                decreases self.source.len() - self.current,
            {
                self.advance();
            }
        }
        let text = text_of(self.source, self.start, self.current);
        if self.used < self.numbers.len() {
            let value = self.numbers[self.used].duplicate();
            self.used = self.used + 1;
            self.tokens.push(Ok(Token::new(TokenType::Number, text, Some(Literal::Num(value)), self.line)));
            proof {
                let item = step(
                    old(self).src(),
                    old(self).start as int,
                    old(self).line as nat,
                    numbers_view(old(self).numbers@),
                    old(self).used as nat,
                )->Emit_0;
                assert(results_view(self.tokens@) =~= results_view(old(self).tokens@) + item_seq(item));
            }
            None
        } else {
            Some(text)
        }
    }

    fn identifier(&mut self)
        requires
            old(self).ok(),
            old(self).current == old(self).start + 1,
            is_alpha(old(self).source@[old(self).start as int]),
        ensures
            final(self).stepped(old(self), None),
    {
        while is_alphanumeric_char(self.peek())
            invariant
                self.ok(),
                self.same_input(old(self)),
                self.line == old(self).line,
                self.used == old(self).used,
                self.tokens == old(self).tokens,
                old(self).current <= self.current,
                word_end(self.src(), old(self).current as int) == word_end(
                    self.src(),
                    self.current as int,
                ),
            decreases self.source.len() - self.current,
        {
            self.advance();
        }
        let kind = match keyword_kind(self.source, self.start, self.current) {
            Some(kind) => kind,
            None => TokenType::Identifier,
        };
        self.add_token(kind);
        proof {
            let item = step(
                old(self).src(),
                old(self).start as int,
                old(self).line as nat,
                numbers_view(old(self).numbers@),
                old(self).used as nat,
            )->Emit_0;
            assert(results_view(self.tokens@) =~= results_view(old(self).tokens@) + item_seq(item));
        }
    }

    fn string(&mut self)
        requires
            old(self).ok(),
            old(self).current == old(self).start + 1,
            old(self).source@[old(self).start as int] == '"',
        ensures
            final(self).stepped(old(self), None),
    {
        let ghost p = self.current as int;
        let ghost src = self.src();
        proof {
            assert(src.subrange(p, p) =~= Seq::<char>::empty());
        }
        while self.peek() != '"' && !self.is_end()
            invariant
                self.ok(),
                self.same_input(old(self)),
                self.used == old(self).used,
                self.tokens == old(self).tokens,
                src == self.src(),
                p <= self.current,
                p == old(self).current,
                find_char(src, p, '"') == find_char(src, self.current as int, '"'),
                self.line == old(self).line + newlines(src.subrange(p, self.current as int)),
            decreases self.source.len() - self.current,
        {
            proof {
                assert(src.subrange(p, self.current + 1).drop_last() =~= src.subrange(
                    p,
                    self.current as int,
                ));
                lemma_newlines_bound(src.subrange(p, self.current as int));
            }
            if self.peek() == '\n' {
                self.line = self.line + 1;
            }
            self.advance();
        }
        proof {
            lemma_newlines_bound(src.subrange(p, self.current as int));
        }
        if self.is_end() {
            self.add_error("Unterminated string");
            proof {
                let item = step(
                    old(self).src(),
                    old(self).start as int,
                    old(self).line as nat,
                    numbers_view(old(self).numbers@),
                    old(self).used as nat,
                )->Emit_0;
                assert(results_view(self.tokens@) =~= results_view(old(self).tokens@) + item_seq(item));
            }
            return;
        }
        self.advance();
        let value = text_of(self.source, self.start + 1, self.current - 1);
        let text = text_of(self.source, self.start, self.current);
        self.tokens.push(
            Ok(Token::new(TokenType::String, text, Some(Literal::String(value)), self.line)),
        );
        proof {
            let item = step(
                old(self).src(),
                old(self).start as int,
                old(self).line as nat,
                numbers_view(old(self).numbers@),
                old(self).used as nat,
            )->Emit_0;
            assert(results_view(self.tokens@) =~= results_view(old(self).tokens@) + item_seq(item));
        }
    }
}


impl<'a> Cursor<'a> {
    fn scan_token(&mut self) -> (r: Option<String>)
        requires
            old(self).ok(),
            old(self).start == old(self).current,
            old(self).current < old(self).source.len(),
        ensures
            final(self).stepped(old(self), r),
    {
        let c = self.advance();
        match c {
            '(' => self.add_token(TokenType::LeftParen),
            ')' => self.add_token(TokenType::RightParen),
            '{' => self.add_token(TokenType::LeftBrace),
            '}' => self.add_token(TokenType::RightBrace),
            ',' => self.add_token(TokenType::Comma),
            '.' => self.add_token(TokenType::Dot),
            '-' => self.add_token(TokenType::Minus),
            '+' => self.add_token(TokenType::Plus),
            ';' => self.add_token(TokenType::Semicolon),
            '*' => self.add_token(TokenType::Star),
            '!' => {
                if self.matches('=') {
                    self.add_token(TokenType::BangEqual);
                } else {
                    self.add_token(TokenType::Bang);
                }
            },
            '=' => {
                if self.matches('=') {
                    self.add_token(TokenType::EqualEqual);
                } else {
                    self.add_token(TokenType::Equal);
                }
            },
            '<' => {
                if self.matches('=') {
                    self.add_token(TokenType::LessEqual);
                } else {
                    self.add_token(TokenType::Less);
                }
            },
            '>' => {
                if self.matches('=') {
                    self.add_token(TokenType::GreaterEqual);
                } else {
                    self.add_token(TokenType::Greater);
                }
            },
            '/' => {
                if self.matches('/') {
                    let ghost from = self.current as int;
                    while self.peek() != '\n' && !self.is_end()
                        invariant
                            self.ok(),
                            self.same_input(old(self)),
                            self.line == old(self).line,
                            self.used == old(self).used,
                            self.tokens == old(self).tokens,
                            from <= self.current,
                            find_char(self.src(), from, '\n') == find_char(
                                self.src(),
                                self.current as int,
                                '\n',
                            ),
                        decreases self.source.len() - self.current,
                    {
                        self.advance();
                    }
                    assert(results_view(self.tokens@) =~= results_view(old(self).tokens@)
                        + Seq::empty());
                } else {
                    self.add_token(TokenType::Slash);
                }
            },
            ' ' | '\r' | '\t' => {
                assert(results_view(self.tokens@) =~= results_view(old(self).tokens@)
                    + Seq::empty());
            },
            '\n' => {
                self.line = self.line + 1;
                assert(results_view(self.tokens@) =~= results_view(old(self).tokens@)
                    + Seq::empty());
            },
            '"' => self.string(),
            _ => {
                if is_digit_char(c) {
                    return self.number();
                } else if is_alpha_char(c) {
                    self.identifier();
                } else {
                    self.add_error("Unexpected lexeme");
                }
            },
        }
        None
    }
}


/// What [`Scanner::scan_tokens`] gives.
pub enum Scanning {
    /// The tokens and errors, in source order, closed by an end-of-file token.
    Finished(Vec<Result<Token, ScanError>>),
    /// The text of a number literal whose value is needed.
    NeedsNumber(String),
}

/// The source text and the values supplied for its number literals.
pub struct Scanner {
    source: Vec<char>,
    numbers: Vec<Number>,
}

impl Scanner {
    /// The characters of the source.
    pub closed spec fn text(&self) -> Seq<char> {
        self.source@
    }

    /// The values supplied for the number literals, in order.
    pub closed spec fn supplied_numbers(&self) -> Seq<SpecNumber> {
        numbers_view(self.numbers@)
    }

    /// A scanner for `source`, without supplied numbers.
    pub fn new(source: &String) -> (s: Scanner)
        requires
            source@.len() < usize::MAX,
        ensures
            s.text() == source@,
            s.supplied_numbers() == Seq::<SpecNumber>::empty(),
    {
        broadcast use vstd::string::group_string_axioms;

        let mut chars: Vec<char> = Vec::new();
        for c in iter: source.chars()
            invariant
                chars@ == iter.seq().take(iter.index() as int),
        {
            chars.push(c);
        }
        assert(chars@ =~= source@);
        let s = Scanner { source: chars, numbers: Vec::new() };
        assert(s.supplied_numbers() =~= Seq::<SpecNumber>::empty());
        s
    }

    /// Hands the scanner the value of the number literal it asked for last.
    pub fn supply_number(&mut self, value: Number)
        ensures
            final(self).text() == old(self).text(),
            final(self).supplied_numbers() == old(self).supplied_numbers().push(value@),
    {
        self.numbers.push(value);
        assert(numbers_view(self.numbers@) =~= numbers_view(old(self).numbers@).push(value@));
    }

    /// Scans the whole source, the supplied numbers standing in order for
    /// the values of the number literals: the token list, or the text of the
    /// first number literal whose value was not supplied.
    pub fn scan_tokens(&self) -> (r: Scanning)
        requires
            self.text().len() < usize::MAX,
        ensures
            match scanned(self.text(), self.supplied_numbers()) {
                SpecScan::Done(items) => r matches Scanning::Finished(tokens) && results_view(
                    tokens@,
                ) == items,
                SpecScan::Needs(t) => r matches Scanning::NeedsNumber(text) && text@ == t,
            },
    {
        let mut cursor = Cursor {
            source: &self.source,
            numbers: &self.numbers,
            used: 0,
            tokens: Vec::new(),
            start: 0,
            current: 0,
            line: 1,
        };
        let ghost src = self.source@;
        let ghost nums = numbers_view(self.numbers@);
        assert(results_view(cursor.tokens@) =~= Seq::<Result<SpecToken, SpecScanError>>::empty());
        assert(after(Seq::empty(), scanned(src, nums)) == scanned(src, nums)) by {
            match scanned(src, nums) {
                SpecScan::Done(items) => {
                    assert(Seq::<Result<SpecToken, SpecScanError>>::empty() + items =~= items);
                },
                SpecScan::Needs(_) => {},
            }
        }
        while !cursor.is_end()
            invariant
                cursor.ok(),
                cursor.source == &self.source,
                cursor.numbers == &self.numbers,
                src == self.source@,
                nums == numbers_view(self.numbers@),
                scanned(src, nums) == after(
                    results_view(cursor.tokens@),
                    scan_from(src, cursor.current as int, cursor.line as nat, nums, cursor.used as nat),
                ),
            decreases self.source.len() - cursor.current,
        {
            cursor.start = cursor.current;
            let ghost before = cursor;
            let needed = cursor.scan_token();
            match needed {
                Some(text) => {
                    return Scanning::NeedsNumber(text);
                },
                None => {},
            }
            proof {
                lemma_step_advances(src, before.current as int, before.line as nat, nums, before.used as nat);
                if let SpecStep::Emit(item, p2, l2, k2) = step(
                    src,
                    before.current as int,
                    before.line as nat,
                    nums,
                    before.used as nat,
                ) {
                    lemma_after_after(
                        results_view(before.tokens@),
                        item_seq(item),
                        scan_from(src, p2, l2, nums, k2),
                    );
                }
            }
        }
        let eof = Token::new(TokenType::Eof, String::new(), None, 0);
        cursor.tokens.push(Ok(eof));
        proof {
            let prev = cursor.tokens@.drop_last();
            assert(results_view(cursor.tokens@) =~= results_view(prev) + seq![Ok(eof_token())]);
        }
        Scanning::Finished(cursor.tokens)
    }
}

} // verus!
