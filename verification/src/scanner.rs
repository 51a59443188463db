//! The scanner: a single left-to-right pass over a source buffer that emits
//! one token per recognized lexeme and a diagnostic for each lexical error,
//! and always terminates the token sequence with an end-of-input token.
//!
//! The whole pass is modelled by [`spec_scan`], a recursive function over the
//! source bytes: [`spec_step`] gives the tokens, diagnostics, next cursor and
//! line produced from one lexeme, and [`spec_scan`] chains steps until the
//! input is exhausted. The executable [`Scanner`] is proved to produce exactly
//! that model.

use vstd::prelude::*;

use crate::token::{Literal, SpecLiteral, SpecToken, Token, TokenType};

verus! {

// ---------------------------------------------------------------------------
// Character classes (ASCII byte values).
// ---------------------------------------------------------------------------

/// An ASCII decimal digit, `'0'..='9'`.
pub open spec fn spec_is_digit(c: u8) -> bool {
    48 <= c && c <= 57
}

/// An ASCII letter or underscore: what may begin an identifier.
pub open spec fn spec_is_alpha(c: u8) -> bool {
    (65 <= c && c <= 90) || (97 <= c && c <= 122) || c == 95
}

/// What may continue an identifier: a letter, underscore or digit.
pub open spec fn spec_is_alphanumeric(c: u8) -> bool {
    spec_is_alpha(c) || spec_is_digit(c)
}

// ---------------------------------------------------------------------------
// Diagnostics.
// ---------------------------------------------------------------------------

/// The two recoverable lexical errors.
#[derive(Debug, Clone, Copy, PartialEq, Eq, Structural)]
pub enum DiagnosticKind {
    /// The input ended inside a string literal.
    UnterminatedString,
    /// A byte matched no recognized lexeme class.
    UnexpectedCharacter(u8),
}

/// Mathematical model of a [`Diagnostic`].
pub struct SpecDiagnostic {
    pub kind: DiagnosticKind,
    pub line: nat,
}

/// A lexical error, reported with the 1-based line it was noticed on.
/// Scanning never stops because of one: the offending bytes are skipped.
#[derive(Debug, Clone, Copy, PartialEq, Eq, Structural)]
pub struct Diagnostic {
    pub kind: DiagnosticKind,
    pub line: usize,
}

impl View for Diagnostic {
    type V = SpecDiagnostic;

    open spec fn view(&self) -> SpecDiagnostic {
        SpecDiagnostic { kind: self.kind, line: self.line as nat }
    }
}

// ---------------------------------------------------------------------------
// Lexeme extents: where a lexeme that starts at a given position ends.
// ---------------------------------------------------------------------------

/// First position at or after `i` whose byte is not a digit (or the end).
pub open spec fn digits_end(src: Seq<u8>, i: int) -> int
    decreases src.len() - i,
{
    if 0 <= i < src.len() && spec_is_digit(src[i]) {
        digits_end(src, i + 1)
    } else {
        i
    }
}

/// First position at or after `i` whose byte cannot continue an identifier.
pub open spec fn ident_end(src: Seq<u8>, i: int) -> int
    decreases src.len() - i,
{
    if 0 <= i < src.len() && spec_is_alphanumeric(src[i]) {
        ident_end(src, i + 1)
    } else {
        i
    }
}

/// First position at or after `i` holding a newline (or the end): where a
/// line comment stops consuming.
pub open spec fn comment_end(src: Seq<u8>, i: int) -> int
    decreases src.len() - i,
{
    if 0 <= i < src.len() && src[i] != 10 {
        comment_end(src, i + 1)
    } else {
        i
    }
}

/// First position at or after `i` holding a double quote (or the end): the
/// closing quote of a string whose contents start at `i`.
pub open spec fn string_close(src: Seq<u8>, i: int) -> int
    decreases src.len() - i,
{
    if 0 <= i < src.len() && src[i] != 34 {
        string_close(src, i + 1)
    } else {
        i
    }
}

/// Number of newline bytes in `src[i..j)`.
pub open spec fn newlines_in(src: Seq<u8>, i: int, j: int) -> nat
    decreases j - i,
{
    if i < j && 0 <= i < src.len() {
        (if src[i] == 10 {
            1nat
        } else {
            0nat
        }) + newlines_in(src, i + 1, j)
    } else {
        0
    }
}

// ---------------------------------------------------------------------------
// The keyword table: reserved words are a reclassification of an
// identifier-shaped lexeme.
// ---------------------------------------------------------------------------

/// The reserved word spelled by `s`, if any.
pub open spec fn spec_keyword(s: Seq<u8>) -> Option<TokenType> {
    if s == seq![97u8, 110, 100] {
        Some(TokenType::And)  // "and"
    } else if s == seq![99u8, 108, 97, 115, 115] {
        Some(TokenType::Class)  // "class"
    } else if s == seq![101u8, 108, 115, 101] {
        Some(TokenType::Else)  // "else"
    } else if s == seq![102u8, 97, 108, 115, 101] {
        Some(TokenType::False)  // "false"
    } else if s == seq![102u8, 111, 114] {
        Some(TokenType::For)  // "for"
    } else if s == seq![102u8, 117, 110] {
        Some(TokenType::Fun)  // "fun"
    } else if s == seq![105u8, 102] {
        Some(TokenType::If)  // "if"
    } else if s == seq![110u8, 105, 108] {
        Some(TokenType::Nil)  // "nil"
    } else if s == seq![111u8, 114] {
        Some(TokenType::Or)  // "or"
    } else if s == seq![112u8, 114, 105, 110, 116] {
        Some(TokenType::Print)  // "print"
    } else if s == seq![114u8, 101, 116, 117, 114, 110] {
        Some(TokenType::Return)  // "return"
    } else if s == seq![115u8, 117, 112, 101, 114] {
        Some(TokenType::Super)  // "super"
    } else if s == seq![116u8, 104, 105, 115] {
        Some(TokenType::This)  // "this"
    } else if s == seq![116u8, 114, 117, 101] {
        Some(TokenType::True)  // "true"
    } else if s == seq![118u8, 97, 114] {
        Some(TokenType::Var)  // "var"
    } else if s == seq![119u8, 104, 105, 108, 101] {
        Some(TokenType::While)  // "while"
    } else {
        None
    }
}

/// Category of an identifier-shaped lexeme: the reserved word it spells, or
/// a plain identifier.
pub open spec fn spec_identifier_type(s: Seq<u8>) -> TokenType {
    match spec_keyword(s) {
        Some(t) => t,
        None => TokenType::Identifier,
    }
}

// ---------------------------------------------------------------------------
// One scanning step: the effect of classifying the lexeme at position `i`.
// ---------------------------------------------------------------------------

/// What one call of the scanner's per-lexeme dispatch produces: the tokens
/// and diagnostics it emits, the cursor after the lexeme, and the line
/// counter after it.
pub struct SpecStep {
    pub tokens: Seq<SpecToken>,
    pub diags: Seq<SpecDiagnostic>,
    pub next: int,
    pub line: nat,
}

/// A step that emits nothing and moves the cursor to `next`.
pub open spec fn step_skip(next: int, line: nat) -> SpecStep {
    SpecStep { tokens: seq![], diags: seq![], next, line }
}

/// A step that emits one token spanning `src[i..i + n)` with no literal.
pub open spec fn step_simple(src: Seq<u8>, i: int, n: int, ty: TokenType, line: nat) -> SpecStep {
    SpecStep {
        tokens: seq![
            SpecToken { ty, lexeme: src.subrange(i, i + n), literal: None, line },
        ],
        diags: seq![],
        next: i + n,
        line,
    }
}

/// A one-or-two-character operator: the two-character form when the next
/// byte is `=`, the one-character form otherwise.
pub open spec fn step_pair(src: Seq<u8>, i: int, line: nat, two: TokenType, one: TokenType) -> SpecStep {
    if i + 1 < src.len() && src[i + 1] == 61 {
        step_simple(src, i, 2, two, line)
    } else {
        step_simple(src, i, 1, one, line)
    }
}

/// A string literal whose opening quote is at `i`: either a String token
/// carrying the text strictly between the quotes, or, when the input ends
/// first, an unterminated-string diagnostic and no token. Newlines inside
/// the literal advance the line counter either way.
pub open spec fn step_string(src: Seq<u8>, i: int, line: nat) -> SpecStep {
    let close = string_close(src, i + 1);
    let l2 = line + newlines_in(src, i + 1, close);
    if close >= src.len() {
        SpecStep {
            tokens: seq![],
            diags: seq![SpecDiagnostic { kind: DiagnosticKind::UnterminatedString, line: l2 }],
            next: src.len() as int,
            line: l2,
        }
    } else {
        SpecStep {
            tokens: seq![
                SpecToken {
                    ty: TokenType::String,
                    lexeme: src.subrange(i, close + 1),
                    literal: Some(SpecLiteral::String(src.subrange(i + 1, close))),
                    line: l2,
                },
            ],
            diags: seq![],
            next: close + 1,
            line: l2,
        }
    }
}

/// A number literal whose first digit is at `i`: a maximal run of digits,
/// absorbing a decimal point only when a digit follows it. The token's
/// literal keeps the exact digit span.
pub open spec fn step_number(src: Seq<u8>, i: int, line: nat) -> SpecStep {
    let d1 = digits_end(src, i);
    let end = if d1 < src.len() && src[d1] == 46 && d1 + 1 < src.len() && spec_is_digit(
        src[d1 + 1],
    ) {
        digits_end(src, d1 + 1)
    } else {
        d1
    };
    SpecStep {
        tokens: seq![
            SpecToken {
                ty: TokenType::Number,
                lexeme: src.subrange(i, end),
                literal: Some(SpecLiteral::Number(src.subrange(i, end))),
                line,
            },
        ],
        diags: seq![],
        next: end,
        line,
    }
}

/// An identifier or reserved word starting at `i`: a maximal run of
/// alphanumeric/underscore bytes, reclassified against the keyword table.
pub open spec fn step_identifier(src: Seq<u8>, i: int, line: nat) -> SpecStep {
    let end = ident_end(src, i);
    let text = src.subrange(i, end);
    SpecStep {
        tokens: seq![
            SpecToken { ty: spec_identifier_type(text), lexeme: text, literal: None, line },
        ],
        diags: seq![],
        next: end,
        line,
    }
}

/// The effect of scanning the single lexeme that starts at position `i` of
/// `src`, with the line counter at `line`.
pub open spec fn spec_step(src: Seq<u8>, i: int, line: nat) -> SpecStep
    recommends
        0 <= i < src.len(),
{
    let c = src[i];
    if c == 32 || c == 9 || c == 13 {  // space, tab, carriage return
        step_skip(i + 1, line)
    } else if c == 10 {  // newline
        step_skip(i + 1, line + 1)
    } else if c == 40 {  // (
        step_simple(src, i, 1, TokenType::LeftParen, line)
    } else if c == 41 {  // )
        step_simple(src, i, 1, TokenType::RightParen, line)
    } else if c == 123 {  // {
        step_simple(src, i, 1, TokenType::LeftBrace, line)
    } else if c == 125 {  // }
        step_simple(src, i, 1, TokenType::RightBrace, line)
    } else if c == 44 {  // ,
        step_simple(src, i, 1, TokenType::Comma, line)
    } else if c == 46 {  // .
        step_simple(src, i, 1, TokenType::Dot, line)
    } else if c == 45 {  // -
        step_simple(src, i, 1, TokenType::Minus, line)
    } else if c == 43 {  // +
        step_simple(src, i, 1, TokenType::Plus, line)
    } else if c == 59 {  // ;
        step_simple(src, i, 1, TokenType::Semicolon, line)
    } else if c == 42 {  // *
        step_simple(src, i, 1, TokenType::Star, line)
    } else if c == 33 {  // !
        step_pair(src, i, line, TokenType::BangEqual, TokenType::Bang)
    } else if c == 61 {  // =
        step_pair(src, i, line, TokenType::EqualEqual, TokenType::Equal)
    } else if c == 60 {  // <
        step_pair(src, i, line, TokenType::LessEqual, TokenType::Less)
    } else if c == 62 {  // >
        step_pair(src, i, line, TokenType::GreaterEqual, TokenType::Greater)
    } else if c == 47 {  // /
        if i + 1 < src.len() && src[i + 1] == 47 {
            // A line comment: consumed up to, not including, the newline.
            step_skip(comment_end(src, i + 2), line)
        } else {
            step_simple(src, i, 1, TokenType::Slash, line)
        }
    } else if c == 34 {  // "
        step_string(src, i, line)
    } else if spec_is_digit(c) {
        step_number(src, i, line)
    } else if spec_is_alpha(c) {
        step_identifier(src, i, line)
    } else {
        SpecStep {
            tokens: seq![],
            diags: seq![
                SpecDiagnostic { kind: DiagnosticKind::UnexpectedCharacter(c), line },
            ],
            next: i + 1,
            line,
        }
    }
}

// ---------------------------------------------------------------------------
// Bounds of the extent functions, and progress of one step.
// ---------------------------------------------------------------------------

pub proof fn lemma_digits_end_bounds(src: Seq<u8>, i: int)
    requires
        0 <= i <= src.len(),
    ensures
        i <= digits_end(src, i) <= src.len(),
    decreases src.len() - i,
{
    if 0 <= i < src.len() && spec_is_digit(src[i]) {
        lemma_digits_end_bounds(src, i + 1);
    }
}

pub proof fn lemma_ident_end_bounds(src: Seq<u8>, i: int)
    requires
        0 <= i <= src.len(),
    ensures
        i <= ident_end(src, i) <= src.len(),
    decreases src.len() - i,
{
    if 0 <= i < src.len() && spec_is_alphanumeric(src[i]) {
        lemma_ident_end_bounds(src, i + 1);
    }
}

pub proof fn lemma_comment_end_bounds(src: Seq<u8>, i: int)
    requires
        0 <= i <= src.len(),
    ensures
        i <= comment_end(src, i) <= src.len(),
    decreases src.len() - i,
{
    if 0 <= i < src.len() && src[i] != 10 {
        lemma_comment_end_bounds(src, i + 1);
    }
}

pub proof fn lemma_string_close_bounds(src: Seq<u8>, i: int)
    requires
        0 <= i <= src.len(),
    ensures
        i <= string_close(src, i) <= src.len(),
    decreases src.len() - i,
{
    if 0 <= i < src.len() && src[i] != 34 {
        lemma_string_close_bounds(src, i + 1);
    }
}

/// At most one newline per byte of the range.
pub proof fn lemma_newlines_bound(src: Seq<u8>, i: int, j: int)
    requires
        i <= j,
    ensures
        newlines_in(src, i, j) <= j - i,
    decreases j - i,
{
    if i < j && 0 <= i < src.len() {
        lemma_newlines_bound(src, i + 1, j);
    }
}

/// Every step consumes at least one byte and never passes the end: scanning
/// makes progress, so it terminates.
pub proof fn lemma_step_progress(src: Seq<u8>, i: int, line: nat)
    requires
        0 <= i < src.len(),
    ensures
        i < spec_step(src, i, line).next <= src.len(),
{
    let c = src[i];
    if c == 47 && i + 1 < src.len() && src[i + 1] == 47 {
        lemma_comment_end_bounds(src, i + 2);
    } else if c == 34 {
        lemma_string_close_bounds(src, i + 1);
    } else if spec_is_digit(c) {
        lemma_digits_end_bounds(src, i + 1);
        assert(digits_end(src, i) == digits_end(src, i + 1));
        let d1 = digits_end(src, i);
        if d1 < src.len() && src[d1] == 46 && d1 + 1 < src.len() && spec_is_digit(src[d1 + 1]) {
            lemma_digits_end_bounds(src, d1 + 1);
        }
    } else if spec_is_alpha(c) {
        lemma_ident_end_bounds(src, i + 1);
        assert(ident_end(src, i) == ident_end(src, i + 1));
    }
}

// ---------------------------------------------------------------------------
// The full scan: chained steps, closed by the end-of-input token.
// ---------------------------------------------------------------------------

/// The end-of-input token: empty lexeme, no literal, the final line.
pub open spec fn eof_token(line: nat) -> SpecToken {
    SpecToken { ty: TokenType::Eof, lexeme: Seq::empty(), literal: None, line }
}

/// Everything a scan produces: the ordered tokens and the diagnostics.
pub struct SpecScan {
    pub tokens: Seq<SpecToken>,
    pub diags: Seq<SpecDiagnostic>,
}

/// The model of scanning `src` from position `i` with the line counter at
/// `line`: one step per lexeme until the input is exhausted, then the
/// end-of-input token.
pub open spec fn spec_scan(src: Seq<u8>, i: int, line: nat) -> SpecScan
    decreases src.len() - i,
{
    if 0 <= i < src.len() {
        let st = spec_step(src, i, line);
        proof {
            lemma_step_progress(src, i, line);
        }
        let rest = spec_scan(src, st.next, st.line);
        SpecScan { tokens: st.tokens + rest.tokens, diags: st.diags + rest.diags }
    } else {
        SpecScan { tokens: seq![eof_token(line)], diags: seq![] }
    }
}

// ---------------------------------------------------------------------------
// Laws of the scan model.
// ---------------------------------------------------------------------------

/// Law: scanning any source from any position yields a non-empty token
/// sequence whose last token is the end-of-input marker.
pub proof fn lemma_scan_ends_with_eof(src: Seq<u8>, i: int, line: nat)
    ensures
        spec_scan(src, i, line).tokens.len() >= 1,
        spec_scan(src, i, line).tokens.last().ty == TokenType::Eof,
    decreases src.len() - i,
{
    if 0 <= i < src.len() {
        lemma_step_progress(src, i, line);
        let st = spec_step(src, i, line);
        lemma_scan_ends_with_eof(src, st.next, st.line);
    }
}

/// Source that consists of nothing but whitespace and line comments from
/// position `i` on.
pub open spec fn trivia_only(src: Seq<u8>, i: int) -> bool
    decreases src.len() - i,
{
    if 0 <= i < src.len() {
        let c = src[i];
        if c == 32 || c == 9 || c == 13 || c == 10 {
            trivia_only(src, i + 1)
        } else if c == 47 && i + 1 < src.len() && src[i + 1] == 47 {
            proof {
                lemma_comment_end_bounds(src, i + 2);
            }
            trivia_only(src, comment_end(src, i + 2))
        } else {
            false
        }
    } else {
        true
    }
}

/// Law: a source consisting only of whitespace and line comments scans to
/// exactly one token — the end-of-input marker — and no diagnostics.
pub proof fn lemma_trivia_scans_to_eof_only(src: Seq<u8>, i: int, line: nat)
    requires
        trivia_only(src, i),
    ensures
        spec_scan(src, i, line).tokens.len() == 1,
        spec_scan(src, i, line).tokens.last().ty == TokenType::Eof,
        spec_scan(src, i, line).diags.len() == 0,
    decreases src.len() - i,
{
    if 0 <= i < src.len() {
        lemma_step_progress(src, i, line);
        let st = spec_step(src, i, line);
        lemma_trivia_scans_to_eof_only(src, st.next, st.line);
    }
}

// ---------------------------------------------------------------------------
// The executable scanner.
// ---------------------------------------------------------------------------

/// The models of a sequence of tokens / diagnostics.
pub open spec fn tokens_view(ts: Seq<Token>) -> Seq<SpecToken> {
    ts.map_values(|t: Token| t@)
}

pub open spec fn diags_view(ds: Seq<Diagnostic>) -> Seq<SpecDiagnostic> {
    ds.map_values(|d: Diagnostic| d@)
}

/// Copies `src[lo..hi)` into a fresh buffer.
fn copy_range(src: &Vec<u8>, lo: usize, hi: usize) -> (out: Vec<u8>)
    requires
        lo <= hi && hi <= src@.len(),
    ensures
        out@ == src@.subrange(lo as int, hi as int),
{
    let mut out: Vec<u8> = Vec::new();
    assert(out@ =~= src@.subrange(lo as int, lo as int));
    let mut j: usize = lo;
    while j < hi
        invariant
            lo <= j <= hi,
            hi <= src@.len(),
            out@ == src@.subrange(lo as int, j as int),
        decreases hi - j,
    {
        out.push(src[j]);
        j = j + 1;
        assert(out@ =~= src@.subrange(lo as int, j as int));
    }
    out
}

/// Single-pass scanner state: the source buffer, the three cursors, and the
/// tokens and diagnostics accumulated so far.
pub struct Scanner {
    source: Vec<u8>,
    start: usize,
    current: usize,
    line: usize,
    tokens: Vec<Token>,
    diagnostics: Vec<Diagnostic>,
}

impl Scanner {
    /// The source buffer being scanned.
    pub closed spec fn src(&self) -> Seq<u8> {
        self.source@
    }

    /// A freshly constructed scanner: cursors at the start of the source,
    /// nothing emitted yet.
    pub closed spec fn ready(&self) -> bool {
        &&& self.start == 0
        &&& self.current == 0
        &&& self.line == 1
        &&& self.tokens@.len() == 0
        &&& self.diagnostics@.len() == 0
        &&& self.source@.len() < usize::MAX
    }

    /// Internal sanity of the cursors: the line counter starts at 1 and grows
    /// by at most one per consumed byte.
    spec fn wf(&self) -> bool {
        &&& self.start <= self.current
        &&& self.current <= self.source@.len()
        &&& self.source@.len() < usize::MAX
        &&& 1 <= self.line
        &&& self.line <= self.current + 1
    }

    /// Everything but the cursors and the outputs is shared between two
    /// scanner states, and the outputs of `b` extend those of `a` by exactly
    /// `toks` and `dgs`.
    spec fn emitted(a: Scanner, b: Scanner, toks: Seq<SpecToken>, dgs: Seq<SpecDiagnostic>) -> bool {
        &&& b.source == a.source
        &&& b.start == a.start
        &&& tokens_view(b.tokens@) == tokens_view(a.tokens@) + toks
        &&& diags_view(b.diagnostics@) == diags_view(a.diagnostics@) + dgs
    }

    /// State `b` is state `a` after exactly the step `st`.
    spec fn step_applied(a: Scanner, b: Scanner, st: SpecStep) -> bool {
        &&& Self::emitted(a, b, st.tokens, st.diags)
        &&& b.current as int == st.next
        &&& b.line as nat == st.line
    }

    /// Nothing but the cursors differs between `a` and `b`.
    spec fn same_output(a: Scanner, b: Scanner) -> bool {
        &&& b.source == a.source
        &&& b.start == a.start
        &&& b.tokens == a.tokens
        &&& b.diagnostics == a.diagnostics
    }

    pub fn new(source: Vec<u8>) -> (s: Scanner)
        requires
            source@.len() < usize::MAX,
        ensures
            s.ready(),
            s.src() == source@,
    {
        Scanner {
            source,
            start: 0,
            current: 0,
            line: 1,
            tokens: Vec::new(),
            diagnostics: Vec::new(),
        }
    }

    fn at_end(&self) -> (r: bool)
        ensures
            r == (self.current >= self.source@.len()),
    {
        self.current >= self.source.len()
    }

    /// Consumes and returns the byte under the cursor.
    fn advance(&mut self) -> (c: u8)
        requires
            old(self).current < old(self).source@.len(),
            old(self).source@.len() < usize::MAX,
        ensures
            Self::same_output(*old(self), *final(self)),
            final(self).current == old(self).current + 1,
            final(self).line == old(self).line,
            c == old(self).source@[old(self).current as int],
    {
        let byte = self.source[self.current];
        self.current = self.current + 1;
        byte
    }

    /// The byte under the cursor, or 0 at the end of input.
    fn peek(&self) -> (c: u8)
        ensures
            c == (if self.current < self.source@.len() {
                self.source@[self.current as int]
            } else {
                0u8
            }),
    {
        if self.at_end() {
            0
        } else {
            self.source[self.current]
        }
    }

    /// The byte after the cursor, or 0 if that is past the end of input.
    fn peek_next(&self) -> (c: u8)
        requires
            self.current < usize::MAX,
        ensures
            c == (if self.current + 1 < self.source@.len() {
                self.source@[self.current + 1]
            } else {
                0u8
            }),
    {
        if self.current + 1 >= self.source.len() {
            0
        } else {
            self.source[self.current + 1]
        }
    }

    /// One-character lookahead: consumes the byte under the cursor only when
    /// it equals `expected`.
    fn matches(&mut self, expected: u8) -> (r: bool)
        requires
            old(self).source@.len() < usize::MAX,
        ensures
            Self::same_output(*old(self), *final(self)),
            final(self).line == old(self).line,
            r == (old(self).current < old(self).source@.len()
                && old(self).source@[old(self).current as int] == expected),
            final(self).current == if r {
                old(self).current + 1
            } else {
                old(self).current as int
            },
    {
        let c = self.peek();
        if self.at_end() {
            false
        } else if c != expected {
            false
        } else {
            self.current = self.current + 1;
            true
        }
    }

    /// Emits a token for the current lexeme `source[start..current)`.
    fn add_token(&mut self, ty: TokenType)
        requires
            old(self).start <= old(self).current,
            old(self).current <= old(self).source@.len(),
        ensures
            final(self).source == old(self).source,
            final(self).start == old(self).start,
            final(self).current == old(self).current,
            final(self).line == old(self).line,
            final(self).diagnostics == old(self).diagnostics,
            tokens_view(final(self).tokens@) == tokens_view(old(self).tokens@).push(
                SpecToken {
                    ty,
                    lexeme: old(self).source@.subrange(
                        old(self).start as int,
                        old(self).current as int,
                    ),
                    literal: None,
                    line: old(self).line as nat,
                },
            ),
    {
        let text = copy_range(&self.source, self.start, self.current);
        let token = Token::new(ty, text, None, self.line);
        self.tokens.push(token);
        assert(tokens_view(self.tokens@) =~= tokens_view(old(self).tokens@).push(token@));
    }

    /// Emits a token carrying a literal payload for the current lexeme.
    fn add_literal_token(&mut self, ty: TokenType, literal: Literal)
        requires
            old(self).start <= old(self).current,
            old(self).current <= old(self).source@.len(),
        ensures
            final(self).source == old(self).source,
            final(self).start == old(self).start,
            final(self).current == old(self).current,
            final(self).line == old(self).line,
            final(self).diagnostics == old(self).diagnostics,
            tokens_view(final(self).tokens@) == tokens_view(old(self).tokens@).push(
                SpecToken {
                    ty,
                    lexeme: old(self).source@.subrange(
                        old(self).start as int,
                        old(self).current as int,
                    ),
                    literal: Some(literal@),
                    line: old(self).line as nat,
                },
            ),
    {
        let text = copy_range(&self.source, self.start, self.current);
        let token = Token::new(ty, text, Some(literal), self.line);
        self.tokens.push(token);
        assert(tokens_view(self.tokens@) =~= tokens_view(old(self).tokens@).push(token@));
    }

    fn is_digit(&self, c: u8) -> (r: bool)
        ensures
            r == spec_is_digit(c),
    {
        48 <= c && c <= 57
    }

    fn is_alpha(&self, c: u8) -> (r: bool)
        ensures
            r == spec_is_alpha(c),
    {
        (65 <= c && c <= 90) || (97 <= c && c <= 122) || c == 95
    }

    fn is_alphanumeric(&self, c: u8) -> (r: bool)
        ensures
            r == spec_is_alphanumeric(c),
    {
        self.is_alpha(c) || self.is_digit(c)
    }

    /// Scans the rest of a string literal; the opening quote was consumed.
    fn string(&mut self)
        requires
            old(self).wf(),
            old(self).current == old(self).start + 1,
            old(self).start < old(self).source@.len(),
            old(self).source@[old(self).start as int] == 34,
        ensures
            final(self).wf(),
            Self::step_applied(
                *old(self),
                *final(self),
                step_string(old(self).source@, old(self).start as int, old(self).line as nat),
            ),
    {
        let ghost src = self.source@;
        let ghost i = self.start as int;
        let ghost line0 = self.line as nat;
        let ghost close = string_close(src, i + 1);
        proof {
            lemma_string_close_bounds(src, i + 1);
        }
        while self.peek() != 34 && !self.at_end()
            invariant
                self.wf(),
                Self::same_output(*old(self), *self),
                self.start + 1 <= self.current <= src.len(),
                src == self.source@,
                i == self.start as int,
                close == string_close(src, self.current as int),
                line0 <= i + 2,
                self.line as nat == line0 + newlines_in(src, i + 1, self.current as int),
            decreases src.len() - self.current,
        {
            proof {
                lemma_string_close_bounds(src, self.current as int);
                lemma_newlines_bound(src, i + 1, self.current as int);
            }
            if self.peek() == 10 {
                self.line = self.line + 1;
            }
            let ghost cur0 = self.current as int;
            self.advance();
            proof {
                lemma_newlines_extend(src, i + 1, cur0);
            }
        }
        proof {
            lemma_string_close_bounds(src, self.current as int);
        }
        if self.at_end() {
            // Unterminated string: report it; no token is emitted.
            assert(close == self.current as int);
            let d = Diagnostic { kind: DiagnosticKind::UnterminatedString, line: self.line };
            self.diagnostics.push(d);
            assert(diags_view(self.diagnostics@) =~= diags_view(old(self).diagnostics@).push(d@));
            assert(diags_view(old(self).diagnostics@).push(d@) =~= diags_view(
                old(self).diagnostics@,
            ) + seq![d@]);
            assert(tokens_view(self.tokens@) =~= tokens_view(old(self).tokens@) + Seq::<
                SpecToken,
            >::empty());
            return ;
        }
        assert(close == self.current as int && close < src.len());
        // The closing quote.
        self.advance();
        let text = copy_range(&self.source, self.start + 1, self.current - 1);
        self.add_literal_token(TokenType::String, Literal::String(text));
        proof {
            let st = step_string(src, i, line0);
            assert(tokens_view(self.tokens@) =~= tokens_view(old(self).tokens@) + st.tokens);
            assert(diags_view(self.diagnostics@) =~= diags_view(old(self).diagnostics@)
                + st.diags);
        }
    }

    /// Scans the rest of a number literal; the first digit was consumed.
    fn number(&mut self)
        requires
            old(self).wf(),
            old(self).current == old(self).start + 1,
            old(self).start < old(self).source@.len(),
            spec_is_digit(old(self).source@[old(self).start as int]),
        ensures
            final(self).wf(),
            Self::step_applied(
                *old(self),
                *final(self),
                step_number(old(self).source@, old(self).start as int, old(self).line as nat),
            ),
    {
        let ghost src = self.source@;
        let ghost i = self.start as int;
        let ghost d1 = digits_end(src, i);
        proof {
            lemma_digits_end_bounds(src, i + 1);
            assert(digits_end(src, i) == digits_end(src, i + 1));
        }
        while self.is_digit(self.peek())
            invariant
                self.wf(),
                Self::same_output(*old(self), *self),
                self.line == old(self).line,
                self.start + 1 <= self.current <= src.len(),
                src == self.source@,
                i == self.start as int,
                d1 == digits_end(src, self.current as int),
            decreases src.len() - self.current,
        {
            proof {
                lemma_digits_end_bounds(src, self.current as int);
            }
            self.advance();
        }
        assert(d1 == self.current as int);
        let p = self.peek();
        let pn = self.peek_next();
        if p == 46 && self.is_digit(pn) {
            // Absorb the decimal point and the fractional digits.
            self.advance();
            let ghost d2 = digits_end(src, d1 + 1);
            proof {
                lemma_digits_end_bounds(src, d1 + 1);
            }
            while self.is_digit(self.peek())
                invariant
                    self.wf(),
                    Self::same_output(*old(self), *self),
                    self.line == old(self).line,
                    self.start + 1 <= self.current <= src.len(),
                    src == self.source@,
                    i == self.start as int,
                    d1 + 1 <= self.current,
                    d2 == digits_end(src, self.current as int),
                decreases src.len() - self.current,
            {
                proof {
                    lemma_digits_end_bounds(src, self.current as int);
                }
                self.advance();
            }
            assert(d2 == self.current as int);
        }
        let text = copy_range(&self.source, self.start, self.current);
        self.add_literal_token(TokenType::Number, Literal::Number(text));
        proof {
            let st = step_number(src, i, old(self).line as nat);
            assert(tokens_view(self.tokens@) =~= tokens_view(old(self).tokens@) + st.tokens);
            assert(diags_view(self.diagnostics@) =~= diags_view(old(self).diagnostics@)
                + st.diags);
        }
    }

    /// Scans the rest of an identifier or keyword; its first byte was
    /// consumed.
    fn identifier(&mut self)
        requires
            old(self).wf(),
            old(self).current == old(self).start + 1,
            old(self).start < old(self).source@.len(),
            spec_is_alpha(old(self).source@[old(self).start as int]),
        ensures
            final(self).wf(),
            Self::step_applied(
                *old(self),
                *final(self),
                step_identifier(old(self).source@, old(self).start as int, old(self).line as nat),
            ),
    {
        let ghost src = self.source@;
        let ghost i = self.start as int;
        let ghost e = ident_end(src, i);
        proof {
            lemma_ident_end_bounds(src, i + 1);
            assert(ident_end(src, i) == ident_end(src, i + 1));
        }
        while self.is_alphanumeric(self.peek())
            invariant
                self.wf(),
                Self::same_output(*old(self), *self),
                self.line == old(self).line,
                self.start + 1 <= self.current <= src.len(),
                src == self.source@,
                i == self.start as int,
                e == ident_end(src, self.current as int),
            decreases src.len() - self.current,
        {
            proof {
                lemma_ident_end_bounds(src, self.current as int);
            }
            self.advance();
        }
        assert(e == self.current as int);
        let text = copy_range(&self.source, self.start, self.current);
        let ty = keyword_type(&text);
        self.add_token(ty);
        proof {
            let st = step_identifier(src, i, old(self).line as nat);
            assert(tokens_view(self.tokens@) =~= tokens_view(old(self).tokens@) + st.tokens);
            assert(diags_view(self.diagnostics@) =~= diags_view(old(self).diagnostics@)
                + st.diags);
        }
    }

    /// Scans exactly one lexeme: reads one byte and dispatches on it.
    fn scan_token(&mut self)
        requires
            old(self).wf(),
            old(self).current < old(self).source@.len(),
            old(self).start == old(self).current,
        ensures
            final(self).wf(),
            final(self).current > old(self).current,
            Self::step_applied(
                *old(self),
                *final(self),
                spec_step(old(self).source@, old(self).current as int, old(self).line as nat),
            ),
    {
        let ghost src = self.source@;
        let ghost i = self.current as int;
        let ghost line0 = self.line as nat;
        let c = self.advance();
        match c {
            32 | 9 | 13 => {},  // space, tab, carriage return
            10 => {
                self.line = self.line + 1;
            },
            40 => self.add_token(TokenType::LeftParen),
            41 => self.add_token(TokenType::RightParen),
            123 => self.add_token(TokenType::LeftBrace),
            125 => self.add_token(TokenType::RightBrace),
            44 => self.add_token(TokenType::Comma),
            46 => self.add_token(TokenType::Dot),
            45 => self.add_token(TokenType::Minus),
            43 => self.add_token(TokenType::Plus),
            59 => self.add_token(TokenType::Semicolon),
            42 => self.add_token(TokenType::Star),
            33 => {  // !
                let two = self.matches(61);
                self.add_token(
                    if two {
                        TokenType::BangEqual
                    } else {
                        TokenType::Bang
                    },
                );
            },
            61 => {  // =
                let two = self.matches(61);
                self.add_token(
                    if two {
                        TokenType::EqualEqual
                    } else {
                        TokenType::Equal
                    },
                );
            },
            60 => {  // <
                let two = self.matches(61);
                self.add_token(
                    if two {
                        TokenType::LessEqual
                    } else {
                        TokenType::Less
                    },
                );
            },
            62 => {  // >
                let two = self.matches(61);
                self.add_token(
                    if two {
                        TokenType::GreaterEqual
                    } else {
                        TokenType::Greater
                    },
                );
            },
            47 => {  // /
                let is_comment = self.matches(47);
                if is_comment {
                    // A line comment runs to the end of the line.
                    while self.peek() != 10 && !self.at_end()
                        invariant
                            self.wf(),
                            Self::same_output(*old(self), *self),
                            self.line == old(self).line,
                            src == self.source@,
                            i + 2 <= self.current <= src.len(),
                            comment_end(src, i + 2) == comment_end(src, self.current as int),
                        decreases src.len() - self.current,
                    {
                        proof {
                            lemma_comment_end_bounds(src, self.current as int);
                        }
                        self.advance();
                    }
                } else {
                    self.add_token(TokenType::Slash);
                }
            },
            34 => self.string(),  // "
            _ => {
                if self.is_digit(c) {
                    self.number();
                } else if self.is_alpha(c) {
                    self.identifier();
                } else {
                    // No lexeme class matches: report and skip the byte.
                    let d = Diagnostic {
                        kind: DiagnosticKind::UnexpectedCharacter(c),
                        line: self.line,
                    };
                    self.diagnostics.push(d);
                    proof {
                        assert(diags_view(self.diagnostics@) =~= diags_view(
                            old(self).diagnostics@,
                        ).push(d@));
                    }
                }
            },
        }
        proof {
            lemma_step_progress(src, i, line0);
            let st = spec_step(src, i, line0);
            assert(tokens_view(self.tokens@) =~= tokens_view(old(self).tokens@) + st.tokens);
            assert(diags_view(self.diagnostics@) =~= diags_view(old(self).diagnostics@)
                + st.diags);
        }
    }

    /// Scans the whole source: one token per lexeme, in source order, closed
    /// by the end-of-input token; one diagnostic per lexical error. The
    /// result is exactly the model [`spec_scan`] of the source.
    pub fn scan(self) -> (r: (Vec<Token>, Vec<Diagnostic>))
        requires
            self.ready(),
        ensures
            tokens_view(r.0@) == spec_scan(self.src(), 0, 1).tokens,
            diags_view(r.1@) == spec_scan(self.src(), 0, 1).diags,
    {
        let mut s = self;
        let ghost src = s.source@;
        proof {
            assert(tokens_view(s.tokens@) =~= Seq::<SpecToken>::empty());
            assert(diags_view(s.diagnostics@) =~= Seq::<SpecDiagnostic>::empty());
            assert(Seq::<SpecToken>::empty() + spec_scan(src, 0, 1).tokens =~= spec_scan(
                src,
                0,
                1,
            ).tokens);
            assert(Seq::<SpecDiagnostic>::empty() + spec_scan(src, 0, 1).diags =~= spec_scan(
                src,
                0,
                1,
            ).diags);
        }
        while !s.at_end()
            invariant
                s.wf(),
                s.source@ == src,
                spec_scan(src, 0, 1).tokens == tokens_view(s.tokens@) + spec_scan(
                    src,
                    s.current as int,
                    s.line as nat,
                ).tokens,
                spec_scan(src, 0, 1).diags == diags_view(s.diagnostics@) + spec_scan(
                    src,
                    s.current as int,
                    s.line as nat,
                ).diags,
            decreases src.len() - s.current,
        {
            s.start = s.current;
            let ghost pre = s;
            s.scan_token();
            proof {
                let st = spec_step(src, pre.current as int, pre.line as nat);
                lemma_step_progress(src, pre.current as int, pre.line as nat);
                assert(spec_scan(src, pre.current as int, pre.line as nat).tokens == st.tokens
                    + spec_scan(src, st.next, st.line).tokens);
                assert(spec_scan(src, pre.current as int, pre.line as nat).diags == st.diags
                    + spec_scan(src, st.next, st.line).diags);
                assert(tokens_view(pre.tokens@) + (st.tokens + spec_scan(
                    src,
                    st.next,
                    st.line,
                ).tokens) =~= (tokens_view(pre.tokens@) + st.tokens) + spec_scan(
                    src,
                    st.next,
                    st.line,
                ).tokens);
                assert(diags_view(pre.diagnostics@) + (st.diags + spec_scan(
                    src,
                    st.next,
                    st.line,
                ).diags) =~= (diags_view(pre.diagnostics@) + st.diags) + spec_scan(
                    src,
                    st.next,
                    st.line,
                ).diags);
            }
        }
        let ghost before = s;
        let eof_lexeme: Vec<u8> = Vec::new();
        let token = Token::new(TokenType::Eof, eof_lexeme, None, s.line);
        s.tokens.push(token);
        proof {
            assert(spec_scan(src, before.current as int, before.line as nat).tokens =~= seq![
                eof_token(before.line as nat),
            ]);
            assert(spec_scan(src, before.current as int, before.line as nat).diags =~= Seq::<
                SpecDiagnostic,
            >::empty());
            assert(token@ == eof_token(before.line as nat));
            assert(tokens_view(s.tokens@) =~= tokens_view(before.tokens@) + seq![
                eof_token(before.line as nat),
            ]);
            assert(diags_view(s.diagnostics@) + Seq::<SpecDiagnostic>::empty()
                =~= diags_view(s.diagnostics@));
        }
        (s.tokens, s.diagnostics)
    }
}

/// Extending the counted range by one byte on the right adds one newline
/// exactly when that byte is one.
proof fn lemma_newlines_extend(src: Seq<u8>, a: int, b: int)
    requires
        0 <= a <= b,
        b < src.len(),
    ensures
        newlines_in(src, a, b + 1) == newlines_in(src, a, b) + (if src[b] == 10 {
            1nat
        } else {
            0nat
        }),
    decreases b - a,
{
    if a < b {
        lemma_newlines_extend(src, a + 1, b);
    } else {
        assert(newlines_in(src, a + 1, b + 1) == 0);
    }
}

/// Reclassifies an identifier-shaped lexeme against the keyword table.
fn keyword_type(text: &Vec<u8>) -> (ty: TokenType)
    ensures
        ty == spec_identifier_type(text@),
{
    let n = text.len();
    if n == 2 {
        if text[0] == 105 && text[1] == 102 {
            assert(text@ =~= seq![105u8, 102]);
            return TokenType::If;  // "if"
        }
        if text[0] == 111 && text[1] == 114 {
            assert(text@ =~= seq![111u8, 114]);
            return TokenType::Or;  // "or"
        }
    } else if n == 3 {
        if text[0] == 97 && text[1] == 110 && text[2] == 100 {
            assert(text@ =~= seq![97u8, 110, 100]);
            return TokenType::And;  // "and"
        }
        if text[0] == 102 && text[1] == 111 && text[2] == 114 {
            assert(text@ =~= seq![102u8, 111, 114]);
            return TokenType::For;  // "for"
        }
        if text[0] == 102 && text[1] == 117 && text[2] == 110 {
            assert(text@ =~= seq![102u8, 117, 110]);
            return TokenType::Fun;  // "fun"
        }
        if text[0] == 110 && text[1] == 105 && text[2] == 108 {
            assert(text@ =~= seq![110u8, 105, 108]);
            return TokenType::Nil;  // "nil"
        }
        if text[0] == 118 && text[1] == 97 && text[2] == 114 {
            assert(text@ =~= seq![118u8, 97, 114]);
            return TokenType::Var;  // "var"
        }
    } else if n == 4 {
        if text[0] == 101 && text[1] == 108 && text[2] == 115 && text[3] == 101 {
            assert(text@ =~= seq![101u8, 108, 115, 101]);
            return TokenType::Else;  // "else"
        }
        if text[0] == 116 && text[1] == 104 && text[2] == 105 && text[3] == 115 {
            assert(text@ =~= seq![116u8, 104, 105, 115]);
            return TokenType::This;  // "this"
        }
        if text[0] == 116 && text[1] == 114 && text[2] == 117 && text[3] == 101 {
            assert(text@ =~= seq![116u8, 114, 117, 101]);
            return TokenType::True;  // "true"
        }
    } else if n == 5 {
        if text[0] == 99 && text[1] == 108 && text[2] == 97 && text[3] == 115 && text[4] == 115 {
            assert(text@ =~= seq![99u8, 108, 97, 115, 115]);
            return TokenType::Class;  // "class"
        }
        if text[0] == 102 && text[1] == 97 && text[2] == 108 && text[3] == 115 && text[4] == 101 {
            assert(text@ =~= seq![102u8, 97, 108, 115, 101]);
            return TokenType::False;  // "false"
        }
        if text[0] == 112 && text[1] == 114 && text[2] == 105 && text[3] == 110 && text[4] == 116 {
            assert(text@ =~= seq![112u8, 114, 105, 110, 116]);
            return TokenType::Print;  // "print"
        }
        if text[0] == 115 && text[1] == 117 && text[2] == 112 && text[3] == 101 && text[4] == 114 {
            assert(text@ =~= seq![115u8, 117, 112, 101, 114]);
            return TokenType::Super;  // "super"
        }
        if text[0] == 119 && text[1] == 104 && text[2] == 105 && text[3] == 108 && text[4] == 101 {
            assert(text@ =~= seq![119u8, 104, 105, 108, 101]);
            return TokenType::While;  // "while"
        }
    } else if n == 6 {
        if text[0] == 114 && text[1] == 101 && text[2] == 116 && text[3] == 117 && text[4] == 114
            && text[5] == 110 {
            assert(text@ =~= seq![114u8, 101, 116, 117, 114, 110]);
            return TokenType::Return;  // "return"
        }
    }
    TokenType::Identifier
}

} // verus!
