//! The mathematical model of the scan.
//!
//! `scan_rest` maps a source text (a sequence of characters), a position and
//! a 1-based line counter to the exact sequence of tokens and diagnostics
//! that scanning from that position produces.  The executable `Scanner` is
//! verified against this model.
use vstd::prelude::*;

use crate::strutil::{unicode_alnum, unicode_alpha};
use crate::token::{SpecToken, TokenType};
use crate::value::SpecValue;

verus! {

/// A recoverable lexical error.
#[derive(Clone, Copy, Debug, PartialEq, Eq, Structural)]
pub enum LexError {
    /// End of input was reached inside a string literal.
    UnterminatedString,
    /// A character matched no recognized lexeme class.
    UnexpectedCharacter,
}

impl LexError {
    /// The diagnostic message for this error.
    pub open spec fn spec_message(&self) -> Seq<char> {
        match self {
            LexError::UnterminatedString => "Unterminated string"@,
            LexError::UnexpectedCharacter => "Unexpected character"@,
        }
    }

    /// The diagnostic message for this error.
    pub fn message(&self) -> (m: &'static str)
        ensures
            m@ == self.spec_message(),
    {
        match self {
            LexError::UnterminatedString => "Unterminated string",
            LexError::UnexpectedCharacter => "Unexpected character",
        }
    }
}

/// A diagnostic recorded during scanning: the error kind and the 1-based
/// line on which it was detected.
#[derive(Debug)]
pub struct Diagnostic {
    pub line: usize,
    pub kind: LexError,
}

/// Mathematical model of a `Diagnostic`.
#[verifier::ext_equal]
pub struct SpecDiag {
    pub line: int,
    pub kind: LexError,
}

impl View for Diagnostic {
    type V = SpecDiag;

    open spec fn view(&self) -> SpecDiag {
        SpecDiag { line: self.line as int, kind: self.kind }
    }
}

/// The models of a sequence of diagnostics, in order.
pub open spec fn diags_view(ds: Seq<Diagnostic>) -> Seq<SpecDiag> {
    ds.map_values(|d: Diagnostic| d@)
}

/// Mapping to models commutes with appending one diagnostic.
pub proof fn lemma_diags_view_push(ds: Seq<Diagnostic>, d: Diagnostic)
    ensures
        diags_view(ds.push(d)) == diags_view(ds).push(d@),
{
    assert(diags_view(ds.push(d)) =~= diags_view(ds).push(d@));
}

/// Whether `c` is a decimal digit.
pub open spec fn is_digit_char(c: char) -> bool {
    48 <= c as u32 && c as u32 <= 57
}

/// Whether `c` is a decimal digit.
pub fn is_digit_char_exec(c: char) -> (r: bool)
    ensures
        r == is_digit_char(c),
{
    let u = c as u32;
    48 <= u && u <= 57
}

/// Whether `c` can begin an identifier: an underscore or a letter.
pub open spec fn is_ident_start(c: char) -> bool {
    c == '_' || unicode_alpha(c)
}

/// Whether `c` can continue an identifier: an underscore, letter or digit.
pub open spec fn is_ident_cont(c: char) -> bool {
    c == '_' || unicode_alnum(c)
}

/// The character predicates over which the scanner takes maximal runs.
pub enum RunPred {
    /// Any character other than a double quote (a string literal body).
    NotQuote,
    /// Any character other than a newline (a line comment body).
    NotNewline,
    /// A decimal digit.
    Digit,
    /// An identifier-continuation character.
    IdentCont,
}

/// The predicate a `RunPred` stands for.
pub open spec fn run_pred(p: RunPred, c: char) -> bool {
    match p {
        RunPred::NotQuote => c != '"',
        RunPred::NotNewline => c != '\n',
        RunPred::Digit => is_digit_char(c),
        RunPred::IdentCont => is_ident_cont(c),
    }
}

/// The end of the maximal run of characters satisfying `p` that starts at
/// `i`: the first position at or after `i` whose character fails `p`, or the
/// end of the text.
pub open spec fn run_end(src: Seq<char>, i: int, p: RunPred) -> int
    decreases src.len() - i,
{
    if i < 0 || i >= src.len() {
        i
    } else if run_pred(p, src[i]) {
        run_end(src, i + 1, p)
    } else {
        i
    }
}

/// Bounds and characterization of `run_end`: the run lies within the text,
/// every character in it satisfies the predicate, and the run is maximal.
pub proof fn lemma_run_end(src: Seq<char>, i: int, p: RunPred)
    requires
        0 <= i <= src.len(),
    ensures
        i <= run_end(src, i, p) <= src.len(),
        forall|j: int| i <= j < run_end(src, i, p) ==> run_pred(p, src[j]),
        run_end(src, i, p) < src.len() ==> !run_pred(p, src[run_end(src, i, p)]),
    decreases src.len() - i,
{
    if i < src.len() && run_pred(p, src[i]) {
        lemma_run_end(src, i + 1, p);
    }
}

/// `run_end` is the unique position bounding a maximal satisfying run.
pub proof fn lemma_run_end_pin(src: Seq<char>, i: int, p: RunPred, k: int)
    requires
        0 <= i <= k <= src.len(),
        forall|j: int| i <= j < k ==> run_pred(p, src[j]),
        k == src.len() || !run_pred(p, src[k]),
    ensures
        run_end(src, i, p) == k,
    decreases k - i,
{
    if i < k {
        assert(run_pred(p, src[i]));
        lemma_run_end_pin(src, i + 1, p, k);
    }
}

/// The number of newline characters in `src[lo..hi]`.
pub open spec fn newlines_in(src: Seq<char>, lo: int, hi: int) -> int
    decreases hi - lo,
{
    if lo >= hi {
        0
    } else {
        (if src[lo] == '\n' {
            1int
        } else {
            0int
        }) + newlines_in(src, lo + 1, hi)
    }
}

/// Extending a range by one character on the right adds that character's
/// newline count.
pub proof fn lemma_newlines_snoc(src: Seq<char>, lo: int, hi: int)
    requires
        lo <= hi,
    ensures
        newlines_in(src, lo, hi + 1) == newlines_in(src, lo, hi) + (if src[hi] == '\n' {
            1int
        } else {
            0int
        }),
    decreases hi - lo,
{
    if lo < hi {
        lemma_newlines_snoc(src, lo + 1, hi);
    } else {
        assert(newlines_in(src, hi + 1, hi + 1) == 0);
        assert(newlines_in(src, hi, hi + 1) == (if src[hi] == '\n' {
            1int
        } else {
            0int
        }));
    }
}

/// Newline counts are never negative.
pub proof fn lemma_newlines_nonneg(src: Seq<char>, lo: int, hi: int)
    ensures
        newlines_in(src, lo, hi) >= 0,
    decreases hi - lo,
{
    if lo < hi {
        lemma_newlines_nonneg(src, lo + 1, hi);
    }
}

/// The reserved-word kind for an identifier spelling, if there is one.
pub open spec fn keyword_kind(s: Seq<char>) -> Option<TokenType> {
    if s == "and"@ {
        Option::Some(TokenType::And)
    } else if s == "class"@ {
        Option::Some(TokenType::Class)
    } else if s == "else"@ {
        Option::Some(TokenType::Else)
    } else if s == "false"@ {
        Option::Some(TokenType::False)
    } else if s == "for"@ {
        Option::Some(TokenType::For)
    } else if s == "fun"@ {
        Option::Some(TokenType::Fun)
    } else if s == "if"@ {
        Option::Some(TokenType::If)
    } else if s == "nil"@ {
        Option::Some(TokenType::Nil)
    } else if s == "or"@ {
        Option::Some(TokenType::Or)
    } else if s == "print"@ {
        Option::Some(TokenType::Print)
    } else if s == "return"@ {
        Option::Some(TokenType::Return)
    } else if s == "super"@ {
        Option::Some(TokenType::Super)
    } else if s == "this"@ {
        Option::Some(TokenType::This)
    } else if s == "true"@ {
        Option::Some(TokenType::True)
    } else if s == "var"@ {
        Option::Some(TokenType::Var)
    } else if s == "while"@ {
        Option::Some(TokenType::While)
    } else {
        Option::None
    }
}

/// The effect of scanning exactly one lexeme: where the cursor and the line
/// counter end up, and the token or diagnostic produced, if any.
#[verifier::ext_equal]
pub struct SpecStep {
    pub next: int,
    pub line: int,
    pub token: Option<SpecToken>,
    pub diag: Option<SpecDiag>,
}

/// A step that emits a token spanning `src[pos..next]`.
pub open spec fn token_step(
    src: Seq<char>,
    pos: int,
    line: int,
    next: int,
    kind: TokenType,
    literal: Option<SpecValue>,
) -> SpecStep {
    SpecStep {
        next,
        line,
        token: Option::Some(
            SpecToken { kind, lexeme: src.subrange(pos, next), literal, line },
        ),
        diag: Option::None,
    }
}

/// A step that consumes up to `next` and emits nothing.
pub open spec fn skip_step(next: int, line: int) -> SpecStep {
    SpecStep { next, line, token: Option::None, diag: Option::None }
}

/// A one- or two-character operator: the `=`-suffixed kind if `=` follows,
/// the bare kind otherwise.
pub open spec fn two_char_step(
    src: Seq<char>,
    pos: int,
    line: int,
    with_eq: TokenType,
    bare: TokenType,
) -> SpecStep {
    if pos + 1 < src.len() && src[pos + 1] == '=' {
        token_step(src, pos, line, pos + 2, with_eq, Option::None)
    } else {
        token_step(src, pos, line, pos + 1, bare, Option::None)
    }
}

/// A slash: a line comment if a second slash follows (consumed up to, and
/// excluding, the newline), otherwise a `Slash` token.
pub open spec fn slash_step(src: Seq<char>, pos: int, line: int) -> SpecStep {
    if pos + 1 < src.len() && src[pos + 1] == '/' {
        skip_step(run_end(src, pos + 2, RunPred::NotNewline), line)
    } else {
        token_step(src, pos, line, pos + 1, TokenType::Slash, Option::None)
    }
}

/// A string literal: the body runs to the next `"`.  Newlines inside advance
/// the line counter.  Without a closing quote the step consumes the rest of
/// the input and reports `UnterminatedString`; otherwise the token's literal
/// is the text strictly between the quotes.
pub open spec fn string_step(src: Seq<char>, pos: int, line: int) -> SpecStep {
    let body_end = run_end(src, pos + 1, RunPred::NotQuote);
    let nl = newlines_in(src, pos + 1, body_end);
    if body_end >= src.len() {
        SpecStep {
            next: body_end,
            line: line + nl,
            token: Option::None,
            diag: Option::Some(SpecDiag { line: line + nl, kind: LexError::UnterminatedString }),
        }
    } else {
        SpecStep {
            next: body_end + 1,
            line: line + nl,
            token: Option::Some(
                SpecToken {
                    kind: TokenType::String,
                    lexeme: src.subrange(pos, body_end + 1),
                    literal: Option::Some(SpecValue::Str(src.subrange(pos + 1, body_end))),
                    line: line + nl,
                },
            ),
            diag: Option::None,
        }
    }
}

/// A number literal: a maximal digit run, then a fractional part only if a
/// `.` is followed by a further digit; a trailing `.` is not consumed.  The
/// literal holds the numeral text.
pub open spec fn number_step(src: Seq<char>, pos: int, line: int) -> SpecStep {
    let int_end = run_end(src, pos + 1, RunPred::Digit);
    let end = if int_end + 1 < src.len() && src[int_end] == '.' && is_digit_char(
        src[int_end + 1],
    ) {
        run_end(src, int_end + 1, RunPred::Digit)
    } else {
        int_end
    };
    token_step(
        src,
        pos,
        line,
        end,
        TokenType::Number,
        Option::Some(SpecValue::Number(src.subrange(pos, end))),
    )
}

/// An identifier or keyword: a maximal identifier run, classified by the
/// keyword table.
pub open spec fn identifier_step(src: Seq<char>, pos: int, line: int) -> SpecStep {
    let end = run_end(src, pos + 1, RunPred::IdentCont);
    let kind = match keyword_kind(src.subrange(pos, end)) {
        Option::Some(k) => k,
        Option::None => TokenType::Identifier,
    };
    token_step(src, pos, line, end, kind, Option::None)
}

/// One dispatch of the scanner on the character at `pos`.
pub open spec fn scan_step(src: Seq<char>, pos: int, line: int) -> SpecStep
    recommends
        0 <= pos < src.len(),
{
    let c = src[pos];
    if c == '(' {
        token_step(src, pos, line, pos + 1, TokenType::LeftParen, Option::None)
    } else if c == ')' {
        token_step(src, pos, line, pos + 1, TokenType::RightParen, Option::None)
    } else if c == '{' {
        token_step(src, pos, line, pos + 1, TokenType::LeftBrace, Option::None)
    } else if c == '}' {
        token_step(src, pos, line, pos + 1, TokenType::RightBrace, Option::None)
    } else if c == ',' {
        token_step(src, pos, line, pos + 1, TokenType::Comma, Option::None)
    } else if c == '.' {
        token_step(src, pos, line, pos + 1, TokenType::Dot, Option::None)
    } else if c == '-' {
        token_step(src, pos, line, pos + 1, TokenType::Minus, Option::None)
    } else if c == '+' {
        token_step(src, pos, line, pos + 1, TokenType::Plus, Option::None)
    } else if c == ';' {
        token_step(src, pos, line, pos + 1, TokenType::Semicolon, Option::None)
    } else if c == '*' {
        token_step(src, pos, line, pos + 1, TokenType::Star, Option::None)
    } else if c == '!' {
        two_char_step(src, pos, line, TokenType::BangEqual, TokenType::Bang)
    } else if c == '=' {
        two_char_step(src, pos, line, TokenType::EqualEqual, TokenType::Equal)
    } else if c == '<' {
        two_char_step(src, pos, line, TokenType::LessEqual, TokenType::Less)
    } else if c == '>' {
        two_char_step(src, pos, line, TokenType::GreaterEqual, TokenType::Greater)
    } else if c == '/' {
        slash_step(src, pos, line)
    } else if c == ' ' || c == '\r' || c == '\t' {
        skip_step(pos + 1, line)
    } else if c == '\n' {
        skip_step(pos + 1, line + 1)
    } else if c == '"' {
        string_step(src, pos, line)
    } else if is_digit_char(c) {
        number_step(src, pos, line)
    } else if is_ident_start(c) {
        identifier_step(src, pos, line)
    } else {
        SpecStep {
            next: pos + 1,
            line,
            token: Option::None,
            diag: Option::Some(SpecDiag { line, kind: LexError::UnexpectedCharacter }),
        }
    }
}

/// Every step consumes at least one character and stays within the text.
pub proof fn lemma_step_bounds(src: Seq<char>, pos: int, line: int)
    requires
        0 <= pos < src.len(),
    ensures
        pos < scan_step(src, pos, line).next <= src.len(),
{
    lemma_run_end(src, pos + 1, RunPred::NotQuote);
    lemma_run_end(src, pos + 1, RunPred::Digit);
    lemma_run_end(src, pos + 1, RunPred::IdentCont);
    lemma_newlines_nonneg(src, pos + 1, run_end(src, pos + 1, RunPred::NotQuote));
    if pos + 2 <= src.len() {
        lemma_run_end(src, pos + 2, RunPred::NotNewline);
    }
    let int_end = run_end(src, pos + 1, RunPred::Digit);
    if int_end + 1 <= src.len() {
        lemma_run_end(src, int_end + 1, RunPred::Digit);
    }
}

/// Everything a full scan yields: the tokens (ending in the end-of-input
/// sentinel), the diagnostics, and the final line counter.
#[verifier::ext_equal]
pub struct SpecScan {
    pub tokens: Seq<SpecToken>,
    pub diags: Seq<SpecDiag>,
    pub line: int,
}

/// The end-of-input sentinel token: empty lexeme, no literal.
pub open spec fn spec_eof(line: int) -> SpecToken {
    SpecToken { kind: TokenType::Eof, lexeme: Seq::empty(), literal: Option::None, line }
}

/// An optional token as a sequence of zero or one tokens.
pub open spec fn opt_token_seq(t: Option<SpecToken>) -> Seq<SpecToken> {
    match t {
        Option::Some(x) => seq![x],
        Option::None => Seq::empty(),
    }
}

/// An optional diagnostic as a sequence of zero or one diagnostics.
pub open spec fn opt_diag_seq(d: Option<SpecDiag>) -> Seq<SpecDiag> {
    match d {
        Option::Some(x) => seq![x],
        Option::None => Seq::empty(),
    }
}

/// The tokens and diagnostics produced by scanning from `pos` with line
/// counter `line` through the end of the text, ending with the sentinel.
pub open spec fn scan_rest(src: Seq<char>, pos: int, line: int) -> SpecScan
    decreases src.len() - pos,
{
    if pos < 0 || pos >= src.len() {
        SpecScan { tokens: seq![spec_eof(line)], diags: Seq::empty(), line }
    } else {
        proof {
            lemma_step_bounds(src, pos, line);
        }
        let st = scan_step(src, pos, line);
        let rest = scan_rest(src, st.next, st.line);
        SpecScan {
            tokens: opt_token_seq(st.token) + rest.tokens,
            diags: opt_diag_seq(st.diag) + rest.diags,
            line: rest.line,
        }
    }
}

/// A whole-text scan: from the start, on line one.
pub open spec fn scan_source(src: Seq<char>) -> SpecScan {
    scan_rest(src, 0, 1)
}

/// One consumed span of the scan: its text, and the token it yielded, if
/// any (a skipped span — trivia or an erroneous character — carries none).
#[verifier::ext_equal]
pub struct SpecPiece {
    pub text: Seq<char>,
    pub token: Option<SpecToken>,
}

/// The spans the scan consumes from `pos` on, in order.
pub open spec fn scan_pieces(src: Seq<char>, pos: int, line: int) -> Seq<SpecPiece>
    decreases src.len() - pos,
{
    if pos < 0 || pos >= src.len() {
        Seq::empty()
    } else {
        proof {
            lemma_step_bounds(src, pos, line);
        }
        let st = scan_step(src, pos, line);
        seq![SpecPiece { text: src.subrange(pos, st.next), token: st.token }] + scan_pieces(
            src,
            st.next,
            st.line,
        )
    }
}

} // verus!
