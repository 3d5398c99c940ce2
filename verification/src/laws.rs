//! Laws of the scan, stated and proved against the model in `crate::scan`.
use vstd::prelude::*;

use crate::scan::{
    is_digit_char, is_ident_start, keyword_kind, lemma_run_end, lemma_step_bounds, opt_token_seq,
    run_end, scan_pieces, scan_rest, scan_source, scan_step, spec_eof, RunPred, SpecPiece,
};
use crate::token::TokenType;
use crate::value::SpecValue;

verus! {

/// Whether the text from `pos` on consists solely of whitespace, newlines
/// and line comments.
pub open spec fn trivia_only(src: Seq<char>, pos: int) -> bool
    decreases src.len() - pos,
{
    if pos < 0 || pos >= src.len() {
        true
    } else {
        let c = src[pos];
        if c == ' ' || c == '\r' || c == '\t' || c == '\n' {
            trivia_only(src, pos + 1)
        } else if c == '/' && pos + 1 < src.len() && src[pos + 1] == '/' {
            proof {
                lemma_run_end(src, pos + 2, RunPred::NotNewline);
            }
            trivia_only(src, run_end(src, pos + 2, RunPred::NotNewline))
        } else {
            false
        }
    }
}

proof fn lemma_trivia_rec(src: Seq<char>, pos: int, line: int)
    requires
        0 <= pos <= src.len(),
        trivia_only(src, pos),
    ensures
        scan_rest(src, pos, line).tokens.len() == 1,
        scan_rest(src, pos, line).tokens[0].kind == TokenType::Eof,
        scan_rest(src, pos, line).diags.len() == 0,
    decreases src.len() - pos,
{
    if pos < src.len() {
        let c = src[pos];
        lemma_step_bounds(src, pos, line);
        let st = scan_step(src, pos, line);
        if c == ' ' || c == '\r' || c == '\t' || c == '\n' {
            lemma_trivia_rec(src, pos + 1, st.line);
        } else {
            lemma_run_end(src, pos + 2, RunPred::NotNewline);
            lemma_trivia_rec(src, run_end(src, pos + 2, RunPred::NotNewline), st.line);
        }
    }
}

/// Law: a source consisting solely of whitespace and comments scans to
/// exactly one token, the end-of-input sentinel, and to no diagnostics.
pub proof fn lemma_trivia_scan(src: Seq<char>)
    requires
        trivia_only(src, 0),
    ensures
        scan_source(src).tokens.len() == 1,
        scan_source(src).tokens[0].kind == TokenType::Eof,
        scan_source(src).diags.len() == 0,
{
    lemma_trivia_rec(src, 0, 1);
}

/// Whether every character of `s` is a decimal digit.
pub open spec fn all_digits(s: Seq<char>) -> bool {
    forall|i: int| 0 <= i < s.len() ==> is_digit_char(s[i])
}

/// Whether `s` matches the numeral grammar `digits ('.' digits)?`, with
/// both digit runs nonempty.
pub open spec fn is_numeral(s: Seq<char>) -> bool {
    (s.len() > 0 && all_digits(s)) || (exists|k: int|
        0 < k < s.len() - 1 && #[trigger] s[k] == '.' && all_digits(s.subrange(0, k))
            && all_digits(s.subrange(k + 1, s.len() as int)))
}

/// Law: at a digit the scanner emits a `Number` token whose literal value
/// is exactly its lexeme text, the lexeme matches the numeral grammar and
/// cannot be extended by a further digit, and a trailing `.` not followed
/// by a digit is left unconsumed.
pub proof fn lemma_number_token(src: Seq<char>, pos: int, line: int)
    requires
        0 <= pos < src.len(),
        is_digit_char(src[pos]),
    ensures
        ({
            let st = scan_step(src, pos, line);
            &&& st.token is Some
            &&& st.token.unwrap().kind == TokenType::Number
            &&& st.token.unwrap().line == line
            &&& st.token.unwrap().lexeme == src.subrange(pos, st.next)
            &&& st.token.unwrap().literal == Option::Some(
                SpecValue::Number(st.token.unwrap().lexeme),
            )
            &&& pos < st.next <= src.len()
            &&& is_numeral(st.token.unwrap().lexeme)
            &&& st.next < src.len() ==> !is_digit_char(src[st.next])
            &&& (all_digits(st.token.unwrap().lexeme) && st.next < src.len() && src[st.next]
                == '.') ==> !(st.next + 1 < src.len() && is_digit_char(src[st.next + 1]))
        }),
{
    lemma_step_bounds(src, pos, line);
    lemma_run_end(src, pos + 1, RunPred::Digit);
    let st = scan_step(src, pos, line);
    let int_end = run_end(src, pos + 1, RunPred::Digit);
    let lex = src.subrange(pos, st.next);
    if int_end + 1 < src.len() && src[int_end] == '.' && is_digit_char(src[int_end + 1]) {
        lemma_run_end(src, int_end + 1, RunPred::Digit);
        let end = run_end(src, int_end + 1, RunPred::Digit);
        let k = int_end - pos;
        assert(lex[k] == '.');
        assert(all_digits(lex.subrange(0, k)));
        assert(all_digits(lex.subrange(k + 1, lex.len() as int)));
        assert(is_numeral(lex));
        assert(!all_digits(lex)) by {
            assert(!is_digit_char(lex[k]));
        }
    } else {
        assert(all_digits(lex));
        assert(lex.len() > 0);
    }
}

/// Law: at an identifier-start character that no earlier dispatch case
/// claims, the scanner emits a token for the maximal identifier run, with
/// no literal value; its kind is the reserved keyword's kind when the
/// lexeme equals a keyword spelling, and `Identifier` otherwise.
pub proof fn lemma_identifier_token(src: Seq<char>, pos: int, line: int)
    requires
        0 <= pos < src.len(),
        is_ident_start(src[pos]),
        !is_digit_char(src[pos]),
        !dispatch_char(src[pos]),
    ensures
        ({
            let st = scan_step(src, pos, line);
            let end = run_end(src, pos + 1, RunPred::IdentCont);
            &&& st.token is Some
            &&& st.token.unwrap().lexeme == src.subrange(pos, end)
            &&& st.token.unwrap().literal is None
            &&& st.token.unwrap().line == line
            &&& (keyword_kind(st.token.unwrap().lexeme) matches Some(k) ==> st.token.unwrap().kind
                == k)
            &&& (keyword_kind(st.token.unwrap().lexeme) is None ==> st.token.unwrap().kind
                == TokenType::Identifier)
        }),
{
}

/// The characters the dispatcher recognizes before digits and identifiers
/// are considered.
pub open spec fn dispatch_char(c: char) -> bool {
    c == '(' || c == ')' || c == '{' || c == '}' || c == ',' || c == '.' || c == '-' || c == '+'
        || c == ';' || c == '*' || c == '!' || c == '=' || c == '<' || c == '>' || c == '/' || c
        == ' ' || c == '\r' || c == '\t' || c == '\n' || c == '"'
}

/// One step never emits the sentinel, and its line numbers move forward:
/// the token's line lies between the line at entry and the line after the
/// step.
proof fn lemma_step_token_shape(src: Seq<char>, pos: int, line: int)
    requires
        0 <= pos < src.len(),
    ensures
        ({
            let st = scan_step(src, pos, line);
            &&& line <= st.line
            &&& (st.token matches Some(t) ==> t.kind != TokenType::Eof && line <= t.line
                <= st.line)
        }),
{
    crate::scan::lemma_newlines_nonneg(
        src,
        pos + 1,
        run_end(src, pos + 1, crate::scan::RunPred::NotQuote),
    );
}

/// Law: the token sequence of any scan holds the end-of-input sentinel
/// exactly once, in the last position, and the lines of successive tokens
/// never decrease; no token's line is below the line at which the scan
/// began, nor above the final line.
pub proof fn lemma_scan_shape(src: Seq<char>, pos: int, line: int)
    requires
        0 <= pos <= src.len(),
    ensures
        ({
            let r = scan_rest(src, pos, line);
            &&& r.tokens.len() >= 1
            &&& r.tokens[r.tokens.len() - 1] == spec_eof(r.line)
            &&& forall|i: int|
                0 <= i < r.tokens.len() - 1 ==> (#[trigger] r.tokens[i]).kind != TokenType::Eof
            &&& line <= r.line
            &&& forall|i: int|
                0 <= i < r.tokens.len() ==> line <= (#[trigger] r.tokens[i]).line <= r.line
            &&& forall|i: int, j: int|
                0 <= i <= j < r.tokens.len() ==> (#[trigger] r.tokens[i]).line <= (
                #[trigger] r.tokens[j]).line
        }),
    decreases src.len() - pos,
{
    let r = scan_rest(src, pos, line);
    if pos < src.len() {
        lemma_step_bounds(src, pos, line);
        lemma_step_token_shape(src, pos, line);
        let st = scan_step(src, pos, line);
        lemma_scan_shape(src, st.next, st.line);
        let rest = scan_rest(src, st.next, st.line);
        assert(r.tokens == opt_token_seq(st.token) + rest.tokens);
        assert forall|i: int|
            0 <= i < r.tokens.len() implies line <= (#[trigger] r.tokens[i]).line <= r.line by {
            if i >= opt_token_seq(st.token).len() {
                assert(r.tokens[i] == rest.tokens[i - opt_token_seq(st.token).len()]);
            }
        }
        assert forall|i: int, j: int|
            0 <= i <= j < r.tokens.len() implies (#[trigger] r.tokens[i]).line <= (
        #[trigger] r.tokens[j]).line by {
            let n = opt_token_seq(st.token).len();
            if i >= n {
                assert(r.tokens[i] == rest.tokens[i - n]);
            }
            if j >= n {
                assert(r.tokens[j] == rest.tokens[j - n]);
            }
        }
    }
}

/// The concatenation of the texts of `ps`, in order.
pub open spec fn pieces_text(ps: Seq<SpecPiece>) -> Seq<char>
    decreases ps.len(),
{
    if ps.len() == 0 {
        Seq::empty()
    } else {
        ps[0].text + pieces_text(ps.drop_first())
    }
}

/// The tokens carried by `ps`, in order.
pub open spec fn piece_tokens(ps: Seq<SpecPiece>) -> Seq<crate::token::SpecToken>
    decreases ps.len(),
{
    if ps.len() == 0 {
        Seq::empty()
    } else {
        opt_token_seq(ps[0].token) + piece_tokens(ps.drop_first())
    }
}

/// Every emitted token's lexeme is exactly the span the step consumed.
proof fn lemma_step_token_span(src: Seq<char>, pos: int, line: int)
    requires
        0 <= pos < src.len(),
    ensures
        scan_step(src, pos, line).token matches Some(t) ==> t.lexeme == src.subrange(
            pos,
            scan_step(src, pos, line).next,
        ),
{
}

proof fn lemma_partition_rec(src: Seq<char>, pos: int, line: int)
    requires
        0 <= pos <= src.len(),
    ensures
        ({
            let ps = scan_pieces(src, pos, line);
            let r = scan_rest(src, pos, line);
            &&& pieces_text(ps) == src.subrange(pos, src.len() as int)
            &&& r.tokens == piece_tokens(ps).push(spec_eof(r.line))
            &&& forall|i: int|
                0 <= i < ps.len() ==> ((#[trigger] ps[i]).token matches Some(t) ==> t.lexeme
                    == ps[i].text)
        }),
    decreases src.len() - pos,
{
    let ps = scan_pieces(src, pos, line);
    let r = scan_rest(src, pos, line);
    if pos >= src.len() {
        assert(pieces_text(ps) =~= src.subrange(pos, src.len() as int));
        assert(r.tokens =~= piece_tokens(ps).push(spec_eof(r.line)));
    } else {
        lemma_step_bounds(src, pos, line);
        lemma_step_token_span(src, pos, line);
        let st = scan_step(src, pos, line);
        lemma_partition_rec(src, st.next, st.line);
        let rest_ps = scan_pieces(src, st.next, st.line);
        let rest_r = scan_rest(src, st.next, st.line);
        let p0 = SpecPiece { text: src.subrange(pos, st.next), token: st.token };
        assert(ps[0] == p0);
        assert(ps.drop_first() =~= rest_ps);
        assert(src.subrange(pos, st.next) + src.subrange(st.next, src.len() as int)
            =~= src.subrange(pos, src.len() as int));
        assert(opt_token_seq(st.token) + piece_tokens(rest_ps).push(spec_eof(rest_r.line)) =~= (
        opt_token_seq(st.token) + piece_tokens(rest_ps)).push(spec_eof(rest_r.line)));
        assert forall|i: int|
            0 <= i < ps.len() implies ((#[trigger] ps[i]).token matches Some(t) ==> t.lexeme
            == ps[i].text) by {
            if i > 0 {
                assert(ps[i] == rest_ps[i - 1]);
            }
        }
    }
}

/// Law: partitioning is idempotent.  Each scan step consumes one span of
/// the source; concatenating the spans — every emitted token's lexeme and
/// every skipped whitespace, comment or error span, in their original
/// order — reconstructs the source exactly, and the tokens carried by the
/// spans are precisely the scan's tokens with the sentinel appended last.
pub proof fn lemma_partition(src: Seq<char>)
    ensures
        ({
            let ps = scan_pieces(src, 0, 1);
            let r = scan_source(src);
            &&& pieces_text(ps) == src
            &&& r.tokens == piece_tokens(ps).push(spec_eof(r.line))
            &&& forall|i: int|
                0 <= i < ps.len() ==> ((#[trigger] ps[i]).token matches Some(t) ==> t.lexeme
                    == ps[i].text)
        }),
{
    lemma_partition_rec(src, 0, 1);
    assert(src.subrange(0, src.len() as int) =~= src);
}

} // verus!

