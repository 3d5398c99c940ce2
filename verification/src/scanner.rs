//! The executable scanner, verified against the model in `crate::scan`.
use vstd::prelude::*;

use crate::scan::{
    diags_view, identifier_step, is_digit_char, is_digit_char_exec, keyword_kind,
    lemma_diags_view_push, lemma_newlines_snoc, lemma_run_end, lemma_run_end_pin,
    lemma_step_bounds, newlines_in, number_step, opt_diag_seq, opt_token_seq, run_end, scan_rest,
    scan_step, spec_eof, string_step, Diagnostic, LexError, RunPred,
};
use crate::strutil::{char_is_alphabetic, char_is_alphanumeric, chars_to_string, str_eq_str};
use crate::token::{lemma_tokens_view_push, tokens_view, SpecToken, Token, TokenType};
use crate::value::{opt_value_view, Value};
use vstd::string::StrSliceExecFns;

verus! {

/// Appending one element is the same as adding a singleton sequence.
proof fn lemma_seq_push_add<T>(s: Seq<T>, x: T)
    ensures
        s.push(x) == s + seq![x],
{
    assert(s.push(x) =~= s + seq![x]);
}

/// Adding the empty sequence changes nothing.
proof fn lemma_seq_add_empty<T>(s: Seq<T>)
    ensures
        s + Seq::<T>::empty() == s,
{
    assert(s + Seq::<T>::empty() =~= s);
}

/// The reserved-word kind for an identifier spelling, if there is one.
pub fn keyword_token_type(text: &str) -> (r: Option<TokenType>)
    ensures
        r == keyword_kind(text@),
{
    if str_eq_str(text, "and") {
        Option::Some(TokenType::And)
    } else if str_eq_str(text, "class") {
        Option::Some(TokenType::Class)
    } else if str_eq_str(text, "else") {
        Option::Some(TokenType::Else)
    } else if str_eq_str(text, "false") {
        Option::Some(TokenType::False)
    } else if str_eq_str(text, "for") {
        Option::Some(TokenType::For)
    } else if str_eq_str(text, "fun") {
        Option::Some(TokenType::Fun)
    } else if str_eq_str(text, "if") {
        Option::Some(TokenType::If)
    } else if str_eq_str(text, "nil") {
        Option::Some(TokenType::Nil)
    } else if str_eq_str(text, "or") {
        Option::Some(TokenType::Or)
    } else if str_eq_str(text, "print") {
        Option::Some(TokenType::Print)
    } else if str_eq_str(text, "return") {
        Option::Some(TokenType::Return)
    } else if str_eq_str(text, "super") {
        Option::Some(TokenType::Super)
    } else if str_eq_str(text, "this") {
        Option::Some(TokenType::This)
    } else if str_eq_str(text, "true") {
        Option::Some(TokenType::True)
    } else if str_eq_str(text, "var") {
        Option::Some(TokenType::Var)
    } else if str_eq_str(text, "while") {
        Option::Some(TokenType::While)
    } else {
        Option::None
    }
}

/// A single-pass scanner over a pre-decoded character buffer.
///
/// The scanner owns the source characters, a cursor (`start` marks the
/// beginning of the lexeme being scanned, `current` the next unconsumed
/// character), a 1-based line counter, and the tokens and diagnostics
/// accumulated so far.  One instance performs one scan and is then
/// discarded.
pub struct Scanner {
    pub source: Vec<char>,
    pub tokens: Vec<Token>,
    pub diagnostics: Vec<Diagnostic>,
    pub start: usize,
    pub current: usize,
    pub line: usize,
}

impl Scanner {
    /// Cursor sanity: offsets stay within the text and the line counter
    /// cannot outrun the cursor.
    pub open spec fn wf(&self) -> bool {
        &&& self.start <= self.current
        &&& self.current <= self.source@.len()
        &&& self.source@.len() < usize::MAX
        &&& 1 <= self.line
        &&& self.line <= self.current + 1
    }

    /// Builds a scanner over the characters of `source`, positioned at the
    /// start, on line one, with nothing emitted yet.
    pub fn new(source: &str) -> (s: Scanner)
        requires
            source@.len() < usize::MAX,
        ensures
            s.wf(),
            s.source@ == source@,
            s.tokens@ == Seq::<Token>::empty(),
            s.diagnostics@ == Seq::<Diagnostic>::empty(),
            s.start == 0,
            s.current == 0,
            s.line == 1,
    {
        let n = source.unicode_len();
        let mut chars: Vec<char> = Vec::new();
        proof {
            assert(chars@ =~= source@.subrange(0, 0));
        }
        let mut i: usize = 0;
        while i < n
            invariant
                i <= n,
                n == source@.len(),
                chars@ == source@.subrange(0, i as int),
            decreases n - i,
        {
            let c = source.get_char(i);
            chars.push(c);
            proof {
                assert(source@.subrange(0, i as int).push(source@[i as int]) =~= source@.subrange(
                    0,
                    i as int + 1,
                ));
            }
            i = i + 1;
        }
        proof {
            assert(source@.subrange(0, n as int) =~= source@);
        }
        Scanner {
            source: chars,
            tokens: Vec::new(),
            diagnostics: Vec::new(),
            start: 0,
            current: 0,
            line: 1,
        }
    }

    /// Whether the cursor has consumed the whole text.
    fn is_at_end(&self) -> (r: bool)
        ensures
            r == (self.current >= self.source@.len()),
    {
        self.current >= self.source.len()
    }

    /// Consumes and returns the next character.
    fn advance(&mut self) -> (c: char)
        requires
            old(self).wf(),
            old(self).current < old(self).source@.len(),
        ensures
            final(self).wf(),
            c == old(self).source@[old(self).current as int],
            final(self).current == old(self).current + 1,
            final(self).source@ == old(self).source@,
            final(self).tokens@ == old(self).tokens@,
            final(self).diagnostics@ == old(self).diagnostics@,
            final(self).start == old(self).start,
            final(self).line == old(self).line,
    {
        let c = self.source[self.current];
        self.current = self.current + 1;
        c
    }

    /// Consumes the next character only if it equals `expected`.
    fn is_match(&mut self, expected: char) -> (r: bool)
        requires
            old(self).wf(),
        ensures
            final(self).wf(),
            r == (old(self).current < old(self).source@.len() && old(self).source@[old(
                self,
            ).current as int] == expected),
            final(self).current as int == if r {
                old(self).current + 1
            } else {
                old(self).current as int
            },
            final(self).source@ == old(self).source@,
            final(self).tokens@ == old(self).tokens@,
            final(self).diagnostics@ == old(self).diagnostics@,
            final(self).start == old(self).start,
            final(self).line == old(self).line,
    {
        if self.is_at_end() {
            false
        } else {
            let c = self.source[self.current];
            if c != expected {
                false
            } else {
                self.current = self.current + 1;
                true
            }
        }
    }

    /// The character `look_ahead` positions past the cursor, without
    /// consuming; the NUL sentinel at or past the end of the text.
    fn peek(&self, look_ahead: usize) -> (c: char)
        requires
            self.wf(),
        ensures
            c == (if self.current + look_ahead < self.source@.len() {
                self.source@[self.current + look_ahead]
            } else {
                '\0'
            }),
    {
        if self.current >= self.source.len() {
            '\0'
        } else if look_ahead < self.source.len() - self.current {
            self.source[self.current + look_ahead]
        } else {
            '\0'
        }
    }

    /// Emits a token of the given kind spanning the current lexeme
    /// `source[start..current]`, carrying `value` and the current line.
    fn add_token(&mut self, token_type: TokenType, value: Option<Value>)
        requires
            old(self).wf(),
        ensures
            final(self).wf(),
            final(self).source@ == old(self).source@,
            final(self).diagnostics@ == old(self).diagnostics@,
            final(self).start == old(self).start,
            final(self).current == old(self).current,
            final(self).line == old(self).line,
            tokens_view(final(self).tokens@) == tokens_view(old(self).tokens@).push(
                (SpecToken {
                    kind: token_type,
                    lexeme: old(self).source@.subrange(
                        old(self).start as int,
                        old(self).current as int,
                    ),
                    literal: opt_value_view(value),
                    line: old(self).line as int,
                }),
            ),
    {
        let lexeme = chars_to_string(&self.source, self.start, self.current);
        let token = Token::new(token_type, lexeme.as_str(), value, self.line);
        proof {
            lemma_tokens_view_push(self.tokens@, token);
        }
        self.tokens.push(token);
    }

    /// Scans a string literal; `start` sits on the opening quote, which has
    /// been consumed.  On end of input without a closing quote, reports
    /// `UnterminatedString` and emits nothing.
    fn string(&mut self)
        requires
            old(self).wf(),
            old(self).start + 1 == old(self).current,
            old(self).source@[old(self).start as int] == '"',
        ensures
            final(self).wf(),
            final(self).source@ == old(self).source@,
            final(self).start == old(self).start,
            ({
                let st = string_step(
                    old(self).source@,
                    old(self).start as int,
                    old(self).line as int,
                );
                &&& final(self).current as int == st.next
                &&& final(self).line as int == st.line
                &&& tokens_view(final(self).tokens@) == tokens_view(old(self).tokens@)
                    + opt_token_seq(st.token)
                &&& diags_view(final(self).diagnostics@) == diags_view(old(self).diagnostics@)
                    + opt_diag_seq(st.diag)
            }),
    {
        let ghost src = self.source@;
        let ghost pos = self.start as int;
        let ghost line0 = self.line as int;
        proof {
            lemma_run_end(src, pos + 1, RunPred::NotQuote);
        }
        let ghost body_end = run_end(src, pos + 1, RunPred::NotQuote);
        loop
            invariant
                self.wf(),
                self.source@ == src,
                self.start == old(self).start,
                self.tokens@ == old(self).tokens@,
                self.diagnostics@ == old(self).diagnostics@,
                pos + 1 <= self.current as int <= src.len(),
                pos == self.start as int,
                body_end == run_end(src, pos + 1, RunPred::NotQuote),
                line0 == old(self).line as int,
                forall|j: int| pos + 1 <= j < self.current as int ==> src[j] != '"',
                self.line as int == line0 + newlines_in(src, pos + 1, self.current as int),
            ensures
                self.current as int == body_end,
                self.line as int == line0 + newlines_in(src, pos + 1, body_end),
            decreases src.len() - self.current,
        {
            if self.is_at_end() {
                proof {
                    lemma_run_end_pin(src, pos + 1, RunPred::NotQuote, self.current as int);
                }
                break ;
            }
            let c = self.peek(0);
            if c == '"' {
                proof {
                    lemma_run_end_pin(src, pos + 1, RunPred::NotQuote, self.current as int);
                }
                break ;
            }
            proof {
                lemma_newlines_snoc(src, pos + 1, self.current as int);
            }
            self.advance();
            if c == '\n' {
                self.line = self.line + 1;
            }
        }
        if self.is_at_end() {
            let d = Diagnostic { line: self.line, kind: LexError::UnterminatedString };
            proof {
                lemma_diags_view_push(self.diagnostics@, d);
            }
            self.diagnostics.push(d);
            proof {
                lemma_seq_push_add(diags_view(old(self).diagnostics@), d@);
                lemma_seq_add_empty(tokens_view(old(self).tokens@));
            }
            return ;
        }
        self.advance();
        let text = chars_to_string(&self.source, self.start + 1, self.current - 1);
        self.add_token(TokenType::String, Option::Some(Value::String(text)));
        proof {
            let st = string_step(src, pos, line0);
            assert(tokens_view(self.tokens@) =~= tokens_view(old(self).tokens@) + opt_token_seq(
                st.token,
            ));
            lemma_seq_add_empty(diags_view(old(self).diagnostics@));
        }
    }

    /// Scans a number literal; `start` sits on its first digit, which has
    /// been consumed.
    fn number(&mut self)
        requires
            old(self).wf(),
            old(self).start + 1 == old(self).current,
            is_digit_char(old(self).source@[old(self).start as int]),
        ensures
            final(self).wf(),
            final(self).source@ == old(self).source@,
            final(self).start == old(self).start,
            final(self).line == old(self).line,
            ({
                let st = number_step(
                    old(self).source@,
                    old(self).start as int,
                    old(self).line as int,
                );
                &&& final(self).current as int == st.next
                &&& tokens_view(final(self).tokens@) == tokens_view(old(self).tokens@)
                    + opt_token_seq(st.token)
                &&& diags_view(final(self).diagnostics@) == diags_view(old(self).diagnostics@)
                    + opt_diag_seq(st.diag)
            }),
    {
        let ghost src = self.source@;
        let ghost pos = self.start as int;
        proof {
            lemma_run_end(src, pos + 1, RunPred::Digit);
        }
        let ghost int_end = run_end(src, pos + 1, RunPred::Digit);
        loop
            invariant
                self.wf(),
                self.source@ == src,
                self.start == old(self).start,
                self.tokens@ == old(self).tokens@,
                self.diagnostics@ == old(self).diagnostics@,
                self.line == old(self).line,
                pos + 1 <= self.current as int <= src.len(),
                pos == self.start as int,
                int_end == run_end(src, pos + 1, RunPred::Digit),
                forall|j: int| pos + 1 <= j < self.current as int ==> is_digit_char(src[j]),
            ensures
                self.current as int == int_end,
            decreases src.len() - self.current,
        {
            if self.is_at_end() {
                proof {
                    lemma_run_end_pin(src, pos + 1, RunPred::Digit, self.current as int);
                }
                break ;
            }
            let c = self.peek(0);
            if !is_digit_char_exec(c) {
                proof {
                    lemma_run_end_pin(src, pos + 1, RunPred::Digit, self.current as int);
                }
                break ;
            }
            self.advance();
        }
        let take_fraction: bool;
        if self.current + 1 < self.source.len() {
            let cd = self.source[self.current];
            let cn = self.source[self.current + 1];
            take_fraction = cd == '.' && is_digit_char_exec(cn);
        } else {
            take_fraction = false;
        }
        if take_fraction {
            self.advance();
            proof {
                lemma_run_end(src, int_end + 1, RunPred::Digit);
            }
            let ghost end = run_end(src, int_end + 1, RunPred::Digit);
            loop
                invariant
                    self.wf(),
                    self.source@ == src,
                    self.start == old(self).start,
                    self.tokens@ == old(self).tokens@,
                    self.diagnostics@ == old(self).diagnostics@,
                    self.line == old(self).line,
                    int_end + 1 <= self.current as int <= src.len(),
                    pos == self.start as int,
                    0 <= int_end,
                    end == run_end(src, int_end + 1, RunPred::Digit),
                    forall|j: int| int_end + 1 <= j < self.current as int ==> is_digit_char(src[j]),
                ensures
                    self.current as int == end,
                decreases src.len() - self.current,
            {
                if self.is_at_end() {
                    proof {
                        lemma_run_end_pin(src, int_end + 1, RunPred::Digit, self.current as int);
                    }
                    break ;
                }
                let c = self.peek(0);
                if !is_digit_char_exec(c) {
                    proof {
                        lemma_run_end_pin(src, int_end + 1, RunPred::Digit, self.current as int);
                    }
                    break ;
                }
                self.advance();
            }
        }
        let text = chars_to_string(&self.source, self.start, self.current);
        self.add_token(TokenType::Number, Option::Some(Value::Number(text)));
        proof {
            let st = number_step(src, pos, old(self).line as int);
            assert(tokens_view(self.tokens@) =~= tokens_view(old(self).tokens@) + opt_token_seq(
                st.token,
            ));
            lemma_seq_add_empty(diags_view(old(self).diagnostics@));
        }
    }

    /// Scans an identifier or keyword; `start` sits on its first character,
    /// which has been consumed.
    fn identifier(&mut self)
        requires
            old(self).wf(),
            old(self).start + 1 == old(self).current,
        ensures
            final(self).wf(),
            final(self).source@ == old(self).source@,
            final(self).start == old(self).start,
            final(self).line == old(self).line,
            ({
                let st = identifier_step(
                    old(self).source@,
                    old(self).start as int,
                    old(self).line as int,
                );
                &&& final(self).current as int == st.next
                &&& tokens_view(final(self).tokens@) == tokens_view(old(self).tokens@)
                    + opt_token_seq(st.token)
                &&& diags_view(final(self).diagnostics@) == diags_view(old(self).diagnostics@)
                    + opt_diag_seq(st.diag)
            }),
    {
        let ghost src = self.source@;
        let ghost pos = self.start as int;
        proof {
            lemma_run_end(src, pos + 1, RunPred::IdentCont);
        }
        let ghost end = run_end(src, pos + 1, RunPred::IdentCont);
        loop
            invariant
                self.wf(),
                self.source@ == src,
                self.start == old(self).start,
                self.tokens@ == old(self).tokens@,
                self.diagnostics@ == old(self).diagnostics@,
                self.line == old(self).line,
                pos + 1 <= self.current as int <= src.len(),
                pos == self.start as int,
                end == run_end(src, pos + 1, RunPred::IdentCont),
                forall|j: int|
                    pos + 1 <= j < self.current as int ==> crate::scan::is_ident_cont(src[j]),
            ensures
                self.current as int == end,
            decreases src.len() - self.current,
        {
            if self.is_at_end() {
                proof {
                    lemma_run_end_pin(src, pos + 1, RunPred::IdentCont, self.current as int);
                }
                break ;
            }
            let c = self.peek(0);
            if c == '_' {
                self.advance();
            } else {
                let alnum = char_is_alphanumeric(c);
                if alnum {
                    self.advance();
                } else {
                    proof {
                        lemma_run_end_pin(src, pos + 1, RunPred::IdentCont, self.current as int);
                    }
                    break ;
                }
            }
        }
        let lexeme = chars_to_string(&self.source, self.start, self.current);
        let kind = keyword_token_type(lexeme.as_str());
        let token_type = match kind {
            Option::Some(k) => k,
            Option::None => TokenType::Identifier,
        };
        self.add_token(token_type, Option::None);
        proof {
            let st = identifier_step(src, pos, old(self).line as int);
            assert(tokens_view(self.tokens@) =~= tokens_view(old(self).tokens@) + opt_token_seq(
                st.token,
            ));
            lemma_seq_add_empty(diags_view(old(self).diagnostics@));
        }
    }

    /// Scans exactly one lexeme starting at `start == current`: emits one
    /// token, or skips trivia, or records one diagnostic.
    fn scan_token(&mut self)
        requires
            old(self).wf(),
            old(self).start == old(self).current,
            old(self).current < old(self).source@.len(),
        ensures
            final(self).wf(),
            final(self).source@ == old(self).source@,
            final(self).start == old(self).start,
            ({
                let st = scan_step(old(self).source@, old(self).current as int, old(self).line as int);
                &&& final(self).current as int == st.next
                &&& final(self).line as int == st.line
                &&& tokens_view(final(self).tokens@) == tokens_view(old(self).tokens@)
                    + opt_token_seq(st.token)
                &&& diags_view(final(self).diagnostics@) == diags_view(old(self).diagnostics@)
                    + opt_diag_seq(st.diag)
            }),
    {
        let ghost src = self.source@;
        let ghost pos = self.current as int;
        let ghost line0 = self.line as int;
        let ghost st = scan_step(src, pos, line0);
        let c = self.advance();
        match c {
            '(' => self.add_token(TokenType::LeftParen, Option::None),
            ')' => self.add_token(TokenType::RightParen, Option::None),
            '{' => self.add_token(TokenType::LeftBrace, Option::None),
            '}' => self.add_token(TokenType::RightBrace, Option::None),
            ',' => self.add_token(TokenType::Comma, Option::None),
            '.' => self.add_token(TokenType::Dot, Option::None),
            '-' => self.add_token(TokenType::Minus, Option::None),
            '+' => self.add_token(TokenType::Plus, Option::None),
            ';' => self.add_token(TokenType::Semicolon, Option::None),
            '*' => self.add_token(TokenType::Star, Option::None),
            '!' => {
                let matched = self.is_match('=');
                let token_type = if matched {
                    TokenType::BangEqual
                } else {
                    TokenType::Bang
                };
                self.add_token(token_type, Option::None);
            },
            '=' => {
                let matched = self.is_match('=');
                let token_type = if matched {
                    TokenType::EqualEqual
                } else {
                    TokenType::Equal
                };
                self.add_token(token_type, Option::None);
            },
            '<' => {
                let matched = self.is_match('=');
                let token_type = if matched {
                    TokenType::LessEqual
                } else {
                    TokenType::Less
                };
                self.add_token(token_type, Option::None);
            },
            '>' => {
                let matched = self.is_match('=');
                let token_type = if matched {
                    TokenType::GreaterEqual
                } else {
                    TokenType::Greater
                };
                self.add_token(token_type, Option::None);
            },
            '/' => {
                let matched = self.is_match('/');
                if matched {
                    proof {
                        lemma_run_end(src, pos + 2, RunPred::NotNewline);
                    }
                    let ghost comment_end = run_end(src, pos + 2, RunPred::NotNewline);
                    loop
                        invariant
                            self.wf(),
                            self.source@ == src,
                            self.start == old(self).start,
                            self.tokens@ == old(self).tokens@,
                            self.diagnostics@ == old(self).diagnostics@,
                            self.line == old(self).line,
                            0 <= pos,
                            pos + 2 <= self.current as int <= src.len(),
                            comment_end == run_end(src, pos + 2, RunPred::NotNewline),
                            forall|j: int| pos + 2 <= j < self.current as int ==> src[j] != '\n',
                        ensures
                            self.current as int == comment_end,
                        decreases src.len() - self.current,
                    {
                        if self.is_at_end() {
                            proof {
                                lemma_run_end_pin(
                                    src,
                                    pos + 2,
                                    RunPred::NotNewline,
                                    self.current as int,
                                );
                            }
                            break ;
                        }
                        let ch = self.peek(0);
                        if ch == '\n' {
                            proof {
                                lemma_run_end_pin(
                                    src,
                                    pos + 2,
                                    RunPred::NotNewline,
                                    self.current as int,
                                );
                            }
                            break ;
                        }
                        self.advance();
                    }
                } else {
                    self.add_token(TokenType::Slash, Option::None);
                }
            },
            ' ' => (),
            '\r' => (),
            '\t' => (),
            '\n' => {
                self.line = self.line + 1;
            },
            '"' => self.string(),
            _ => {
                if is_digit_char_exec(c) {
                    self.number();
                } else if c == '_' {
                    self.identifier();
                } else {
                    let alpha = char_is_alphabetic(c);
                    if alpha {
                        self.identifier();
                    } else {
                        let d = Diagnostic { line: self.line, kind: LexError::UnexpectedCharacter };
                        proof {
                            lemma_diags_view_push(self.diagnostics@, d);
                        }
                        self.diagnostics.push(d);
                    }
                }
            },
        }
        proof {
            lemma_seq_add_empty(tokens_view(old(self).tokens@));
            lemma_seq_add_empty(diags_view(old(self).diagnostics@));
            assert(tokens_view(self.tokens@) =~= tokens_view(old(self).tokens@) + opt_token_seq(
                st.token,
            ));
            assert(diags_view(self.diagnostics@) =~= diags_view(old(self).diagnostics@)
                + opt_diag_seq(st.diag));
        }
    }

    /// Runs the scan to completion: repeatedly scans one lexeme, then
    /// appends the end-of-input sentinel and yields the tokens.  The token
    /// and diagnostic sequences are exactly those of the model,
    /// `scan_rest` from the scanner's position.
    pub fn scan_tokens(&mut self) -> (tokens: Vec<Token>)
        requires
            old(self).wf(),
        ensures
            final(self).wf(),
            final(self).source@ == old(self).source@,
            final(self).tokens@.len() == 0,
            ({
                let r = scan_rest(old(self).source@, old(self).current as int, old(self).line as int);
                &&& tokens_view(tokens@) == tokens_view(old(self).tokens@) + r.tokens
                &&& diags_view(final(self).diagnostics@) == diags_view(old(self).diagnostics@)
                    + r.diags
                &&& final(self).line as int == r.line
            }),
    {
        let ghost src = self.source@;
        let ghost c0 = self.current as int;
        let ghost l0 = self.line as int;
        loop
            invariant
                self.wf(),
                self.source@ == src,
                tokens_view(old(self).tokens@) + scan_rest(src, c0, l0).tokens == tokens_view(
                    self.tokens@,
                ) + scan_rest(src, self.current as int, self.line as int).tokens,
                diags_view(old(self).diagnostics@) + scan_rest(src, c0, l0).diags == diags_view(
                    self.diagnostics@,
                ) + scan_rest(src, self.current as int, self.line as int).diags,
                scan_rest(src, c0, l0).line == scan_rest(
                    src,
                    self.current as int,
                    self.line as int,
                ).line,
            ensures
                self.current >= src.len(),
                self.wf(),
                self.source@ == src,
                tokens_view(old(self).tokens@) + scan_rest(src, c0, l0).tokens == tokens_view(
                    self.tokens@,
                ) + scan_rest(src, self.current as int, self.line as int).tokens,
                diags_view(old(self).diagnostics@) + scan_rest(src, c0, l0).diags == diags_view(
                    self.diagnostics@,
                ) + scan_rest(src, self.current as int, self.line as int).diags,
                scan_rest(src, c0, l0).line == scan_rest(
                    src,
                    self.current as int,
                    self.line as int,
                ).line,
            decreases src.len() - self.current,
        {
            if self.is_at_end() {
                break ;
            }
            let ghost prev_pos = self.current as int;
            let ghost prev_line = self.line as int;
            let ghost prev_tokens = self.tokens@;
            let ghost prev_diags = self.diagnostics@;
            self.start = self.current;
            self.scan_token();
            proof {
                let st = scan_step(src, prev_pos, prev_line);
                lemma_step_bounds(src, prev_pos, prev_line);
                assert((tokens_view(prev_tokens) + opt_token_seq(st.token)) + scan_rest(
                    src,
                    st.next,
                    st.line,
                ).tokens =~= tokens_view(prev_tokens) + (opt_token_seq(st.token) + scan_rest(
                    src,
                    st.next,
                    st.line,
                ).tokens));
                assert((diags_view(prev_diags) + opt_diag_seq(st.diag)) + scan_rest(
                    src,
                    st.next,
                    st.line,
                ).diags =~= diags_view(prev_diags) + (opt_diag_seq(st.diag) + scan_rest(
                    src,
                    st.next,
                    st.line,
                ).diags));
            }
        }
        let eof = Token::new(TokenType::Eof, "", Option::None, self.line);
        proof {
            lemma_tokens_view_push(self.tokens@, eof);
        }
        self.tokens.push(eof);
        proof {
            reveal_strlit("");
            assert(eof@ =~= spec_eof(self.line as int));
            assert(tokens_view(self.tokens@) =~= tokens_view(old(self).tokens@) + scan_rest(
                src,
                c0,
                l0,
            ).tokens);
            lemma_seq_add_empty(diags_view(self.diagnostics@));
            assert(diags_view(self.diagnostics@) =~= diags_view(old(self).diagnostics@)
                + scan_rest(src, c0, l0).diags);
        }
        let mut out: Vec<Token> = Vec::new();
        core::mem::swap(&mut out, &mut self.tokens);
        out
    }

    /// The diagnostics recorded so far, in the order they were reported.
    pub fn diagnostics(&self) -> (d: &Vec<Diagnostic>)
        ensures
            d@ == self.diagnostics@,
    {
        &self.diagnostics
    }
}

} // verus!
