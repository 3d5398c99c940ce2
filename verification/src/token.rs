//! Tokens and token kinds.
use vstd::prelude::*;

use crate::value::{opt_value_view, SpecValue, Value};

verus! {

/// The closed set of token kinds: punctuation, operators, literals,
/// reserved keywords, and the terminal end-of-input sentinel.
#[derive(Clone, Copy, Debug, PartialEq, Eq, Structural)]
pub enum TokenType {
    // Single-character tokens
    LeftParen,
    RightParen,
    LeftBrace,
    RightBrace,
    Comma,
    Dot,
    Minus,
    Plus,
    Semicolon,
    Slash,
    Star,
    // One or two character tokens
    Bang,
    BangEqual,
    Equal,
    EqualEqual,
    Greater,
    GreaterEqual,
    Less,
    LessEqual,
    // Literals
    Identifier,
    String,
    Number,
    // Keywords
    And,
    Class,
    Else,
    False,
    Fun,
    For,
    If,
    Nil,
    Or,
    Print,
    Return,
    Super,
    This,
    True,
    Var,
    While,
    Eof,
}

/// One classified lexical unit: its kind, the exact source substring it was
/// matched from, an optional literal value, and the 1-based source line on
/// which it was completed.
#[derive(Debug)]
pub struct Token {
    pub token_type: TokenType,
    pub lexeme: String,
    pub literal: Option<Value>,
    pub line: usize,
}

/// Mathematical model of a `Token`.
#[verifier::ext_equal]
pub struct SpecToken {
    pub kind: TokenType,
    pub lexeme: Seq<char>,
    pub literal: Option<SpecValue>,
    pub line: int,
}

impl View for Token {
    type V = SpecToken;

    open spec fn view(&self) -> SpecToken {
        SpecToken {
            kind: self.token_type,
            lexeme: self.lexeme@,
            literal: opt_value_view(self.literal),
            line: self.line as int,
        }
    }
}

impl Token {
    /// Builds a token from its parts; the lexeme text is copied.
    pub fn new(token_type: TokenType, lexeme: &str, literal: Option<Value>, line: usize) -> (t:
        Token)
        ensures
            t@ == (SpecToken {
                kind: token_type,
                lexeme: lexeme@,
                literal: opt_value_view(literal),
                line: line as int,
            }),
    {
        Token { token_type, lexeme: lexeme.to_owned(), literal, line }
    }
}

/// The models of a sequence of tokens, in order.
pub open spec fn tokens_view(ts: Seq<Token>) -> Seq<SpecToken> {
    ts.map_values(|t: Token| t@)
}

/// Mapping to models commutes with appending one token.
pub proof fn lemma_tokens_view_push(ts: Seq<Token>, t: Token)
    ensures
        tokens_view(ts.push(t)) == tokens_view(ts).push(t@),
{
    assert(tokens_view(ts.push(t)) =~= tokens_view(ts).push(t@));
}

} // verus!
