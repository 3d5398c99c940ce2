use krab::scan::LexError;
use krab::scanner::{keyword_token_type, Scanner};
use krab::token::{Token, TokenType};
use krab::value::Value;

fn scan_all(source: &str) -> (Vec<Token>, Vec<(usize, LexError)>) {
    let mut scanner = Scanner::new(source);
    let tokens = scanner.scan_tokens();
    let diags = scanner.diagnostics().iter().map(|d| (d.line, d.kind)).collect();
    (tokens, diags)
}

fn kinds(tokens: &[Token]) -> Vec<TokenType> {
    tokens.iter().map(|t| t.token_type).collect()
}

fn number_literal(token: &Token) -> f64 {
    match &token.literal {
        Some(Value::Number(text)) => text.parse().expect("numeral text must parse"),
        other => panic!("expected a number literal, got {:?}", other),
    }
}

#[test]
fn empty_source_yields_only_eof() {
    let (tokens, diags) = scan_all("");
    assert_eq!(kinds(&tokens), vec![TokenType::Eof]);
    assert_eq!(tokens[0].lexeme, "");
    assert_eq!(tokens[0].line, 1);
    assert!(tokens[0].literal.is_none());
    assert!(diags.is_empty());
}

#[test]
fn whitespace_and_comments_yield_only_eof() {
    let (tokens, diags) = scan_all("  \t\r\n// a comment\n   // another");
    assert_eq!(kinds(&tokens), vec![TokenType::Eof]);
    assert!(diags.is_empty());
}

#[test]
fn var_declaration_scenario() {
    let (tokens, diags) = scan_all("var x = 10.5;");
    assert_eq!(
        kinds(&tokens),
        vec![
            TokenType::Var,
            TokenType::Identifier,
            TokenType::Equal,
            TokenType::Number,
            TokenType::Semicolon,
            TokenType::Eof,
        ]
    );
    assert_eq!(tokens[0].lexeme, "var");
    assert_eq!(tokens[1].lexeme, "x");
    assert_eq!(tokens[2].lexeme, "=");
    assert_eq!(tokens[3].lexeme, "10.5");
    assert_eq!(number_literal(&tokens[3]), 10.5);
    assert_eq!(tokens[4].lexeme, ";");
    assert!(tokens[0].literal.is_none());
    assert!(tokens[1].literal.is_none());
    assert!(diags.is_empty());
}

#[test]
fn unterminated_string_scenario() {
    let (tokens, diags) = scan_all("\"abc");
    assert_eq!(kinds(&tokens), vec![TokenType::Eof]);
    assert_eq!(diags, vec![(1, LexError::UnterminatedString)]);
}

#[test]
fn comment_then_number_scenario() {
    let (tokens, diags) = scan_all("// comment\n1");
    assert_eq!(kinds(&tokens), vec![TokenType::Number, TokenType::Eof]);
    assert_eq!(number_literal(&tokens[0]), 1.0);
    assert_eq!(tokens[0].line, 2);
    assert_eq!(tokens[1].line, 2);
    assert!(diags.is_empty());
}

#[test]
fn bang_equal_scenario() {
    let (tokens, _) = scan_all("!=");
    assert_eq!(kinds(&tokens), vec![TokenType::BangEqual, TokenType::Eof]);
    assert_eq!(tokens[0].lexeme, "!=");
}

#[test]
fn bang_alone_scenario() {
    let (tokens, _) = scan_all("!");
    assert_eq!(kinds(&tokens), vec![TokenType::Bang, TokenType::Eof]);
    assert_eq!(tokens[0].lexeme, "!");
}

#[test]
fn one_and_two_character_operators() {
    let (tokens, diags) = scan_all("< <= > >= == = /");
    assert_eq!(
        kinds(&tokens),
        vec![
            TokenType::Less,
            TokenType::LessEqual,
            TokenType::Greater,
            TokenType::GreaterEqual,
            TokenType::EqualEqual,
            TokenType::Equal,
            TokenType::Slash,
            TokenType::Eof,
        ]
    );
    assert!(diags.is_empty());
}

#[test]
fn single_character_punctuation() {
    let (tokens, diags) = scan_all("(){},.-+;*");
    assert_eq!(
        kinds(&tokens),
        vec![
            TokenType::LeftParen,
            TokenType::RightParen,
            TokenType::LeftBrace,
            TokenType::RightBrace,
            TokenType::Comma,
            TokenType::Dot,
            TokenType::Minus,
            TokenType::Plus,
            TokenType::Semicolon,
            TokenType::Star,
            TokenType::Eof,
        ]
    );
    assert!(diags.is_empty());
}

#[test]
fn every_keyword_is_classified() {
    let cases = [
        ("and", TokenType::And),
        ("class", TokenType::Class),
        ("else", TokenType::Else),
        ("false", TokenType::False),
        ("for", TokenType::For),
        ("fun", TokenType::Fun),
        ("if", TokenType::If),
        ("nil", TokenType::Nil),
        ("or", TokenType::Or),
        ("print", TokenType::Print),
        ("return", TokenType::Return),
        ("super", TokenType::Super),
        ("this", TokenType::This),
        ("true", TokenType::True),
        ("var", TokenType::Var),
        ("while", TokenType::While),
    ];
    for (spelling, expected) in cases {
        let (tokens, diags) = scan_all(spelling);
        assert_eq!(kinds(&tokens), vec![expected, TokenType::Eof], "spelling {:?}", spelling);
        assert!(tokens[0].literal.is_none());
        assert!(diags.is_empty());
        assert_eq!(keyword_token_type(spelling), Some(expected));
    }
}

#[test]
fn near_keywords_are_identifiers() {
    for spelling in ["vars", "andy", "_and", "class1", "For", "x", "_", "a_b2"] {
        let (tokens, diags) = scan_all(spelling);
        assert_eq!(
            kinds(&tokens),
            vec![TokenType::Identifier, TokenType::Eof],
            "spelling {:?}",
            spelling
        );
        assert_eq!(tokens[0].lexeme, spelling);
        assert!(tokens[0].literal.is_none());
        assert!(diags.is_empty());
        assert_eq!(keyword_token_type(spelling), None);
    }
}

#[test]
fn unicode_letters_form_identifiers() {
    let (tokens, diags) = scan_all("héllo Σx");
    assert_eq!(
        kinds(&tokens),
        vec![TokenType::Identifier, TokenType::Identifier, TokenType::Eof]
    );
    assert_eq!(tokens[0].lexeme, "héllo");
    assert_eq!(tokens[1].lexeme, "Σx");
    assert!(diags.is_empty());
}

#[test]
fn integer_and_fractional_numbers() {
    let (tokens, diags) = scan_all("0 007 3.25 42");
    assert_eq!(
        kinds(&tokens),
        vec![
            TokenType::Number,
            TokenType::Number,
            TokenType::Number,
            TokenType::Number,
            TokenType::Eof,
        ]
    );
    assert_eq!(number_literal(&tokens[0]), 0.0);
    assert_eq!(number_literal(&tokens[1]), 7.0);
    assert_eq!(tokens[1].lexeme, "007");
    assert_eq!(number_literal(&tokens[2]), 3.25);
    assert_eq!(number_literal(&tokens[3]), 42.0);
    assert!(diags.is_empty());
}

#[test]
fn trailing_dot_is_not_part_of_the_number() {
    let (tokens, diags) = scan_all("123.");
    assert_eq!(kinds(&tokens), vec![TokenType::Number, TokenType::Dot, TokenType::Eof]);
    assert_eq!(tokens[0].lexeme, "123");
    assert_eq!(number_literal(&tokens[0]), 123.0);
    assert_eq!(tokens[1].lexeme, ".");
    assert!(diags.is_empty());
}

#[test]
fn second_fraction_is_not_consumed() {
    let (tokens, _) = scan_all("1.2.3");
    assert_eq!(
        kinds(&tokens),
        vec![TokenType::Number, TokenType::Dot, TokenType::Number, TokenType::Eof]
    );
    assert_eq!(tokens[0].lexeme, "1.2");
    assert_eq!(number_literal(&tokens[0]), 1.2);
    assert_eq!(tokens[2].lexeme, "3");
}

#[test]
fn string_literal_value_excludes_quotes() {
    let (tokens, diags) = scan_all("\"abc\"");
    assert_eq!(kinds(&tokens), vec![TokenType::String, TokenType::Eof]);
    assert_eq!(tokens[0].lexeme, "\"abc\"");
    assert!(matches!(&tokens[0].literal, Some(Value::String(s)) if s == "abc"));
    assert!(diags.is_empty());
}

#[test]
fn empty_string_literal() {
    let (tokens, diags) = scan_all("\"\"");
    assert_eq!(kinds(&tokens), vec![TokenType::String, TokenType::Eof]);
    assert_eq!(tokens[0].lexeme, "\"\"");
    assert!(matches!(&tokens[0].literal, Some(Value::String(s)) if s.is_empty()));
    assert!(diags.is_empty());
}

#[test]
fn string_spanning_lines_counts_newlines() {
    let (tokens, diags) = scan_all("\"a\nb\" x");
    assert_eq!(kinds(&tokens), vec![TokenType::String, TokenType::Identifier, TokenType::Eof]);
    assert!(matches!(&tokens[0].literal, Some(Value::String(s)) if s == "a\nb"));
    assert_eq!(tokens[0].line, 2);
    assert_eq!(tokens[1].line, 2);
    assert!(diags.is_empty());
}

#[test]
fn unterminated_string_reports_final_line() {
    let (tokens, diags) = scan_all("\"a\nbc");
    assert_eq!(kinds(&tokens), vec![TokenType::Eof]);
    assert_eq!(diags, vec![(2, LexError::UnterminatedString)]);
}

#[test]
fn unexpected_character_is_skipped_and_reported() {
    let (tokens, diags) = scan_all("@+");
    assert_eq!(kinds(&tokens), vec![TokenType::Plus, TokenType::Eof]);
    assert_eq!(diags, vec![(1, LexError::UnexpectedCharacter)]);
}

#[test]
fn several_errors_in_one_pass() {
    let (tokens, diags) = scan_all("#\n$ 1");
    assert_eq!(kinds(&tokens), vec![TokenType::Number, TokenType::Eof]);
    assert_eq!(
        diags,
        vec![(1, LexError::UnexpectedCharacter), (2, LexError::UnexpectedCharacter)]
    );
}

#[test]
fn comment_runs_to_end_of_input() {
    let (tokens, diags) = scan_all("//abc");
    assert_eq!(kinds(&tokens), vec![TokenType::Eof]);
    assert!(diags.is_empty());
}

#[test]
fn lines_advance_at_newlines() {
    let (tokens, _) = scan_all("1\n2\n3");
    assert_eq!(
        kinds(&tokens),
        vec![TokenType::Number, TokenType::Number, TokenType::Number, TokenType::Eof]
    );
    assert_eq!(tokens[0].line, 1);
    assert_eq!(tokens[1].line, 2);
    assert_eq!(tokens[2].line, 3);
    assert_eq!(tokens[3].line, 3);
}

#[test]
fn lexemes_of_adjacent_tokens_reconstruct_the_source() {
    let source = "var;x=10.5;{(a)}!=\"s\"";
    let (tokens, diags) = scan_all(source);
    assert!(diags.is_empty());
    let mut rebuilt = String::new();
    for t in &tokens {
        rebuilt.push_str(&t.lexeme);
    }
    // No trivia was skipped, so the lexemes alone rebuild the text; the
    // sentinel contributes its empty lexeme.
    assert_eq!(rebuilt, source);
}

#[test]
fn error_line_formats_diagnostics() {
    assert_eq!(
        krab::error_line(2, "Unterminated string"),
        "[line 2] Error: Unterminated string"
    );
    assert_eq!(krab::error_line(10, "Unexpected character"), "[line 10] Error: Unexpected character");
    assert_eq!(krab::error_line(987654, "m"), "[line 987654] Error: m");
}

#[test]
fn lex_error_messages() {
    assert_eq!(LexError::UnterminatedString.message(), "Unterminated string");
    assert_eq!(LexError::UnexpectedCharacter.message(), "Unexpected character");
}

#[test]
fn token_new_copies_its_parts() {
    let t = Token::new(TokenType::Identifier, "abc", None, 7);
    assert_eq!(t.token_type, TokenType::Identifier);
    assert_eq!(t.lexeme, "abc");
    assert!(t.literal.is_none());
    assert_eq!(t.line, 7);
}
