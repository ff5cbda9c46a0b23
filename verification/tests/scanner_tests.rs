use rlox::scanner::Scanner;
use rlox::token::Diagnostic;
use rlox::token::DiagnosticKind;
use rlox::token::Literal;
use rlox::token::Token;
use rlox::token::TokenKind;

fn scan(source: &str) -> (Vec<Token>, Vec<Diagnostic>) {
    Scanner::new(String::from(source)).scan_tokens()
}

#[test]
fn empty_input_yields_single_eof_and_no_diagnostics() {
    let (tokens, diagnostics) = scan("");
    assert_eq!(tokens.len(), 1);
    assert_eq!(tokens[0].kind, TokenKind::Eof);
    assert_eq!(tokens[0].lexeme, "");
    assert_eq!(tokens[0].literal, Literal::Absent);
    assert_eq!(tokens[0].line, 1);
    assert_eq!(diagnostics.len(), 0);
}

#[test]
fn single_character_punctuation_round_trip() {
    let cases = [
        ("(", TokenKind::LeftParen),
        ("+", TokenKind::Plus),
        (";", TokenKind::Semicolon),
    ];
    for (source, kind) in cases {
        let (tokens, diagnostics) = scan(source);
        assert_eq!(tokens.len(), 2);
        assert_eq!(tokens[0].kind, kind);
        assert_eq!(tokens[0].lexeme, source);
        assert_eq!(tokens[0].literal, Literal::Absent);
        assert_eq!(tokens[0].line, 1);
        assert_eq!(tokens[1].kind, TokenKind::Eof);
        assert_eq!(diagnostics.len(), 0);
    }
}

#[test]
fn all_single_character_tokens_in_order() {
    let (tokens, diagnostics) = scan("(){},.-+;*");
    let kinds: Vec<TokenKind> = tokens.iter().map(|t| t.kind).collect();
    assert_eq!(
        kinds,
        vec![
            TokenKind::LeftParen,
            TokenKind::RightParen,
            TokenKind::LeftBrace,
            TokenKind::RightBrace,
            TokenKind::Comma,
            TokenKind::Dot,
            TokenKind::Minus,
            TokenKind::Plus,
            TokenKind::Semicolon,
            TokenKind::Star,
            TokenKind::Eof,
        ]
    );
    assert_eq!(diagnostics.len(), 0);
}

#[test]
fn bang_equal_is_one_token_not_two() {
    let (tokens, diagnostics) = scan("!=");
    assert_eq!(tokens.len(), 2);
    assert_eq!(tokens[0].kind, TokenKind::BangEqual);
    assert_eq!(tokens[0].lexeme, "!=");
    assert_eq!(tokens[1].kind, TokenKind::Eof);
    assert_eq!(diagnostics.len(), 0);
}

#[test]
fn bang_without_equal_is_bang() {
    let (tokens, diagnostics) = scan("!");
    assert_eq!(tokens.len(), 2);
    assert_eq!(tokens[0].kind, TokenKind::Bang);
    assert_eq!(tokens[0].lexeme, "!");
    assert_eq!(diagnostics.len(), 0);
}

#[test]
fn two_character_operators_disambiguate() {
    let (tokens, diagnostics) = scan("== != <= >= < > = !");
    let kinds: Vec<TokenKind> = tokens.iter().map(|t| t.kind).collect();
    assert_eq!(
        kinds,
        vec![
            TokenKind::EqualEqual,
            TokenKind::BangEqual,
            TokenKind::LessEqual,
            TokenKind::GreaterEqual,
            TokenKind::Less,
            TokenKind::Greater,
            TokenKind::Equal,
            TokenKind::Bang,
            TokenKind::Eof,
        ]
    );
    assert_eq!(diagnostics.len(), 0);
}

#[test]
fn comment_is_skipped_and_line_advances() {
    let (tokens, diagnostics) = scan("// comment\n1");
    assert_eq!(tokens.len(), 2);
    assert_eq!(tokens[0].kind, TokenKind::Number);
    assert_eq!(tokens[0].lexeme, "1");
    assert_eq!(tokens[0].literal, Literal::Num(String::from("1")));
    assert_eq!(tokens[0].line, 2);
    assert_eq!(tokens[1].kind, TokenKind::Eof);
    assert_eq!(diagnostics.len(), 0);
}

#[test]
fn comment_to_end_of_input_yields_only_eof() {
    let (tokens, diagnostics) = scan("// nothing else");
    assert_eq!(tokens.len(), 1);
    assert_eq!(tokens[0].kind, TokenKind::Eof);
    assert_eq!(tokens[0].line, 1);
    assert_eq!(diagnostics.len(), 0);
}

#[test]
fn slash_alone_is_division() {
    let (tokens, diagnostics) = scan("1/2");
    let kinds: Vec<TokenKind> = tokens.iter().map(|t| t.kind).collect();
    assert_eq!(
        kinds,
        vec![TokenKind::Number, TokenKind::Slash, TokenKind::Number, TokenKind::Eof]
    );
    assert_eq!(diagnostics.len(), 0);
}

#[test]
fn unterminated_string_reports_diagnostic_and_only_eof() {
    let (tokens, diagnostics) = scan("\"abc");
    assert_eq!(tokens.len(), 1);
    assert_eq!(tokens[0].kind, TokenKind::Eof);
    assert_eq!(diagnostics.len(), 1);
    assert_eq!(diagnostics[0].kind, DiagnosticKind::UnterminatedString);
    assert_eq!(diagnostics[0].line, 1);
}

#[test]
fn unterminated_string_diagnostic_is_anchored_at_opening_line() {
    let (tokens, diagnostics) = scan("\n\"abc");
    assert_eq!(tokens.len(), 1);
    assert_eq!(diagnostics.len(), 1);
    assert_eq!(diagnostics[0].kind, DiagnosticKind::UnterminatedString);
    assert_eq!(diagnostics[0].line, 2);
}

#[test]
fn unterminated_string_with_inner_newline_keeps_opening_line() {
    let (_, diagnostics) = scan("\"a\nb");
    assert_eq!(diagnostics.len(), 1);
    assert_eq!(diagnostics[0].kind, DiagnosticKind::UnterminatedString);
    assert_eq!(diagnostics[0].line, 1);
}

#[test]
fn string_literal_is_dequoted() {
    let (tokens, diagnostics) = scan("\"hi\"");
    assert_eq!(tokens.len(), 2);
    assert_eq!(tokens[0].kind, TokenKind::Str);
    assert_eq!(tokens[0].lexeme, "\"hi\"");
    assert_eq!(tokens[0].literal, Literal::Str(String::from("hi")));
    assert_eq!(tokens[0].line, 1);
    assert_eq!(diagnostics.len(), 0);
}

#[test]
fn multi_line_string_counts_lines_and_keeps_opening_line() {
    let (tokens, diagnostics) = scan("\"a\nb\"x");
    assert_eq!(tokens.len(), 3);
    assert_eq!(tokens[0].kind, TokenKind::Str);
    assert_eq!(tokens[0].literal, Literal::Str(String::from("a\nb")));
    assert_eq!(tokens[0].line, 1);
    assert_eq!(tokens[1].kind, TokenKind::Identifier);
    assert_eq!(tokens[1].lexeme, "x");
    assert_eq!(tokens[1].line, 2);
    assert_eq!(tokens[2].kind, TokenKind::Eof);
    assert_eq!(tokens[2].line, 2);
    assert_eq!(diagnostics.len(), 0);
}

#[test]
fn number_with_fractional_part() {
    let (tokens, diagnostics) = scan("123.45");
    assert_eq!(tokens.len(), 2);
    assert_eq!(tokens[0].kind, TokenKind::Number);
    assert_eq!(tokens[0].lexeme, "123.45");
    match &tokens[0].literal {
        Literal::Num(text) => {
            assert_eq!(text, "123.45");
            let value: f64 = text.parse().unwrap();
            assert_eq!(value, 123.45);
        }
        other => panic!("expected a number literal, got {:?}", other),
    }
    assert_eq!(diagnostics.len(), 0);
}

#[test]
fn number_with_trailing_dot_is_number_then_dot() {
    let (tokens, diagnostics) = scan("123.");
    assert_eq!(tokens.len(), 3);
    assert_eq!(tokens[0].kind, TokenKind::Number);
    assert_eq!(tokens[0].lexeme, "123");
    assert_eq!(tokens[0].literal, Literal::Num(String::from("123")));
    assert_eq!(tokens[1].kind, TokenKind::Dot);
    assert_eq!(tokens[2].kind, TokenKind::Eof);
    assert_eq!(diagnostics.len(), 0);
}

#[test]
fn number_run_ends_at_non_digit() {
    let (tokens, _) = scan("1foo");
    assert_eq!(tokens.len(), 3);
    assert_eq!(tokens[0].kind, TokenKind::Number);
    assert_eq!(tokens[0].lexeme, "1");
    assert_eq!(tokens[1].kind, TokenKind::Identifier);
    assert_eq!(tokens[1].lexeme, "foo");
}

#[test]
fn keyword_matching_is_exact_word_not_prefix() {
    let (tokens, diagnostics) = scan("classFoo");
    assert_eq!(tokens.len(), 2);
    assert_eq!(tokens[0].kind, TokenKind::Identifier);
    assert_eq!(tokens[0].lexeme, "classFoo");
    assert_eq!(diagnostics.len(), 0);
}

#[test]
fn keyword_exact_match_is_keyword() {
    let (tokens, diagnostics) = scan("class");
    assert_eq!(tokens.len(), 2);
    assert_eq!(tokens[0].kind, TokenKind::Class);
    assert_eq!(tokens[0].lexeme, "class");
    assert_eq!(diagnostics.len(), 0);
}

#[test]
fn every_keyword_is_recognized() {
    let cases = [
        ("and", TokenKind::And),
        ("class", TokenKind::Class),
        ("else", TokenKind::Else),
        ("false", TokenKind::False),
        ("fun", TokenKind::Fun),
        ("for", TokenKind::For),
        ("if", TokenKind::If),
        ("nil", TokenKind::Nil),
        ("or", TokenKind::Or),
        ("print", TokenKind::Print),
        ("return", TokenKind::Return),
        ("super", TokenKind::Super),
        ("this", TokenKind::This),
        ("true", TokenKind::True),
        ("var", TokenKind::Var),
        ("while", TokenKind::While),
    ];
    for (source, kind) in cases {
        let (tokens, _) = scan(source);
        assert_eq!(tokens.len(), 2);
        assert_eq!(tokens[0].kind, kind);
        assert_eq!(tokens[0].lexeme, source);
    }
}

#[test]
fn underscore_starts_an_identifier() {
    let (tokens, _) = scan("_abc1");
    assert_eq!(tokens.len(), 2);
    assert_eq!(tokens[0].kind, TokenKind::Identifier);
    assert_eq!(tokens[0].lexeme, "_abc1");
}

#[test]
fn line_equals_newlines_before_token_plus_one() {
    let (tokens, _) = scan("\n\n\nfoo");
    assert_eq!(tokens.len(), 2);
    assert_eq!(tokens[0].kind, TokenKind::Identifier);
    assert_eq!(tokens[0].line, 4);
    assert_eq!(tokens[1].line, 4);
}

#[test]
fn eof_line_reflects_trailing_newline() {
    let (tokens, _) = scan("a\n");
    assert_eq!(tokens.len(), 2);
    assert_eq!(tokens[0].line, 1);
    assert_eq!(tokens[1].kind, TokenKind::Eof);
    assert_eq!(tokens[1].line, 2);
}

#[test]
fn unexpected_character_is_reported_and_skipped() {
    let (tokens, diagnostics) = scan("@");
    assert_eq!(tokens.len(), 1);
    assert_eq!(tokens[0].kind, TokenKind::Eof);
    assert_eq!(diagnostics.len(), 1);
    assert_eq!(diagnostics[0].kind, DiagnosticKind::UnexpectedCharacter);
    assert_eq!(diagnostics[0].line, 1);
}

#[test]
fn scanning_continues_after_unexpected_character() {
    let (tokens, diagnostics) = scan("@+");
    assert_eq!(tokens.len(), 2);
    assert_eq!(tokens[0].kind, TokenKind::Plus);
    assert_eq!(diagnostics.len(), 1);
    assert_eq!(diagnostics[0].kind, DiagnosticKind::UnexpectedCharacter);
}

#[test]
fn whitespace_is_discarded_without_tokens() {
    let (tokens, diagnostics) = scan(" \t\r(");
    assert_eq!(tokens.len(), 2);
    assert_eq!(tokens[0].kind, TokenKind::LeftParen);
    assert_eq!(tokens[0].line, 1);
    assert_eq!(diagnostics.len(), 0);
}

#[test]
fn scanning_twice_produces_identical_results() {
    let source = "var x = 1.5; // init\nprint \"ok\"; @";
    let (tokens_a, diagnostics_a) = scan(source);
    let (tokens_b, diagnostics_b) = scan(source);
    assert_eq!(tokens_a, tokens_b);
    assert_eq!(diagnostics_a, diagnostics_b);
}

#[test]
fn every_scan_ends_with_exactly_one_eof() {
    let sources = ["", "(", "\"abc", "// c", "1 + 2", "@#$", "\"a\nb\""];
    for source in sources {
        let (tokens, _) = scan(source);
        assert!(tokens.len() >= 1);
        assert_eq!(tokens[tokens.len() - 1].kind, TokenKind::Eof);
        assert_eq!(tokens[tokens.len() - 1].lexeme, "");
        for t in &tokens[..tokens.len() - 1] {
            assert_ne!(t.kind, TokenKind::Eof);
        }
    }
}

#[test]
fn diagnostics_carry_human_readable_messages() {
    let (_, diagnostics) = scan("\"oops");
    assert_eq!(diagnostics.len(), 1);
    assert_eq!(diagnostics[0].message(), "Unterminated string.");
    let (_, diagnostics) = scan("#");
    assert_eq!(diagnostics.len(), 1);
    assert_eq!(diagnostics[0].message(), "Unexpected character.");
}

#[test]
fn is_at_end_tracks_the_cursor() {
    let empty = Scanner::new(String::new());
    assert!(empty.is_at_end());
    let mut sc = Scanner::new(String::from("+"));
    assert!(!sc.is_at_end());
    sc.scan_token();
    assert!(sc.is_at_end());
    assert_eq!(sc.tokens.len(), 1);
    assert_eq!(sc.tokens[0].kind, TokenKind::Plus);
}

#[test]
fn a_small_program_scans_as_expected() {
    let (tokens, diagnostics) = scan("fun add(a, b) {\n  return a + b;\n}\n");
    let kinds: Vec<TokenKind> = tokens.iter().map(|t| t.kind).collect();
    assert_eq!(
        kinds,
        vec![
            TokenKind::Fun,
            TokenKind::Identifier,
            TokenKind::LeftParen,
            TokenKind::Identifier,
            TokenKind::Comma,
            TokenKind::Identifier,
            TokenKind::RightParen,
            TokenKind::LeftBrace,
            TokenKind::Return,
            TokenKind::Identifier,
            TokenKind::Plus,
            TokenKind::Identifier,
            TokenKind::Semicolon,
            TokenKind::RightBrace,
            TokenKind::Eof,
        ]
    );
    assert_eq!(tokens[8].line, 2);
    assert_eq!(tokens[13].line, 3);
    assert_eq!(tokens[14].line, 4);
    assert_eq!(diagnostics.len(), 0);
}
