use lox_interpreter::scanner::{Scanner, ScannerError};
use lox_interpreter::token::TokenType;

fn token_repr(ty: TokenType, lexeme: &str) -> String {
    format!("{:#?} {} null", ty, lexeme)
}

fn token_repr_lit(ty: TokenType, lexeme: &str, literal: &str) -> String {
    format!("{:#?} {} {}", ty, lexeme, literal)
}

#[test]
fn get_token_single_char_delimiters() {
    let cases = [
        ('(', TokenType::LEFT_PAREN, "(", 1),
        (')', TokenType::RIGHT_PAREN, ")", 1),
        ('{', TokenType::LEFT_BRACE, "{", 1),
        ('}', TokenType::RIGHT_BRACE, "}", 1),
        (',', TokenType::COMMA, ",", 1),
        ('.', TokenType::DOT, ".", 1),
        ('-', TokenType::MINUS, "-", 1),
        ('+', TokenType::PLUS, "+", 1),
        (';', TokenType::SEMICOLON, ";", 1),
        ('*', TokenType::STAR, "*", 1),
    ];
    for (ch, ty, lex, skip) in cases {
        let (tok, n) = Scanner::get_token(&ch, &0, &0, String::new()).unwrap().unwrap();
        assert_eq!(n, skip);
        assert_eq!(tok.to_string(), token_repr(ty, lex));
    }
}

#[test]
fn get_token_slash_alone() {
    let (tok, n) = Scanner::get_token(&'/', &0, &0, "x".to_string()).unwrap().unwrap();
    assert_eq!(n, 1);
    assert_eq!(tok.to_string(), token_repr(TokenType::SLASH, "/"));
}

#[test]
fn get_token_slash_starts_comment() {
    assert!(Scanner::get_token(&'/', &0, &0, "/rest".to_string()).is_err());
}

#[test]
fn get_token_two_char_operators() {
    let cases = [
        ('=', "=x", TokenType::EQUAL_EQUAL, "==", 2),
        ('!', "=x", TokenType::BANG_EQUAL, "!=", 2),
        ('>', "=x", TokenType::GREATER_EQUAL, ">=", 2),
        ('<', "=x", TokenType::LESS_EQUAL, "<=", 2),
    ];
    for (ch, rest, ty, lex, skip) in cases {
        let (tok, n) = Scanner::get_token(&ch, &0, &0, rest.to_string()).unwrap().unwrap();
        assert_eq!(n, skip, "lexeme {lex}");
        assert_eq!(tok.to_string(), token_repr(ty, lex));
    }
}

#[test]
fn get_token_one_char_when_second_not_equals() {
    let singles = [
        ('=', TokenType::EQUAL, "=", 1, "x"),
        ('!', TokenType::BANG, "!", 1, "x"),
        ('>', TokenType::GREATER, ">", 1, "x"),
        ('<', TokenType::LESS, "<", 1, "x"),
    ];
    for (ch, ty, lex, skip, rest) in singles {
        let (tok, n) = Scanner::get_token(&ch, &0, &0, rest.to_string()).unwrap().unwrap();
        assert_eq!(n, skip);
        assert_eq!(tok.to_string(), token_repr(ty, lex));
    }
}

#[test]
fn get_token_one_char_at_end_of_line() {
    let (tok, n) = Scanner::get_token(&'=', &3, &0, String::new()).unwrap().unwrap();
    assert_eq!(n, 1);
    assert_eq!(tok.to_string(), token_repr(TokenType::EQUAL, "="));
}

#[test]
fn get_token_rejects_unknown() {
    assert!(matches!(
        Scanner::get_token(&'a', &0, &0, String::new()),
        Err((false, None, ScannerError::UnexpectedCharacter { c: 'a' }))
    ));
    assert!(matches!(
        Scanner::get_token(&'@', &0, &0, String::new()),
        Err((false, None, ScannerError::UnexpectedCharacter { c: '@' }))
    ));
}

#[test]
fn scan_empty_source_eof_only() {
    let mut s = Scanner::from_source("".to_string());
    assert_eq!(s.scan().unwrap(), 0);
    assert_eq!(s.token_lines(), vec![token_repr(TokenType::EOF, "")]);
}

#[test]
fn scan_parentheses() {
    let mut s = Scanner::from_source("()".to_string());
    assert_eq!(s.scan().unwrap(), 0);
    assert_eq!(
        s.token_lines(),
        vec![
            token_repr(TokenType::LEFT_PAREN, "("),
            token_repr(TokenType::RIGHT_PAREN, ")"),
            token_repr(TokenType::EOF, ""),
        ]
    );
}

#[test]
fn scan_line_comment_ignores_rest_of_line() {
    let mut s = Scanner::from_source("()// Comment".to_string());
    assert_eq!(s.scan().unwrap(), 0);
    assert_eq!(
        s.token_lines(),
        vec![
            token_repr(TokenType::LEFT_PAREN, "("),
            token_repr(TokenType::RIGHT_PAREN, ")"),
            token_repr(TokenType::EOF, ""),
        ]
    );
}

#[test]
fn scan_comment_only_line_then_tokens() {
    let mut s = Scanner::from_source("// only comment\n()".to_string());
    assert_eq!(s.scan().unwrap(), 0);
    assert_eq!(
        s.token_lines(),
        vec![
            token_repr(TokenType::LEFT_PAREN, "("),
            token_repr(TokenType::RIGHT_PAREN, ")"),
            token_repr(TokenType::EOF, ""),
        ]
    );
}

#[test]
fn scan_comment_stops_at_line_break() {
    let mut s = Scanner::from_source("// a\n+".to_string());
    assert_eq!(s.scan().unwrap(), 0);
    assert_eq!(
        s.token_lines(),
        vec![token_repr(TokenType::PLUS, "+"), token_repr(TokenType::EOF, ""),]
    );
}

#[test]
fn scan_unexpected_character_sets_exit_65_and_continues() {
    let mut s = Scanner::from_source("(@)".to_string());
    assert_eq!(s.scan().unwrap(), 65);
    assert_eq!(
        s.token_lines(),
        vec![
            token_repr(TokenType::LEFT_PAREN, "("),
            token_repr(TokenType::RIGHT_PAREN, ")"),
            token_repr(TokenType::EOF, ""),
        ]
    );
}

#[test]
fn scan_double_char_operators_individually() {
    for (src, ty, lex) in [
        ("!=", TokenType::BANG_EQUAL, "!="),
        ("==", TokenType::EQUAL_EQUAL, "=="),
        ("<=", TokenType::LESS_EQUAL, "<="),
        (">=", TokenType::GREATER_EQUAL, ">="),
    ] {
        let mut s = Scanner::from_source(src.to_string());
        assert_eq!(s.scan().unwrap(), 0, "source {src:?}");
        assert_eq!(s.token_lines(), vec![token_repr(ty, lex), token_repr(TokenType::EOF, "")]);
    }
}

#[test]
fn scan_braces_commas_and_dots() {
    let mut s = Scanner::from_source("{,}.".to_string());
    assert_eq!(s.scan().unwrap(), 0);
    assert_eq!(
        s.token_lines(),
        vec![
            token_repr(TokenType::LEFT_BRACE, "{"),
            token_repr(TokenType::COMMA, ","),
            token_repr(TokenType::RIGHT_BRACE, "}"),
            token_repr(TokenType::DOT, "."),
            token_repr(TokenType::EOF, ""),
        ]
    );
}

#[test]
fn scan_arithmetic_punctuation() {
    let mut s = Scanner::from_source("+-;*".to_string());
    assert_eq!(s.scan().unwrap(), 0);
    assert_eq!(
        s.token_lines(),
        vec![
            token_repr(TokenType::PLUS, "+"),
            token_repr(TokenType::MINUS, "-"),
            token_repr(TokenType::SEMICOLON, ";"),
            token_repr(TokenType::STAR, "*"),
            token_repr(TokenType::EOF, ""),
        ]
    );
}

#[test]
fn scan_chained_comparison_without_bang() {
    let mut s = Scanner::from_source("==<=>=".to_string());
    assert_eq!(s.scan().unwrap(), 0);
    assert_eq!(
        s.token_lines(),
        vec![
            token_repr(TokenType::EQUAL_EQUAL, "=="),
            token_repr(TokenType::LESS_EQUAL, "<="),
            token_repr(TokenType::GREATER_EQUAL, ">="),
            token_repr(TokenType::EOF, ""),
        ]
    );
}

#[test]
fn scan_whitespace_between_tokens_not_skipped_yet() {
    let mut s = Scanner::from_source("+ +".to_string());
    assert_eq!(s.scan().unwrap(), 0);
    assert_eq!(
        s.token_lines(),
        vec![
            token_repr(TokenType::PLUS, "+"),
            token_repr(TokenType::PLUS, "+"),
            token_repr(TokenType::EOF, ""),
        ]
    );
}

#[test]
fn scan_ignores_spaces_tabs_and_carriage_returns() {
    let mut s = Scanner::from_source(" \t \r\t  \r".to_string());
    assert_eq!(s.scan().unwrap(), 0);
    assert_eq!(s.token_lines(), vec![token_repr(TokenType::EOF, "")]);
}

#[test]
fn scan_ignores_whitespace_across_lines() {
    let mut s = Scanner::from_source(" \t\r\n\t \n  \r\n".to_string());
    assert_eq!(s.scan().unwrap(), 0);
    assert_eq!(s.token_lines(), vec![token_repr(TokenType::EOF, "")]);
}

#[test]
fn scan_string_literal_tokenizes_lexeme_and_literal() {
    let mut s = Scanner::from_source("\"hello\"".to_string());
    assert_eq!(s.scan().unwrap(), 0);
    assert_eq!(
        s.token_lines(),
        vec![
            token_repr_lit(TokenType::STRING, "\"hello\"", "hello"),
            token_repr(TokenType::EOF, ""),
        ]
    );
}

#[test]
fn scan_string_literal_allows_spaces_and_tabs_inside() {
    let mut s = Scanner::from_source("\"a b\tc\"".to_string());
    assert_eq!(s.scan().unwrap(), 0);
    assert_eq!(
        s.token_lines(),
        vec![
            token_repr_lit(TokenType::STRING, "\"a b\tc\"", "a b\tc"),
            token_repr(TokenType::EOF, ""),
        ]
    );
}

// ---------------------------------------------------------------------------
// Further cases.

#[test]
fn scan_numbers_identifiers_and_keywords() {
    let mut s = Scanner::from_source("var x1 = 007.50 + 42;".to_string());
    assert_eq!(s.scan().unwrap(), 0);
    assert_eq!(
        s.token_lines(),
        vec![
            token_repr(TokenType::VAR, "var"),
            token_repr(TokenType::IDENTIFIER, "x1"),
            token_repr(TokenType::EQUAL, "="),
            token_repr_lit(TokenType::NUMBER, "007.50", "7.5"),
            token_repr(TokenType::PLUS, "+"),
            token_repr_lit(TokenType::NUMBER, "42", "42.0"),
            token_repr(TokenType::SEMICOLON, ";"),
            token_repr(TokenType::EOF, ""),
        ]
    );
}

#[test]
fn scan_number_followed_by_dot_without_digits() {
    let mut s = Scanner::from_source("12.".to_string());
    assert_eq!(s.scan().unwrap(), 0);
    assert_eq!(
        s.token_lines(),
        vec![
            token_repr_lit(TokenType::NUMBER, "12", "12.0"),
            token_repr(TokenType::DOT, "."),
            token_repr(TokenType::EOF, ""),
        ]
    );
}

#[test]
fn scan_unterminated_string_reports_and_skips_line() {
    let mut s = Scanner::from_source("\"abc +\n+".to_string());
    assert_eq!(s.scan().unwrap(), 65);
    assert_eq!(s.token_lines(), vec![token_repr(TokenType::PLUS, "+"), token_repr(TokenType::EOF, "")]);
    assert_eq!(s.get_errors(), vec!["[line 1] Error: Unterminated string.".to_string()]);
}

#[test]
fn scan_reports_unexpected_characters_with_line_numbers() {
    let mut s = Scanner::from_source("+\n\n@ #".to_string());
    assert_eq!(s.scan().unwrap(), 65);
    assert_eq!(
        s.get_errors(),
        vec![
            "[line 3] Error: Unexpected character: @".to_string(),
            "[line 3] Error: Unexpected character: #".to_string(),
        ]
    );
}

#[test]
fn tokens_record_line_and_offset() {
    let mut s = Scanner::from_source("a\n  bc".to_string());
    s.scan().unwrap();
    let toks = s.get_tokens();
    assert_eq!((toks[0].line, toks[0].line_offset), (0, 0));
    assert_eq!((toks[1].line, toks[1].line_offset), (1, 2));
    assert_eq!(toks[1].lexeme, "bc");
}

#[test]
fn every_scan_ends_with_one_eof_token() {
    let mut s = Scanner::from_source("print \"x\"; // done".to_string());
    s.scan().unwrap();
    let toks = s.get_tokens();
    assert_eq!(toks.last().unwrap().token_ty, TokenType::EOF);
    assert_eq!(toks.iter().filter(|t| t.token_ty == TokenType::EOF).count(), 1);
}

#[test]
fn scan_ends_with_exactly_one_eof() {
    let mut s = Scanner::from_source("var a = 1;\n// note\nprint a; @".to_string());
    assert_eq!(s.scan().unwrap(), 65);
    let tokens = s.get_tokens();
    assert_eq!(tokens.last().unwrap().token_ty, TokenType::EOF);
    assert_eq!(tokens.iter().filter(|t| t.token_ty == TokenType::EOF).count(), 1);
}

#[test]
fn scan_slash_not_comment_when_single() {
    let mut s = Scanner::from_source("1/2".to_string());
    assert_eq!(s.scan().unwrap(), 0);
    let lines = s.token_lines();
    assert!(lines.iter().any(|l| l.contains("SLASH")));
    assert_eq!(lines[1], token_repr(TokenType::SLASH, "/"));
    assert_eq!(lines.last().unwrap(), &token_repr(TokenType::EOF, ""));
}

#[test]
fn scan_offsets_count_bytes() {
    let mut s = Scanner::from_source("é==".to_string());
    assert_eq!(s.scan().unwrap(), 65);
    assert_eq!(s.get_errors(), vec!["[line 1] Error: Unexpected character: é"]);
    let tokens = s.get_tokens();
    assert_eq!(tokens.len(), 3);
    assert_eq!(tokens[0].token_ty, TokenType::EQUAL);
    assert_eq!(tokens[0].line_offset, 2);
    assert_eq!(tokens[1].token_ty, TokenType::EQUAL);
    assert_eq!(tokens[1].line_offset, 3);

    let mut s = Scanner::from_source("ab ==".to_string());
    assert_eq!(s.scan().unwrap(), 0);
    let tokens = s.get_tokens();
    assert_eq!(tokens[1].token_ty, TokenType::EQUAL_EQUAL);
    assert_eq!(tokens[1].line_offset, 3);
}
