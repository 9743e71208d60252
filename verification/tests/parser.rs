use lox_interpreter::ast::{AstPrinter, Stmt};
use lox_interpreter::parser::Parser;
use lox_interpreter::scanner::Scanner;
use lox_interpreter::token::Token;

fn tokens_of(source: String) -> Vec<Token> {
    let mut scanner = Scanner::from_source(source);
    scanner.scan().unwrap();
    scanner.get_tokens()
}

fn parse_to_ast(source: &str) -> String {
    let mut src = source.trim().to_string();
    if !src.ends_with(';') {
        src.push(';');
    }

    let tokens = tokens_of(src);
    let mut stmts = Parser::new(&tokens).parse().unwrap();
    assert_eq!(stmts.len(), 1, "expected a single statement");

    match stmts.remove(0) {
        Stmt::Expression { expr } => AstPrinter::print(&expr),
        Stmt::Print { expr } => AstPrinter::print(&expr),
        _ => panic!("test helper expects expression/print statement"),
    }
}

fn parse_err(source: &str) -> String {
    let mut src = source.trim().to_string();
    if !src.is_empty() && !src.ends_with(';') {
        src.push(';');
    }

    let tokens = tokens_of(src);
    let err = Parser::new(&tokens).parse().unwrap_err();
    err.to_string()
}

#[test]
fn parses_number_literal() {
    assert_eq!(parse_to_ast("42"), "42.0");
}

#[test]
fn parses_string_literal() {
    assert_eq!(parse_to_ast("\"hi\""), "\"hi\"");
}

#[test]
fn parses_unary_bang() {
    assert_eq!(parse_to_ast("!true"), "(! true)");
}

#[test]
fn parses_left_associative_term() {
    assert_eq!(parse_to_ast("10 - 3 - 2"), "(- (- 10.0 3.0) 2.0)");
}

#[test]
fn parses_factor_precedence_over_term() {
    assert_eq!(parse_to_ast("8 / 2 * 3"), "(* (/ 8.0 2.0) 3.0)");
}

#[test]
fn parses_nested_grouping() {
    assert_eq!(parse_to_ast("((1))"), "(group (group 1.0))");
}

#[test]
fn unary_minus_binds_tighter_than_multiplication() {
    assert_eq!(parse_to_ast("-1 * 2"), "(* (- 1.0) 2.0)");
}

#[test]
fn equality_is_left_associative() {
    assert_eq!(parse_to_ast("true == false == true"), "(== (== true false) true)");
}

#[test]
fn errors_on_missing_right_paren() {
    let msg = parse_err("(1 + 2");
    assert!(msg.contains("Expect ')' after expression"), "unexpected error message: {msg}");
}

#[test]
fn errors_on_empty_input() {
    let tokens = tokens_of("".to_string());
    let stmts = Parser::new(&tokens).parse().unwrap();
    assert!(stmts.is_empty(), "empty input should parse as an empty program, got: {stmts:#?}");
}

#[test]
fn parses_chained_unary() {
    assert_eq!(parse_to_ast("!!true"), "(! (! true))");
}

#[test]
fn comparison_is_left_associative() {
    assert_eq!(parse_to_ast("3 > 2 > 1"), "(> (> 3.0 2.0) 1.0)");
}

#[test]
fn comparison_binds_looser_than_addition() {
    assert_eq!(parse_to_ast("1 + 2 < 4"), "(< (+ 1.0 2.0) 4.0)");
}

#[test]
fn parses_mixed_grouping_and_factor() {
    assert_eq!(parse_to_ast("2 * (3 + 4)"), "(* 2.0 (group (+ 3.0 4.0)))");
}

#[test]
fn errors_on_unexpected_right_paren() {
    let msg = parse_err(")");
    assert!(msg.contains("Expected an expression"), "unexpected error message: {msg}");
}

#[test]
fn unary_minus_applies_to_grouping() {
    assert_eq!(parse_to_ast("-(1 + 2)"), "(- (group (+ 1.0 2.0)))");
}

#[test]
fn equality_binds_looser_than_addition() {
    assert_eq!(parse_to_ast("1 + 2 == 3"), "(== (+ 1.0 2.0) 3.0)");
}

#[test]
fn factor_is_left_associative() {
    assert_eq!(parse_to_ast("24 / 3 / 2"), "(/ (/ 24.0 3.0) 2.0)");
}

#[test]
fn parses_string_equality() {
    assert_eq!(parse_to_ast("\"a\" == \"b\""), "(== \"a\" \"b\")");
}

#[test]
fn errors_on_lone_unary_operator() {
    let msg = parse_err("!");
    assert!(msg.contains("Expected an expression"), "unexpected error message: {msg}");
}

#[test]
fn parses_bang_equal() {
    assert_eq!(parse_to_ast("1 != 2"), "(!= 1.0 2.0)");
}

#[test]
fn parses_less_equal() {
    assert_eq!(parse_to_ast("1 <= 2"), "(<= 1.0 2.0)");
}

#[test]
fn unary_binds_tighter_than_equality() {
    assert_eq!(parse_to_ast("!false == true"), "(== (! false) true)");
}

#[test]
fn parses_long_left_associative_expression() {
    assert_eq!(parse_to_ast("1 + 2 * 3 + 4"), "(+ (+ 1.0 (* 2.0 3.0)) 4.0)");
}

#[test]
fn errors_on_trailing_equality_operator() {
    let msg = parse_err("true ==");
    assert!(msg.contains("Expected an expression"), "unexpected error message: {msg}");
}

#[test]
fn parses_greater_equal() {
    assert_eq!(parse_to_ast("2 >= 1"), "(>= 2.0 1.0)");
}

#[test]
fn parses_less_than() {
    assert_eq!(parse_to_ast("2 < 10"), "(< 2.0 10.0)");
}

#[test]
fn parses_mixed_equality_chain() {
    assert_eq!(parse_to_ast("1 == 2 != 3"), "(!= (== 1.0 2.0) 3.0)");
}

#[test]
fn parses_complex_grouping_and_precedence() {
    assert_eq!(
        parse_to_ast("(1 + 2) * (3 - 4 / 2)"),
        "(* (group (+ 1.0 2.0)) (group (- 3.0 (/ 4.0 2.0))))"
    );
}

#[test]
fn errors_on_leading_binary_operator() {
    let msg = parse_err("+ 1");
    assert!(msg.contains("Expected an expression"), "unexpected error message: {msg}");
}

#[test]
fn parses_logical_operators_with_and_binding_tighter() {
    assert_eq!(parse_to_ast("a or b and c"), "(or a (and b c))");
}

#[test]
fn parses_call_with_arguments() {
    assert_eq!(parse_to_ast("f(1, x)"), "(call f 1.0 x)");
}

#[test]
fn parses_assignment_as_right_associative() {
    assert_eq!(parse_to_ast("a = b = 1"), "(= a (= b 1.0))");
}

#[test]
fn errors_on_invalid_assignment_target() {
    let msg = parse_err("1 = 2");
    assert!(msg.starts_with("Parser Error: "), "unexpected error message: {msg}");
}

#[test]
fn parses_print_statement_expression() {
    assert_eq!(parse_to_ast("print 1 + 2;"), "(+ 1.0 2.0)");
}

#[test]
fn synchronize_resumes_after_semicolon() {
    let tokens = tokens_of("+ + ; print 1;".to_string());
    let mut parser = Parser::new(&tokens);
    parser.synchronize();
    let stmts = parser.parse().unwrap();
    assert_eq!(stmts.len(), 1);
    assert!(matches!(stmts[0], Stmt::Print { .. }));
}

#[test]
fn synchronize_stops_at_statement_keyword() {
    let tokens = tokens_of("1 2 var a; print a;".to_string());
    let mut parser = Parser::new(&tokens);
    parser.synchronize();
    let stmts = parser.parse().unwrap();
    assert_eq!(stmts.len(), 2);
    assert!(matches!(stmts[0], Stmt::Var { .. }));
}

#[test]
fn each_argument_past_the_255th_is_reported_at_its_first_token() {
    for n in [256, 300] {
        let args = (0..n).map(|i| i.to_string()).collect::<Vec<_>>().join(", ");
        let tokens = tokens_of(format!("f({args});"));
        let mut parser = Parser::new(&tokens);
        let stmts = parser.parse().unwrap();
        assert_eq!(stmts.len(), 1);
        let expected = (255..n)
            .map(|i| format!("Parser Error: 0 at '{i}' Can't have more then 255 arguments"))
            .collect::<Vec<_>>();
        assert_eq!(parser.reports(), expected);
    }

    let args = (0..255).map(|i| i.to_string()).collect::<Vec<_>>().join(", ");
    let tokens = tokens_of(format!("f({args});"));
    let mut parser = Parser::new(&tokens);
    parser.parse().unwrap();
    assert!(parser.reports().is_empty());
}

#[test]
fn an_extra_argument_is_reported_at_its_first_token_before_its_own_reports() {
    let inner = (0..256).map(|i| i.to_string()).collect::<Vec<_>>().join(", ");
    let rest = (0..254).map(|i| i.to_string()).collect::<Vec<_>>().join(", ");
    let tokens = tokens_of(format!("f({rest}, -1, (g({inner})));\nh(1);"));
    let mut parser = Parser::new(&tokens);
    parser.parse().unwrap();
    assert_eq!(
        parser.reports(),
        vec![
            "Parser Error: 0 at '(' Can't have more then 255 arguments".to_string(),
            "Parser Error: 0 at '255' Can't have more then 255 arguments".to_string(),
        ]
    );
}

#[test]
fn a_missing_token_is_reported_and_returned() {
    let tokens = tokens_of("(1 + 2;".to_string());
    let mut parser = Parser::new(&tokens);
    let err = parser.parse().unwrap_err();
    assert_eq!(parser.reports(), vec![err.to_string()]);
}

#[test]
fn reports_of_a_for_loop_come_in_source_order() {
    let list = |from: usize| (from..from + 256).map(|i| i.to_string()).collect::<Vec<_>>().join(", ");
    let source = format!(
        "for (var i = f({}); g({}); h({})) k({});",
        list(0),
        list(1000),
        list(2000),
        list(3000)
    );
    let tokens = tokens_of(source);
    let mut parser = Parser::new(&tokens);
    let stmts = parser.parse().unwrap();
    assert_eq!(stmts.len(), 1);
    let expected = ["255", "1255", "2255", "3255"]
        .iter()
        .map(|n| format!("Parser Error: 0 at '{n}' Can't have more then 255 arguments"))
        .collect::<Vec<_>>();
    assert_eq!(parser.reports(), expected);
}
