use lox_interpreter::ast::{Expr, Stmt};
use lox_interpreter::interpret::Interpret;
use lox_interpreter::parser::Parser;
use lox_interpreter::resolver::Resolver;
use lox_interpreter::scanner::Scanner;
use lox_interpreter::token::{Token, TokenType};

fn parse_program(source_code: &str) -> Vec<Stmt> {
    let mut scanner = Scanner::from_source(source_code.to_string());
    scanner.scan().unwrap();
    let tokens = scanner.get_tokens();
    Parser::new(&tokens).parse().unwrap()
}

#[test]
fn resolving_statements_leaves_no_scope_open() {
    let stmts = parse_program(
        "{ var a = 1; } fun f(a, b) { return a; } if (true) { var c; } else print 1; while (false) {}",
    );
    let mut resolver: Resolver<'_, f64> = Resolver::new(Interpret::new());
    assert!(resolver.is_scope_empty());
    for stmt in stmts {
        resolver.resolve_stmt(stmt);
        assert!(resolver.is_scope_empty());
    }
}

#[test]
fn reading_a_variable_outside_any_scope_resolves() {
    let mut resolver: Resolver<'_, f64> = Resolver::new(Interpret::new());
    let expr = Expr::Variable {
        name: Token::new(TokenType::IDENTIFIER, 0, "a".to_string(), 0, "null".to_string()),
    };
    assert!(resolver.resolve_expr(&expr).is_ok());
    assert!(resolver.is_scope_empty());
}
