use lox_interpreter::ast::{Expr, Stmt};
use lox_interpreter::interpret::{
    is_equal, is_truthy, value_text, Action, ArithOp, CompareOp, Event, Interpret, LoxFunction, NativeFn, RuntimeError,
    Value,
};
use lox_interpreter::parser::Parser;
use lox_interpreter::scanner::Scanner;
use lox_interpreter::token::{Token, TokenType};

fn parse_program(source_code: &str) -> Vec<Stmt> {
    let mut scanner = Scanner::from_source(source_code.to_string());
    scanner.scan().unwrap();
    let tokens = scanner.get_tokens();
    Parser::new(&tokens).parse().unwrap()
}

fn format_value(v: &Value<'_, f64>) -> String {
    match value_text(v) {
        Some(text) => text,
        None => match v {
            Value::Number(n) => {
                let mut text = n.to_string();
                if text.ends_with(".0") {
                    text.truncate(text.len() - 2);
                }
                text
            }
            _ => String::new(),
        },
    }
}

/// Runs the machine to its end, answering its actions with `f64` arithmetic.
fn drive(machine: &mut Interpret<'_, f64>, out: &mut Vec<String>) -> Result<(), RuntimeError> {
    let mut ev = Event::Nothing;
    loop {
        ev = match machine.step(ev) {
            Action::Continue => Event::Nothing,
            Action::Print(v) => {
                out.push(format_value(&v));
                Event::Nothing
            }
            Action::ParseNumber(s) => Event::Number(s.parse::<f64>().unwrap()),
            Action::Negate(n) => Event::Number(-n),
            Action::Arith(op, a, b) => Event::Number(match op {
                ArithOp::Add => a + b,
                ArithOp::Subtract => a - b,
                ArithOp::Multiply => a * b,
                ArithOp::Divide => a / b,
            }),
            Action::Compare(op, a, b) => Event::Bool(match op {
                CompareOp::Greater => a > b,
                CompareOp::GreaterEqual => a >= b,
                CompareOp::Less => a < b,
                CompareOp::LessEqual => a <= b,
                CompareOp::Equal => a == b,
                CompareOp::NotEqual => a != b,
            }),
            Action::Clock => Event::Number(1.0e9),
            Action::Fail(e) => return Err(e),
            Action::Halt => return Ok(()),
        };
    }
}

fn run(source: &str) -> (Vec<String>, Result<(), String>) {
    let program = parse_program(source);
    let mut machine = Interpret::new();
    machine.interpret_stmts(&program);
    let mut out = Vec::new();
    let r = drive(&mut machine, &mut out).map_err(|e| e.message);
    (out, r)
}

fn ident(name: &str) -> Token {
    Token::new(TokenType::IDENTIFIER, 1, name.to_string(), 0, String::new())
}

#[test]
fn while_statement_executes_until_condition_is_false() {
    let i_expr = Expr::Variable { name: ident("i") };
    let program = parse_program(
        r#"
        var i = 0;
        while (i < 3) {
          i = i + 1;
        }
        "#,
    );
    let mut interpreter = Interpret::new();
    interpreter.interpret_stmts(&program);
    let mut out = Vec::new();
    drive(&mut interpreter, &mut out).unwrap();

    interpreter.evaluate(&i_expr);
    drive(&mut interpreter, &mut out).unwrap();
    let i_value = interpreter.take_value();

    assert_eq!(i_value, Value::Number(3.0));
}

#[test]
fn get_variable_reads_the_global_value() {
    let program = parse_program("var i = 0; while (i < 3) { i = i + 1; }");
    let mut machine = Interpret::new();
    machine.interpret_stmts(&program);
    let mut out = Vec::new();
    drive(&mut machine, &mut out).unwrap();
    assert_eq!(machine.get_variable(&ident("i")).unwrap(), Value::Number(3.0));
}

#[test]
fn prints_arithmetic_with_precedence() {
    assert_eq!(run("print 1 + 2 * 3;").0, vec!["7"]);
    assert_eq!(run("print (1 + 2) * (3 - 4 / 2);").0, vec!["3"]);
    assert_eq!(run("print 10 - 3 - 2;").0, vec!["5"]);
    assert_eq!(run("print 24 / 3 / 2;").0, vec!["4"]);
    assert_eq!(run("print 7 / 2;").0, vec!["3.5"]);
}

#[test]
fn prints_strings_booleans_and_nil() {
    let (out, r) = run("print \"hello\" + \" \" + \"world\"; print true; print nil; print !0;");
    assert!(r.is_ok());
    assert_eq!(out, vec!["hello world", "true", "nil", "false"]);
}

#[test]
fn equality_and_comparison_results() {
    let (out, _) = run(
        "print 1 == 2; print 1 != 2; print \"a\" == \"a\"; print nil == nil; print 1 == true; print 3 < 4; print 5 <= 5; print 10 > 3; print true == false == false;",
    );
    assert_eq!(out, vec!["false", "true", "true", "true", "false", "true", "true", "true", "true"]);
}

#[test]
fn unary_minus_on_non_number_is_a_runtime_error() {
    let (_, r) = run("print -true;");
    assert_eq!(r.unwrap_err(), "Operand must be a number.");
}

#[test]
fn binary_operand_type_errors() {
    assert_eq!(run("print 3 < true;").1.unwrap_err(), "Operands must be numbers.");
    assert_eq!(run("print \"x\" / 2;").1.unwrap_err(), "Operands must be numbers.");
    assert_eq!(run("print 3 > 2 > 1;").1.unwrap_err(), "Operands must be numbers.");
    assert_eq!(
        run("print 1 + \"a\";").1.unwrap_err(),
        "Operands must be two numbers or two strings."
    );
}

#[test]
fn undefined_variable_read_and_write_are_errors() {
    assert_eq!(run("print x;").1.unwrap_err(), "Undefined variable 'x'.");
    assert_eq!(run("x = 1;").1.unwrap_err(), "Undefined variable 'x'.");
}

#[test]
fn output_before_an_error_is_kept() {
    let (out, r) = run("print 1; print -nil; print 2;");
    assert_eq!(out, vec!["1"]);
    assert!(r.is_err());
}

#[test]
fn blocks_scope_and_shadow_variables() {
    let (out, _) = run("var a = 1; { var a = 2; print a; a = 3; print a; } print a;");
    assert_eq!(out, vec!["2", "3", "1"]);
}

#[test]
fn assignment_reaches_enclosing_scope() {
    let (out, _) = run("var a = 1; { a = 5; } print a;");
    assert_eq!(out, vec!["5"]);
}

#[test]
fn var_without_initializer_is_nil() {
    assert_eq!(run("var a; print a;").0, vec!["nil"]);
}

#[test]
fn if_else_picks_branch_by_truthiness() {
    let (out, _) = run("if (nil) print 1; else print 2; if (0) print 3; if (false) print 4;");
    assert_eq!(out, vec!["2", "3"]);
}

#[test]
fn logical_operators_short_circuit_and_return_operands() {
    let (out, r) = run("print nil or \"yes\"; print 1 and 2; print false and undefined; print true or undefined;");
    assert!(r.is_ok());
    assert_eq!(out, vec!["yes", "2", "false", "true"]);
}

#[test]
fn for_loop_counts() {
    let (out, _) = run("for (var i = 0; i < 3; i = i + 1) print i;");
    assert_eq!(out, vec!["0", "1", "2"]);
}

#[test]
fn functions_return_values() {
    let (out, r) = run("fun add(a, b) { return a + b; } print add(1, 2); print add;");
    assert!(r.is_ok());
    assert_eq!(out, vec!["3", "<fn add>"]);
}

#[test]
fn function_without_return_gives_nil() {
    assert_eq!(run("fun f() { var x = 1; } print f();").0, vec!["nil"]);
}

#[test]
fn return_leaves_nested_blocks_and_loops() {
    let (out, _) = run(
        "fun f() { var i = 0; while (true) { { if (i == 2) return i; } i = i + 1; } } print f(); var i = 10; print i;",
    );
    assert_eq!(out, vec!["2", "10"]);
}

#[test]
fn recursion_computes_fibonacci() {
    let (out, _) = run("fun fib(n) { if (n < 2) return n; return fib(n - 1) + fib(n - 2); } print fib(10);");
    assert_eq!(out, vec!["55"]);
}

#[test]
fn calls_see_the_callers_scope() {
    let (out, _) = run("fun show() { print x; } { var x = \"local\"; show(); }");
    assert_eq!(out, vec!["local"]);
}

#[test]
fn call_errors() {
    assert_eq!(run("\"f\"();").1.unwrap_err(), "Can only call functions and classes.");
    assert_eq!(
        run("fun f(a) { return a; } f(1, 2);").1.unwrap_err(),
        "Expected 1 arguments but got 2."
    );
    assert_eq!(run("clock(1);").1.unwrap_err(), "Expected 0 arguments but got 1.");
}

#[test]
fn clock_asks_the_host() {
    let (out, r) = run("print clock() > 0; print clock;");
    assert!(r.is_ok());
    assert_eq!(out, vec!["true", "<native fn>"]);
}

#[test]
fn top_level_return_skips_only_the_rest_of_its_statement() {
    let (out, r) = run("{ print 1; return; print 2; } print 3;");
    assert!(r.is_ok());
    assert_eq!(out, vec!["1", "3"]);
}

#[test]
fn empty_program_halts_at_once() {
    let mut machine: Interpret<'_, f64> = Interpret::new();
    assert!(matches!(machine.step(Event::Nothing), Action::Halt));
    let program: Vec<Stmt> = Vec::new();
    machine.interpret_stmts(&program);
    assert!(matches!(machine.step(Event::Nothing), Action::Halt));
}

#[test]
fn number_literal_is_parsed_by_the_host() {
    let program = parse_program("42;");
    let mut machine: Interpret<'_, f64> = Interpret::new();
    machine.interpret_stmts(&program);
    assert!(matches!(machine.step(Event::Nothing), Action::Continue));
    assert!(matches!(machine.step(Event::Nothing), Action::Continue));
    match machine.step(Event::Nothing) {
        Action::ParseNumber(s) => assert_eq!(s, "42.0"),
        other => panic!("unexpected action {other:?}"),
    }
}

#[test]
fn truthiness_and_equality_helpers() {
    let nil: Value<'_, f64> = Value::Nil;
    assert!(!is_truthy(&nil));
    assert!(!is_truthy(&Value::<f64>::Bool(false)));
    assert!(is_truthy(&Value::<f64>::Number(0.0)));
    assert!(is_truthy(&Value::<f64>::String(String::new())));
    assert_eq!(is_equal(&Value::<f64>::Number(1.0), &Value::Number(1.0)), None);
    assert_eq!(is_equal(&Value::<f64>::Nil, &Value::Nil), Some(true));
    assert_eq!(is_equal(&Value::<f64>::Nil, &Value::Bool(false)), Some(false));
    assert_eq!(
        is_equal(&Value::<f64>::String("a".to_string()), &Value::String("a".to_string())),
        Some(true)
    );
    assert_eq!(is_equal(&Value::<f64>::NativeFn(NativeFn::Clock), &Value::NativeFn(NativeFn::Clock)), Some(false));
}

#[test]
fn undefined_variable_lookup_reports_the_token() {
    let machine: Interpret<'_, f64> = Interpret::new();
    let err = machine.get_variable(&ident("nope")).unwrap_err();
    assert_eq!(err.message, "Undefined variable 'nope'.");
    assert_eq!(err.token.lexeme, "nope");
    assert!(matches!(machine.get_variable(&ident("clock")), Ok(Value::NativeFn(NativeFn::Clock))));
}

#[test]
fn equality_does_not_depend_on_operand_order() {
    let values: Vec<Value<'_, f64>> = vec![
        Value::Nil,
        Value::Bool(true),
        Value::Bool(false),
        Value::String("a".to_string()),
        Value::String("b".to_string()),
        Value::Number(1.0),
        Value::NativeFn(NativeFn::Clock),
    ];
    for a in &values {
        for b in &values {
            assert_eq!(is_equal(a, b), is_equal(b, a));
        }
    }
    let (out, _) = run("print \"a\" == nil; print nil == \"a\"; print 1 == \"1\"; print \"1\" == 1;");
    assert_eq!(out, vec!["false", "false", "false", "false"]);
}

#[test]
fn a_function_never_equals_itself() {
    let (out, _) = run("fun f() {} print f == f; print clock == clock;");
    assert_eq!(out, vec!["false", "false"]);
}

#[test]
fn functions_report_their_arity() {
    let program = parse_program("fun add(a, b) { return a + b; } fun none() {}");
    assert_eq!(LoxFunction::new(&program[0]).arity(), 2);
    assert_eq!(LoxFunction::new(&program[1]).arity(), 0);
    assert_eq!(NativeFn::Clock.arity(), 0);
}

#[test]
fn a_statement_can_be_run_on_its_own() {
    let program = parse_program("print 1 + 1; var x = \"set\";");
    let mut interpreter: Interpret<'_, f64> = Interpret::new();
    let mut out = Vec::new();
    program[1].eval(&mut interpreter);
    program[0].eval(&mut interpreter);
    drive(&mut interpreter, &mut out).unwrap();
    assert_eq!(out, vec!["2"]);
    assert_eq!(
        interpreter.get_variable(&ident("x")).unwrap(),
        Value::String("set".to_string())
    );
}

#[test]
fn an_error_in_a_block_leaves_the_block() {
    let a = Expr::Variable { name: ident("a") };
    let program = parse_program("var a = \"global\"; { var a = \"block\"; print nope; }");
    let mut interpreter: Interpret<'_, f64> = Interpret::new();
    interpreter.interpret_stmts(&program);
    let mut out = Vec::new();
    let err = drive(&mut interpreter, &mut out).unwrap_err();
    assert_eq!(err.message, "Undefined variable 'nope'.");
    assert_eq!(interpreter.get_variable(&ident("a")).unwrap(), Value::String("global".to_string()));
    interpreter.evaluate(&a);
    drive(&mut interpreter, &mut out).unwrap();
    assert_eq!(interpreter.take_value(), Value::String("global".to_string()));
}

#[test]
fn an_error_in_a_call_leaves_the_call_and_keeps_global_changes() {
    let program = parse_program(
        "var a = 1; fun f() { var a = \"call\"; { print -nil; } } { a = 2; var b = 3; f(); }",
    );
    let mut interpreter: Interpret<'_, f64> = Interpret::new();
    interpreter.interpret_stmts(&program);
    let mut out = Vec::new();
    let err = drive(&mut interpreter, &mut out).unwrap_err();
    assert_eq!(err.message, "Operand must be a number.");
    assert_eq!(interpreter.get_variable(&ident("a")).unwrap(), Value::Number(2.0));
    assert!(interpreter.get_variable(&ident("b")).is_err());
    assert!(matches!(interpreter.step(Event::Nothing), Action::Halt));
}

#[test]
fn for_loop_without_initializer_runs() {
    let (out, r) = run("var i = 0; for (; i < 3; i = i + 1) print i;");
    assert!(r.is_ok());
    assert_eq!(out, vec!["0", "1", "2"]);
}

#[test]
fn an_error_ends_the_program_in_its_statement() {
    let program = parse_program("print 1; var x = 1; print -nil; print 3; var y = 4;");
    let mut interpreter: Interpret<'_, f64> = Interpret::new();
    interpreter.interpret_stmts(&program);
    let mut out = Vec::new();
    let err = drive(&mut interpreter, &mut out).unwrap_err();
    assert_eq!(err.message, "Operand must be a number.");
    assert_eq!(out, vec!["1"]);
    assert_eq!(interpreter.get_variable(&ident("x")).unwrap(), Value::Number(1.0));
    assert!(interpreter.get_variable(&ident("y")).is_err());
    assert!(matches!(interpreter.step(Event::Nothing), Action::Halt));
    assert!(matches!(interpreter.step(Event::Nothing), Action::Halt));
    assert!(interpreter.get_variable(&ident("y")).is_err());
    assert_eq!(out, vec!["1"]);
}
