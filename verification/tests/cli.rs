use lox_interpreter::ast::Stmt;
use lox_interpreter::cli::{is_lox_file, CliErrors, CommandOutput, Commands, InterpreterCommands};

fn tokenize(path: &str) -> Commands {
    Commands { cmd: InterpreterCommands::Tokenize { file_path: path.to_string() } }
}

fn parse(path: &str) -> Commands {
    Commands { cmd: InterpreterCommands::Parse { file_path: path.to_string() } }
}

#[test]
fn only_lox_files_are_accepted() {
    assert!(is_lox_file(&"test.lox".to_string()));
    assert!(is_lox_file(&".lox".to_string()));
    assert!(!is_lox_file(&"test.lo".to_string()));
    assert!(!is_lox_file(&"lox".to_string()));
    assert!(matches!(tokenize("test.txt").handle_command("()".to_string()), Err(CliErrors::InvalidFileType)));
    assert!(matches!(parse("test").handle_command("print 1;".to_string()), Err(CliErrors::InvalidFileType)));
}

#[test]
fn tokenize_gives_token_lines_errors_and_exit_code() {
    match tokenize("test.lox").handle_command("(@)".to_string()) {
        Ok(CommandOutput::Tokens { lines, errors, exit_code }) => {
            assert_eq!(lines, vec!["LEFT_PAREN ( null", "RIGHT_PAREN ) null", "EOF  null"]);
            assert_eq!(errors, vec!["[line 1] Error: Unexpected character: @"]);
            assert_eq!(exit_code, 65);
        }
        _ => panic!("expected tokens"),
    }
}

#[test]
fn parse_gives_the_program() {
    match parse("test.lox").handle_command("var a = 1; print a;".to_string()) {
        Ok(CommandOutput::Program { parsed: Ok(stmts), errors, reports }) => {
            assert_eq!(stmts.len(), 2);
            assert!(matches!(stmts[0], Stmt::Var { .. }));
            assert!(errors.is_empty());
            assert!(reports.is_empty());
        }
        _ => panic!("expected a program"),
    }
}

#[test]
fn parse_error_is_given_with_its_report() {
    match parse("test.lox").handle_command("print 1".to_string()) {
        Ok(CommandOutput::Program { parsed: Err(CliErrors::ParserError { reason }), reports, .. }) => {
            assert_eq!(reason, "Parser Error: 0 at end Expected the statement to end with a semicolon");
            assert_eq!(reports, vec![reason]);
        }
        _ => panic!("expected a parse error"),
    }
}
