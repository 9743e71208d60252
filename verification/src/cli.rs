//! The commands of the command-line interface, and what each computes on
//! the source text of the file it names.
use vstd::prelude::*;

use crate::ast::{stmts_view, Stmt};
use crate::grammar::program;
use crate::parser::{eof_ahead, first_eof, program_reports, Parser};
use crate::scanner::{
    scan_errors, scan_exit_code, scan_tokens, strings_view, Scanner,
};
use crate::text::chars_of;
use crate::token::{matches_word, token_repr, tokens_view, TokenType, TokenV};

verus! {

broadcast use vstd::string::group_string_axioms;

/// The subcommands.
pub enum InterpreterCommands {
    /// Scans a file and prints its tokens.
    Tokenize { file_path: String },
    /// Scans, parses and runs a file.
    Parse { file_path: String },
}

/// A command line: one subcommand.
pub struct Commands {
    pub cmd: InterpreterCommands,
}

/// Why a command failed.
pub enum CliErrors {
    InvalidFileType,
    InvalidCommand,
    ScannerError { reason: String },
    ParserError { reason: String },
    RuntimeError { reason: String },
}

pub type InterpreterErrors<T> = Result<T, CliErrors>;

/// What a command computes from the source text.
pub enum CommandOutput {
    /// The printed tokens, the scan errors and the exit code.
    Tokens { lines: Vec<String>, errors: Vec<String>, exit_code: i32 },
    /// The parsed program, to be run, or why it could not be parsed; the scan
    /// errors; and the parser's reports.
    Program {
        parsed: Result<Vec<Stmt>, CliErrors>,
        errors: Vec<String>,
        reports: Vec<String>,
    },
}

/// Whether a path names a Lox file: it ends with `.lox`.
pub open spec fn has_lox_extension(path: Seq<char>) -> bool {
    path.len() >= 4 && path.subrange(path.len() - 4, path.len() as int) == ".lox"@
}

pub fn is_lox_file(path: &String) -> (r: bool)
    ensures
        r == has_lox_extension(path@),
{
    let v = chars_of(path.as_str());
    let n = v.len();
    if n < 4 {
        return false;
    }
    matches_word(&v, n - 4, n, ".lox")
}

/// A token sequence that ends with the end-of-file token has one ahead of
/// every position.
pub proof fn lemma_eof_at_end(t: Seq<TokenV>, p: int)
    requires
        0 <= p < t.len(),
        t.last().token_ty == TokenType::EOF,
    ensures
        eof_ahead(t, p),
    decreases t.len() - p,
{
    if t[p].token_ty != TokenType::EOF {
        lemma_eof_at_end(t, p + 1);
    }
}

impl InterpreterCommands {
    pub open spec fn path_view(&self) -> Seq<char> {
        match self {
            InterpreterCommands::Tokenize { file_path } => file_path@,
            InterpreterCommands::Parse { file_path } => file_path@,
        }
    }
}

impl Commands {
    /// The path of the file the command names.
    pub fn file_path(&self) -> (r: &String)
        ensures
            r@ == self.cmd.path_view(),
    {
        match &self.cmd {
            InterpreterCommands::Tokenize { file_path } => file_path,
            InterpreterCommands::Parse { file_path } => file_path,
        }
    }

    /// Runs the command on `source`, the text of the file it names. A path
    /// without the `.lox` extension is refused whatever the source. To
    /// tokenize is to scan; to parse is to scan and then parse the tokens,
    /// a parse error being given as `Parser Error: ` and its message. The
    /// parser's reports are stated for a program that parses; for one that
    /// does not, this contract leaves them unsaid.
    pub fn handle_command(&self, source: String) -> (r: InterpreterErrors<CommandOutput>)
        ensures
            !has_lox_extension(self.cmd.path_view()) ==> r matches Err(CliErrors::InvalidFileType),
            has_lox_extension(self.cmd.path_view()) ==> match self.cmd {
                InterpreterCommands::Tokenize { .. } => match r {
                    Ok(CommandOutput::Tokens { lines, errors, exit_code }) => strings_view(lines@)
                        == scan_tokens(source@).map_values(|t: TokenV| token_repr(t))
                        && strings_view(errors@) == scan_errors(source@) && exit_code
                        == scan_exit_code(source@),
                    _ => false,
                },
                InterpreterCommands::Parse { .. } => match r {
                    Ok(CommandOutput::Program { parsed, errors, reports }) => strings_view(errors@)
                        == scan_errors(source@) && match (parsed, program(scan_tokens(source@), 0)) {
                        (Ok(stmts), Ok(s)) => stmts_view(stmts@) == s && strings_view(reports@)
                            == program_reports(scan_tokens(source@), 0),
                        (Err(CliErrors::ParserError { reason }), Err(m)) => reason@
                            == "Parser Error: "@ + m,
                        _ => false,
                    },
                    _ => false,
                },
            },
    {
        if !is_lox_file(self.file_path()) {
            return Err(CliErrors::InvalidFileType);
        }
        let mut scanner = Scanner::from_source(source);
        let exit_code = match scanner.scan() {
            Ok(code) => code,
            Err(e) => return Err(CliErrors::ScannerError { reason: e }),
        };
        let errors = scanner.get_errors();
        match &self.cmd {
            InterpreterCommands::Tokenize { .. } => {
                let lines = scanner.token_lines();
                assert(scanner.tokens_v() =~= scan_tokens(source@));
                Ok(CommandOutput::Tokens { lines, errors, exit_code })
            },
            InterpreterCommands::Parse { .. } => {
                let tokens = scanner.get_tokens();
                let mut parser = Parser::new(tokens.as_slice());
                proof {
                    assert(tokens_view(tokens@) =~= scan_tokens(source@));
                    lemma_eof_at_end(scan_tokens(source@), 0);
                }
                assert(parser.reports_view() =~= Seq::<Seq<char>>::empty());
                let parsed = match parser.parse() {
                    Ok(stmts) => Ok(stmts),
                    Err(e) => Err(CliErrors::ParserError { reason: e.to_string() }),
                };
                let reports = parser.reports();
                assert(Seq::<Seq<char>>::empty() + parser.reports_view() =~= parser.reports_view());
                Ok(CommandOutput::Program { parsed, errors, reports })
            },
        }
    }
}

} // verus!
