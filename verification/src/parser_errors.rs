use vstd::prelude::*;

use crate::text::{decimal, push_decimal, push_str, string_from_chars};
use crate::token::{Token, TokenType, TokenV};

verus! {

broadcast use vstd::string::group_string_axioms;

/// The result of a parsing step.
pub type ParserResult<T> = Result<T, ParserError>;

/// A message about a place in the source.
pub struct Report {
    pub msg: String,
}

impl Report {
    pub fn new(msg: String) -> (r: Self)
        ensures
            r.msg == msg,
    {
        Self { msg }
    }
}

/// Why parsing stopped.
#[derive(Debug)]
pub enum ParserError {
    ParseError { msg: String },
}

/// The message of a parse error reported at `token`: its line, where it
/// stands (`at end` for the end of input, else the lexeme in quotes), and
/// what was wrong.
pub open spec fn error_at(token: TokenV, error: Seq<char>) -> Seq<char> {
    if token.token_ty == TokenType::EOF {
        decimal(token.line as nat) + " at end "@ + error
    } else {
        decimal(token.line as nat) + " at '"@ + token.lexeme + "' "@ + error
    }
}

impl ParserError {
    /// The message the error carries.
    pub open spec fn msg_view(&self) -> Seq<char> {
        match self {
            ParserError::ParseError { msg } => msg@,
        }
    }

    /// The error reported at `token` (see `error_at`).
    pub fn get_error(token: &Token, error: &str) -> (r: Self)
        ensures
            r.msg_view() == error_at(token@, error@),
    {
        let mut v: Vec<char> = Vec::new();
        push_decimal(&mut v, token.line);
        if token.token_ty == TokenType::EOF {
            push_str(&mut v, " at end ");
        } else {
            push_str(&mut v, " at '");
            push_str(&mut v, token.lexeme.as_str());
            push_str(&mut v, "' ");
        }
        push_str(&mut v, error);
        assert(v@ =~= error_at(token@, error@));
        let report = Report::new(string_from_chars(v));
        ParserError::ParseError { msg: report.msg }
    }

    /// The error as it is displayed: `Parser Error: ` and its message.
    pub fn to_string(&self) -> (r: String)
        ensures
            r@ == "Parser Error: "@ + self.msg_view(),
    {
        match self {
            ParserError::ParseError { msg } => {
                let mut v: Vec<char> = Vec::new();
                push_str(&mut v, "Parser Error: ");
                push_str(&mut v, msg.as_str());
                string_from_chars(v)
            },
        }
    }
}

} // verus!
