//! The grammar of Lox as recursive-descent functions over token sequences.
//!
//! ```text
//! program     → declaration* EOF ;
//! declaration → "fun" function | "var" varDecl | statement ;
//! function    → IDENTIFIER "(" ( IDENTIFIER ( "," IDENTIFIER )* )? ")" block ;
//! varDecl     → IDENTIFIER ( "=" expression )? ";" ;
//! statement   → "if" ifStmt | "print" printStmt | "return" returnStmt
//!             | "while" whileStmt | "for" forStmt | "{" block | exprStmt ;
//! expression  → assignment ;
//! assignment  → logic_or ( "=" assignment )? ;
//! logic_or    → logic_and ( "or" logic_and )* ;
//! logic_and   → equality ( "and" logic_and )* ;
//! equality    → comparison ( ( "!=" | "==" ) comparison )* ;
//! comparison  → term ( ( ">" | ">=" | "<" | "<=" ) term )* ;
//! term        → factor ( ( "-" | "+" ) factor )* ;
//! factor      → unary ( ( "/" | "*" ) unary )* ;
//! unary       → ( "!" | "-" ) unary | call ;
//! call        → primary ( "(" arguments? ")" )* ;
//! primary     → "true" | "false" | "nil" | NUMBER | STRING | IDENTIFIER
//!             | "(" expression ")" ;
//! ```
//!
//! Each function takes the tokens and a position and gives the parsed tree
//! with the position after it, or the message of the first error.
use vstd::prelude::*;

use crate::ast::{ExprV, LiteralV, StmtV};
use crate::parser_errors::error_at;
use crate::token::{TokenType, TokenV};

verus! {

/// A parse: the tree and the position after it, or an error message.
pub type PResult<T> = Result<(T, int), Seq<char>>;

/// The type of the token at `p`.
pub open spec fn ty(t: Seq<TokenV>, p: int) -> TokenType {
    t[p].token_ty
}

/// Consumes a token of type `k` at `p`, or fails with `msg` reported there.
pub open spec fn expect(t: Seq<TokenV>, p: int, k: TokenType, msg: Seq<char>) -> PResult<TokenV> {
    if ty(t, p) == k {
        Ok((t[p], p + 1))
    } else {
        Err(error_at(t[p], msg))
    }
}

/// Whether `p1` is a position reached from `p`.
pub open spec fn adv(t: Seq<TokenV>, p: int, p1: int) -> bool {
    p <= p1 < t.len()
}

/// The operators of a binary precedence level: equality (0),
/// comparison (1), term (2), factor (3).
pub open spec fn level_op(level: int, k: TokenType) -> bool {
    if level == 0 {
        k == TokenType::BANG_EQUAL || k == TokenType::EQUAL_EQUAL
    } else if level == 1 {
        k == TokenType::GREATER || k == TokenType::GREATER_EQUAL || k == TokenType::LESS || k
            == TokenType::LESS_EQUAL
    } else if level == 2 {
        k == TokenType::MINUS || k == TokenType::PLUS
    } else {
        k == TokenType::SLASH || k == TokenType::STAR
    }
}

pub open spec fn bad() -> Seq<char> {
    "unreachable"@
}

// ---------------------------------------------------------------- expressions
pub open spec fn expression(t: Seq<TokenV>, p: int) -> PResult<ExprV>
    decreases t.len() - p, 17int,
{
    if 0 <= p < t.len() {
        assignment(t, p)
    } else {
        Err(bad())
    }
}

pub open spec fn assignment(t: Seq<TokenV>, p: int) -> PResult<ExprV>
    decreases t.len() - p, 16int,
{
    if 0 <= p < t.len() {
        match logic_or(t, p) {
            Err(m) => Err(m),
            Ok((target, p1)) => {
                if adv(t, p, p1) && ty(t, p1) == TokenType::EQUAL && p1 + 1 < t.len() {
                    match assignment(t, p1 + 1) {
                        Err(m) => Err(m),
                        Ok((value, p2)) => match target {
                            ExprV::Variable(name) => Ok((ExprV::Assign(name, Box::new(value)), p2)),
                            _ => Err("Invalid assignment target"@),
                        },
                    }
                } else if adv(t, p, p1) && ty(t, p1) == TokenType::EQUAL {
                    Err(bad())
                } else {
                    Ok((target, p1))
                }
            },
        }
    } else {
        Err(bad())
    }
}

pub open spec fn logic_or(t: Seq<TokenV>, p: int) -> PResult<ExprV>
    decreases t.len() - p, 15int,
{
    if 0 <= p < t.len() {
        match logic_and(t, p) {
            Err(m) => Err(m),
            Ok((left, p1)) => if adv(t, p, p1) {
                or_rest(t, p1, left)
            } else {
                Err(bad())
            },
        }
    } else {
        Err(bad())
    }
}

pub open spec fn or_rest(t: Seq<TokenV>, p: int, left: ExprV) -> PResult<ExprV>
    decreases t.len() - p, 14int,
{
    if 0 <= p < t.len() {
        if ty(t, p) == TokenType::OR && p + 1 < t.len() {
            match logic_and(t, p + 1) {
                Err(m) => Err(m),
                Ok((right, p2)) => if adv(t, p + 1, p2) {
                    or_rest(t, p2, ExprV::Logical(Box::new(left), t[p], Box::new(right)))
                } else {
                    Err(bad())
                },
            }
        } else if ty(t, p) == TokenType::OR {
            Err(bad())
        } else {
            Ok((left, p))
        }
    } else {
        Err(bad())
    }
}

pub open spec fn logic_and(t: Seq<TokenV>, p: int) -> PResult<ExprV>
    decreases t.len() - p, 13int,
{
    if 0 <= p < t.len() {
        match binary(0, t, p) {
            Err(m) => Err(m),
            Ok((left, p1)) => if adv(t, p, p1) {
                and_rest(t, p1, left)
            } else {
                Err(bad())
            },
        }
    } else {
        Err(bad())
    }
}

/// The right operand of `and` is itself a whole `logic_and`.
pub open spec fn and_rest(t: Seq<TokenV>, p: int, left: ExprV) -> PResult<ExprV>
    decreases t.len() - p, 12int,
{
    if 0 <= p < t.len() {
        if ty(t, p) == TokenType::AND && p + 1 < t.len() {
            match logic_and(t, p + 1) {
                Err(m) => Err(m),
                Ok((right, p2)) => if adv(t, p + 1, p2) {
                    and_rest(t, p2, ExprV::Logical(Box::new(left), t[p], Box::new(right)))
                } else {
                    Err(bad())
                },
            }
        } else if ty(t, p) == TokenType::AND {
            Err(bad())
        } else {
            Ok((left, p))
        }
    } else {
        Err(bad())
    }
}

/// A binary precedence level (see `level_op`); left-associative.
pub open spec fn binary(level: int, t: Seq<TokenV>, p: int) -> PResult<ExprV>
    decreases t.len() - p, 11 - 2 * level,
{
    if 0 <= p < t.len() && 0 <= level <= 3 {
        match operand(level, t, p) {
            Err(m) => Err(m),
            Ok((left, p1)) => if adv(t, p, p1) {
                binary_rest(level, t, p1, left)
            } else {
                Err(bad())
            },
        }
    } else {
        Err(bad())
    }
}

/// The operand of a binary level: the next level, or `unary`.
pub open spec fn operand(level: int, t: Seq<TokenV>, p: int) -> PResult<ExprV>
    decreases t.len() - p, 10 - 2 * level,
{
    if 0 <= p < t.len() && 0 <= level <= 3 {
        if level == 3 {
            unary(t, p)
        } else {
            binary(level + 1, t, p)
        }
    } else {
        Err(bad())
    }
}

pub open spec fn binary_rest(level: int, t: Seq<TokenV>, p: int, left: ExprV) -> PResult<ExprV>
    decreases t.len() - p, 10 - 2 * level,
{
    if 0 <= p < t.len() && 0 <= level <= 3 {
        if level_op(level, ty(t, p)) && p + 1 < t.len() {
            match operand(level, t, p + 1) {
                Err(m) => Err(m),
                Ok((right, p2)) => if adv(t, p + 1, p2) {
                    binary_rest(
                        level,
                        t,
                        p2,
                        ExprV::Binary(Box::new(left), t[p], Box::new(right)),
                    )
                } else {
                    Err(bad())
                },
            }
        } else if level_op(level, ty(t, p)) {
            Err(bad())
        } else {
            Ok((left, p))
        }
    } else {
        Err(bad())
    }
}

pub open spec fn unary(t: Seq<TokenV>, p: int) -> PResult<ExprV>
    decreases t.len() - p, 3int,
{
    if 0 <= p < t.len() {
        if (ty(t, p) == TokenType::BANG || ty(t, p) == TokenType::MINUS) && p + 1 < t.len() {
            match unary(t, p + 1) {
                Err(m) => Err(m),
                Ok((right, p2)) => Ok((ExprV::Unary(t[p], Box::new(right)), p2)),
            }
        } else if ty(t, p) == TokenType::BANG || ty(t, p) == TokenType::MINUS {
            Err(bad())
        } else {
            call(t, p)
        }
    } else {
        Err(bad())
    }
}

pub open spec fn call(t: Seq<TokenV>, p: int) -> PResult<ExprV>
    decreases t.len() - p, 2int,
{
    if 0 <= p < t.len() {
        match primary(t, p) {
            Err(m) => Err(m),
            Ok((callee, p1)) => if adv(t, p, p1) {
                call_rest(t, p1, callee)
            } else {
                Err(bad())
            },
        }
    } else {
        Err(bad())
    }
}

pub open spec fn call_rest(t: Seq<TokenV>, p: int, callee: ExprV) -> PResult<ExprV>
    decreases t.len() - p, 1int,
{
    if 0 <= p < t.len() {
        if ty(t, p) == TokenType::LEFT_PAREN && p + 1 < t.len() {
            match finish_call(t, p + 1, callee) {
                Err(m) => Err(m),
                Ok((e, p2)) => if adv(t, p + 1, p2) {
                    call_rest(t, p2, e)
                } else {
                    Err(bad())
                },
            }
        } else if ty(t, p) == TokenType::LEFT_PAREN {
            Err(bad())
        } else {
            Ok((callee, p))
        }
    } else {
        Err(bad())
    }
}

/// The arguments of a call after its `(`, and the closing `)`.
pub open spec fn finish_call(t: Seq<TokenV>, p: int, callee: ExprV) -> PResult<ExprV>
    decreases t.len() - p, 19int,
{
    if 0 <= p < t.len() {
        if ty(t, p) == TokenType::RIGHT_PAREN {
            Ok((ExprV::Call(Box::new(callee), t[p], seq![]), p + 1))
        } else {
            match arguments(t, p) {
                Err(m) => Err(m),
                Ok((args, p1)) => if adv(t, p, p1) {
                    match expect(t, p1, TokenType::RIGHT_PAREN, "Expected ) to end the call"@) {
                        Err(m) => Err(m),
                        Ok((paren, p2)) => Ok((ExprV::Call(Box::new(callee), paren, args), p2)),
                    }
                } else {
                    Err(bad())
                },
            }
        }
    } else {
        Err(bad())
    }
}

/// Expressions separated by commas.
pub open spec fn arguments(t: Seq<TokenV>, p: int) -> PResult<Seq<ExprV>>
    decreases t.len() - p, 18int,
{
    if 0 <= p < t.len() {
        match expression(t, p) {
            Err(m) => Err(m),
            Ok((e, p1)) => if adv(t, p, p1) {
                if ty(t, p1) == TokenType::COMMA && p1 + 1 < t.len() {
                    match arguments(t, p1 + 1) {
                        Err(m) => Err(m),
                        Ok((rest, p2)) => Ok((seq![e] + rest, p2)),
                    }
                } else if ty(t, p1) == TokenType::COMMA {
                    Err(bad())
                } else {
                    Ok((seq![e], p1))
                }
            } else {
                Err(bad())
            },
        }
    } else {
        Err(bad())
    }
}

pub open spec fn primary(t: Seq<TokenV>, p: int) -> PResult<ExprV>
    decreases t.len() - p, 0int,
{
    if 0 <= p < t.len() {
        let k = ty(t, p);
        if k == TokenType::FALSE {
            Ok((ExprV::Literal(LiteralV::False), p + 1))
        } else if k == TokenType::TRUE {
            Ok((ExprV::Literal(LiteralV::True), p + 1))
        } else if k == TokenType::NUMBER {
            Ok((ExprV::Literal(LiteralV::Number(t[p].literal)), p + 1))
        } else if k == TokenType::NIL {
            Ok((ExprV::Literal(LiteralV::Nil), p + 1))
        } else if k == TokenType::STRING {
            Ok((ExprV::Literal(LiteralV::Str(t[p].literal)), p + 1))
        } else if k == TokenType::IDENTIFIER {
            Ok((ExprV::Variable(t[p]), p + 1))
        } else if k == TokenType::LEFT_PAREN && p + 1 < t.len() {
            match expression(t, p + 1) {
                Err(m) => Err(m),
                Ok((e, p1)) => if adv(t, p + 1, p1) {
                    match expect(t, p1, TokenType::RIGHT_PAREN, "Expect ')' after expression"@) {
                        Err(m) => Err(m),
                        Ok((_paren, p2)) => Ok((ExprV::Grouping(Box::new(e)), p2)),
                    }
                } else {
                    Err(bad())
                },
            }
        } else if k == TokenType::LEFT_PAREN {
            Err(bad())
        } else {
            Err(error_at(t[p], "Expected an expression"@))
        }
    } else {
        Err(bad())
    }
}

// ----------------------------------------------------------------- statements
/// A whole program: declarations up to the end-of-file token.
#[verifier::opaque]
pub open spec fn program(t: Seq<TokenV>, p: int) -> Result<Seq<StmtV>, Seq<char>>
    decreases t.len() - p, 25int,
{
    if 0 <= p < t.len() {
        if ty(t, p) == TokenType::EOF {
            Ok(seq![])
        } else {
            match declaration(t, p) {
                Err(m) => Err(m),
                Ok((s, p1)) => if p < p1 < t.len() {
                    match program(t, p1) {
                        Err(m) => Err(m),
                        Ok(rest) => Ok(seq![s] + rest),
                    }
                } else {
                    Err(bad())
                },
            }
        }
    } else {
        Err(bad())
    }
}

/// Declarations up to a `}`, then the `}`; the position after `{`.
#[verifier::opaque]
pub open spec fn block_from(t: Seq<TokenV>, p: int) -> PResult<Seq<StmtV>>
    decreases t.len() - p, 24int,
{
    if 0 <= p < t.len() {
        if ty(t, p) == TokenType::RIGHT_BRACE || ty(t, p) == TokenType::EOF {
            match expect(t, p, TokenType::RIGHT_BRACE, "Invalid block. Consider adding a }"@) {
                Err(m) => Err(m),
                Ok((_b, p1)) => Ok((seq![], p1)),
            }
        } else {
            match declaration(t, p) {
                Err(m) => Err(m),
                Ok((s, p1)) => if p < p1 < t.len() {
                    match block_from(t, p1) {
                        Err(m) => Err(m),
                        Ok((rest, p2)) => Ok((seq![s] + rest, p2)),
                    }
                } else {
                    Err(bad())
                },
            }
        }
    } else {
        Err(bad())
    }
}

#[verifier::opaque]
pub open spec fn declaration(t: Seq<TokenV>, p: int) -> PResult<StmtV>
    decreases t.len() - p, 23int,
{
    if 0 <= p && p + 1 < t.len() {
        if ty(t, p) == TokenType::FUN {
            function(t, p + 1)
        } else if ty(t, p) == TokenType::VAR {
            var_declaration(t, p + 1)
        } else {
            statement(t, p)
        }
    } else if 0 <= p < t.len() {
        statement(t, p)
    } else {
        Err(bad())
    }
}

/// Parameter names separated by commas.
#[verifier::opaque]
pub open spec fn parameters(t: Seq<TokenV>, p: int) -> PResult<Seq<TokenV>>
    decreases t.len() - p,
{
    if 0 <= p < t.len() {
        match expect(t, p, TokenType::IDENTIFIER, "Expected parameter name"@) {
            Err(m) => Err(m),
            Ok((name, p1)) => if p1 < t.len() && ty(t, p1) == TokenType::COMMA && p1 + 1 < t.len() {
                match parameters(t, p1 + 1) {
                    Err(m) => Err(m),
                    Ok((rest, p2)) => Ok((seq![name] + rest, p2)),
                }
            } else if p1 < t.len() {
                Ok((seq![name], p1))
            } else {
                Err(bad())
            },
        }
    } else {
        Err(bad())
    }
}

/// A function declaration after `fun`.
#[verifier::opaque]
pub open spec fn function(t: Seq<TokenV>, p: int) -> PResult<StmtV>
    decreases t.len() - p, 21int,
{
    if 0 <= p < t.len() {
        match expect(t, p, TokenType::IDENTIFIER, "Expected function name"@) {
            Err(m) => Err(m),
            Ok((name, p1)) => if p1 < t.len() {
                match expect(t, p1, TokenType::LEFT_PAREN, "Expected ( after function name"@) {
                    Err(m) => Err(m),
                    Ok((_lp, p2)) => if p2 < t.len() {
                        let ps = if ty(t, p2) == TokenType::RIGHT_PAREN {
                            Ok((seq![], p2))
                        } else {
                            parameters(t, p2)
                        };
                        match ps {
                            Err(m) => Err(m),
                            Ok((params, p3)) => if adv(t, p2, p3) {
                                match expect(
                                    t,
                                    p3,
                                    TokenType::RIGHT_PAREN,
                                    "Expected ) during function declaration"@,
                                ) {
                                    Err(m) => Err(m),
                                    Ok((_rp, p4)) => if p4 < t.len() {
                                        match expect(
                                            t,
                                            p4,
                                            TokenType::LEFT_BRACE,
                                            "Expected { before function body"@,
                                        ) {
                                            Err(m) => Err(m),
                                            Ok((_lb, p5)) => if p5 < t.len() {
                                                match block_from(t, p5) {
                                                    Err(m) => Err(m),
                                                    Ok((body, p6)) => Ok(
                                                        (StmtV::Function(name, params, body), p6),
                                                    ),
                                                }
                                            } else {
                                                Err(bad())
                                            },
                                        }
                                    } else {
                                        Err(bad())
                                    },
                                }
                            } else {
                                Err(bad())
                            },
                        }
                    } else {
                        Err(bad())
                    },
                }
            } else {
                Err(bad())
            },
        }
    } else {
        Err(bad())
    }
}

/// A variable declaration after `var`.
#[verifier::opaque]
pub open spec fn var_declaration(t: Seq<TokenV>, p: int) -> PResult<StmtV>
    decreases t.len() - p, 21int,
{
    if 0 <= p < t.len() {
        match expect(t, p, TokenType::IDENTIFIER, "Expected an Identifier after var declaration"@) {
            Err(m) => Err(m),
            Ok((name, p1)) => if p1 + 1 < t.len() && ty(t, p1) == TokenType::EQUAL {
                match expression(t, p1 + 1) {
                    Err(m) => Err(m),
                    Ok((e, p2)) => if adv(t, p1 + 1, p2) {
                        match expect(t, p2, TokenType::SEMICOLON, "Expected a semicolon after stmt"@) {
                            Err(m) => Err(m),
                            Ok((_s, p3)) => Ok((StmtV::Var(name, Some(e)), p3)),
                        }
                    } else {
                        Err(bad())
                    },
                }
            } else if p1 < t.len() && ty(t, p1) != TokenType::EQUAL {
                match expect(t, p1, TokenType::SEMICOLON, "Expected a semicolon after stmt"@) {
                    Err(m) => Err(m),
                    Ok((_s, p3)) => Ok((StmtV::Var(name, None), p3)),
                }
            } else {
                Err(bad())
            },
        }
    } else {
        Err(bad())
    }
}

#[verifier::opaque]
pub open spec fn statement(t: Seq<TokenV>, p: int) -> PResult<StmtV>
    decreases t.len() - p, 22int,
{
    if 0 <= p && p + 1 < t.len() {
        let k = ty(t, p);
        if k == TokenType::IF {
            if_statement(t, p + 1)
        } else if k == TokenType::PRINT {
            print_statement(t, p + 1)
        } else if k == TokenType::RETURN {
            return_statement(t, p + 1)
        } else if k == TokenType::WHILE {
            while_statement(t, p + 1)
        } else if k == TokenType::FOR {
            for_statement(t, p + 1)
        } else if k == TokenType::LEFT_BRACE {
            match block_from(t, p + 1) {
                Err(m) => Err(m),
                Ok((stmts, p1)) => Ok((StmtV::Block(stmts), p1)),
            }
        } else {
            expression_statement(t, p)
        }
    } else if 0 <= p < t.len() {
        expression_statement(t, p)
    } else {
        Err(bad())
    }
}

#[verifier::opaque]
pub open spec fn expression_statement(t: Seq<TokenV>, p: int) -> PResult<StmtV>
    decreases t.len() - p, 21int,
{
    if 0 <= p < t.len() {
        match expression(t, p) {
            Err(m) => Err(m),
            Ok((e, p1)) => if adv(t, p, p1) {
                match expect(
                    t,
                    p1,
                    TokenType::SEMICOLON,
                    "Expected the statement to end with a semicolon"@,
                ) {
                    Err(m) => Err(m),
                    Ok((_s, p2)) => Ok((StmtV::Expression(e), p2)),
                }
            } else {
                Err(bad())
            },
        }
    } else {
        Err(bad())
    }
}

/// A print statement after `print`.
#[verifier::opaque]
pub open spec fn print_statement(t: Seq<TokenV>, p: int) -> PResult<StmtV>
    decreases t.len() - p, 21int,
{
    if 0 <= p < t.len() {
        match expression(t, p) {
            Err(m) => Err(m),
            Ok((e, p1)) => if adv(t, p, p1) {
                match expect(
                    t,
                    p1,
                    TokenType::SEMICOLON,
                    "Expected the statement to end with a semicolon"@,
                ) {
                    Err(m) => Err(m),
                    Ok((_s, p2)) => Ok((StmtV::Print(e), p2)),
                }
            } else {
                Err(bad())
            },
        }
    } else {
        Err(bad())
    }
}

/// A return statement after `return` (the keyword is at `p - 1`).
#[verifier::opaque]
pub open spec fn return_statement(t: Seq<TokenV>, p: int) -> PResult<StmtV>
    decreases t.len() - p, 21int,
{
    if 1 <= p < t.len() {
        let keyword = t[p - 1];
        let value = if ty(t, p) == TokenType::SEMICOLON {
            Ok((None, p))
        } else {
            match expression(t, p) {
                Err(m) => Err(m),
                Ok((e, p1)) => Ok((Some(e), p1)),
            }
        };
        match value {
            Err(m) => Err(m),
            Ok((v, p1)) => if adv(t, p, p1) {
                match expect(t, p1, TokenType::SEMICOLON, "Expected ; after return value"@) {
                    Err(m) => Err(m),
                    Ok((_s, p2)) => Ok((StmtV::Return(keyword, v), p2)),
                }
            } else {
                Err(bad())
            },
        }
    } else {
        Err(bad())
    }
}

/// An if statement after `if`.
#[verifier::opaque]
pub open spec fn if_statement(t: Seq<TokenV>, p: int) -> PResult<StmtV>
    decreases t.len() - p, 21int,
{
    if 0 <= p < t.len() {
        match expect(t, p, TokenType::LEFT_PAREN, "Expected \"(\" after if"@) {
            Err(m) => Err(m),
            Ok((_lp, p1)) => if p1 < t.len() {
                match expression(t, p1) {
                    Err(m) => Err(m),
                    Ok((c, p2)) => if adv(t, p1, p2) {
                        match expect(t, p2, TokenType::RIGHT_PAREN, "Expected \")\" after if"@) {
                            Err(m) => Err(m),
                            Ok((_rp, p3)) => if p3 < t.len() {
                                match statement(t, p3) {
                                    Err(m) => Err(m),
                                    Ok((th, p4)) => if adv(t, p3, p4) {
                                        if ty(t, p4) == TokenType::ELSE && p4 + 1 < t.len() {
                                            match statement(t, p4 + 1) {
                                                Err(m) => Err(m),
                                                Ok((el, p5)) => Ok(
                                                    (
                                                        StmtV::If(
                                                            c,
                                                            Box::new(th),
                                                            Some(Box::new(el)),
                                                        ),
                                                        p5,
                                                    ),
                                                ),
                                            }
                                        } else if ty(t, p4) == TokenType::ELSE {
                                            Err(bad())
                                        } else {
                                            Ok((StmtV::If(c, Box::new(th), None), p4))
                                        }
                                    } else {
                                        Err(bad())
                                    },
                                }
                            } else {
                                Err(bad())
                            },
                        }
                    } else {
                        Err(bad())
                    },
                }
            } else {
                Err(bad())
            },
        }
    } else {
        Err(bad())
    }
}

/// A while statement after `while`.
#[verifier::opaque]
pub open spec fn while_statement(t: Seq<TokenV>, p: int) -> PResult<StmtV>
    decreases t.len() - p, 21int,
{
    if 0 <= p < t.len() {
        match expect(t, p, TokenType::LEFT_PAREN, "Expected \"(\" after while"@) {
            Err(m) => Err(m),
            Ok((_lp, p1)) => if p1 < t.len() {
                match expression(t, p1) {
                    Err(m) => Err(m),
                    Ok((c, p2)) => if adv(t, p1, p2) {
                        match expect(t, p2, TokenType::RIGHT_PAREN, "Expected \")\" after while"@) {
                            Err(m) => Err(m),
                            Ok((_rp, p3)) => if p3 < t.len() {
                                match statement(t, p3) {
                                    Err(m) => Err(m),
                                    Ok((body, p4)) => Ok((StmtV::While(c, Box::new(body)), p4)),
                                }
                            } else {
                                Err(bad())
                            },
                        }
                    } else {
                        Err(bad())
                    },
                }
            } else {
                Err(bad())
            },
        }
    } else {
        Err(bad())
    }
}

/// The statement a `for` loop stands for: the initializer, then a while
/// loop over the condition (`true` when absent) whose body runs the loop
/// body and then the increment.
pub open spec fn desugar_for(
    init: Option<StmtV>,
    cond: Option<ExprV>,
    inc: Option<ExprV>,
    body: StmtV,
) -> StmtV {
    let b = match inc {
        Some(i) => StmtV::Block(seq![body, StmtV::Expression(i)]),
        None => body,
    };
    let c = match cond {
        Some(c) => c,
        None => ExprV::Literal(LiteralV::True),
    };
    let w = StmtV::While(c, Box::new(b));
    match init {
        Some(s) => StmtV::Block(seq![s, w]),
        None => w,
    }
}

/// The initializer clause of a `for` loop, after its `(`: nothing but its
/// `;`, a variable declaration, or an expression statement.
#[verifier::opaque]
pub open spec fn for_initializer(t: Seq<TokenV>, p: int) -> PResult<Option<StmtV>>
    decreases t.len() - p, 21int,
{
    if 0 <= p < t.len() {
        if ty(t, p) == TokenType::SEMICOLON {
            Ok((None, p + 1))
        } else if ty(t, p) == TokenType::VAR && p + 1 < t.len() {
            match var_declaration(t, p + 1) {
                Err(m) => Err(m),
                Ok((s, p1)) => Ok((Some(s), p1)),
            }
        } else {
            match expression_statement(t, p) {
                Err(m) => Err(m),
                Ok((s, p1)) => Ok((Some(s), p1)),
            }
        }
    } else {
        Err(bad())
    }
}

/// A for statement after `for`.
#[verifier::opaque]
pub open spec fn for_statement(t: Seq<TokenV>, p: int) -> PResult<StmtV>
    decreases t.len() - p, 22int,
{
    if 0 <= p < t.len() {
        match expect(t, p, TokenType::LEFT_PAREN, "Expected a ( after for statment"@) {
            Err(m) => Err(m),
            Ok((_lp, p1)) => if p1 < t.len() {
                match for_initializer(t, p1) {
                    Err(m) => Err(m),
                    Ok((init, q)) => if adv(t, p1, q) {
                        let cond = if ty(t, q) != TokenType::SEMICOLON {
                            match expression(t, q) {
                                Err(m) => Err(m),
                                Ok((c, q1)) => Ok((Some(c), q1)),
                            }
                        } else {
                            Ok((None, q))
                        };
                        match cond {
                            Err(m) => Err(m),
                            Ok((c, q2)) => if adv(t, q, q2) {
                                match expect(t, q2, TokenType::SEMICOLON, "expected a ; in the for loop"@) {
                                    Err(m) => Err(m),
                                    Ok((_s, q3)) => if q3 < t.len() {
                                        let inc = if ty(t, q3) != TokenType::RIGHT_PAREN {
                                            match expression(t, q3) {
                                                Err(m) => Err(m),
                                                Ok((i, q4)) => Ok((Some(i), q4)),
                                            }
                                        } else {
                                            Ok((None, q3))
                                        };
                                        match inc {
                                            Err(m) => Err(m),
                                            Ok((i, q4)) => if adv(t, q3, q4) {
                                                match expect(
                                                    t,
                                                    q4,
                                                    TokenType::RIGHT_PAREN,
                                                    "Expected a ) after for clauses"@,
                                                ) {
                                                    Err(m) => Err(m),
                                                    Ok((_rp, q5)) => if q5 < t.len() {
                                                        match statement(t, q5) {
                                                            Err(m) => Err(m),
                                                            Ok((body, q6)) => Ok(
                                                                (desugar_for(init, c, i, body), q6),
                                                            ),
                                                        }
                                                    } else {
                                                        Err(bad())
                                                    },
                                                }
                                            } else {
                                                Err(bad())
                                            },
                                        }
                                    } else {
                                        Err(bad())
                                    },
                                }
                            } else {
                                Err(bad())
                            },
                        }
                    } else {
                        Err(bad())
                    },
                }
            } else {
                Err(bad())
            },
        }
    } else {
        Err(bad())
    }
}

/// A `for` loop is parsed as a `while` loop, which follows the initializer
/// in a block of its own when there is one.
#[verifier::spinoff_prover]
#[verifier::rlimit(100)]
pub proof fn law_for_is_while(t: Seq<TokenV>, p: int)
    ensures
        match for_statement(t, p) {
            Ok((st, _)) => st is While || (st matches StmtV::Block(b) && b.len() == 2
                && b[1] is While),
            Err(_) => true,
        },
{
    reveal(for_statement);
    assert forall|i: Option<StmtV>, c: Option<ExprV>, n: Option<ExprV>, b: StmtV|
        #[trigger] desugar_for(i, c, n, b) is While || (desugar_for(i, c, n, b) matches StmtV::Block(
            x,
        ) && x.len() == 2 && x[1] is While) by {}
}

/// An expression cannot start with a token that is not a literal, a name or
/// `(`: parsing one there is the error `Expected an expression` at that
/// token.
pub proof fn law_expected_an_expression(t: Seq<TokenV>, p: int)
    requires
        0 <= p < t.len(),
        ty(t, p) != TokenType::FALSE,
        ty(t, p) != TokenType::TRUE,
        ty(t, p) != TokenType::NUMBER,
        ty(t, p) != TokenType::NIL,
        ty(t, p) != TokenType::STRING,
        ty(t, p) != TokenType::IDENTIFIER,
        ty(t, p) != TokenType::LEFT_PAREN,
    ensures
        primary(t, p) == Err::<(ExprV, int), Seq<char>>(error_at(t[p], "Expected an expression"@)),
{
}

} // verus!
