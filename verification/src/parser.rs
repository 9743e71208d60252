use vstd::prelude::*;

use crate::ast::{
    expr_view, exprs_view, lemma_exprs_view, lemma_exprs_view_push, lemma_stmts_view, lemma_stmts_view_push, stmts_view, Expr, ExprV, Literal,
    LiteralV, Stmt, StmtV,
};
use crate::grammar::{
    and_rest, arguments, assignment, bad, binary, binary_rest, block_from, call, call_rest, declaration,
    desugar_for, expect, expression, expression_statement, finish_call, for_initializer, for_statement,
    function, if_statement, level_op, logic_and, logic_or, operand, or_rest, parameters, primary,
    print_statement, program, return_statement, statement, ty, unary, var_declaration, while_statement,
    adv, PResult,
};
use crate::parser_errors::{error_at, ParserError, ParserResult};
use crate::scanner::{lemma_strings_view_push, strings_view};
use crate::token::{lemma_tokens_view_push, tokens_view, Token, TokenType, TokenV};

verus! {

broadcast use vstd::string::group_string_axioms;

/// The index of the first end-of-file token at or after `p` (the length
/// when there is none).
pub open spec fn first_eof(t: Seq<TokenV>, p: int) -> int
    decreases t.len() - p,
{
    if p < 0 || p >= t.len() {
        t.len() as int
    } else if t[p].token_ty == TokenType::EOF {
        p
    } else {
        first_eof(t, p + 1)
    }
}

/// Whether `p` is a position from which an end-of-file token is reached:
/// parsing from there never runs past the tokens.
pub open spec fn eof_ahead(t: Seq<TokenV>, p: int) -> bool {
    0 <= p && first_eof(t, p) < t.len()
}

pub proof fn lemma_first_eof(t: Seq<TokenV>, p: int)
    requires
        0 <= p <= t.len(),
    ensures
        p <= first_eof(t, p) <= t.len(),
        first_eof(t, p) < t.len() ==> t[first_eof(t, p)].token_ty == TokenType::EOF,
    decreases t.len() - p,
{
    if p < t.len() && t[p].token_ty != TokenType::EOF {
        lemma_first_eof(t, p + 1);
    }
}

pub proof fn lemma_toks_len(v: Seq<Token>)
    ensures
        tokens_view(v).len() == v.len(),
        forall|i: int| 0 <= i < v.len() ==> #[trigger] tokens_view(v)[i] == v[i]@,
{
}

/// Stepping over a token that is not the end of input keeps the end of
/// input ahead.
pub proof fn lemma_step(t: Seq<TokenV>, p: int)
    requires
        eof_ahead(t, p),
    ensures
        p < t.len(),
        t[p].token_ty != TokenType::EOF ==> eof_ahead(t, p + 1) && p + 1 < t.len(),
{
    lemma_first_eof(t, p);
    if t[p].token_ty != TokenType::EOF {
        lemma_first_eof(t, p + 1);
    }
}

/// Whether an executable parse result agrees with the grammar's, the
/// parser having stopped at `p` on success.
pub open spec fn expr_outcome(r: ParserResult<Expr>, s: PResult<ExprV>, p: int) -> bool {
    match (r, s) {
        (Ok(e), Ok((v, q))) => e@ == v && p == q,
        (Err(er), Err(m)) => er.msg_view() == m,
        _ => false,
    }
}

pub open spec fn stmt_outcome(r: ParserResult<Stmt>, s: PResult<StmtV>, p: int) -> bool {
    match (r, s) {
        (Ok(e), Ok((v, q))) => e@ == v && p == q,
        (Err(er), Err(m)) => er.msg_view() == m,
        _ => false,
    }
}

/// Prepends parsed arguments to the parse of the rest.
pub open spec fn prepend_args(done: Seq<ExprV>, rest: PResult<Seq<ExprV>>) -> PResult<Seq<ExprV>> {
    match rest {
        Ok((a, q)) => Ok((done + a, q)),
        Err(m) => Err(m),
    }
}

pub open spec fn prepend_program(done: Seq<StmtV>, rest: Result<Seq<StmtV>, Seq<char>>) -> Result<
    Seq<StmtV>,
    Seq<char>,
> {
    match rest {
        Ok(a) => Ok(done + a),
        Err(m) => Err(m),
    }
}

pub open spec fn prepend_block(done: Seq<StmtV>, rest: PResult<Seq<StmtV>>) -> PResult<Seq<StmtV>> {
    match rest {
        Ok((a, q)) => Ok((done + a, q)),
        Err(m) => Err(m),
    }
}

pub open spec fn prepend_tokens(done: Seq<TokenV>, rest: PResult<Seq<TokenV>>) -> PResult<Seq<TokenV>> {
    match rest {
        Ok((a, q)) => Ok((done + a, q)),
        Err(m) => Err(m),
    }
}

pub open spec fn opt_stmt_view(s: Option<Stmt>) -> Option<StmtV> {
    match s {
        Some(x) => Some(x@),
        None => None,
    }
}

pub open spec fn opt_expr_v(e: Option<Expr>) -> Option<ExprV> {
    match e {
        Some(x) => Some(x@),
        None => None,
    }
}

/// Where parsing can resume after an error, looking from `p`: the first
/// position that follows a `;`, starts a statement, or holds the end of
/// input.
pub open spec fn sync_point(t: Seq<TokenV>, p: int) -> int
    decreases t.len() - p,
{
    if p < 1 || p >= t.len() || ty(t, p) == TokenType::EOF || t[p - 1].token_ty
        == TokenType::SEMICOLON || ty(t, p).spec_starts_stmt() {
        p
    } else {
        sync_point(t, p + 1)
    }
}

/// The report made for an argument past the 255 a call may have, at the
/// argument's first token.
pub open spec fn argument_report(first: TokenV) -> Seq<char> {
    "Parser Error: "@ + error_at(first, "Can't have more then 255 arguments"@)
}

/// How many tokens an expression is parsed from: each of them stands in
/// its tree.
pub open spec fn span(e: ExprV) -> int
    decreases e,
{
    match e {
        ExprV::Binary(l, _, r) => span(*l) + 1 + span(*r),
        ExprV::Grouping(x) => span(*x) + 2,
        ExprV::Literal(_) => 1,
        ExprV::Unary(_, r) => 1 + span(*r),
        ExprV::Variable(_) => 1,
        ExprV::Assign(_, v) => 2 + span(*v),
        ExprV::Logical(l, _, r) => span(*l) + 1 + span(*r),
        ExprV::Call(c, _, args) => span(*c) + 2 + args_span(args),
    }
}

/// How many tokens a list of arguments is parsed from, commas included.
pub open spec fn args_span(args: Seq<ExprV>) -> int
    decreases args,
{
    if args.len() == 0 {
        0
    } else {
        (if args.len() == 1 {
            0
        } else {
            args_span(args.drop_last()) + 1
        }) + span(args.last())
    }
}

/// Where the argument after `args` starts, in a list whose first argument
/// starts at `q`.
pub open spec fn next_arg(q: int, args: Seq<ExprV>) -> int {
    if args.len() == 0 {
        q
    } else {
        q + args_span(args) + 1
    }
}

/// The reports made while parsing expression `e` from position `p` of `t`:
/// those of its parts, in the order they are parsed; within a call, each
/// argument past the 255th is reported at its first token, before that
/// argument is parsed.
#[verifier::opaque]
pub open spec fn expr_reports(t: Seq<TokenV>, p: int, e: ExprV) -> Seq<Seq<char>>
    decreases e,
{
    match e {
        ExprV::Binary(l, _, r) => expr_reports(t, p, *l) + expr_reports(t, p + span(*l) + 1, *r),
        ExprV::Grouping(x) => expr_reports(t, p + 1, *x),
        ExprV::Literal(_) => Seq::empty(),
        ExprV::Unary(_, r) => expr_reports(t, p + 1, *r),
        ExprV::Variable(_) => Seq::empty(),
        ExprV::Assign(_, v) => expr_reports(t, p + 2, *v),
        ExprV::Logical(l, _, r) => expr_reports(t, p, *l) + expr_reports(t, p + span(*l) + 1, *r),
        ExprV::Call(c, _, args) => expr_reports(t, p, *c) + args_reports(t, p + span(*c) + 1, args),
    }
}

/// The reports made while parsing the arguments `args` of a call, the first
/// starting at position `q` of `t`, in order.
#[verifier::opaque]
pub open spec fn args_reports(t: Seq<TokenV>, q: int, args: Seq<ExprV>) -> Seq<Seq<char>>
    decreases args,
{
    if args.len() == 0 {
        Seq::empty()
    } else {
        let before = args.drop_last();
        let s = next_arg(q, before);
        args_reports(t, q, before) + (if before.len() >= 255 {
            seq![argument_report(t[s])]
        } else {
            Seq::empty()
        }) + expr_reports(t, s, args.last())
    }
}

/// One step of `expr_reports`.
pub proof fn lemma_expr_reports(t: Seq<TokenV>, p: int, e: ExprV)
    ensures
        expr_reports(t, p, e) == match e {
            ExprV::Binary(l, _, r) => expr_reports(t, p, *l) + expr_reports(
                t,
                p + span(*l) + 1,
                *r,
            ),
            ExprV::Grouping(x) => expr_reports(t, p + 1, *x),
            ExprV::Literal(_) => Seq::empty(),
            ExprV::Unary(_, r) => expr_reports(t, p + 1, *r),
            ExprV::Variable(_) => Seq::empty(),
            ExprV::Assign(_, v) => expr_reports(t, p + 2, *v),
            ExprV::Logical(l, _, r) => expr_reports(t, p, *l) + expr_reports(
                t,
                p + span(*l) + 1,
                *r,
            ),
            ExprV::Call(c, _, args) => expr_reports(t, p, *c) + args_reports(
                t,
                p + span(*c) + 1,
                args,
            ),
        },
{
    reveal_with_fuel(expr_reports, 2);
    reveal_with_fuel(args_reports, 2);
}

/// One step of `args_reports`.
pub proof fn lemma_args_reports(t: Seq<TokenV>, q: int, args: Seq<ExprV>)
    ensures
        args_reports(t, q, args) == if args.len() == 0 {
            Seq::<Seq<char>>::empty()
        } else {
            let before = args.drop_last();
            let s = next_arg(q, before);
            args_reports(t, q, before) + (if before.len() >= 255 {
                seq![argument_report(t[s])]
            } else {
                Seq::empty()
            }) + expr_reports(t, s, args.last())
        },
{
    reveal_with_fuel(expr_reports, 2);
    reveal_with_fuel(args_reports, 2);
}

/// A call may have 255 arguments: each argument past the 255th is
/// reported, at its first token and before its own reports; the arguments
/// up to the 255th are not.
pub proof fn law_call_arity_reported(t: Seq<TokenV>, q: int, before: Seq<ExprV>, a: ExprV)
    ensures
        args_reports(t, q, before.push(a)) == args_reports(t, q, before) + (if before.len()
            >= 255 {
            seq![argument_report(t[next_arg(q, before)])]
        } else {
            Seq::empty()
        }) + expr_reports(t, next_arg(q, before), a),
        next_arg(q, before.push(a)) == next_arg(q, before) + span(a) + 1,
{
    lemma_args_reports(t, q, before.push(a));
    assert(before.push(a).drop_last() =~= before);
}

/// The reports made while parsing an expression from position `p` of `t`.
pub open spec fn expression_reports(t: Seq<TokenV>, p: int) -> Seq<Seq<char>> {
    match expression(t, p) {
        Ok((e, _)) => expr_reports(t, p, e),
        Err(_) => Seq::empty(),
    }
}

/// The reports made while parsing a return statement after `return`.
pub open spec fn return_reports(t: Seq<TokenV>, p: int) -> Seq<Seq<char>> {
    if 0 <= p < t.len() && ty(t, p) != TokenType::SEMICOLON {
        expression_reports(t, p)
    } else {
        Seq::empty()
    }
}

/// The reports made while parsing a variable declaration after `var`:
/// those of its initializer.
pub open spec fn var_reports(t: Seq<TokenV>, p: int) -> Seq<Seq<char>> {
    if 0 <= p && p + 2 < t.len() && ty(t, p + 1) == TokenType::EQUAL {
        expression_reports(t, p + 2)
    } else {
        Seq::empty()
    }
}

/// The reports made while parsing the initializer clause of a `for` loop.
pub open spec fn init_reports(t: Seq<TokenV>, p: int) -> Seq<Seq<char>> {
    if 0 <= p < t.len() && ty(t, p) == TokenType::SEMICOLON {
        Seq::empty()
    } else if 0 <= p && p + 1 < t.len() && ty(t, p) == TokenType::VAR {
        var_reports(t, p + 1)
    } else {
        expression_reports(t, p)
    }
}

/// The reports made while parsing a program from `p`: those of its
/// declarations, in order.
#[verifier::opaque]
pub open spec fn program_reports(t: Seq<TokenV>, p: int) -> Seq<Seq<char>>
    decreases t.len() - p,
{
    if 0 <= p < t.len() && ty(t, p) != TokenType::EOF {
        match declaration(t, p) {
            Ok((_s, p1)) => if p < p1 < t.len() {
                decl_reports(t, p) + program_reports(t, p1)
            } else {
                Seq::empty()
            },
            Err(_) => Seq::empty(),
        }
    } else {
        Seq::empty()
    }
}

/// The reports made while parsing the declarations of a block, after its
/// `{`, in order.
#[verifier::opaque]
pub open spec fn block_reports(t: Seq<TokenV>, p: int) -> Seq<Seq<char>>
    decreases t.len() - p, 24int,
{
    if 0 <= p < t.len() && ty(t, p) != TokenType::RIGHT_BRACE && ty(t, p) != TokenType::EOF {
        match declaration(t, p) {
            Ok((_s, p1)) => if p < p1 < t.len() {
                decl_reports(t, p) + block_reports(t, p1)
            } else {
                Seq::empty()
            },
            Err(_) => Seq::empty(),
        }
    } else {
        Seq::empty()
    }
}

/// The reports made while parsing a declaration.
#[verifier::opaque]
pub open spec fn decl_reports(t: Seq<TokenV>, p: int) -> Seq<Seq<char>>
    decreases t.len() - p, 23int,
{
    if 0 <= p && p + 1 < t.len() {
        if ty(t, p) == TokenType::FUN {
            function_reports(t, p + 1)
        } else if ty(t, p) == TokenType::VAR {
            var_reports(t, p + 1)
        } else {
            stmt_reports(t, p)
        }
    } else if 0 <= p < t.len() {
        stmt_reports(t, p)
    } else {
        Seq::empty()
    }
}

/// The reports made while parsing a function declaration after `fun`:
/// those of its body.
#[verifier::opaque]
pub open spec fn function_reports(t: Seq<TokenV>, p: int) -> Seq<Seq<char>>
    decreases t.len() - p, 21int,
{
    if 0 <= p && p + 2 < t.len() {
        let p2 = p + 2;
        let p3 = if ty(t, p2) == TokenType::RIGHT_PAREN {
            p2
        } else {
            match parameters(t, p2) {
                Ok((_ps, q)) => q,
                Err(_) => p2,
            }
        };
        if p2 <= p3 && p3 + 2 < t.len() {
            block_reports(t, p3 + 2)
        } else {
            Seq::empty()
        }
    } else {
        Seq::empty()
    }
}

/// The reports made while parsing a statement.
#[verifier::opaque]
pub open spec fn stmt_reports(t: Seq<TokenV>, p: int) -> Seq<Seq<char>>
    decreases t.len() - p, 22int,
{
    if 0 <= p && p + 1 < t.len() {
        let k = ty(t, p);
        if k == TokenType::IF {
            if_reports(t, p + 1)
        } else if k == TokenType::PRINT {
            expression_reports(t, p + 1)
        } else if k == TokenType::RETURN {
            return_reports(t, p + 1)
        } else if k == TokenType::WHILE {
            while_reports(t, p + 1)
        } else if k == TokenType::FOR {
            for_reports(t, p + 1)
        } else if k == TokenType::LEFT_BRACE {
            block_reports(t, p + 1)
        } else {
            expression_reports(t, p)
        }
    } else if 0 <= p < t.len() {
        expression_reports(t, p)
    } else {
        Seq::empty()
    }
}

/// The reports made while parsing an if statement after `if`: those of its
/// condition, then of its branches.
#[verifier::opaque]
pub open spec fn if_reports(t: Seq<TokenV>, p: int) -> Seq<Seq<char>>
    decreases t.len() - p, 21int,
{
    if 0 <= p && p + 1 < t.len() {
        match expression(t, p + 1) {
            Ok((c, p2)) => if p + 1 <= p2 && p2 + 1 < t.len() {
                expr_reports(t, p + 1, c) + match statement(t, p2 + 1) {
                    Ok((_th, p4)) => if p2 + 1 <= p4 && p4 + 1 < t.len() && ty(t, p4)
                        == TokenType::ELSE {
                        stmt_reports(t, p2 + 1) + stmt_reports(t, p4 + 1)
                    } else {
                        stmt_reports(t, p2 + 1)
                    },
                    Err(_) => Seq::empty(),
                }
            } else {
                Seq::empty()
            },
            Err(_) => Seq::empty(),
        }
    } else {
        Seq::empty()
    }
}

/// The reports made while parsing a while statement after `while`: those
/// of its condition, then of its body.
#[verifier::opaque]
pub open spec fn while_reports(t: Seq<TokenV>, p: int) -> Seq<Seq<char>>
    decreases t.len() - p, 21int,
{
    if 0 <= p && p + 1 < t.len() {
        match expression(t, p + 1) {
            Ok((c, p2)) => if p + 1 <= p2 && p2 + 1 < t.len() {
                expr_reports(t, p + 1, c) + stmt_reports(t, p2 + 1)
            } else {
                Seq::empty()
            },
            Err(_) => Seq::empty(),
        }
    } else {
        Seq::empty()
    }
}

/// The reports made while parsing a for statement after `for`: those of
/// its clauses, in the order they are written, then of its body.
#[verifier::opaque]
pub open spec fn for_reports(t: Seq<TokenV>, p: int) -> Seq<Seq<char>>
    decreases t.len() - p, 21int,
{
    if 0 <= p && p + 1 < t.len() {
        match for_initializer(t, p + 1) {
            Ok((_init, q)) => if p + 1 <= q < t.len() {
                let (cr, q2) = if ty(t, q) != TokenType::SEMICOLON {
                    match expression(t, q) {
                        Ok((c, q1)) => (expr_reports(t, q, c), q1),
                        Err(_) => (Seq::empty(), q),
                    }
                } else {
                    (Seq::empty(), q)
                };
                if q <= q2 && q2 + 1 < t.len() {
                    let q3 = q2 + 1;
                    let (nr, q4) = if ty(t, q3) != TokenType::RIGHT_PAREN {
                        match expression(t, q3) {
                            Ok((i, q5)) => (expr_reports(t, q3, i), q5),
                            Err(_) => (Seq::empty(), q3),
                        }
                    } else {
                        (Seq::empty(), q3)
                    };
                    if q3 <= q4 && q4 + 1 < t.len() {
                        init_reports(t, p + 1) + cr + nr + stmt_reports(t, q4 + 1)
                    } else {
                        Seq::empty()
                    }
                } else {
                    Seq::empty()
                }
            } else {
                Seq::empty()
            },
            Err(_) => Seq::empty(),
        }
    } else {
        Seq::empty()
    }
}

/// A recursive-descent parser over a sequence of tokens.
pub struct Parser {
    tokens: Vec<Token>,
    current: usize,
    reports: Vec<String>,
}

impl Parser {
    /// The tokens being parsed.
    pub closed spec fn toks(&self) -> Seq<TokenV> {
        tokens_view(self.tokens@)
    }

    /// The messages the parser has reported so far.
    pub closed spec fn reports_v(&self) -> Seq<String> {
        self.reports@
    }

    /// The text of the messages the parser has reported so far.
    pub open spec fn reports_view(&self) -> Seq<Seq<char>> {
        strings_view(self.reports_v())
    }

    /// The position of the next token to read.
    pub closed spec fn pos(&self) -> int {
        self.current as int
    }

    /// The parser can go on: an end-of-file token lies ahead.
    pub open spec fn wf(&self) -> bool {
        eof_ahead(self.toks(), self.pos())
    }

    /// A parser at the start of the given tokens.
    pub fn new(tokens: &[Token]) -> (r: Self)
        ensures
            r.toks() == tokens_view(tokens@),
            r.pos() == 0,
            r.reports_v().len() == 0,
    {
        let mut v: Vec<Token> = Vec::new();
        let n = tokens.len();
        for k in 0..n
            invariant
                n == tokens@.len(),
                tokens_view(v@) == tokens_view(tokens@).take(k as int),
        {
            let t = tokens[k].duplicate();
            proof {
                lemma_tokens_view_push(v@, t);
            }
            v.push(t);
            assert(tokens_view(v@) =~= tokens_view(tokens@).take(k + 1));
        }
        assert(tokens_view(tokens@).take(n as int) =~= tokens_view(tokens@));
        Parser { tokens: v, current: 0, reports: Vec::new() }
    }

    /// The messages the parser has reported as it went: one for each token
    /// it expected and did not find, and one for each argument of a call
    /// past the 255th, at its first token (see `expr_reports`).
    pub fn reports(&self) -> (r: Vec<String>)
        ensures
            r@ == self.reports_v(),
    {
        let mut out: Vec<String> = Vec::new();
        let n = self.reports.len();
        for k in 0..n
            invariant
                n == self.reports@.len(),
                out@ == self.reports@.take(k as int),
        {
            out.push(self.reports[k].clone());
            assert(out@ =~= self.reports@.take(k + 1));
        }
        assert(self.reports@.take(n as int) =~= self.reports@);
        out
    }

    // ------------------------------------------------------------ token access
    fn peek_ty(&self) -> (r: TokenType)
        requires
            self.wf(),
        ensures
            r == ty(self.toks(), self.pos()),
    {
        proof {
            lemma_step(self.toks(), self.pos());
        }
        self.tokens[self.current].token_ty
    }

    fn check(&self, token_ty: &TokenType) -> (r: bool)
        requires
            self.wf(),
        ensures
            r == (ty(self.toks(), self.pos()) == *token_ty),
    {
        self.peek_ty() == *token_ty
    }

    fn is_at_end(&self) -> (r: bool)
        requires
            self.wf(),
        ensures
            r == (ty(self.toks(), self.pos()) == TokenType::EOF),
    {
        self.peek_ty() == TokenType::EOF
    }

    /// Steps over the current token, which is not the end of input.
    fn advance(&mut self)
        requires
            old(self).wf(),
            ty(old(self).toks(), old(self).pos()) != TokenType::EOF,
        ensures
            final(self).wf(),
            final(self).toks() == old(self).toks(),
            final(self).pos() == old(self).pos() + 1,
            final(self).reports_v() == old(self).reports_v(),
    {
        proof {
            lemma_step(self.toks(), self.pos());
            lemma_toks_len(self.tokens@);
        }
        let n = self.tokens.len();
        assert(self.current + 1 < n);
        self.current = self.current + 1;
    }

    /// A copy of the token at the current position.
    fn peek(&self) -> (r: Token)
        requires
            self.wf(),
        ensures
            r@ == self.toks()[self.pos()],
    {
        proof {
            lemma_step(self.toks(), self.pos());
        }
        self.tokens[self.current].duplicate()
    }

    /// A copy of the token before the current position.
    fn prev(&self) -> (r: Token)
        requires
            self.wf(),
            self.pos() >= 1,
        ensures
            r@ == self.toks()[self.pos() - 1],
    {
        proof {
            lemma_step(self.toks(), self.pos());
        }
        self.tokens[self.current - 1].duplicate()
    }

    /// Steps over the current token when it has the given type.
    fn match_one(&mut self, token_ty: TokenType) -> (r: bool)
        requires
            old(self).wf(),
            token_ty != TokenType::EOF,
        ensures
            final(self).wf(),
            final(self).toks() == old(self).toks(),
            final(self).reports_v() == old(self).reports_v(),
            r == (ty(old(self).toks(), old(self).pos()) == token_ty),
            final(self).pos() == old(self).pos() + if r {
                1int
            } else {
                0int
            },
    {
        if self.check(&token_ty) {
            self.advance();
            true
        } else {
            false
        }
    }

    /// Steps over the current token when it is an operator of the given
    /// binary level.
    fn match_level(&mut self, level: usize) -> (r: bool)
        requires
            old(self).wf(),
        ensures
            final(self).wf(),
            final(self).toks() == old(self).toks(),
            final(self).reports_v() == old(self).reports_v(),
            r == level_op(level as int, ty(old(self).toks(), old(self).pos())),
            final(self).pos() == old(self).pos() + if r {
                1int
            } else {
                0int
            },
    {
        let k = self.peek_ty();
        let is_op = if level == 0 {
            k == TokenType::BANG_EQUAL || k == TokenType::EQUAL_EQUAL
        } else if level == 1 {
            k == TokenType::GREATER || k == TokenType::GREATER_EQUAL || k == TokenType::LESS || k
                == TokenType::LESS_EQUAL
        } else if level == 2 {
            k == TokenType::MINUS || k == TokenType::PLUS
        } else {
            k == TokenType::SLASH || k == TokenType::STAR
        };
        if is_op {
            self.advance();
        }
        is_op
    }

    /// After an error, steps over the current token and then over tokens
    /// until one follows a `;` or starts a statement, or the input ends.
    pub fn synchronize(&mut self)
        requires
            old(self).wf(),
            ty(old(self).toks(), old(self).pos()) != TokenType::EOF,
        ensures
            final(self).wf(),
            final(self).toks() == old(self).toks(),
            final(self).pos() == sync_point(old(self).toks(), old(self).pos() + 1),
    {
        self.advance();
        while !self.is_at_end()
            invariant
                self.wf(),
                self.toks() == old(self).toks(),
                self.pos() >= 1,
                sync_point(self.toks(), self.pos()) == sync_point(
                    old(self).toks(),
                    old(self).pos() + 1,
                ),
            decreases self.toks().len() - self.pos(),
        {
            proof {
                lemma_step(self.toks(), self.pos());
            }
            if self.prev().token_ty == TokenType::SEMICOLON {
                return;
            }
            if TokenType::is_token_starting_stmt(&self.peek_ty()) {
                return;
            }
            self.advance();
        }
        proof {
            lemma_step(self.toks(), self.pos());
        }
    }

    /// The error reported at `token`.
    fn error(&self, token: &Token, error: &str) -> (r: ParserError)
        ensures
            r.msg_view() == error_at(token@, error@),
    {
        ParserError::get_error(token, error)
    }

    /// Steps over a token of the given type, or reports `error` at the
    /// current token (and records the report).
    fn consume(&mut self, token_ty: &TokenType, error: &str) -> (r: Result<Token, ParserError>)
        requires
            old(self).wf(),
            *token_ty != TokenType::EOF,
        ensures
            final(self).wf(),
            final(self).toks() == old(self).toks(),
            final(self).pos() >= old(self).pos(),
            match (r, expect(old(self).toks(), old(self).pos(), *token_ty, error@)) {
                (Ok(tok), Ok((tv, p))) => tok@ == tv && final(self).pos() == p,
                (Err(er), Err(m)) => er.msg_view() == m,
                _ => false,
            },
            r is Ok ==> final(self).reports_v() == old(self).reports_v(),
            r matches Err(er) ==> final(self).reports_view() == old(self).reports_view().push(
                "Parser Error: "@ + er.msg_view(),
            ),
    {
        if self.check(token_ty) {
            let tok = self.peek();
            self.advance();
            return Ok(tok);
        }
        let peek_token = self.peek();
        let err = self.error(&peek_token, error);
        let report = err.to_string();
        proof {
            lemma_strings_view_push(self.reports@, report);
        }
        self.reports.push(report);
        Err(err)
    }
}

impl Parser {
    fn expression(&mut self) -> (r: ParserResult<Expr>)
        requires
            old(self).wf(),
        ensures
            final(self).wf(),
            final(self).toks() == old(self).toks(),
            final(self).pos() >= old(self).pos(),
            r is Ok ==> final(self).pos() > old(self).pos(),
            expr_outcome(r, expression(old(self).toks(), old(self).pos()), final(self).pos()),
            r matches Ok(e) ==> final(self).pos() == old(self).pos() + span(e@),
            r matches Ok(e) ==> final(self).reports_view() == old(self).reports_view() + expr_reports(
                old(self).toks(),
                old(self).pos(),
                e@,
            ),
        decreases old(self).toks().len() - old(self).pos(), 17int,
    {
        proof {
            lemma_step(self.toks(), self.pos());
        }
        self.assignment()
    }

    fn assignment(&mut self) -> (r: ParserResult<Expr>)
        requires
            old(self).wf(),
        ensures
            final(self).wf(),
            final(self).toks() == old(self).toks(),
            final(self).pos() >= old(self).pos(),
            r is Ok ==> final(self).pos() > old(self).pos(),
            expr_outcome(r, assignment(old(self).toks(), old(self).pos()), final(self).pos()),
            r matches Ok(e) ==> final(self).pos() == old(self).pos() + span(e@),
            r matches Ok(e) ==> final(self).reports_view() == old(self).reports_view() + expr_reports(
                old(self).toks(),
                old(self).pos(),
                e@,
            ),
        decreases old(self).toks().len() - old(self).pos(), 16int,
    {
        let ghost t = self.toks();
        let ghost p = self.pos();
        proof {
            lemma_step(t, p);
            lemma_toks_len(self.tokens@);
        }
        let expr = match self.or() {
            Err(e) => return Err(e),
            Ok(x) => x,
        };
        proof {
            lemma_step(t, self.pos());
        }
        if self.match_one(TokenType::EQUAL) {
            let value = match self.assignment() {
                Err(e) => return Err(e),
                Ok(x) => x,
            };
            proof {
                lemma_expr_reports(t, p, expr@);
            }
            match expr {
                Expr::Variable { name } => {
                    let a = Expr::Assign { name, value: Box::new(value) };
                    proof {
                        lemma_expr_reports(t, p, a@);
                    }
                    Ok(a)
                },
                _ => Err(ParserError::ParseError { msg: String::from_str("Invalid assignment target") }),
            }
        } else {
            Ok(expr)
        }
    }

    fn or(&mut self) -> (r: ParserResult<Expr>)
        requires
            old(self).wf(),
        ensures
            final(self).wf(),
            final(self).toks() == old(self).toks(),
            final(self).pos() >= old(self).pos(),
            r is Ok ==> final(self).pos() > old(self).pos(),
            expr_outcome(r, logic_or(old(self).toks(), old(self).pos()), final(self).pos()),
            r matches Ok(e) ==> final(self).pos() == old(self).pos() + span(e@),
            r matches Ok(e) ==> final(self).reports_view() == old(self).reports_view() + expr_reports(
                old(self).toks(),
                old(self).pos(),
                e@,
            ),
        decreases old(self).toks().len() - old(self).pos(), 15int,
    {
        let ghost t = self.toks();
        let ghost p = self.pos();
        proof {
            lemma_step(t, p);
            lemma_toks_len(self.tokens@);
        }
        let mut expr = match self.and() {
            Err(e) => return Err(e),
            Ok(x) => x,
        };
        loop
            invariant
                self.wf(),
                self.toks() == t,
                self.pos() >= p,
                t == old(self).toks(),
                p == old(self).pos(),
                self.pos() > p,
                logic_or(t, p) == or_rest(t, self.pos(), expr@),
                self.reports_view() == old(self).reports_view() + expr_reports(t, p, expr@),
                self.pos() == p + span(expr@),
            decreases t.len() - self.pos(),
        {
            proof {
                lemma_step(t, self.pos());
            }
            let ghost q = self.pos();
            if !self.match_one(TokenType::OR) {
                return Ok(expr);
            }
            let operator = self.prev();
            let right = match self.and() {
                Err(e) => return Err(e),
                Ok(x) => x,
            };
            let ghost before = self.reports_view();
            let ghost le = expr@;
            let ghost re = right@;
            expr = Expr::Logical { left: Box::new(expr), operator, right: Box::new(right) };
            proof {
                lemma_expr_reports(t, p, expr@);
                assert(self.reports_view() =~= old(self).reports_view() + (expr_reports(t, p, le)
                    + expr_reports(t, q + 1, re)));
            }
        }
    }

    fn and(&mut self) -> (r: ParserResult<Expr>)
        requires
            old(self).wf(),
        ensures
            final(self).wf(),
            final(self).toks() == old(self).toks(),
            final(self).pos() >= old(self).pos(),
            r is Ok ==> final(self).pos() > old(self).pos(),
            expr_outcome(r, logic_and(old(self).toks(), old(self).pos()), final(self).pos()),
            r matches Ok(e) ==> final(self).pos() == old(self).pos() + span(e@),
            r matches Ok(e) ==> final(self).reports_view() == old(self).reports_view() + expr_reports(
                old(self).toks(),
                old(self).pos(),
                e@,
            ),
        decreases old(self).toks().len() - old(self).pos(), 13int,
    {
        let ghost t = self.toks();
        let ghost p = self.pos();
        proof {
            lemma_step(t, p);
            lemma_toks_len(self.tokens@);
        }
        let mut expr = match self.equality() {
            Err(e) => return Err(e),
            Ok(x) => x,
        };
        loop
            invariant
                self.wf(),
                self.toks() == t,
                self.pos() >= p,
                t == old(self).toks(),
                p == old(self).pos(),
                self.pos() > p,
                logic_and(t, p) == and_rest(t, self.pos(), expr@),
                self.reports_view() == old(self).reports_view() + expr_reports(t, p, expr@),
                self.pos() == p + span(expr@),
            decreases t.len() - self.pos(),
        {
            proof {
                lemma_step(t, self.pos());
            }
            let ghost q = self.pos();
            if !self.match_one(TokenType::AND) {
                return Ok(expr);
            }
            let operator = self.prev();
            let right = match self.and() {
                Err(e) => return Err(e),
                Ok(x) => x,
            };
            let ghost before = self.reports_view();
            let ghost le = expr@;
            let ghost re = right@;
            expr = Expr::Logical { left: Box::new(expr), operator, right: Box::new(right) };
            proof {
                lemma_expr_reports(t, p, expr@);
                assert(self.reports_view() =~= old(self).reports_view() + (expr_reports(t, p, le)
                    + expr_reports(t, q + 1, re)));
            }
        }
    }

    fn equality(&mut self) -> (r: ParserResult<Expr>)
        requires
            old(self).wf(),
        ensures
            final(self).wf(),
            final(self).toks() == old(self).toks(),
            final(self).pos() >= old(self).pos(),
            r is Ok ==> final(self).pos() > old(self).pos(),
            expr_outcome(r, binary(0, old(self).toks(), old(self).pos()), final(self).pos()),
            r matches Ok(e) ==> final(self).pos() == old(self).pos() + span(e@),
            r matches Ok(e) ==> final(self).reports_view() == old(self).reports_view() + expr_reports(
                old(self).toks(),
                old(self).pos(),
                e@,
            ),
        decreases old(self).toks().len() - old(self).pos(), 12int,
    {
        self.binary_level(0)
    }

    fn comparision(&mut self) -> (r: ParserResult<Expr>)
        requires
            old(self).wf(),
        ensures
            final(self).wf(),
            final(self).toks() == old(self).toks(),
            final(self).pos() >= old(self).pos(),
            r is Ok ==> final(self).pos() > old(self).pos(),
            expr_outcome(r, binary(1, old(self).toks(), old(self).pos()), final(self).pos()),
            r matches Ok(e) ==> final(self).pos() == old(self).pos() + span(e@),
            r matches Ok(e) ==> final(self).reports_view() == old(self).reports_view() + expr_reports(
                old(self).toks(),
                old(self).pos(),
                e@,
            ),
        decreases old(self).toks().len() - old(self).pos(), 10int,
    {
        self.binary_level(1)
    }

    fn term(&mut self) -> (r: ParserResult<Expr>)
        requires
            old(self).wf(),
        ensures
            final(self).wf(),
            final(self).toks() == old(self).toks(),
            final(self).pos() >= old(self).pos(),
            r is Ok ==> final(self).pos() > old(self).pos(),
            expr_outcome(r, binary(2, old(self).toks(), old(self).pos()), final(self).pos()),
            r matches Ok(e) ==> final(self).pos() == old(self).pos() + span(e@),
            r matches Ok(e) ==> final(self).reports_view() == old(self).reports_view() + expr_reports(
                old(self).toks(),
                old(self).pos(),
                e@,
            ),
        decreases old(self).toks().len() - old(self).pos(), 8int,
    {
        self.binary_level(2)
    }

    fn factor(&mut self) -> (r: ParserResult<Expr>)
        requires
            old(self).wf(),
        ensures
            final(self).wf(),
            final(self).toks() == old(self).toks(),
            final(self).pos() >= old(self).pos(),
            r is Ok ==> final(self).pos() > old(self).pos(),
            expr_outcome(r, binary(3, old(self).toks(), old(self).pos()), final(self).pos()),
            r matches Ok(e) ==> final(self).pos() == old(self).pos() + span(e@),
            r matches Ok(e) ==> final(self).reports_view() == old(self).reports_view() + expr_reports(
                old(self).toks(),
                old(self).pos(),
                e@,
            ),
        decreases old(self).toks().len() - old(self).pos(), 6int,
    {
        self.binary_level(3)
    }

    /// One binary precedence level: operands joined left to right.
    fn binary_level(&mut self, level: usize) -> (r: ParserResult<Expr>)
        requires
            old(self).wf(),
            level <= 3,
        ensures
            final(self).wf(),
            final(self).toks() == old(self).toks(),
            final(self).pos() >= old(self).pos(),
            r is Ok ==> final(self).pos() > old(self).pos(),
            expr_outcome(r, binary(level as int, old(self).toks(), old(self).pos()), final(self).pos()),
            r matches Ok(e) ==> final(self).pos() == old(self).pos() + span(e@),
            r matches Ok(e) ==> final(self).reports_view() == old(self).reports_view() + expr_reports(
                old(self).toks(),
                old(self).pos(),
                e@,
            ),
        decreases old(self).toks().len() - old(self).pos(), 11 - 2 * level,
    {
        let ghost t = self.toks();
        let ghost p = self.pos();
        proof {
            lemma_step(t, p);
            lemma_toks_len(self.tokens@);
        }
        let mut expr = match self.operand(level) {
            Err(e) => return Err(e),
            Ok(x) => x,
        };
        loop
            invariant
                self.wf(),
                self.toks() == t,
                self.pos() >= p,
                t == old(self).toks(),
                p == old(self).pos(),
                self.pos() > p,
                level <= 3,
                binary(level as int, t, p) == binary_rest(level as int, t, self.pos(), expr@),
                self.reports_view() == old(self).reports_view() + expr_reports(t, p, expr@),
                self.pos() == p + span(expr@),
            decreases t.len() - self.pos(),
        {
            proof {
                lemma_step(t, self.pos());
            }
            if !self.match_level(level) {
                return Ok(expr);
            }
            let ghost q = self.pos() - 1;
            let operator = self.prev();
            let right = match self.operand(level) {
                Err(e) => return Err(e),
                Ok(x) => x,
            };
            let ghost le = expr@;
            let ghost re = right@;
            expr = Expr::new_binary(expr, operator, right);
            proof {
                lemma_expr_reports(t, p, expr@);
            }
            assert(self.reports_view() =~= old(self).reports_view() + (expr_reports(t, p, le)
                + expr_reports(t, q + 1, re)));
        }
    }

    /// The operand of a binary level.
    fn operand(&mut self, level: usize) -> (r: ParserResult<Expr>)
        requires
            old(self).wf(),
            level <= 3,
        ensures
            final(self).wf(),
            final(self).toks() == old(self).toks(),
            final(self).pos() >= old(self).pos(),
            r is Ok ==> final(self).pos() > old(self).pos(),
            expr_outcome(r, operand(level as int, old(self).toks(), old(self).pos()), final(self).pos()),
            r matches Ok(e) ==> final(self).pos() == old(self).pos() + span(e@),
            r matches Ok(e) ==> final(self).reports_view() == old(self).reports_view() + expr_reports(
                old(self).toks(),
                old(self).pos(),
                e@,
            ),
        decreases old(self).toks().len() - old(self).pos(), 10 - 2 * level,
    {
        proof {
            lemma_step(self.toks(), self.pos());
        }
        if level == 3 {
            self.unary()
        } else {
            self.binary_level(level + 1)
        }
    }

    fn unary(&mut self) -> (r: ParserResult<Expr>)
        requires
            old(self).wf(),
        ensures
            final(self).wf(),
            final(self).toks() == old(self).toks(),
            final(self).pos() >= old(self).pos(),
            r is Ok ==> final(self).pos() > old(self).pos(),
            expr_outcome(r, unary(old(self).toks(), old(self).pos()), final(self).pos()),
            r matches Ok(e) ==> final(self).pos() == old(self).pos() + span(e@),
            r matches Ok(e) ==> final(self).reports_view() == old(self).reports_view() + expr_reports(
                old(self).toks(),
                old(self).pos(),
                e@,
            ),
        decreases old(self).toks().len() - old(self).pos(), 3int,
    {
        let ghost t = self.toks();
        let ghost p = self.pos();
        proof {
            lemma_step(t, p);
            lemma_toks_len(self.tokens@);
        }
        if self.match_one(TokenType::BANG) || self.match_one(TokenType::MINUS) {
            let operator = self.prev();
            let right = match self.unary() {
                Err(e) => return Err(e),
                Ok(x) => x,
            };
            let u = Expr::new_unary(operator, right);
            proof {
                lemma_expr_reports(t, p, u@);
            }
            return Ok(u);
        }
        self.call()
    }

    #[verifier::spinoff_prover]
    #[verifier::rlimit(100)]
    fn call(&mut self) -> (r: ParserResult<Expr>)
        requires
            old(self).wf(),
        ensures
            final(self).wf(),
            final(self).toks() == old(self).toks(),
            final(self).pos() >= old(self).pos(),
            r is Ok ==> final(self).pos() > old(self).pos(),
            expr_outcome(r, call(old(self).toks(), old(self).pos()), final(self).pos()),
            r matches Ok(e) ==> final(self).pos() == old(self).pos() + span(e@),
            r matches Ok(e) ==> final(self).reports_view() == old(self).reports_view() + expr_reports(
                old(self).toks(),
                old(self).pos(),
                e@,
            ),
        decreases old(self).toks().len() - old(self).pos(), 2int,
    {
        let ghost t = self.toks();
        let ghost p = self.pos();
        proof {
            lemma_step(t, p);
            lemma_toks_len(self.tokens@);
        }
        let mut expr = match self.primary() {
            Err(e) => return Err(e),
            Ok(x) => x,
        };
        loop
            invariant
                self.wf(),
                self.toks() == t,
                self.pos() >= p,
                t == old(self).toks(),
                p == old(self).pos(),
                self.pos() > p,
                call(t, p) == call_rest(t, self.pos(), expr@),
                self.reports_view() == old(self).reports_view() + expr_reports(t, p, expr@),
                self.pos() == p + span(expr@),
            decreases t.len() - self.pos(),
        {
            proof {
                lemma_step(t, self.pos());
            }
            if !self.match_one(TokenType::LEFT_PAREN) {
                return Ok(expr);
            }
            let ghost before = self.reports_view();
            let ghost ce = expr@;
            expr = match self.finish_call(expr) {
                Err(e) => return Err(e),
                Ok(x) => x,
            };
            proof {
                match expr@ {
                    ExprV::Call(c, paren, args) => {
                        lemma_expr_reports(t, p, expr@);
                        assert(expr_reports(t, p, expr@) == expr_reports(t, p, ce) + args_reports(
                            t,
                            p + span(ce) + 1,
                            args,
                        ));
                        assert(self.reports_view() =~= old(self).reports_view() + expr_reports(
                            t,
                            p,
                            expr@,
                        ));
                    },
                    _ => {},
                }
            }
        }
    }

    /// Expressions separated by commas. Each argument past the 255th is
    /// reported at its first token, before it is parsed.
    fn arguments(&mut self) -> (r: ParserResult<Vec<Expr>>)
        requires
            old(self).wf(),
        ensures
            final(self).wf(),
            final(self).toks() == old(self).toks(),
            final(self).pos() >= old(self).pos(),
            r is Ok ==> final(self).pos() > old(self).pos(),
            match (r, arguments(old(self).toks(), old(self).pos())) {
                (Ok(v), Ok((s, q))) => exprs_view(v@) == s && final(self).pos() == q,
                (Err(e), Err(m)) => e.msg_view() == m,
                _ => false,
            },
            r matches Ok(v) ==> final(self).pos() == old(self).pos() + args_span(exprs_view(v@)),
            r matches Ok(v) ==> final(self).reports_view() == old(self).reports_view()
                + args_reports(old(self).toks(), old(self).pos(), exprs_view(v@)),
        decreases old(self).toks().len() - old(self).pos(), 18int,
    {
        let ghost t = self.toks();
        let ghost p = self.pos();
        proof {
            lemma_step(t, p);
            lemma_toks_len(self.tokens@);
        }
        let mut args: Vec<Expr> = Vec::new();
        assert(exprs_view(args@) =~= Seq::<ExprV>::empty());
        proof {
            lemma_args_reports(t, p, Seq::<ExprV>::empty());
            assert(self.reports_view() =~= old(self).reports_view() + args_reports(
                t,
                p,
                exprs_view(args@),
            ));
        }
        loop
            invariant
                self.wf(),
                self.toks() == t,
                self.pos() >= p,
                t == old(self).toks(),
                p == old(self).pos(),
                arguments(t, p) == prepend_args(exprs_view(args@), arguments(t, self.pos())),
                self.reports_view() == old(self).reports_view() + args_reports(
                    t,
                    p,
                    exprs_view(args@),
                ),
                self.pos() == next_arg(p, exprs_view(args@)),
            decreases t.len() - self.pos(),
        {
            proof {
                lemma_step(t, self.pos());
                lemma_exprs_view(args@);
            }
            let ghost before = exprs_view(args@);
            let ghost s = self.pos();
            let ghost r0 = self.reports_view();
            if args.len() >= 255 {
                let first = self.peek();
                let report = self.error(&first, "Can't have more then 255 arguments").to_string();
                proof {
                    lemma_strings_view_push(self.reports@, report);
                }
                self.reports.push(report);
            }
            let ghost r1 = self.reports_view();
            assert(r1 == r0 + (if before.len() >= 255 {
                seq![argument_report(t[s])]
            } else {
                Seq::<Seq<char>>::empty()
            }));
            let e = match self.expression() {
                Err(e) => return Err(e),
                Ok(x) => x,
            };
            proof {
                lemma_step(t, self.pos());
                lemma_exprs_view_push(args@, e);
            }
            args.push(e);
            proof {
                assert(exprs_view(args@).drop_last() =~= before);
                law_call_arity_reported(t, p, before, e@);
                assert(exprs_view(args@) =~= before.push(e@));
                assert(self.reports_view() =~= old(self).reports_view() + args_reports(
                    t,
                    p,
                    exprs_view(args@),
                ));
            }
            if !self.match_one(TokenType::COMMA) {
                assert(before + seq![e@] =~= exprs_view(args@));
                return Ok(args);
            }
            proof {
                match arguments(t, self.pos()) {
                    Ok((rest, q)) => {
                        assert(before + (seq![e@] + rest) =~= exprs_view(args@) + rest);
                    },
                    Err(m) => {},
                }
            }
        }
    }

    /// The arguments and closing parenthesis of a call of `callee`.
    #[verifier::spinoff_prover]
    #[verifier::rlimit(100)]
    fn finish_call(&mut self, callee: Expr) -> (r: ParserResult<Expr>)
        requires
            old(self).wf(),
        ensures
            final(self).wf(),
            final(self).toks() == old(self).toks(),
            final(self).pos() >= old(self).pos(),
            r is Ok ==> final(self).pos() > old(self).pos(),
            expr_outcome(r, finish_call(old(self).toks(), old(self).pos(), callee@), final(self).pos()),
            r matches Ok(e) ==> (e@ matches ExprV::Call(c, paren, args) && *c == callee@
                && final(self).pos() == old(self).pos() + args_span(args) + 1
                && final(self).reports_view() == old(self).reports_view() + args_reports(
                old(self).toks(),
                old(self).pos(),
                args,
            )),
        decreases old(self).toks().len() - old(self).pos(), 19int,
    {
        let ghost t = self.toks();
        let ghost p = self.pos();
        proof {
            lemma_step(t, p);
            lemma_toks_len(self.tokens@);
        }
        let ghost r0 = self.reports_view();
        if self.check(&TokenType::RIGHT_PAREN) {
            let paren = self.peek();
            self.advance();
            let args: Vec<Expr> = Vec::new();
            assert(exprs_view(args@) =~= Seq::<ExprV>::empty());
            proof {
                lemma_args_reports(t, p, Seq::<ExprV>::empty());
            }
            assert(self.reports_view() =~= r0 + args_reports(t, p, Seq::<ExprV>::empty()));
            return Ok(Expr::Call { callee: Box::new(callee), paren, args });
        }
        let args = match self.arguments() {
            Err(e) => return Err(e),
            Ok(x) => x,
        };
        proof {
            lemma_step(t, self.pos());
            lemma_exprs_view(args@);
        }
        match self.consume(&TokenType::RIGHT_PAREN, "Expected ) to end the call") {
            Err(e) => Err(e),
            Ok(paren) => Ok(Expr::Call { callee: Box::new(callee), paren, args }),
        }
    }

    #[verifier::spinoff_prover]
    #[verifier::rlimit(100)]
    fn primary(&mut self) -> (r: ParserResult<Expr>)
        requires
            old(self).wf(),
        ensures
            final(self).wf(),
            final(self).toks() == old(self).toks(),
            final(self).pos() >= old(self).pos(),
            r is Ok ==> final(self).pos() > old(self).pos(),
            expr_outcome(r, primary(old(self).toks(), old(self).pos()), final(self).pos()),
            r matches Ok(e) ==> final(self).pos() == old(self).pos() + span(e@),
            r matches Ok(e) ==> final(self).reports_view() == old(self).reports_view() + expr_reports(
                old(self).toks(),
                old(self).pos(),
                e@,
            ),
        decreases old(self).toks().len() - old(self).pos(), 0int,
    {
        let ghost t = self.toks();
        let ghost p = self.pos();
        proof {
            lemma_step(t, p);
            lemma_toks_len(self.tokens@);
        }
        if self.match_one(TokenType::FALSE) {
            let x = Expr::new_primary(Literal::False);
            proof {
                lemma_expr_reports(t, p, x@);
            }
            return Ok(x);
        }
        if self.match_one(TokenType::TRUE) {
            let x = Expr::new_primary(Literal::True);
            proof {
                lemma_expr_reports(t, p, x@);
            }
            return Ok(x);
        }
        if self.match_one(TokenType::NUMBER) {
            let tok = self.prev();
            let x = Expr::new_primary(Literal::Number(tok.literal));
            proof {
                lemma_expr_reports(t, p, x@);
            }
            return Ok(x);
        }
        if self.match_one(TokenType::NIL) {
            let x = Expr::new_primary(Literal::Nil);
            proof {
                lemma_expr_reports(t, p, x@);
            }
            return Ok(x);
        }
        if self.match_one(TokenType::STRING) {
            let tok = self.prev();
            let x = Expr::new_primary(Literal::String(tok.literal));
            proof {
                lemma_expr_reports(t, p, x@);
            }
            return Ok(x);
        }
        if self.match_one(TokenType::IDENTIFIER) {
            let x = Expr::new_variable(self.prev());
            proof {
                lemma_expr_reports(t, p, x@);
            }
            return Ok(x);
        }
        if self.match_one(TokenType::LEFT_PAREN) {
            let expr = match self.expression() {
                Err(e) => return Err(e),
                Ok(x) => x,
            };
            match self.consume(&TokenType::RIGHT_PAREN, "Expect ')' after expression") {
                Err(e) => return Err(e),
                Ok(_) => {},
            }
            let x = Expr::new_grouping(expr);
            proof {
                lemma_expr_reports(t, p, x@);
            }
            return Ok(x);
        }
        let tok = self.peek();
        Err(ParserError::get_error(&tok, "Expected an expression"))
    }
}

impl Parser {
    /// Parses the whole program: declarations up to the end of input. The
    /// result is the program's statements, or the first error. A program
    /// that parses has reported what `program_reports` gives, in the order
    /// of the source; for one that does not, this contract leaves unsaid
    /// which reports were made before the error.
    #[verifier::spinoff_prover]
    #[verifier::rlimit(100)]
    pub fn parse(&mut self) -> (r: ParserResult<Vec<Stmt>>)
        requires
            old(self).wf(),
        ensures
            final(self).wf(),
            final(self).toks() == old(self).toks(),
            match (r, program(old(self).toks(), old(self).pos())) {
                (Ok(v), Ok(s)) => stmts_view(v@) == s,
                (Err(e), Err(m)) => e.msg_view() == m,
                _ => false,
            },
            r is Ok ==> final(self).reports_view() == old(self).reports_view() + program_reports(
                old(self).toks(),
                old(self).pos(),
            ),
    {
        let ghost t = self.toks();
        let ghost p = self.pos();
        reveal_with_fuel(program_reports, 1);
        reveal_with_fuel(program, 1);
        proof {
            lemma_step(t, p);
            lemma_toks_len(self.tokens@);
        }
        let mut stmts: Vec<Stmt> = Vec::new();
        assert(stmts_view(stmts@) =~= Seq::<StmtV>::empty());
        let ghost mut acc: Seq<Seq<char>> = Seq::empty();
        assert(self.reports_view() =~= old(self).reports_view() + acc);
        assert(program_reports(t, p) =~= acc + program_reports(t, p));
        while !self.is_at_end()
            invariant
                self.wf(),
                self.toks() == t,
                self.pos() >= p,
                t == old(self).toks(),
                p == old(self).pos(),
                program(t, p) == prepend_program(stmts_view(stmts@), program(t, self.pos())),
                self.reports_view() == old(self).reports_view() + acc,
                program_reports(t, p) == acc + program_reports(t, self.pos()),
            decreases t.len() - self.pos(),
        {
            reveal_with_fuel(program, 1);
            reveal_with_fuel(program_reports, 1);
            proof {
                lemma_step(t, self.pos());
            }
            let ghost q = self.pos();
            let st = match self.declaration() {
            Err(e) => return Err(e),
            Ok(x) => x,
        };
            proof {
                assert(program_reports(t, q) == decl_reports(t, q) + program_reports(t, self.pos()));
                assert(program_reports(t, p) =~= (acc + decl_reports(t, q)) + program_reports(
                    t,
                    self.pos(),
                ));
                acc = acc + decl_reports(t, q);
                assert(self.reports_view() =~= old(self).reports_view() + acc);
            }
            reveal_with_fuel(program, 1);
            proof {
                lemma_step(t, self.pos());
                lemma_stmts_view_push(stmts@, st);
                match program(t, self.pos()) {
                    Ok(rest) => {
                        assert(stmts_view(stmts@) + (seq![st@] + rest) =~= stmts_view(stmts@).push(st@)
                            + rest);
                    },
                    Err(m) => {},
                }
            }
            stmts.push(st);
        }
        assert(stmts_view(stmts@) + Seq::<StmtV>::empty() =~= stmts_view(stmts@));
        proof {
            reveal_with_fuel(program_reports, 1);
            assert(acc + program_reports(t, self.pos()) =~= acc);
        }
        Ok(stmts)
    }

    #[verifier::spinoff_prover]
    #[verifier::rlimit(100)]
    fn declaration(&mut self) -> (r: ParserResult<Stmt>)
        requires
            old(self).wf(),
        ensures
            final(self).wf(),
            final(self).toks() == old(self).toks(),
            final(self).pos() >= old(self).pos(),
            r is Ok ==> final(self).pos() > old(self).pos(),
            stmt_outcome(r, declaration(old(self).toks(), old(self).pos()), final(self).pos()),
            r is Ok ==> final(self).reports_view() == old(self).reports_view() + decl_reports(
                old(self).toks(),
                old(self).pos(),
            ),
        decreases old(self).toks().len() - old(self).pos(), 23int,
    {
        let ghost t = self.toks();
        let ghost p = self.pos();
        reveal_with_fuel(decl_reports, 1);
        reveal_with_fuel(declaration, 1);
        proof {
            lemma_step(t, p);
            lemma_toks_len(self.tokens@);
        }
        if self.match_one(TokenType::FUN) {
            return self.function();
        }
        if self.match_one(TokenType::VAR) {
            return self.var_declaration();
        }
        self.statement()
    }

    /// Parameter names separated by commas.
    fn parameters(&mut self) -> (r: ParserResult<Vec<Token>>)
        requires
            old(self).wf(),
        ensures
            final(self).wf(),
            final(self).toks() == old(self).toks(),
            final(self).pos() >= old(self).pos(),
            r is Ok ==> final(self).pos() > old(self).pos(),
            match (r, parameters(old(self).toks(), old(self).pos())) {
                (Ok(v), Ok((s, q))) => tokens_view(v@) == s && final(self).pos() == q,
                (Err(e), Err(m)) => e.msg_view() == m,
                _ => false,
            },
            r is Ok ==> final(self).reports_v() == old(self).reports_v(),
    {
        let ghost t = self.toks();
        let ghost p = self.pos();
        reveal_with_fuel(parameters, 1);
        proof {
            lemma_step(t, p);
            lemma_toks_len(self.tokens@);
        }
        let mut params: Vec<Token> = Vec::new();
        assert(tokens_view(params@) =~= Seq::<TokenV>::empty());
        loop
            invariant
                self.wf(),
                self.toks() == t,
                self.pos() >= p,
                t == old(self).toks(),
                p == old(self).pos(),
                parameters(t, p) == prepend_tokens(tokens_view(params@), parameters(t, self.pos())),
                self.reports_v() == old(self).reports_v(),
            decreases t.len() - self.pos(),
        {
            reveal_with_fuel(parameters, 1);
            proof {
                lemma_step(t, self.pos());
            }
            let name = match self.consume(&TokenType::IDENTIFIER, "Expected parameter name") {
            Err(e) => return Err(e),
            Ok(x) => x,
        };
            reveal_with_fuel(parameters, 1);
            proof {
                lemma_step(t, self.pos());
                lemma_tokens_view_push(params@, name);
            }
            let ghost before = tokens_view(params@);
            params.push(name);
            if !self.match_one(TokenType::COMMA) {
                assert(before + seq![name@] =~= tokens_view(params@));
                return Ok(params);
            }
            reveal_with_fuel(parameters, 1);
            proof {
                match parameters(t, self.pos()) {
                    Ok((rest, q)) => {
                        assert(before + (seq![name@] + rest) =~= tokens_view(params@) + rest);
                    },
                    Err(m) => {},
                }
            }
        }
    }

    /// A function declaration after `fun`.
    #[verifier::spinoff_prover]
    #[verifier::rlimit(100)]
    fn function(&mut self) -> (r: ParserResult<Stmt>)
        requires
            old(self).wf(),
        ensures
            final(self).wf(),
            final(self).toks() == old(self).toks(),
            final(self).pos() >= old(self).pos(),
            r is Ok ==> final(self).pos() > old(self).pos(),
            stmt_outcome(r, function(old(self).toks(), old(self).pos()), final(self).pos()),
            r is Ok ==> final(self).reports_view() == old(self).reports_view() + function_reports(
                old(self).toks(),
                old(self).pos(),
            ),
        decreases old(self).toks().len() - old(self).pos(), 21int,
    {
        let ghost t = self.toks();
        let ghost p = self.pos();
        reveal_with_fuel(function_reports, 1);
        reveal_with_fuel(function, 1);
        proof {
            lemma_step(t, p);
            lemma_toks_len(self.tokens@);
        }
        let name = match self.consume(&TokenType::IDENTIFIER, "Expected function name") {
            Err(e) => return Err(e),
            Ok(x) => x,
        };
        reveal_with_fuel(function, 1);
        proof {
            lemma_step(t, self.pos());
        }
        match self.consume(&TokenType::LEFT_PAREN, "Expected ( after function name") {
            Err(e) => return Err(e),
            Ok(_lp) => _lp,
        };
        reveal_with_fuel(function, 1);
        proof {
            lemma_step(t, self.pos());
        }
        let params = if self.check(&TokenType::RIGHT_PAREN) {
            let v: Vec<Token> = Vec::new();
            assert(tokens_view(v@) =~= Seq::<TokenV>::empty());
            v
        } else {
            match self.parameters() {
            Err(e) => return Err(e),
            Ok(x) => x,
        }
        };
        reveal_with_fuel(function, 1);
        proof {
            lemma_step(t, self.pos());
        }
        match self.consume(&TokenType::RIGHT_PAREN, "Expected ) during function declaration") {
            Err(e) => return Err(e),
            Ok(_rp) => _rp,
        };
        reveal_with_fuel(function, 1);
        proof {
            lemma_step(t, self.pos());
        }
        match self.consume(&TokenType::LEFT_BRACE, "Expected { before function body") {
            Err(e) => return Err(e),
            Ok(_lb) => _lb,
        };
        reveal_with_fuel(function, 1);
        proof {
            lemma_step(t, self.pos());
        }
        let body = match self.block_stmts() {
            Err(e) => return Err(e),
            Ok(x) => x,
        };
        Ok(Stmt::Function { name, params, body })
    }

    /// A variable declaration after `var`.
    fn var_declaration(&mut self) -> (r: ParserResult<Stmt>)
        requires
            old(self).wf(),
        ensures
            final(self).wf(),
            final(self).toks() == old(self).toks(),
            final(self).pos() >= old(self).pos(),
            r is Ok ==> final(self).pos() > old(self).pos(),
            stmt_outcome(r, var_declaration(old(self).toks(), old(self).pos()), final(self).pos()),
            r is Ok ==> final(self).reports_view() == old(self).reports_view() + var_reports(
                old(self).toks(),
                old(self).pos(),
            ),
        decreases old(self).toks().len() - old(self).pos(), 21int,
    {
        let ghost t = self.toks();
        let ghost p = self.pos();
        reveal_with_fuel(var_declaration, 1);
        proof {
            lemma_step(t, p);
            lemma_toks_len(self.tokens@);
        }
        let name = match self.consume(&TokenType::IDENTIFIER, "Expected an Identifier after var declaration") {
            Err(e) => return Err(e),
            Ok(x) => x,
        };
        reveal_with_fuel(var_declaration, 1);
        proof {
            lemma_step(t, self.pos());
        }
        let mut initializer = None;
        if self.match_one(TokenType::EQUAL) {
            initializer = Some(match self.expression() {
            Err(e) => return Err(e),
            Ok(x) => x,
        });
        }
        reveal_with_fuel(var_declaration, 1);
        proof {
            lemma_step(t, self.pos());
        }
        match self.consume(&TokenType::SEMICOLON, "Expected a semicolon after stmt") {
            Err(e) => return Err(e),
            Ok(_s) => _s,
        };
        Ok(Stmt::Var { name, initializer })
    }

    #[verifier::spinoff_prover]
    #[verifier::rlimit(100)]
    fn statement(&mut self) -> (r: ParserResult<Stmt>)
        requires
            old(self).wf(),
        ensures
            final(self).wf(),
            final(self).toks() == old(self).toks(),
            final(self).pos() >= old(self).pos(),
            r is Ok ==> final(self).pos() > old(self).pos(),
            stmt_outcome(r, statement(old(self).toks(), old(self).pos()), final(self).pos()),
            r is Ok ==> final(self).reports_view() == old(self).reports_view() + stmt_reports(
                old(self).toks(),
                old(self).pos(),
            ),
        decreases old(self).toks().len() - old(self).pos(), 22int,
    {
        let ghost t = self.toks();
        let ghost p = self.pos();
        reveal_with_fuel(stmt_reports, 1);
        reveal_with_fuel(statement, 1);
        proof {
            lemma_step(t, p);
            lemma_toks_len(self.tokens@);
        }
        if self.match_one(TokenType::IF) {
            return self.if_statement();
        }
        if self.match_one(TokenType::PRINT) {
            return self.print_statment();
        }
        if self.match_one(TokenType::RETURN) {
            return self.return_statement();
        }
        if self.match_one(TokenType::WHILE) {
            return self.while_stmt();
        }
        if self.match_one(TokenType::FOR) {
            return self.for_stmt();
        }
        if self.match_one(TokenType::LEFT_BRACE) {
            return self.block();
        }
        self.expression_stmt()
    }

    /// The initializer clause of a `for` loop.
    fn for_initializer(&mut self) -> (r: ParserResult<Option<Stmt>>)
        requires
            old(self).wf(),
        ensures
            final(self).wf(),
            final(self).toks() == old(self).toks(),
            final(self).pos() >= old(self).pos(),
            match (r, for_initializer(old(self).toks(), old(self).pos())) {
                (Ok(Some(s)), Ok((Some(v), q))) => s@ == v && final(self).pos() == q,
                (Ok(None), Ok((None, q))) => final(self).pos() == q,
                (Err(e), Err(m)) => e.msg_view() == m,
                _ => false,
            },
            r is Ok ==> final(self).reports_view() == old(self).reports_view() + init_reports(
                old(self).toks(),
                old(self).pos(),
            ),
        decreases old(self).toks().len() - old(self).pos(), 21int,
    {
        let ghost t = self.toks();
        let ghost p = self.pos();
        reveal_with_fuel(for_initializer, 1);
        proof {
            lemma_step(t, p);
            lemma_toks_len(self.tokens@);
        }
        if self.match_one(TokenType::SEMICOLON) {
            Ok(None)
        } else if self.match_one(TokenType::VAR) {
            Ok(Some(match self.var_declaration() {
            Err(e) => return Err(e),
            Ok(x) => x,
        }))
        } else {
            Ok(Some(match self.expression_stmt() {
            Err(e) => return Err(e),
            Ok(x) => x,
        }))
        }
    }

    /// A for statement after `for`; it stands for a while loop.
    #[verifier::spinoff_prover]
    #[verifier::rlimit(100)]
    fn for_stmt(&mut self) -> (r: ParserResult<Stmt>)
        requires
            old(self).wf(),
        ensures
            final(self).wf(),
            final(self).toks() == old(self).toks(),
            final(self).pos() >= old(self).pos(),
            r is Ok ==> final(self).pos() > old(self).pos(),
            stmt_outcome(r, for_statement(old(self).toks(), old(self).pos()), final(self).pos()),
            r is Ok ==> final(self).reports_view() == old(self).reports_view() + for_reports(
                old(self).toks(),
                old(self).pos(),
            ),
        decreases old(self).toks().len() - old(self).pos(), 22int,
    {
        let ghost t = self.toks();
        let ghost p = self.pos();
        reveal_with_fuel(for_reports, 1);
        reveal_with_fuel(for_statement, 1);
        proof {
            lemma_step(t, p);
            lemma_toks_len(self.tokens@);
        }
        match self.consume(&TokenType::LEFT_PAREN, "Expected a ( after for statment") {
            Err(e) => return Err(e),
            Ok(_lp) => _lp,
        };
        reveal_with_fuel(for_statement, 1);
        proof {
            lemma_step(t, self.pos());
        }
        let initializer = match self.for_initializer() {
            Err(e) => return Err(e),
            Ok(x) => x,
        };
        reveal_with_fuel(for_statement, 1);
        proof {
            lemma_step(t, self.pos());
        }
        let mut condition = None;
        if !self.check(&TokenType::SEMICOLON) {
            condition = Some(match self.expression() {
            Err(e) => return Err(e),
            Ok(x) => x,
        });
        }
        reveal_with_fuel(for_statement, 1);
        proof {
            lemma_step(t, self.pos());
        }
        match self.consume(&TokenType::SEMICOLON, "expected a ; in the for loop") {
            Err(e) => return Err(e),
            Ok(_s) => _s,
        };
        reveal_with_fuel(for_statement, 1);
        proof {
            lemma_step(t, self.pos());
        }
        let mut increment = None;
        if !self.check(&TokenType::RIGHT_PAREN) {
            increment = Some(match self.expression() {
            Err(e) => return Err(e),
            Ok(x) => x,
        });
        }
        reveal_with_fuel(for_statement, 1);
        proof {
            lemma_step(t, self.pos());
        }
        match self.consume(&TokenType::RIGHT_PAREN, "Expected a ) after for clauses") {
            Err(e) => return Err(e),
            Ok(_rp) => _rp,
        };
        reveal_with_fuel(for_statement, 1);
        proof {
            lemma_step(t, self.pos());
        }
        let body = match self.statement() {
            Err(e) => return Err(e),
            Ok(x) => x,
        };
        Ok(Self::desugar(initializer, condition, increment, body))
    }

    /// Builds the loop a `for` statement stands for.
    fn desugar(
        initializer: Option<Stmt>,
        condition: Option<Expr>,
        increment: Option<Expr>,
        body: Stmt,
    ) -> (r: Stmt)
        ensures
            r@ == desugar_for(
                opt_stmt_view(initializer),
                opt_expr_v(condition),
                opt_expr_v(increment),
                body@,
            ),
    {
        let mut body = body;
        let ghost body0 = body@;
        let ghost inc_v = opt_expr_v(increment);
        let ghost cond_v = opt_expr_v(condition);
        if let Some(inc) = increment {
            let ghost incv = inc@;
            let mut v: Vec<Stmt> = Vec::new();
            v.push(body);
            v.push(Stmt::Expression { expr: inc });
            proof {
                lemma_stmts_view(v@);
                assert(stmts_view(v@) =~= seq![body0, StmtV::Expression(incv)]);
            }
            body = Stmt::Block { stmts: v };
        }
        assert(body@ == match inc_v {
            Some(i) => StmtV::Block(seq![body0, StmtV::Expression(i)]),
            None => body0,
        });
        let cond = match condition {
            Some(c) => c,
            None => Expr::Literal { value: Literal::True },
        };
        assert(cond@ == match cond_v {
            Some(c) => c,
            None => ExprV::Literal(LiteralV::True),
        });
        let w = Stmt::While { condition: cond, body: Box::new(body) };
        match initializer {
            Some(init) => {
                let ghost iv = init@;
                let ghost wv = w@;
                let mut v: Vec<Stmt> = Vec::new();
                v.push(init);
                v.push(w);
                proof {
                    lemma_stmts_view(v@);
                    assert(stmts_view(v@) =~= seq![iv, wv]);
                }
                Stmt::Block { stmts: v }
            },
            None => w,
        }
    }

    /// A while statement after `while`.
    #[verifier::spinoff_prover]
    #[verifier::rlimit(100)]
    fn while_stmt(&mut self) -> (r: ParserResult<Stmt>)
        requires
            old(self).wf(),
        ensures
            final(self).wf(),
            final(self).toks() == old(self).toks(),
            final(self).pos() >= old(self).pos(),
            r is Ok ==> final(self).pos() > old(self).pos(),
            stmt_outcome(r, while_statement(old(self).toks(), old(self).pos()), final(self).pos()),
            r is Ok ==> final(self).reports_view() == old(self).reports_view() + while_reports(
                old(self).toks(),
                old(self).pos(),
            ),
        decreases old(self).toks().len() - old(self).pos(), 21int,
    {
        let ghost t = self.toks();
        let ghost p = self.pos();
        reveal_with_fuel(while_reports, 1);
        reveal_with_fuel(while_statement, 1);
        proof {
            lemma_step(t, p);
            lemma_toks_len(self.tokens@);
        }
        match self.consume(&TokenType::LEFT_PAREN, "Expected \"(\" after while") {
            Err(e) => return Err(e),
            Ok(_lp) => _lp,
        };
        reveal_with_fuel(while_statement, 1);
        proof {
            lemma_step(t, self.pos());
        }
        let condition = match self.expression() {
            Err(e) => return Err(e),
            Ok(x) => x,
        };
        reveal_with_fuel(while_statement, 1);
        proof {
            lemma_step(t, self.pos());
        }
        match self.consume(&TokenType::RIGHT_PAREN, "Expected \")\" after while") {
            Err(e) => return Err(e),
            Ok(_rp) => _rp,
        };
        reveal_with_fuel(while_statement, 1);
        proof {
            lemma_step(t, self.pos());
        }
        let body = Box::new(match self.statement() {
            Err(e) => return Err(e),
            Ok(x) => x,
        });
        Ok(Stmt::While { body, condition })
    }

    /// An if statement after `if`.
    #[verifier::spinoff_prover]
    #[verifier::rlimit(100)]
    fn if_statement(&mut self) -> (r: ParserResult<Stmt>)
        requires
            old(self).wf(),
        ensures
            final(self).wf(),
            final(self).toks() == old(self).toks(),
            final(self).pos() >= old(self).pos(),
            r is Ok ==> final(self).pos() > old(self).pos(),
            stmt_outcome(r, if_statement(old(self).toks(), old(self).pos()), final(self).pos()),
            r is Ok ==> final(self).reports_view() == old(self).reports_view() + if_reports(
                old(self).toks(),
                old(self).pos(),
            ),
        decreases old(self).toks().len() - old(self).pos(), 21int,
    {
        let ghost t = self.toks();
        let ghost p = self.pos();
        reveal_with_fuel(if_reports, 1);
        reveal_with_fuel(if_statement, 1);
        proof {
            lemma_step(t, p);
            lemma_toks_len(self.tokens@);
        }
        match self.consume(&TokenType::LEFT_PAREN, "Expected \"(\" after if") {
            Err(e) => return Err(e),
            Ok(_lp) => _lp,
        };
        reveal_with_fuel(if_statement, 1);
        proof {
            lemma_step(t, self.pos());
        }
        let condition = match self.expression() {
            Err(e) => return Err(e),
            Ok(x) => x,
        };
        reveal_with_fuel(if_statement, 1);
        proof {
            lemma_step(t, self.pos());
        }
        match self.consume(&TokenType::RIGHT_PAREN, "Expected \")\" after if") {
            Err(e) => return Err(e),
            Ok(_rp) => _rp,
        };
        reveal_with_fuel(if_statement, 1);
        proof {
            lemma_step(t, self.pos());
        }
        let then_branch = Box::new(match self.statement() {
            Err(e) => return Err(e),
            Ok(x) => x,
        });
        reveal_with_fuel(if_statement, 1);
        proof {
            lemma_step(t, self.pos());
        }
        let mut else_branch = None;
        if self.match_one(TokenType::ELSE) {
            else_branch = Some(Box::new(match self.statement() {
            Err(e) => return Err(e),
            Ok(x) => x,
        }));
        }
        Ok(Stmt::IfStmt { condition, then_branch, else_branch })
    }

    /// Declarations up to a `}`, then the `}`.
    #[verifier::spinoff_prover]
    #[verifier::rlimit(100)]
    fn block_stmts(&mut self) -> (r: ParserResult<Vec<Stmt>>)
        requires
            old(self).wf(),
        ensures
            final(self).wf(),
            final(self).toks() == old(self).toks(),
            final(self).pos() >= old(self).pos(),
            r is Ok ==> final(self).pos() > old(self).pos(),
            match (r, block_from(old(self).toks(), old(self).pos())) {
                (Ok(v), Ok((s, q))) => stmts_view(v@) == s && final(self).pos() == q,
                (Err(e), Err(m)) => e.msg_view() == m,
                _ => false,
            },
            r is Ok ==> final(self).reports_view() == old(self).reports_view() + block_reports(
                old(self).toks(),
                old(self).pos(),
            ),
        decreases old(self).toks().len() - old(self).pos(), 24int,
    {
        let ghost t = self.toks();
        let ghost p = self.pos();
        reveal_with_fuel(block_reports, 1);
        reveal_with_fuel(block_from, 1);
        proof {
            lemma_step(t, p);
            lemma_toks_len(self.tokens@);
        }
        let mut stmts: Vec<Stmt> = Vec::new();
        assert(stmts_view(stmts@) =~= Seq::<StmtV>::empty());
        let ghost mut acc: Seq<Seq<char>> = Seq::empty();
        assert(self.reports_view() =~= old(self).reports_view() + acc);
        assert(block_reports(t, p) =~= acc + block_reports(t, p));
        loop
            invariant
                self.wf(),
                self.toks() == t,
                self.pos() >= p,
                t == old(self).toks(),
                p == old(self).pos(),
                block_from(t, p) == prepend_block(stmts_view(stmts@), block_from(t, self.pos())),
                self.reports_view() == old(self).reports_view() + acc,
                block_reports(t, p) == acc + block_reports(t, self.pos()),
            decreases t.len() - self.pos(),
        {
            reveal_with_fuel(block_from, 1);
            reveal_with_fuel(block_reports, 1);
            proof {
                lemma_step(t, self.pos());
            }
            let ghost q = self.pos();
            if self.check(&TokenType::RIGHT_BRACE) || self.is_at_end() {
                match self.consume(&TokenType::RIGHT_BRACE, "Invalid block. Consider adding a }") {
            Err(e) => return Err(e),
            Ok(_rb) => _rb,
        };
                assert(stmts_view(stmts@) + Seq::<StmtV>::empty() =~= stmts_view(stmts@));
                assert(acc + block_reports(t, q) =~= acc);
                return Ok(stmts);
            }
            let st = match self.declaration() {
            Err(e) => return Err(e),
            Ok(x) => x,
        };
            proof {
                assert(block_reports(t, q) == decl_reports(t, q) + block_reports(t, self.pos()));
                assert(block_reports(t, p) =~= (acc + decl_reports(t, q)) + block_reports(
                    t,
                    self.pos(),
                ));
                acc = acc + decl_reports(t, q);
                assert(self.reports_view() =~= old(self).reports_view() + acc);
            }
            reveal_with_fuel(block_from, 1);
            proof {
                lemma_step(t, self.pos());
                lemma_stmts_view_push(stmts@, st);
                match block_from(t, self.pos()) {
                    Ok((rest, q)) => {
                        assert(stmts_view(stmts@) + (seq![st@] + rest) =~= stmts_view(stmts@).push(st@)
                            + rest);
                    },
                    Err(m) => {},
                }
            }
            stmts.push(st);
        }
    }

    /// A block after `{`.
    fn block(&mut self) -> (r: ParserResult<Stmt>)
        requires
            old(self).wf(),
        ensures
            final(self).wf(),
            final(self).toks() == old(self).toks(),
            final(self).pos() >= old(self).pos(),
            r is Ok ==> final(self).pos() > old(self).pos(),
            match (r, block_from(old(self).toks(), old(self).pos())) {
                (Ok(st), Ok((s, q))) => st@ == StmtV::Block(s) && final(self).pos() == q,
                (Err(e), Err(m)) => e.msg_view() == m,
                _ => false,
            },
            r is Ok ==> final(self).reports_view() == old(self).reports_view() + block_reports(
                old(self).toks(),
                old(self).pos(),
            ),
        decreases old(self).toks().len() - old(self).pos(), 25int,
    {
        let stmts = match self.block_stmts() {
            Err(e) => return Err(e),
            Ok(x) => x,
        };
        Ok(Stmt::Block { stmts })
    }

    /// A print statement after `print`.
    fn print_statment(&mut self) -> (r: ParserResult<Stmt>)
        requires
            old(self).wf(),
        ensures
            final(self).wf(),
            final(self).toks() == old(self).toks(),
            final(self).pos() >= old(self).pos(),
            r is Ok ==> final(self).pos() > old(self).pos(),
            stmt_outcome(r, print_statement(old(self).toks(), old(self).pos()), final(self).pos()),
            r is Ok ==> final(self).reports_view() == old(self).reports_view() + expression_reports(
                old(self).toks(),
                old(self).pos(),
            ),
        decreases old(self).toks().len() - old(self).pos(), 21int,
    {
        let ghost t = self.toks();
        let ghost p = self.pos();
        reveal_with_fuel(print_statement, 1);
        proof {
            lemma_step(t, p);
            lemma_toks_len(self.tokens@);
        }
        let value = match self.expression() {
            Err(e) => return Err(e),
            Ok(x) => x,
        };
        reveal_with_fuel(print_statement, 1);
        proof {
            lemma_step(t, self.pos());
        }
        match self.consume(&TokenType::SEMICOLON, "Expected the statement to end with a semicolon") {
            Err(e) => return Err(e),
            Ok(_s) => _s,
        };
        Ok(Stmt::Print { expr: value })
    }

    /// A return statement after `return`.
    fn return_statement(&mut self) -> (r: ParserResult<Stmt>)
        requires
            old(self).wf(),
            old(self).pos() >= 1,
        ensures
            final(self).wf(),
            final(self).toks() == old(self).toks(),
            final(self).pos() >= old(self).pos(),
            r is Ok ==> final(self).pos() > old(self).pos(),
            stmt_outcome(r, return_statement(old(self).toks(), old(self).pos()), final(self).pos()),
            r is Ok ==> final(self).reports_view() == old(self).reports_view() + return_reports(
                old(self).toks(),
                old(self).pos(),
            ),
        decreases old(self).toks().len() - old(self).pos(), 21int,
    {
        let ghost t = self.toks();
        let ghost p = self.pos();
        reveal_with_fuel(return_statement, 1);
        proof {
            lemma_step(t, p);
            lemma_toks_len(self.tokens@);
        }
        let keyword = self.prev();
        let mut value = None;
        if !self.check(&TokenType::SEMICOLON) {
            value = Some(match self.expression() {
            Err(e) => return Err(e),
            Ok(x) => x,
        });
        }
        reveal_with_fuel(return_statement, 1);
        proof {
            lemma_step(t, self.pos());
        }
        match self.consume(&TokenType::SEMICOLON, "Expected ; after return value") {
            Err(e) => return Err(e),
            Ok(_s) => _s,
        };
        Ok(Stmt::Return { keyword, value })
    }

    fn expression_stmt(&mut self) -> (r: ParserResult<Stmt>)
        requires
            old(self).wf(),
        ensures
            final(self).wf(),
            final(self).toks() == old(self).toks(),
            final(self).pos() >= old(self).pos(),
            r is Ok ==> final(self).pos() > old(self).pos(),
            stmt_outcome(r, expression_statement(old(self).toks(), old(self).pos()), final(self).pos()),
            r is Ok ==> final(self).reports_view() == old(self).reports_view() + expression_reports(
                old(self).toks(),
                old(self).pos(),
            ),
        decreases old(self).toks().len() - old(self).pos(), 21int,
    {
        let ghost t = self.toks();
        let ghost p = self.pos();
        reveal_with_fuel(expression_statement, 1);
        proof {
            lemma_step(t, p);
            lemma_toks_len(self.tokens@);
        }
        let value = match self.expression() {
            Err(e) => return Err(e),
            Ok(x) => x,
        };
        reveal_with_fuel(expression_statement, 1);
        proof {
            lemma_step(t, self.pos());
        }
        match self.consume(&TokenType::SEMICOLON, "Expected the statement to end with a semicolon") {
            Err(e) => return Err(e),
            Ok(_s) => _s,
        };
        Ok(Stmt::Expression { expr: value })
    }
}

} // verus!
