use vstd::prelude::*;

use crate::text::{push_str, string_from_chars};
use crate::token::{keyword_type, tokens_view, Token, TokenType, TokenV};

verus! {

broadcast use vstd::string::group_string_axioms;

/// A literal value as it appears in the source.
#[derive(Debug, Clone, PartialEq)]
pub enum Literal {
    Number(String),
    String(String),
    True,
    False,
    Nil,
}

/// An expression.
#[derive(Debug, PartialEq)]
pub enum Expr {
    Binary { left: Box<Expr>, operator: Token, right: Box<Expr> },
    Grouping { expression: Box<Expr> },
    Literal { value: Literal },
    Unary { operator: Token, right: Box<Expr> },
    Variable { name: Token },
    Assign { name: Token, value: Box<Expr> },
    Logical { left: Box<Expr>, operator: Token, right: Box<Expr> },
    Call { callee: Box<Expr>, paren: Token, args: Vec<Expr> },
}

/// A statement.
#[derive(Debug, PartialEq)]
pub enum Stmt {
    Expression { expr: Expr },
    Function { name: Token, params: Vec<Token>, body: Vec<Stmt> },
    Print { expr: Expr },
    Var { name: Token, initializer: Option<Expr> },
    Block { stmts: Vec<Stmt> },
    Return { keyword: Token, value: Option<Expr> },
    IfStmt { condition: Expr, then_branch: Box<Stmt>, else_branch: Option<Box<Stmt>> },
    While { condition: Expr, body: Box<Stmt> },
}

// ----------------------------------------------------------------------------
// The syntax trees as mathematical values.
// ----------------------------------------------------------------------------
pub ghost enum LiteralV {
    Number(Seq<char>),
    Str(Seq<char>),
    True,
    False,
    Nil,
}

pub ghost enum ExprV {
    Binary(Box<ExprV>, TokenV, Box<ExprV>),
    Grouping(Box<ExprV>),
    Literal(LiteralV),
    Unary(TokenV, Box<ExprV>),
    Variable(TokenV),
    Assign(TokenV, Box<ExprV>),
    Logical(Box<ExprV>, TokenV, Box<ExprV>),
    Call(Box<ExprV>, TokenV, Seq<ExprV>),
}

pub ghost enum StmtV {
    Expression(ExprV),
    Function(TokenV, Seq<TokenV>, Seq<StmtV>),
    Print(ExprV),
    Var(TokenV, Option<ExprV>),
    Block(Seq<StmtV>),
    Return(TokenV, Option<ExprV>),
    If(ExprV, Box<StmtV>, Option<Box<StmtV>>),
    While(ExprV, Box<StmtV>),
}

pub open spec fn literal_view(l: Literal) -> LiteralV {
    match l {
        Literal::Number(s) => LiteralV::Number(s@),
        Literal::String(s) => LiteralV::Str(s@),
        Literal::True => LiteralV::True,
        Literal::False => LiteralV::False,
        Literal::Nil => LiteralV::Nil,
    }
}

pub open spec fn expr_view(e: Expr) -> ExprV
    decreases e,
{
    match e {
        Expr::Binary { left, operator, right } => ExprV::Binary(
            Box::new(expr_view(*left)),
            operator@,
            Box::new(expr_view(*right)),
        ),
        Expr::Grouping { expression } => ExprV::Grouping(Box::new(expr_view(*expression))),
        Expr::Literal { value } => ExprV::Literal(literal_view(value)),
        Expr::Unary { operator, right } => ExprV::Unary(operator@, Box::new(expr_view(*right))),
        Expr::Variable { name } => ExprV::Variable(name@),
        Expr::Assign { name, value } => ExprV::Assign(name@, Box::new(expr_view(*value))),
        Expr::Logical { left, operator, right } => ExprV::Logical(
            Box::new(expr_view(*left)),
            operator@,
            Box::new(expr_view(*right)),
        ),
        Expr::Call { callee, paren, args } => ExprV::Call(
            Box::new(expr_view(*callee)),
            paren@,
            exprs_view(args@),
        ),
    }
}

pub open spec fn exprs_view(s: Seq<Expr>) -> Seq<ExprV>
    decreases s,
{
    if s.len() == 0 {
        seq![]
    } else {
        exprs_view(s.drop_last()).push(expr_view(s.last()))
    }
}

pub open spec fn opt_expr_view(e: Option<Expr>) -> Option<ExprV> {
    match e {
        Some(x) => Some(expr_view(x)),
        None => None,
    }
}

pub open spec fn stmt_view(st: Stmt) -> StmtV
    decreases st,
{
    match st {
        Stmt::Expression { expr } => StmtV::Expression(expr_view(expr)),
        Stmt::Function { name, params, body } => StmtV::Function(
            name@,
            tokens_view(params@),
            stmts_view(body@),
        ),
        Stmt::Print { expr } => StmtV::Print(expr_view(expr)),
        Stmt::Var { name, initializer } => StmtV::Var(name@, opt_expr_view(initializer)),
        Stmt::Block { stmts } => StmtV::Block(stmts_view(stmts@)),
        Stmt::Return { keyword, value } => StmtV::Return(keyword@, opt_expr_view(value)),
        Stmt::IfStmt { condition, then_branch, else_branch } => StmtV::If(
            expr_view(condition),
            Box::new(stmt_view(*then_branch)),
            match else_branch {
                Some(b) => Some(Box::new(stmt_view(*b))),
                None => None,
            },
        ),
        Stmt::While { condition, body } => StmtV::While(
            expr_view(condition),
            Box::new(stmt_view(*body)),
        ),
    }
}

pub open spec fn stmts_view(s: Seq<Stmt>) -> Seq<StmtV>
    decreases s,
{
    if s.len() == 0 {
        seq![]
    } else {
        stmts_view(s.drop_last()).push(stmt_view(s.last()))
    }
}

impl View for Expr {
    type V = ExprV;

    open spec fn view(&self) -> ExprV {
        expr_view(*self)
    }
}

impl View for Stmt {
    type V = StmtV;

    open spec fn view(&self) -> StmtV {
        stmt_view(*self)
    }
}

// ----------------------------------------------------------------------------
// Printing expressions in prefix form.
// ----------------------------------------------------------------------------
/// How a literal is printed.
pub open spec fn literal_text(l: LiteralV) -> Seq<char> {
    match l {
        LiteralV::Number(s) => s,
        LiteralV::Str(s) => seq!['"'] + s + seq!['"'],
        LiteralV::True => "true"@,
        LiteralV::False => "false"@,
        LiteralV::Nil => "nil"@,
    }
}

/// The literals `nil`, `true` and `false` print as the keywords they are
/// written with: each printed form scans back as its own keyword, so no two
/// of them print alike; a number prints as its text and a string between
/// double quotes.
pub proof fn law_literal_text(n: Seq<char>, s: Seq<char>)
    ensures
        keyword_type(literal_text(LiteralV::Nil)) == TokenType::NIL,
        keyword_type(literal_text(LiteralV::True)) == TokenType::TRUE,
        keyword_type(literal_text(LiteralV::False)) == TokenType::FALSE,
        literal_text(LiteralV::Nil) == "nil"@,
        literal_text(LiteralV::Nil) != literal_text(LiteralV::True),
        literal_text(LiteralV::Nil) != literal_text(LiteralV::False),
        literal_text(LiteralV::True) != literal_text(LiteralV::False),
        literal_text(LiteralV::Number(n)) == n,
        literal_text(LiteralV::Str(s)).len() == s.len() + 2,
        literal_text(LiteralV::Str(s)).first() == '"' && literal_text(LiteralV::Str(s)).last() == '"',
        literal_text(LiteralV::Str(s)).subrange(1, s.len() as int + 1) == s,
{
    reveal_strlit("and");
    reveal_strlit("class");
    reveal_strlit("else");
    reveal_strlit("false");
    reveal_strlit("fun");
    reveal_strlit("for");
    reveal_strlit("if");
    reveal_strlit("nil");
    reveal_strlit("or");
    reveal_strlit("print");
    reveal_strlit("return");
    reveal_strlit("super");
    reveal_strlit("this");
    reveal_strlit("true");
    assert("nil"@[0] != "and"@[0]);
    assert("nil"@.len() != "class"@.len());
    assert("nil"@.len() != "else"@.len());
    assert("nil"@.len() != "false"@.len());
    assert("nil"@[0] != "fun"@[0]);
    assert("nil"@[0] != "for"@[0]);
    assert("nil"@.len() != "if"@.len());
    assert("true"@.len() != "and"@.len());
    assert("true"@.len() != "class"@.len());
    assert("true"@[0] != "else"@[0]);
    assert("true"@.len() != "false"@.len());
    assert("true"@.len() != "fun"@.len());
    assert("true"@.len() != "for"@.len());
    assert("true"@.len() != "if"@.len());
    assert("true"@.len() != "nil"@.len());
    assert("true"@.len() != "or"@.len());
    assert("true"@.len() != "print"@.len());
    assert("true"@.len() != "return"@.len());
    assert("true"@.len() != "super"@.len());
    assert("true"@[1] != "this"@[1]);
    assert("false"@.len() != "and"@.len());
    assert("false"@[0] != "class"@[0]);
    assert("false"@.len() != "else"@.len());
    assert(literal_text(LiteralV::Str(s)).subrange(1, s.len() as int + 1) =~= s);
}

/// An expression in parenthesized prefix form: `(- (group 1.0) 2.0)`.
/// A call is printed as `(call callee arg ...)`.
pub open spec fn print_expr(e: ExprV) -> Seq<char>
    decreases e,
{
    match e {
        ExprV::Binary(l, op, r) => seq!['('] + op.lexeme + seq![' '] + print_expr(*l) + seq![' ']
            + print_expr(*r) + seq![')'],
        ExprV::Grouping(x) => "(group "@ + print_expr(*x) + seq![')'],
        ExprV::Literal(v) => literal_text(v),
        ExprV::Unary(op, r) => seq!['('] + op.lexeme + seq![' '] + print_expr(*r) + seq![')'],
        ExprV::Variable(name) => name.lexeme,
        ExprV::Assign(name, v) => "(= "@ + name.lexeme + seq![' '] + print_expr(*v) + seq![')'],
        ExprV::Logical(l, op, r) => seq!['('] + op.lexeme + seq![' '] + print_expr(*l) + seq![' ']
            + print_expr(*r) + seq![')'],
        ExprV::Call(c, _paren, args) => "(call "@ + print_expr(*c) + print_args(args) + seq![')'],
    }
}

/// Each expression printed after a space.
pub open spec fn print_args(args: Seq<ExprV>) -> Seq<char>
    decreases args,
{
    if args.len() == 0 {
        seq![]
    } else {
        print_args(args.drop_last()) + seq![' '] + print_expr(args.last())
    }
}

/// Appends the printed form of a literal.
fn print_literal_into(l: &Literal, out: &mut Vec<char>)
    ensures
        final(out)@ == old(out)@ + literal_text(literal_view(*l)),
{
    match l {
        Literal::Number(v) => push_str(out, v.as_str()),
        Literal::String(v) => {
            out.push('"');
            push_str(out, v.as_str());
            out.push('"');
        },
        Literal::True => push_str(out, "true"),
        Literal::False => push_str(out, "false"),
        Literal::Nil => push_str(out, "nil"),
    }
    assert(final(out)@ =~= old(out)@ + literal_text(literal_view(*l)));
}

pub proof fn lemma_exprs_view(s: Seq<Expr>)
    ensures
        exprs_view(s).len() == s.len(),
        forall|i: int| 0 <= i < s.len() ==> #[trigger] exprs_view(s)[i] == expr_view(s[i]),
    decreases s.len(),
{
    if s.len() > 0 {
        lemma_exprs_view(s.drop_last());
    }
}

pub proof fn lemma_exprs_view_push(s: Seq<Expr>, e: Expr)
    ensures
        exprs_view(s.push(e)) == exprs_view(s).push(expr_view(e)),
{
    assert(s.push(e).drop_last() =~= s);
}

pub proof fn lemma_stmts_view_push(s: Seq<Stmt>, e: Stmt)
    ensures
        stmts_view(s.push(e)) == stmts_view(s).push(stmt_view(e)),
{
    assert(s.push(e).drop_last() =~= s);
}

pub proof fn lemma_stmts_view(s: Seq<Stmt>)
    ensures
        stmts_view(s).len() == s.len(),
        forall|i: int| 0 <= i < s.len() ==> #[trigger] stmts_view(s)[i] == stmt_view(s[i]),
    decreases s.len(),
{
    if s.len() > 0 {
        lemma_stmts_view(s.drop_last());
    }
}

/// Appends the printed form of an expression.
fn print_into(e: &Expr, out: &mut Vec<char>)
    ensures
        final(out)@ == old(out)@ + print_expr(e@),
    decreases e,
{
    let ghost start = out@;
    match e {
        Expr::Binary { left, operator, right } | Expr::Logical { left, operator, right } => {
            out.push('(');
            push_str(out, operator.lexeme.as_str());
            out.push(' ');
            print_into(left, out);
            out.push(' ');
            print_into(right, out);
            out.push(')');
        },
        Expr::Grouping { expression } => {
            push_str(out, "(group ");
            print_into(expression, out);
            out.push(')');
        },
        Expr::Literal { value } => {
            print_literal_into(value, out);
        },
        Expr::Unary { operator, right } => {
            out.push('(');
            push_str(out, operator.lexeme.as_str());
            out.push(' ');
            print_into(right, out);
            out.push(')');
        },
        Expr::Variable { name } => {
            push_str(out, name.lexeme.as_str());
        },
        Expr::Assign { name, value } => {
            push_str(out, "(= ");
            push_str(out, name.lexeme.as_str());
            out.push(' ');
            print_into(value, out);
            out.push(')');
        },
        Expr::Call { callee, paren: _p, args } => {
            push_str(out, "(call ");
            print_into(callee, out);
            let ghost mid = out@;
            let n = args.len();
            proof {
                lemma_exprs_view(args@);
            }
            for k in 0..n
                invariant
                    *e == (Expr::Call { callee: *callee, paren: *_p, args: *args }),
                    n == args@.len(),
                    exprs_view(args@).len() == n,
                    forall|i: int| 0 <= i < n ==> #[trigger] exprs_view(args@)[i] == expr_view(args@[i]),
                    out@ == mid + print_args(exprs_view(args@).take(k as int)),
            {
                out.push(' ');
                proof {
                    assert(decreases_to!(*e => e->args));
                    assert(decreases_to!(e->args => e->args@));
                    assert(decreases_to!(e->args@ => args@[k as int]));
                }
                print_into(&args[k], out);
                assert(exprs_view(args@).take(k + 1).drop_last() =~= exprs_view(args@).take(k as int));
            }
            assert(exprs_view(args@).take(n as int) =~= exprs_view(args@));
            out.push(')');
        },
    }
    assert(final(out)@ =~= start + print_expr(e@));
}

impl Expr {
    pub fn new_binary(left: Expr, operator: Token, right: Expr) -> (r: Self)
        ensures
            r@ == ExprV::Binary(Box::new(left@), operator@, Box::new(right@)),
    {
        Expr::Binary { left: Box::new(left), operator, right: Box::new(right) }
    }

    pub fn new_unary(operator: Token, right: Self) -> (r: Self)
        ensures
            r@ == ExprV::Unary(operator@, Box::new(right@)),
    {
        Expr::Unary { operator, right: Box::new(right) }
    }

    pub fn new_primary(value: Literal) -> (r: Self)
        ensures
            r@ == ExprV::Literal(literal_view(value)),
    {
        Expr::Literal { value }
    }

    pub fn new_grouping(expr: Expr) -> (r: Self)
        ensures
            r@ == ExprV::Grouping(Box::new(expr@)),
    {
        Expr::Grouping { expression: Box::new(expr) }
    }

    pub fn new_variable(name: Token) -> (r: Self)
        ensures
            r@ == ExprV::Variable(name@),
    {
        Expr::Variable { name }
    }

    /// The expression in parenthesized prefix form (see `print_expr`).
    pub fn get_stringified_expr(&self) -> (r: String)
        ensures
            r@ == print_expr(self@),
    {
        let mut out: Vec<char> = Vec::new();
        print_into(self, &mut out);
        assert(out@ =~= print_expr(self@));
        string_from_chars(out)
    }
}

/// Prints expressions in parenthesized prefix form.
pub struct AstPrinter;

impl AstPrinter {
    pub fn print(expr: &Expr) -> (r: String)
        ensures
            r@ == print_expr(expr@),
    {
        expr.get_stringified_expr()
    }
}

} // verus!
