//! Running a program. The interpreter is a machine that executes a program
//! one small step at a time: each step takes the top item of a stack of
//! pending work (a statement to execute, an expression to evaluate, or what
//! remains to be done once the values of its parts are known) and either
//! finishes it or breaks it into smaller items.
//!
//! Numbers are values of the host's number type `N`: a step that needs
//! arithmetic on them, the value of a number literal, the time, or a line
//! printed, hands that to the host as an `Action`, and the host's answer
//! comes back as the `Event` of the next step.
use vstd::prelude::*;

use crate::ast::{Expr, Literal, Stmt};
use crate::env::{assign_spec, defining_scope, define_spec, env_get, undefined_message, Env};
use crate::text::{decimal, push_decimal, push_str, string_from_chars};
use crate::token::{keyword_type, spelling, Token, TokenType};

verus! {

broadcast use vstd::string::group_string_axioms;

/// The functions the runtime provides.
#[derive(Clone, Copy, Debug, PartialEq, Eq, Structural)]
pub enum NativeFn {
    /// The time, in seconds since the Unix epoch.
    Clock,
}

/// A function declared in the program.
#[derive(Clone, Copy, Debug, PartialEq)]
pub struct LoxFunction<'a> {
    /// Its declaration, a `Stmt::Function`.
    pub declaration: &'a Stmt,
}

impl<'a> LoxFunction<'a> {
    /// The function a declaration declares.
    pub fn new(declaration: &'a Stmt) -> (r: Self)
        requires
            declaration is Function,
        ensures
            r.declaration == declaration,
    {
        LoxFunction { declaration }
    }

    /// The number of parameters.
    pub fn arity(&self) -> (r: usize)
        requires
            self.declaration is Function,
        ensures
            self.declaration matches Stmt::Function { params, .. } && r == params@.len(),
    {
        match self.declaration {
            Stmt::Function { params, .. } => params.len(),
            _ => 0,
        }
    }
}

impl NativeFn {
    /// The number of parameters.
    pub fn arity(&self) -> (r: usize)
        ensures
            r == 0,
    {
        match self {
            NativeFn::Clock => 0,
        }
    }
}

/// A runtime value.
#[derive(Debug, PartialEq)]
pub enum Value<'a, N> {
    Number(N),
    String(String),
    Bool(bool),
    Nil,
    /// A function of the program.
    ForeignFn(LoxFunction<'a>),
    /// A function of the runtime.
    NativeFn(NativeFn),
}

/// An error while running: the token where it happened and why.
#[derive(Debug)]
pub struct RuntimeError {
    pub token: Token,
    pub message: String,
}

/// Arithmetic on two numbers.
#[derive(Clone, Copy, Debug, PartialEq, Eq, Structural)]
pub enum ArithOp {
    Add,
    Subtract,
    Multiply,
    Divide,
}

/// A comparison of two numbers.
#[derive(Clone, Copy, Debug, PartialEq, Eq, Structural)]
pub enum CompareOp {
    Greater,
    GreaterEqual,
    Less,
    LessEqual,
    Equal,
    NotEqual,
}

/// What a step asks of the host.
#[derive(Debug)]
pub enum Action<'a, N> {
    /// Nothing: step again.
    Continue,
    /// Print the value on a line of its own.
    Print(Value<'a, N>),
    /// Answer with the number a number literal stands for.
    ParseNumber(String),
    /// Answer with the negated number.
    Negate(N),
    /// Answer with the result of the arithmetic.
    Arith(ArithOp, N, N),
    /// Answer with the outcome of the comparison.
    Compare(CompareOp, N, N),
    /// Answer with the time, in seconds since the Unix epoch.
    Clock,
    /// The program stopped with this error.
    Fail(RuntimeError),
    /// The program has run to its end.
    Halt,
}

/// The host's answer to the previous action.
pub enum Event<N> {
    Nothing,
    Number(N),
    Bool(bool),
}

/// An item of pending work.
pub enum Work<'a> {
    /// Execute the statement.
    Exec(&'a Stmt),
    /// Evaluate the expression, leaving its value on the value stack.
    Eval(&'a Expr),
    /// Finish the expression, whose parts' values are on the value stack.
    Cont(&'a Expr),
    /// Finish the statement, whose expression's value is on the value stack.
    Finish(&'a Stmt),
    /// Close the scope of a block.
    LeaveScope,
    /// The end of a function's body: close its scope; it returns nil.
    Frame,
}

/// The state of a machine as mathematical values.
#[verifier::ext_equal]
pub ghost struct InterpretV<'a, N> {
    /// The program's statements.
    pub program: Seq<Stmt>,
    /// The next statement of the program to execute once the work is done.
    pub next: int,
    /// The scopes, innermost last.
    pub env: Seq<Map<Seq<char>, Value<'a, N>>>,
    /// The pending work, top last.
    pub work: Seq<Work<'a>>,
    /// The values computed and not yet used, top last.
    pub vals: Seq<Value<'a, N>>,
}

impl<'a, N> InterpretV<'a, N> {
    pub open spec fn with_env(self, env: Seq<Map<Seq<char>, Value<'a, N>>>) -> Self {
        InterpretV { program: self.program, next: self.next, env, work: self.work, vals: self.vals }
    }

    pub open spec fn with_work(self, work: Seq<Work<'a>>) -> Self {
        InterpretV { program: self.program, next: self.next, env: self.env, work, vals: self.vals }
    }

    pub open spec fn with_vals(self, vals: Seq<Value<'a, N>>) -> Self {
        InterpretV { program: self.program, next: self.next, env: self.env, work: self.work, vals }
    }
}

// ----------------------------------------------------------------------------
// The meaning of values.
// ----------------------------------------------------------------------------
/// `nil` and `false` are false; every other value is true.
pub open spec fn truthy<'a, N>(v: Value<'a, N>) -> bool {
    match v {
        Value::Nil => false,
        Value::Bool(b) => b,
        _ => true,
    }
}

/// Equality of two values that are not both numbers: `nil` equals only
/// `nil`, booleans and strings equal the same booleans and strings, and
/// nothing else is equal.
pub open spec fn equal_values<'a, N>(a: Value<'a, N>, b: Value<'a, N>) -> bool {
    match (a, b) {
        (Value::Nil, Value::Nil) => true,
        (Value::Bool(x), Value::Bool(y)) => x == y,
        (Value::String(x), Value::String(y)) => x@ == y@,
        _ => false,
    }
}

pub open spec fn both_numbers<'a, N>(a: Value<'a, N>, b: Value<'a, N>) -> bool {
    a is Number && b is Number
}

/// The top value of a value stack; `nil` when it is empty.
pub open spec fn top<'a, N>(vals: Seq<Value<'a, N>>) -> Value<'a, N> {
    if vals.len() > 0 {
        vals.last()
    } else {
        Value::Nil
    }
}

/// A value stack without its top value.
pub open spec fn below<'a, N>(vals: Seq<Value<'a, N>>) -> Seq<Value<'a, N>> {
    if vals.len() > 0 {
        vals.drop_last()
    } else {
        vals
    }
}

/// The stack left and the arguments taken when a call takes `n` arguments
/// off the value stack, the last argument on top.
pub open spec fn pop_n<'a, N>(vals: Seq<Value<'a, N>>, n: nat) -> (Seq<Value<'a, N>>, Seq<
    Value<'a, N>,
>)
    decreases n,
{
    if n == 0 {
        (vals, Seq::empty())
    } else {
        let (rest, args) = pop_n(below(vals), (n - 1) as nat);
        (rest, args.push(top(vals)))
    }
}

/// The value stack once the host's answer is on it.
pub open spec fn absorb<'a, N>(vals: Seq<Value<'a, N>>, ev: Event<N>) -> Seq<Value<'a, N>> {
    match ev {
        Event::Nothing => vals,
        Event::Number(n) => vals.push(Value::Number(n)),
        Event::Bool(b) => vals.push(Value::Bool(b)),
    }
}

/// The scopes once the innermost is closed (the global scope stays).
pub open spec fn leave<V>(env: Seq<Map<Seq<char>, V>>) -> Seq<Map<Seq<char>, V>> {
    if env.len() >= 2 {
        env.drop_last()
    } else {
        env
    }
}

/// The scopes once each parameter is bound to its argument, in order.
pub open spec fn bind<'a, N>(
    env: Seq<Map<Seq<char>, Value<'a, N>>>,
    params: Seq<Token>,
    args: Seq<Value<'a, N>>,
) -> Seq<Map<Seq<char>, Value<'a, N>>>
    decreases params.len(),
{
    if params.len() == 0 || args.len() == 0 {
        env
    } else {
        define_spec(
            bind(env, params.drop_last(), args.drop_last()),
            params.last().lexeme@,
            args.last(),
        )
    }
}

/// The work and scopes left once a `return` leaves the innermost function
/// call: items are dropped up to and including its frame, and each scope
/// they opened is closed. The flag tells whether a frame was found; at the
/// top level there is none, and the rest of the statement is dropped.
pub open spec fn unwind<'a, V>(work: Seq<Work<'a>>, env: Seq<Map<Seq<char>, V>>) -> (Seq<
    Work<'a>,
>, Seq<Map<Seq<char>, V>>, bool)
    decreases work.len(),
{
    if work.len() == 0 {
        (work, env, false)
    } else {
        match work.last() {
            Work::Frame => (work.drop_last(), leave(env), true),
            Work::LeaveScope => unwind(work.drop_last(), leave(env)),
            _ => unwind(work.drop_last(), env),
        }
    }
}

/// `res` is `base` with the statements pushed so that the first is on top.
pub open spec fn execs_pushed<'a>(base: Seq<Work<'a>>, stmts: Seq<Stmt>, res: Seq<Work<'a>>) -> bool {
    &&& res.len() == base.len() + stmts.len()
    &&& forall|j: int| 0 <= j < base.len() ==> res[j] == base[j]
    &&& forall|j: int|
        base.len() <= j < res.len() ==> (#[trigger] res[j] matches Work::Exec(x) && *x
            == stmts[res.len() - 1 - j])
}

/// `res` is `base` with the expressions pushed so that the first is on top.
pub open spec fn evals_pushed<'a>(base: Seq<Work<'a>>, exprs: Seq<Expr>, res: Seq<Work<'a>>) -> bool {
    &&& res.len() == base.len() + exprs.len()
    &&& forall|j: int| 0 <= j < base.len() ==> res[j] == base[j]
    &&& forall|j: int|
        base.len() <= j < res.len() ==> (#[trigger] res[j] matches Work::Eval(x) && *x
            == exprs[res.len() - 1 - j])
}

/// The state after a runtime error: the program is given up, no work and
/// no value is left, and of the scopes only the global one stays, with what
/// the program stored in it. The blocks and calls the error happened in are
/// thereby left, as an error leaves them.
pub open spec fn abandoned<'a, N>(s: InterpretV<'a, N>) -> InterpretV<'a, N> {
    InterpretV {
        program: s.program,
        next: s.program.len() as int,
        env: s.env.take(1),
        work: Seq::empty(),
        vals: Seq::empty(),
    }
}

pub open spec fn fails<'a, N>(token: Token, msg: Seq<char>, act: Action<'a, N>) -> bool {
    act matches Action::Fail(e) && e.token == token && e.message@ == msg
}

pub open spec fn arity_message(expected: nat, got: nat) -> Seq<char> {
    "Expected "@ + decimal(expected) + " arguments but got "@ + decimal(got) + "."@
}

pub open spec fn arith_of(ty: TokenType) -> ArithOp {
    match ty {
        TokenType::MINUS => ArithOp::Subtract,
        TokenType::SLASH => ArithOp::Divide,
        TokenType::STAR => ArithOp::Multiply,
        _ => ArithOp::Add,
    }
}

pub open spec fn compare_of(ty: TokenType) -> CompareOp {
    match ty {
        TokenType::GREATER => CompareOp::Greater,
        TokenType::GREATER_EQUAL => CompareOp::GreaterEqual,
        TokenType::LESS => CompareOp::Less,
        TokenType::LESS_EQUAL => CompareOp::LessEqual,
        TokenType::BANG_EQUAL => CompareOp::NotEqual,
        _ => CompareOp::Equal,
    }
}

// ----------------------------------------------------------------------------
// One step.
// ----------------------------------------------------------------------------
/// Executing statement `x`: its expression is evaluated first, or its effect
/// is immediate.
pub open spec fn exec_rel<'a, N>(
    x: &'a Stmt,
    s: InterpretV<'a, N>,
    t: InterpretV<'a, N>,
    act: Action<'a, N>,
) -> bool {
    &&& act is Continue
    &&& t.program == s.program && t.next == s.next
    &&& match x {
        Stmt::Expression { expr } => t == s.with_work(
            s.work.push(Work::Finish(x)).push(Work::Eval(expr)),
        ),
        Stmt::Print { expr } => t == s.with_work(s.work.push(Work::Finish(x)).push(Work::Eval(expr))),
        Stmt::Var { name, initializer } => match initializer {
            Some(e) => t == s.with_work(s.work.push(Work::Finish(x)).push(Work::Eval(e))),
            None => t == s.with_env(define_spec(s.env, name.lexeme@, Value::Nil)),
        },
        Stmt::Block { stmts } => t.env == s.env.push(Map::empty()) && t.vals == s.vals
            && execs_pushed(s.work.push(Work::LeaveScope), stmts@, t.work),
        Stmt::Return { value, .. } => match value {
            Some(e) => t == s.with_work(s.work.push(Work::Finish(x)).push(Work::Eval(e))),
            None => t == s.with_work(s.work.push(Work::Finish(x))).with_vals(
                s.vals.push(Value::Nil),
            ),
        },
        Stmt::IfStmt { condition, .. } => t == s.with_work(
            s.work.push(Work::Finish(x)).push(Work::Eval(condition)),
        ),
        Stmt::While { condition, .. } => t == s.with_work(
            s.work.push(Work::Finish(x)).push(Work::Eval(condition)),
        ),
        Stmt::Function { name, .. } => t == s.with_env(
            define_spec(s.env, name.lexeme@, Value::ForeignFn(LoxFunction { declaration: x })),
        ),
    }
}

/// Evaluating expression `e`: a literal or a variable gives its value at
/// once (a number literal through the host), a compound expression is
/// broken into its parts, evaluated left to right.
pub open spec fn eval_rel<'a, N>(
    e: &'a Expr,
    s: InterpretV<'a, N>,
    t: InterpretV<'a, N>,
    act: Action<'a, N>,
) -> bool {
    match e {
        Expr::Literal { value } => match value {
            Literal::Number(x) => t == s && (act matches Action::ParseNumber(y) && y@ == x@),
            Literal::String(x) => t == s.with_vals(s.vals.push(Value::String(*x))) && act is Continue,
            Literal::True => t == s.with_vals(s.vals.push(Value::Bool(true))) && act is Continue,
            Literal::False => t == s.with_vals(s.vals.push(Value::Bool(false))) && act is Continue,
            Literal::Nil => t == s.with_vals(s.vals.push(Value::Nil)) && act is Continue,
        },
        Expr::Grouping { expression } => t == s.with_work(s.work.push(Work::Eval(&**expression)))
            && act is Continue,
        Expr::Unary { right, .. } => t == s.with_work(
            s.work.push(Work::Cont(e)).push(Work::Eval(&**right)),
        ) && act is Continue,
        Expr::Binary { left, right, .. } => t == s.with_work(
            s.work.push(Work::Cont(e)).push(Work::Eval(&**right)).push(Work::Eval(&**left)),
        ) && act is Continue,
        Expr::Variable { name } => match env_get(s.env, name.lexeme@) {
            Some(v) => t == s.with_vals(s.vals.push(v)) && act is Continue,
            None => t == abandoned(s) && fails(*name, undefined_message(name.lexeme@), act),
        },
        Expr::Assign { value, .. } => t == s.with_work(
            s.work.push(Work::Cont(e)).push(Work::Eval(&**value)),
        ) && act is Continue,
        Expr::Logical { left, .. } => t == s.with_work(
            s.work.push(Work::Cont(e)).push(Work::Eval(&**left)),
        ) && act is Continue,
        Expr::Call { callee, args, .. } => {
            &&& act is Continue
            &&& t.program == s.program && t.next == s.next && t.env == s.env && t.vals == s.vals
            &&& t.work.len() > 0
            &&& t.work.last() == Work::Eval(&**callee)
            &&& evals_pushed(s.work.push(Work::Cont(e)), args@, t.work.drop_last())
        },
    }
}

/// A binary operator applied to `l` and `r`, taken off the stack of `s`.
pub open spec fn binary_rel<'a, N>(
    op: Token,
    l: Value<'a, N>,
    r: Value<'a, N>,
    s: InterpretV<'a, N>,
    t: InterpretV<'a, N>,
    act: Action<'a, N>,
) -> bool {
    let ty = op.token_ty;
    if ty == TokenType::MINUS || ty == TokenType::SLASH || ty == TokenType::STAR {
        match (l, r) {
            (Value::Number(a), Value::Number(b)) => t == s && act == Action::<'a, N>::Arith(
                arith_of(ty),
                a,
                b,
            ),
            _ => t == abandoned(s) && fails(op, "Operands must be numbers."@, act),
        }
    } else if ty == TokenType::PLUS {
        match (l, r) {
            (Value::Number(a), Value::Number(b)) => t == s && act == Action::<'a, N>::Arith(
                ArithOp::Add,
                a,
                b,
            ),
            (Value::String(a), Value::String(b)) => {
                &&& act is Continue
                &&& t.program == s.program && t.next == s.next && t.env == s.env && t.work == s.work
                &&& t.vals.len() == s.vals.len() + 1 && t.vals.drop_last() == s.vals
                &&& t.vals.last() matches Value::String(c) && c@ == a@ + b@
            },
            _ => t == abandoned(s) && fails(op, "Operands must be two numbers or two strings."@, act),
        }
    } else if ty == TokenType::GREATER || ty == TokenType::GREATER_EQUAL || ty == TokenType::LESS
        || ty == TokenType::LESS_EQUAL {
        match (l, r) {
            (Value::Number(a), Value::Number(b)) => t == s && act == Action::<'a, N>::Compare(
                compare_of(ty),
                a,
                b,
            ),
            _ => t == abandoned(s) && fails(op, "Operands must be numbers."@, act),
        }
    } else if ty == TokenType::EQUAL_EQUAL || ty == TokenType::BANG_EQUAL {
        match (l, r) {
            (Value::Number(a), Value::Number(b)) => t == s && act == Action::<'a, N>::Compare(
                compare_of(ty),
                a,
                b,
            ),
            _ => act is Continue && t == s.with_vals(
                s.vals.push(
                    Value::Bool(
                        if ty == TokenType::EQUAL_EQUAL {
                            equal_values(l, r)
                        } else {
                            !equal_values(l, r)
                        },
                    ),
                ),
            ),
        }
    } else {
        act is Continue && t == s.with_vals(s.vals.push(r))
    }
}

/// A call of the value below the `n` arguments on the value stack.
pub open spec fn call_rel<'a, N>(
    paren: Token,
    n: nat,
    s: InterpretV<'a, N>,
    t: InterpretV<'a, N>,
    act: Action<'a, N>,
) -> bool {
    let (r1, argv) = pop_n(s.vals, n);
    let f = top(r1);
    let r2 = below(r1);
    let not_callable = "Can only call functions and classes."@;
    match f {
        Value::ForeignFn(f) => match f.declaration {
            Stmt::Function { params, body, .. } => if params.len() != n {
                t == abandoned(s) && fails(paren, arity_message(params.len() as nat, n), act)
            } else {
                &&& act is Continue
                &&& t.program == s.program && t.next == s.next && t.vals == r2
                &&& t.env == bind(s.env.push(Map::empty()), params@, argv)
                &&& execs_pushed(s.work.push(Work::Frame), body@, t.work)
            },
            _ => t == abandoned(s) && fails(paren, not_callable, act),
        },
        Value::NativeFn(NativeFn::Clock) => if n != 0 {
            t == abandoned(s) && fails(paren, arity_message(0, n), act)
        } else {
            t == s.with_vals(r2) && act is Clock
        },
        _ => t == abandoned(s) && fails(paren, not_callable, act),
    }
}

/// Finishing expression `e` once its parts' values are on the stack.
pub open spec fn cont_rel<'a, N>(
    e: &'a Expr,
    s: InterpretV<'a, N>,
    t: InterpretV<'a, N>,
    act: Action<'a, N>,
) -> bool {
    let v = top(s.vals);
    let rest = below(s.vals);
    match e {
        Expr::Unary { operator, .. } => match operator.token_ty {
            TokenType::MINUS => match v {
                Value::Number(n) => t == s.with_vals(rest) && act == Action::<'a, N>::Negate(n),
                _ => t == abandoned(s) && fails(*operator, "Operand must be a number."@, act),
            },
            TokenType::BANG => act is Continue && t == s.with_vals(
                rest.push(Value::Bool(!truthy(v))),
            ),
            _ => act is Continue && t == s.with_vals(rest.push(v)),
        },
        Expr::Binary { operator, .. } => binary_rel(
            *operator,
            top(rest),
            v,
            s.with_vals(below(rest)),
            t,
            act,
        ),
        Expr::Assign { name, .. } => match assign_spec(s.env, name.lexeme@, v) {
            Some(env) => act is Continue && t == s.with_env(env).with_vals(rest.push(v)),
            None => t == abandoned(s) && fails(*name, undefined_message(name.lexeme@), act),
        },
        Expr::Logical { operator, right, .. } => {
            let short = if operator.token_ty == TokenType::OR {
                truthy(v)
            } else {
                !truthy(v)
            };
            act is Continue && if short {
                t == s.with_vals(rest.push(v))
            } else {
                t == s.with_vals(rest).with_work(s.work.push(Work::Eval(&**right)))
            }
        },
        Expr::Call { paren, args, .. } => call_rel(*paren, args.len() as nat, s, t, act),
        _ => act is Continue && t == s,
    }
}

/// Finishing statement `x` once its expression's value is on the stack.
pub open spec fn finish_rel<'a, N>(
    x: &'a Stmt,
    s: InterpretV<'a, N>,
    t: InterpretV<'a, N>,
    act: Action<'a, N>,
) -> bool {
    let v = top(s.vals);
    let rest = below(s.vals);
    match x {
        Stmt::Expression { .. } => act is Continue && t == s.with_vals(rest),
        Stmt::Print { .. } => act == Action::<'a, N>::Print(v) && t == s.with_vals(rest),
        Stmt::Var { name, .. } => act is Continue && t == s.with_vals(rest).with_env(
            define_spec(s.env, name.lexeme@, v),
        ),
        Stmt::Return { .. } => {
            let (work, env, found) = unwind(s.work, s.env);
            act is Continue && t == s.with_work(work).with_env(env).with_vals(
                if found {
                    rest.push(v)
                } else {
                    rest
                },
            )
        },
        Stmt::IfStmt { then_branch, else_branch, .. } => act is Continue && if truthy(v) {
            t == s.with_vals(rest).with_work(s.work.push(Work::Exec(&**then_branch)))
        } else {
            match else_branch {
                Some(b) => t == s.with_vals(rest).with_work(s.work.push(Work::Exec(&**b))),
                None => t == s.with_vals(rest),
            }
        },
        Stmt::While { body, .. } => act is Continue && if truthy(v) {
            t == s.with_vals(rest).with_work(s.work.push(Work::Exec(x)).push(Work::Exec(&**body)))
        } else {
            t == s.with_vals(rest)
        },
        _ => act is Continue && t == s,
    }
}

/// One step from `pre`, with the host's answer `ev` to the previous action.
/// When no work is pending the next statement of the program is taken up;
/// after the last one the machine halts.
pub open spec fn step_rel<'a, N>(
    pre: InterpretV<'a, N>,
    ev: Event<N>,
    post: InterpretV<'a, N>,
    act: Action<'a, N>,
) -> bool {
    let s = pre.with_vals(absorb(pre.vals, ev));
    if s.work.len() == 0 {
        if 0 <= s.next < s.program.len() {
            &&& act is Continue
            &&& post.program == s.program && post.next == s.next + 1
            &&& post.env == s.env && post.vals == s.vals
            &&& post.work.len() == 1
            &&& post.work[0] matches Work::Exec(x) && *x == s.program[s.next]
        } else {
            act is Halt && post == s
        }
    } else {
        let r = s.with_work(s.work.drop_last());
        match s.work.last() {
            Work::Exec(x) => exec_rel(x, r, post, act),
            Work::Eval(e) => eval_rel(e, r, post, act),
            Work::Cont(e) => cont_rel(e, r, post, act),
            Work::Finish(x) => finish_rel(x, r, post, act),
            Work::LeaveScope => act is Continue && post == r.with_env(leave(r.env)),
            Work::Frame => act is Continue && post == r.with_env(leave(r.env)).with_vals(
                r.vals.push(Value::Nil),
            ),
        }
    }
}

/// The state of a new machine: only `clock` is defined, in the global scope,
/// and nothing is pending.
pub open spec fn initial<'a, N>() -> InterpretV<'a, N> {
    InterpretV {
        program: Seq::empty(),
        next: 0,
        env: seq![Map::<Seq<char>, Value<'a, N>>::empty().insert("clock"@, Value::NativeFn(NativeFn::Clock))],
        work: Seq::empty(),
        vals: Seq::empty(),
    }
}

// ----------------------------------------------------------------------------
// The executable machine.
// ----------------------------------------------------------------------------
/// A value's copy.
pub fn copy_value<'a, N: Copy>(v: &Value<'a, N>) -> (r: Value<'a, N>)
    ensures
        r == *v,
{
    match v {
        Value::Number(n) => Value::Number(*n),
        Value::String(s) => Value::String(s.clone()),
        Value::Bool(b) => Value::Bool(*b),
        Value::Nil => Value::Nil,
        Value::ForeignFn(f) => Value::ForeignFn(LoxFunction { declaration: f.declaration }),
        Value::NativeFn(f) => Value::NativeFn(*f),
    }
}

impl<'a, N: Copy> Clone for Value<'a, N> {
    fn clone(&self) -> (r: Self)
        ensures
            r == *self,
    {
        copy_value(self)
    }
}

/// How a value other than a number is printed: a string as its characters,
/// `true`, `false`, `nil`, `<fn name>` for a function of the program and
/// `<native fn>` for one of the runtime. Numbers are printed by the host.
pub open spec fn text_of<'a, N>(v: Value<'a, N>) -> Option<Seq<char>> {
    match v {
        Value::Number(_) => None,
        Value::String(s) => Some(s@),
        Value::Bool(b) => Some(
            if b {
                "true"@
            } else {
                "false"@
            },
        ),
        Value::Nil => Some("nil"@),
        Value::ForeignFn(f) => Some(
            match f.declaration {
                Stmt::Function { name, .. } => "<fn "@ + name.lexeme@ + ">"@,
                _ => "<fn>"@,
            },
        ),
        Value::NativeFn(_) => Some("<native fn>"@),
    }
}

/// The printed form of a value other than a number; `None` for a number.
pub fn value_text<'a, N>(v: &Value<'a, N>) -> (r: Option<String>)
    ensures
        match (r, text_of(*v)) {
            (Some(t), Some(x)) => t@ == x,
            (None, None) => true,
            _ => false,
        },
{
    match v {
        Value::Number(_) => None,
        Value::String(s) => Some(s.clone()),
        Value::Bool(b) => Some(String::from_str(if *b { "true" } else { "false" })),
        Value::Nil => Some(String::from_str("nil")),
        Value::ForeignFn(f) => match f.declaration {
            Stmt::Function { name, .. } => {
                let mut m: Vec<char> = Vec::new();
                push_str(&mut m, "<fn ");
                push_str(&mut m, name.lexeme.as_str());
                push_str(&mut m, ">");
                Some(string_from_chars(m))
            },
            _ => Some(String::from_str("<fn>")),
        },
        Value::NativeFn(_) => Some(String::from_str("<native fn>")),
    }
}

/// Whether a value counts as true.
pub fn is_truthy<'a, N>(v: &Value<'a, N>) -> (r: bool)
    ensures
        r == truthy(*v),
{
    match v {
        Value::Nil => false,
        Value::Bool(b) => *b,
        _ => true,
    }
}

/// Whether two values are equal; `None` when both are numbers, whose
/// equality is the host's.
pub fn is_equal<'a, N>(a: &Value<'a, N>, b: &Value<'a, N>) -> (r: Option<bool>)
    ensures
        both_numbers(*a, *b) ==> r is None,
        !both_numbers(*a, *b) ==> r == Some(equal_values(*a, *b)),
{
    match (a, b) {
        (Value::Number(_), Value::Number(_)) => None,
        (Value::Nil, Value::Nil) => Some(true),
        (Value::Bool(x), Value::Bool(y)) => Some(*x == *y),
        (Value::String(x), Value::String(y)) => Some(*x == *y),
        _ => Some(false),
    }
}

fn runtime_error(token: &Token, msg: &str) -> (e: RuntimeError)
    ensures
        e.token == *token,
        e.message@ == msg@,
{
    RuntimeError { token: token.duplicate(), message: String::from_str(msg) }
}

fn undefined_variable(name: &Token) -> (e: RuntimeError)
    ensures
        e.token == *name,
        e.message@ == undefined_message(name.lexeme@),
{
    let mut m: Vec<char> = Vec::new();
    push_str(&mut m, "Undefined variable '");
    push_str(&mut m, name.lexeme.as_str());
    push_str(&mut m, "'.");
    RuntimeError { token: name.duplicate(), message: string_from_chars(m) }
}

fn arity_error(paren: &Token, expected: usize, got: usize) -> (e: RuntimeError)
    ensures
        e.token == *paren,
        e.message@ == arity_message(expected as nat, got as nat),
{
    let mut m: Vec<char> = Vec::new();
    push_str(&mut m, "Expected ");
    push_decimal(&mut m, expected);
    push_str(&mut m, " arguments but got ");
    push_decimal(&mut m, got);
    push_str(&mut m, ".");
    assert(m@ =~= arity_message(expected as nat, got as nat));
    RuntimeError { token: paren.duplicate(), message: string_from_chars(m) }
}

/// A machine that runs a program.
pub struct Interpret<'a, N> {
    program: Option<&'a Vec<Stmt>>,
    next: usize,
    env: Env<Value<'a, N>>,
    work: Vec<Work<'a>>,
    vals: Vec<Value<'a, N>>,
}

impl<'a, N> Interpret<'a, N> {
    /// The machine's state.
    pub closed spec fn state(&self) -> InterpretV<'a, N> {
        InterpretV {
            program: match self.program {
                Some(p) => p@,
                None => Seq::empty(),
            },
            next: self.next as int,
            env: self.env@,
            work: self.work@,
            vals: self.vals@,
        }
    }

    /// The global scope is open.
    pub closed spec fn wf(&self) -> bool {
        self.env@.len() >= 1
    }
}

impl Stmt {
    /// Schedules the statement to run in `interpreter` ahead of any pending
    /// work; the steps then run it.
    pub fn eval<'a, N: Copy>(&'a self, interpreter: &mut Interpret<'a, N>)
        requires
            old(interpreter).wf(),
        ensures
            final(interpreter).wf(),
            final(interpreter).state() == old(interpreter).state().with_work(
                old(interpreter).state().work.push(Work::Exec(self)),
            ),
    {
        interpreter.work.push(Work::Exec(self));
    }
}

impl<'a, N: Copy> Interpret<'a, N> {
    /// A machine with nothing to run yet.
    pub fn new() -> (r: Self)
        ensures
            r.wf(),
            r.state() == initial::<'a, N>(),
    {
        let mut env = Env::new(Value::Nil);
        env.define(String::from_str("clock"), Some(Value::NativeFn(NativeFn::Clock)));
        let r = Interpret { program: None, next: 0, env, work: Vec::new(), vals: Vec::new() };
        assert(r.state() =~= initial::<'a, N>());
        r
    }

    /// Sets the statements to run, from the first, once the pending work is
    /// done; the steps then run them in order.
    pub fn interpret_stmts(&mut self, stmts: &'a Vec<Stmt>)
        requires
            old(self).wf(),
        ensures
            final(self).wf(),
            final(self).state() == (InterpretV { program: stmts@, next: 0, ..old(self).state() }),
    {
        self.program = Some(stmts);
        self.next = 0;
    }

    /// The value of a variable, looked up from the innermost scope out;
    /// `Undefined variable 'name'.` when no scope binds it.
    pub fn get_variable(&self, name: &Token) -> (r: Result<Value<'a, N>, RuntimeError>)
        ensures
            match env_get(self.state().env, name.lexeme@) {
                Some(v) => r == Ok::<Value<'a, N>, RuntimeError>(v),
                None => r matches Err(e) && e.token == *name && e.message@ == undefined_message(
                    name.lexeme@,
                ),
            },
    {
        match self.env.get(name.lexeme.as_str()) {
            Some(v) => Ok(copy_value(v)),
            None => Err(undefined_variable(name)),
        }
    }

    /// Schedules the evaluation of `e` in the current scopes, ahead of any
    /// pending work; once the steps have run it, its value is on top of the
    /// value stack (see `take_value`).
    pub fn evaluate(&mut self, e: &'a Expr)
        requires
            old(self).wf(),
        ensures
            final(self).wf(),
            final(self).state() == old(self).state().with_work(
                old(self).state().work.push(Work::Eval(e)),
            ),
    {
        self.work.push(Work::Eval(e));
    }

    /// Takes the value on top of the value stack (`nil` when there is none).
    pub fn take_value(&mut self) -> (v: Value<'a, N>)
        requires
            old(self).wf(),
        ensures
            final(self).wf(),
            v == top(old(self).state().vals),
            final(self).state() == old(self).state().with_vals(below(old(self).state().vals)),
    {
        self.pop_value()
    }

    /// Gives up the program after a runtime error (see `abandoned`).
    fn fail(&mut self, e: RuntimeError) -> (act: Action<'a, N>)
        requires
            old(self).wf(),
        ensures
            final(self).wf(),
            final(self).state() == abandoned(old(self).state()),
            act == Action::<'a, N>::Fail(e),
    {
        self.env.close_scopes();
        self.work = Vec::new();
        self.vals = Vec::new();
        self.next = match self.program {
            Some(p) => p.len(),
            None => 0,
        };
        proof {
            assert(self.work@ =~= Seq::<Work<'a>>::empty());
            assert(self.vals@ =~= Seq::<Value<'a, N>>::empty());
        }
        Action::Fail(e)
    }

    fn pop_value(&mut self) -> (v: Value<'a, N>)
        ensures
            v == top(old(self).state().vals),
            final(self).state() == old(self).state().with_vals(below(old(self).state().vals)),
            final(self).wf() == old(self).wf(),
    {
        match self.vals.pop() {
            Some(v) => v,
            None => Value::Nil,
        }
    }

    fn pop_args(&mut self, n: usize) -> (r: Vec<Value<'a, N>>)
        ensures
            final(self).state() == old(self).state().with_vals(
                pop_n(old(self).state().vals, n as nat).0,
            ),
            r@ == pop_n(old(self).state().vals, n as nat).1,
            r@.len() == n,
            final(self).wf() == old(self).wf(),
        decreases n,
    {
        if n == 0 {
            Vec::new()
        } else {
            let v = self.pop_value();
            let mut a = self.pop_args(n - 1);
            a.push(v);
            a
        }
    }

    fn leave_scope(&mut self)
        requires
            old(self).wf(),
        ensures
            final(self).wf(),
            final(self).state() == old(self).state().with_env(leave(old(self).state().env)),
    {
        if self.env.depth() >= 2 {
            self.env.pop_scope();
        }
    }

    /// Pushes the statements so that the first is on top.
    fn push_stmts(&mut self, stmts: &'a Vec<Stmt>)
        ensures
            final(self).wf() == old(self).wf(),
            execs_pushed(old(self).state().work, stmts@, final(self).state().work),
            final(self).state() == old(self).state().with_work(final(self).state().work),
    {
        let ghost base = self.work@;
        let n = stmts.len();
        let mut i = n;
        while i > 0
            invariant
                i <= n == stmts@.len(),
                self.work@.len() == base.len() + (n - i),
                forall|j: int| 0 <= j < base.len() ==> self.work@[j] == base[j],
                forall|j: int|
                    base.len() <= j < self.work@.len() ==> (#[trigger] self.work@[j] matches Work::Exec(
                        x,
                    ) && *x == stmts@[base.len() + n - 1 - j]),
                self.state() == old(self).state().with_work(self.work@),
                self.wf() == old(self).wf(),
            decreases i,
        {
            i = i - 1;
            self.work.push(Work::Exec(&stmts[i]));
        }
    }

    /// Pushes the expressions so that the first is on top.
    fn push_evals(&mut self, exprs: &'a Vec<Expr>)
        ensures
            final(self).wf() == old(self).wf(),
            evals_pushed(old(self).state().work, exprs@, final(self).state().work),
            final(self).state() == old(self).state().with_work(final(self).state().work),
    {
        let ghost base = self.work@;
        let n = exprs.len();
        let mut i = n;
        while i > 0
            invariant
                i <= n == exprs@.len(),
                self.work@.len() == base.len() + (n - i),
                forall|j: int| 0 <= j < base.len() ==> self.work@[j] == base[j],
                forall|j: int|
                    base.len() <= j < self.work@.len() ==> (#[trigger] self.work@[j] matches Work::Eval(
                        x,
                    ) && *x == exprs@[base.len() + n - 1 - j]),
                self.state() == old(self).state().with_work(self.work@),
                self.wf() == old(self).wf(),
            decreases i,
        {
            i = i - 1;
            self.work.push(Work::Eval(&exprs[i]));
        }
    }

    /// Binds each parameter to its argument in the innermost scope.
    fn bind_params(&mut self, params: &Vec<Token>, args: Vec<Value<'a, N>>)
        requires
            old(self).wf(),
            params@.len() == args@.len(),
        ensures
            final(self).wf(),
            final(self).state() == old(self).state().with_env(
                bind(old(self).state().env, params@, args@),
            ),
    {
        let n = params.len();
        for i in 0..n
            invariant
                n == params@.len() == args@.len(),
                self.wf(),
                self.state() == old(self).state().with_env(
                    bind(old(self).state().env, params@.take(i as int), args@.take(i as int)),
                ),
        {
            let v = copy_value(&args[i]);
            self.env.define(params[i].lexeme.clone(), Some(v));
            proof {
                assert(params@.take(i + 1).drop_last() =~= params@.take(i as int));
                assert(args@.take(i + 1).drop_last() =~= args@.take(i as int));
            }
            assert(self.state() =~= old(self).state().with_env(
                bind(old(self).state().env, params@.take(i + 1), args@.take(i + 1)),
            ));
        }
        assert(params@.take(n as int) =~= params@);
        assert(args@.take(n as int) =~= args@);
    }

    /// Drops work up to the innermost frame after a `return` of `v`.
    fn unwind_return(&mut self, v: Value<'a, N>)
        requires
            old(self).wf(),
        ensures
            final(self).wf(),
            ({
                let (work, env, found) = unwind(old(self).state().work, old(self).state().env);
                final(self).state() == old(self).state().with_work(work).with_env(env).with_vals(
                    if found {
                        old(self).state().vals.push(v)
                    } else {
                        old(self).state().vals
                    },
                )
            }),
    {
        loop
            invariant
                self.wf(),
                self.state().program == old(self).state().program,
                self.state().next == old(self).state().next,
                self.state().vals == old(self).state().vals,
                unwind(self.state().work, self.state().env) == unwind(
                    old(self).state().work,
                    old(self).state().env,
                ),
            decreases self.work@.len(),
        {
            match self.work.pop() {
                None => {
                    assert(self.state() =~= old(self).state().with_work(self.work@).with_env(
                        self.env@,
                    ));
                    return ;
                },
                Some(Work::Frame) => {
                    self.leave_scope();
                    self.vals.push(v);
                    assert(self.state() =~= old(self).state().with_work(self.work@).with_env(
                        self.env@,
                    ).with_vals(old(self).state().vals.push(v)));
                    return ;
                },
                Some(Work::LeaveScope) => {
                    self.leave_scope();
                },
                Some(_) => {},
            }
        }
    }

    fn exec_stmt(&mut self, x: &'a Stmt) -> (act: Action<'a, N>)
        requires
            old(self).wf(),
        ensures
            final(self).wf(),
            exec_rel(x, old(self).state(), final(self).state(), act),
    {
        match x {
            Stmt::Expression { expr } => {
                self.work.push(Work::Finish(x));
                self.work.push(Work::Eval(expr));
            },
            Stmt::Print { expr } => {
                self.work.push(Work::Finish(x));
                self.work.push(Work::Eval(expr));
            },
            Stmt::Var { name, initializer } => match initializer {
                Some(e) => {
                    self.work.push(Work::Finish(x));
                    self.work.push(Work::Eval(e));
                },
                None => {
                    self.env.define(name.lexeme.clone(), Some(Value::Nil));
                },
            },
            Stmt::Block { stmts } => {
                self.env.push_scope();
                self.work.push(Work::LeaveScope);
                self.push_stmts(stmts);
            },
            Stmt::Return { value, .. } => match value {
                Some(e) => {
                    self.work.push(Work::Finish(x));
                    self.work.push(Work::Eval(e));
                },
                None => {
                    self.work.push(Work::Finish(x));
                    self.vals.push(Value::Nil);
                },
            },
            Stmt::IfStmt { condition, .. } => {
                self.work.push(Work::Finish(x));
                self.work.push(Work::Eval(condition));
            },
            Stmt::While { condition, .. } => {
                self.work.push(Work::Finish(x));
                self.work.push(Work::Eval(condition));
            },
            Stmt::Function { name, .. } => {
                self.env.define(name.lexeme.clone(), Some(Value::ForeignFn(LoxFunction::new(x))));
            },
        }
        Action::Continue
    }

    fn eval_expr(&mut self, e: &'a Expr) -> (act: Action<'a, N>)
        requires
            old(self).wf(),
        ensures
            final(self).wf(),
            eval_rel(e, old(self).state(), final(self).state(), act),
    {
        match e {
            Expr::Literal { value } => match value {
                Literal::Number(x) => {
                    return Action::ParseNumber(x.clone());
                },
                Literal::String(x) => {
                    self.vals.push(Value::String(x.clone()));
                },
                Literal::True => {
                    self.vals.push(Value::Bool(true));
                },
                Literal::False => {
                    self.vals.push(Value::Bool(false));
                },
                Literal::Nil => {
                    self.vals.push(Value::Nil);
                },
            },
            Expr::Grouping { expression } => {
                self.work.push(Work::Eval(&**expression));
            },
            Expr::Unary { right, .. } => {
                self.work.push(Work::Cont(e));
                self.work.push(Work::Eval(&**right));
            },
            Expr::Binary { left, right, .. } => {
                self.work.push(Work::Cont(e));
                self.work.push(Work::Eval(&**right));
                self.work.push(Work::Eval(&**left));
            },
            Expr::Variable { name } => {
                let found = match self.env.get(name.lexeme.as_str()) {
                    Some(v) => Some(copy_value(v)),
                    None => None,
                };
                match found {
                    Some(v) => {
                        self.vals.push(v);
                    },
                    None => {
                        return self.fail(undefined_variable(name));
                    },
                }
            },
            Expr::Assign { value, .. } => {
                self.work.push(Work::Cont(e));
                self.work.push(Work::Eval(&**value));
            },
            Expr::Logical { left, .. } => {
                self.work.push(Work::Cont(e));
                self.work.push(Work::Eval(&**left));
            },
            Expr::Call { callee, args, .. } => {
                self.work.push(Work::Cont(e));
                self.push_evals(args);
                self.work.push(Work::Eval(&**callee));
            },
        }
        Action::Continue
    }

    fn binary(&mut self, op: &Token, l: Value<'a, N>, r: Value<'a, N>) -> (act: Action<'a, N>)
        requires
            old(self).wf(),
        ensures
            final(self).wf(),
            binary_rel(*op, l, r, old(self).state(), final(self).state(), act),
    {
        match op.token_ty {
            TokenType::MINUS | TokenType::SLASH | TokenType::STAR => match (l, r) {
                (Value::Number(a), Value::Number(b)) => {
                    let k = match op.token_ty {
                        TokenType::MINUS => ArithOp::Subtract,
                        TokenType::SLASH => ArithOp::Divide,
                        _ => ArithOp::Multiply,
                    };
                    Action::Arith(k, a, b)
                },
                _ => self.fail(runtime_error(op, "Operands must be numbers.")),
            },
            TokenType::PLUS => match (l, r) {
                (Value::Number(a), Value::Number(b)) => Action::Arith(ArithOp::Add, a, b),
                (Value::String(a), Value::String(b)) => {
                    let mut m: Vec<char> = Vec::new();
                    push_str(&mut m, a.as_str());
                    push_str(&mut m, b.as_str());
                    assert(m@ =~= a@ + b@);
                    self.vals.push(Value::String(string_from_chars(m)));
                    assert(self.vals@.drop_last() =~= old(self).vals@);
                    Action::Continue
                },
                _ => self.fail(
                    runtime_error(op, "Operands must be two numbers or two strings."),
                ),
            },
            TokenType::GREATER | TokenType::GREATER_EQUAL | TokenType::LESS
            | TokenType::LESS_EQUAL => match (l, r) {
                (Value::Number(a), Value::Number(b)) => {
                    let k = match op.token_ty {
                        TokenType::GREATER => CompareOp::Greater,
                        TokenType::GREATER_EQUAL => CompareOp::GreaterEqual,
                        TokenType::LESS => CompareOp::Less,
                        _ => CompareOp::LessEqual,
                    };
                    Action::Compare(k, a, b)
                },
                _ => self.fail(runtime_error(op, "Operands must be numbers.")),
            },
            TokenType::EQUAL_EQUAL | TokenType::BANG_EQUAL => {
                let negate = op.token_ty == TokenType::BANG_EQUAL;
                match is_equal(&l, &r) {
                    Some(eq) => {
                        self.vals.push(Value::Bool(if negate { !eq } else { eq }));
                        Action::Continue
                    },
                    None => match (l, r) {
                        (Value::Number(a), Value::Number(b)) => {
                            let k = if negate {
                                CompareOp::NotEqual
                            } else {
                                CompareOp::Equal
                            };
                            Action::Compare(k, a, b)
                        },
                        _ => Action::Continue,
                    },
                }
            },
            _ => {
                self.vals.push(r);
                Action::Continue
            },
        }
    }

    fn call(&mut self, paren: &Token, n: usize) -> (act: Action<'a, N>)
        requires
            old(self).wf(),
        ensures
            final(self).wf(),
            call_rel(*paren, n as nat, old(self).state(), final(self).state(), act),
    {
        let args = self.pop_args(n);
        let f = self.pop_value();
        match f {
            Value::ForeignFn(f) => match f.declaration {
                Stmt::Function { params, body, .. } => {
                    if params.len() != n {
                        return self.fail(arity_error(paren, params.len(), n));
                    }
                    self.env.push_scope();
                    self.bind_params(params, args);
                    self.work.push(Work::Frame);
                    self.push_stmts(body);
                    Action::Continue
                },
                _ => self.fail(runtime_error(paren, "Can only call functions and classes.")),
            },
            Value::NativeFn(NativeFn::Clock) => {
                if n != 0 {
                    self.fail(arity_error(paren, 0, n))
                } else {
                    Action::Clock
                }
            },
            _ => self.fail(runtime_error(paren, "Can only call functions and classes.")),
        }
    }

    fn cont_expr(&mut self, e: &'a Expr) -> (act: Action<'a, N>)
        requires
            old(self).wf(),
        ensures
            final(self).wf(),
            cont_rel(e, old(self).state(), final(self).state(), act),
    {
        match e {
            Expr::Unary { operator, .. } => {
                let v = self.pop_value();
                match operator.token_ty {
                    TokenType::MINUS => match v {
                        Value::Number(n) => Action::Negate(n),
                        _ => self.fail(runtime_error(operator, "Operand must be a number.")),
                    },
                    TokenType::BANG => {
                        let b = is_truthy(&v);
                        self.vals.push(Value::Bool(!b));
                        Action::Continue
                    },
                    _ => {
                        self.vals.push(v);
                        Action::Continue
                    },
                }
            },
            Expr::Binary { operator, .. } => {
                let r = self.pop_value();
                let l = self.pop_value();
                self.binary(operator, l, r)
            },
            Expr::Assign { name, .. } => {
                let v = self.pop_value();
                let c = copy_value(&v);
                match self.env.assign(name.lexeme.clone(), c) {
                    Ok(()) => {
                        self.vals.push(v);
                        Action::Continue
                    },
                    Err(_) => self.fail(undefined_variable(name)),
                }
            },
            Expr::Logical { operator, right, .. } => {
                let v = self.pop_value();
                let t = is_truthy(&v);
                let short = if operator.token_ty == TokenType::OR {
                    t
                } else {
                    !t
                };
                if short {
                    self.vals.push(v);
                } else {
                    self.work.push(Work::Eval(&**right));
                }
                Action::Continue
            },
            Expr::Call { paren, args, .. } => self.call(paren, args.len()),
            _ => Action::Continue,
        }
    }

    fn finish_stmt(&mut self, x: &'a Stmt) -> (act: Action<'a, N>)
        requires
            old(self).wf(),
        ensures
            final(self).wf(),
            finish_rel(x, old(self).state(), final(self).state(), act),
    {
        match x {
            Stmt::Expression { .. } => {
                let _ = self.pop_value();
                Action::Continue
            },
            Stmt::Print { .. } => {
                let v = self.pop_value();
                Action::Print(v)
            },
            Stmt::Var { name, .. } => {
                let v = self.pop_value();
                self.env.define(name.lexeme.clone(), Some(v));
                Action::Continue
            },
            Stmt::Return { .. } => {
                let v = self.pop_value();
                self.unwind_return(v);
                Action::Continue
            },
            Stmt::IfStmt { then_branch, else_branch, .. } => {
                let c = self.pop_value();
                if is_truthy(&c) {
                    self.work.push(Work::Exec(&**then_branch));
                } else {
                    match else_branch {
                        Some(b) => {
                            self.work.push(Work::Exec(&**b));
                        },
                        None => {},
                    }
                }
                Action::Continue
            },
            Stmt::While { body, .. } => {
                let c = self.pop_value();
                if is_truthy(&c) {
                    self.work.push(Work::Exec(x));
                    self.work.push(Work::Exec(&**body));
                }
                Action::Continue
            },
            _ => Action::Continue,
        }
    }

    /// One step, given the host's answer to the previous action.
    pub fn step(&mut self, ev: Event<N>) -> (act: Action<'a, N>)
        requires
            old(self).wf(),
        ensures
            final(self).wf(),
            step_rel(old(self).state(), ev, final(self).state(), act),
    {
        match ev {
            Event::Nothing => {},
            Event::Number(n) => {
                self.vals.push(Value::Number(n));
            },
            Event::Bool(b) => {
                self.vals.push(Value::Bool(b));
            },
        }
        match self.work.pop() {
            None => {
                match self.program {
                    Some(program) => {
                        if self.next < program.len() {
                            self.work.push(Work::Exec(&program[self.next]));
                            self.next = self.next + 1;
                            Action::Continue
                        } else {
                            Action::Halt
                        }
                    },
                    None => Action::Halt,
                }
            },
            Some(w) => match w {
                Work::Exec(x) => self.exec_stmt(x),
                Work::Eval(e) => self.eval_expr(e),
                Work::Cont(e) => self.cont_expr(e),
                Work::Finish(x) => self.finish_stmt(x),
                Work::LeaveScope => {
                    self.leave_scope();
                    Action::Continue
                },
                Work::Frame => {
                    self.leave_scope();
                    self.vals.push(Value::Nil);
                    Action::Continue
                },
            },
        }
    }
}

// ----------------------------------------------------------------------------
// Laws.
// ----------------------------------------------------------------------------
/// The number of blocks whose scopes a stretch of work would close.
pub open spec fn blocks_open<'a>(work: Seq<Work<'a>>) -> nat
    decreases work.len(),
{
    if work.len() == 0 {
        0
    } else {
        blocks_open(work.drop_last()) + if work.last() is LeaveScope {
            1nat
        } else {
            0nat
        }
    }
}

/// Equality of values that are not both numbers is symmetric.
pub proof fn law_equality_symmetric<'a, N>(a: Value<'a, N>, b: Value<'a, N>)
    ensures
        equal_values(a, b) == equal_values(b, a),
        both_numbers(a, b) == both_numbers(b, a),
{
}

/// `nil`, booleans and strings equal themselves; functions never compare
/// equal, not even to themselves.
pub proof fn law_equality_reflexive<'a, N>(v: Value<'a, N>)
    ensures
        (v is Nil || v is Bool || v is String) ==> equal_values(v, v),
        (v is ForeignFn || v is NativeFn) ==> !equal_values(v, v),
{
}

/// A `return` inside a function call leaves the call: the work pending in
/// the call is dropped with the call's frame, and the scopes of the blocks
/// it was in are closed together with the call's own scope, leaving the
/// caller's scopes as they were.
pub proof fn law_return_leaves_call<'a, V>(
    base: Seq<Work<'a>>,
    inside: Seq<Work<'a>>,
    env: Seq<Map<Seq<char>, V>>,
)
    requires
        forall|i: int| 0 <= i < inside.len() ==> !(inside[i] is Frame),
        env.len() >= 2 + blocks_open(inside),
    ensures
        unwind(base.push(Work::Frame) + inside, env) == (
            base,
            env.take(env.len() - 1 - blocks_open(inside)),
            true,
        ),
    decreases inside.len(),
{
    let w = base.push(Work::Frame) + inside;
    if inside.len() == 0 {
        assert(w =~= base.push(Work::Frame));
        assert(w.drop_last() =~= base);
        assert(env.drop_last() =~= env.take(env.len() - 1));
    } else {
        let shorter = inside.drop_last();
        assert(w.drop_last() =~= base.push(Work::Frame) + shorter);
        assert(w.last() == inside.last());
        assert forall|i: int| 0 <= i < shorter.len() implies !(shorter[i] is Frame) by {
            assert(shorter[i] == inside[i]);
        }
        if inside.last() is LeaveScope {
            law_return_leaves_call(base, shorter, env.drop_last());
            assert(env.drop_last().take(env.len() - 1 - 1 - blocks_open(shorter)) =~= env.take(
                env.len() - 1 - blocks_open(inside),
            ));
        } else {
            law_return_leaves_call(base, shorter, env);
        }
    }
}

/// A `return` outside any function call drops all pending work, which is
/// the rest of the current statement of the program, and leaves no value.
pub proof fn law_return_at_top_level<'a, V>(work: Seq<Work<'a>>, env: Seq<Map<Seq<char>, V>>)
    requires
        forall|i: int| 0 <= i < work.len() ==> !(work[i] is Frame),
    ensures
        unwind(work, env).0.len() == 0,
        !unwind(work, env).2,
    decreases work.len(),
{
    if work.len() > 0 {
        let shorter = work.drop_last();
        assert forall|i: int| 0 <= i < shorter.len() implies !(shorter[i] is Frame) by {
            assert(shorter[i] == work[i]);
        }
        assert(!(work.last() is Frame)) by {
            assert(work.last() == work[work.len() - 1]);
        }
        if work.last() is LeaveScope {
            law_return_at_top_level(shorter, leave(env));
        } else {
            law_return_at_top_level(shorter, env);
        }
    }
}

/// A machine whose program is done halts and changes nothing.
pub proof fn law_halt_when_done<'a, N>(
    pre: InterpretV<'a, N>,
    post: InterpretV<'a, N>,
    act: Action<'a, N>,
)
    requires
        pre.work.len() == 0,
        pre.next >= pre.program.len(),
        step_rel(pre, Event::Nothing, post, act),
    ensures
        act is Halt,
        post == pre,
{
    assert(absorb(pre.vals, Event::<N>::Nothing) == pre.vals);
    assert(pre.with_vals(pre.vals) =~= pre);
}

/// A runtime error gives up the program and leaves every block and call it
/// happened in: afterwards only the global scope is open, as before the
/// program started (holding what the program stored there), and no work
/// and no value is left.
pub proof fn law_error_leaves_blocks_and_calls<'a, N>(
    pre: InterpretV<'a, N>,
    ev: Event<N>,
    post: InterpretV<'a, N>,
    act: Action<'a, N>,
)
    requires
        pre.env.len() >= 1,
        step_rel(pre, ev, post, act),
        act is Fail,
    ensures
        post.env == pre.env.take(1),
        post.env.len() == 1,
        post.work.len() == 0,
        post.vals.len() == 0,
        post.program == pre.program,
        post.next == pre.program.len(),
{
}

// ----------------------------------------------------------------------------
// Laws of the steps, operator by operator and statement by statement.
// ----------------------------------------------------------------------------
/// The state a step works on: the machine's state with the host's answer
/// on the value stack.
pub open spec fn ready<'a, N>(pre: InterpretV<'a, N>, ev: Event<N>) -> InterpretV<'a, N> {
    pre.with_vals(absorb(pre.vals, ev))
}

/// The work item a step takes up is `w`.
pub open spec fn takes_up<'a, N>(pre: InterpretV<'a, N>, ev: Event<N>, w: Work<'a>) -> bool {
    ready(pre, ev).work.len() > 0 && ready(pre, ev).work.last() == w
}

/// `+` on the values of its two operands (the left one below the right
/// one): two numbers are added by the host, two strings are joined, and
/// anything else is the error `Operands must be two numbers or two
/// strings.` at the operator.
pub proof fn law_plus<'a, N>(
    pre: InterpretV<'a, N>,
    ev: Event<N>,
    post: InterpretV<'a, N>,
    act: Action<'a, N>,
    e: &'a Expr,
    op: Token,
)
    requires
        step_rel(pre, ev, post, act),
        takes_up(pre, ev, Work::Cont(e)),
        e matches Expr::Binary { operator, .. } && *operator == op,
        op.token_ty == TokenType::PLUS,
        ready(pre, ev).vals.len() >= 2,
    ensures
        ({
            let s = ready(pre, ev);
            let b = s.vals.last();
            let a = s.vals.drop_last().last();
            let rest = s.vals.drop_last().drop_last();
            match (a, b) {
                (Value::Number(x), Value::Number(y)) => act == Action::<'a, N>::Arith(
                    ArithOp::Add,
                    x,
                    y,
                ) && post.vals == rest && post.work == s.work.drop_last() && post.env == s.env,
                (Value::String(x), Value::String(y)) => act is Continue && post.vals.len()
                    == rest.len() + 1 && post.vals.drop_last() == rest && (post.vals.last() matches Value::String(
                    z,
                ) && z@ == x@ + y@) && post.work == s.work.drop_last() && post.env == s.env,
                _ => fails(op, "Operands must be two numbers or two strings."@, act) && post
                    == abandoned(s),
            }
        }),
{
}

/// `-`, `/`, `*`, `>`, `>=`, `<` and `<=` on two numbers are done by the
/// host; on anything else they are the error `Operands must be numbers.`
/// at the operator.
pub proof fn law_number_operators<'a, N>(
    pre: InterpretV<'a, N>,
    ev: Event<N>,
    post: InterpretV<'a, N>,
    act: Action<'a, N>,
    e: &'a Expr,
    op: Token,
)
    requires
        step_rel(pre, ev, post, act),
        takes_up(pre, ev, Work::Cont(e)),
        e matches Expr::Binary { operator, .. } && *operator == op,
        op.token_ty == TokenType::MINUS || op.token_ty == TokenType::SLASH || op.token_ty
            == TokenType::STAR || op.token_ty == TokenType::GREATER || op.token_ty
            == TokenType::GREATER_EQUAL || op.token_ty == TokenType::LESS || op.token_ty
            == TokenType::LESS_EQUAL,
        ready(pre, ev).vals.len() >= 2,
    ensures
        ({
            let s = ready(pre, ev);
            let b = s.vals.last();
            let a = s.vals.drop_last().last();
            let rest = s.vals.drop_last().drop_last();
            let arith = op.token_ty == TokenType::MINUS || op.token_ty == TokenType::SLASH
                || op.token_ty == TokenType::STAR;
            match (a, b) {
                (Value::Number(x), Value::Number(y)) => post.vals == rest && post.work
                    == s.work.drop_last() && post.env == s.env && if arith {
                    act == Action::<'a, N>::Arith(arith_of(op.token_ty), x, y)
                } else {
                    act == Action::<'a, N>::Compare(compare_of(op.token_ty), x, y)
                },
                _ => fails(op, "Operands must be numbers."@, act) && post == abandoned(s),
            }
        }),
        arith_of(TokenType::MINUS) == ArithOp::Subtract,
        arith_of(TokenType::SLASH) == ArithOp::Divide,
        arith_of(TokenType::STAR) == ArithOp::Multiply,
        compare_of(TokenType::GREATER) == CompareOp::Greater,
        compare_of(TokenType::GREATER_EQUAL) == CompareOp::GreaterEqual,
        compare_of(TokenType::LESS) == CompareOp::Less,
        compare_of(TokenType::LESS_EQUAL) == CompareOp::LessEqual,
{
}

/// `==` and `!=` never fail: two numbers are compared by the host; any
/// other two values are equal exactly when `equal_values` says so (`nil`
/// only equals `nil`, values of different kinds are never equal).
pub proof fn law_equality_operators<'a, N>(
    pre: InterpretV<'a, N>,
    ev: Event<N>,
    post: InterpretV<'a, N>,
    act: Action<'a, N>,
    e: &'a Expr,
    op: Token,
)
    requires
        step_rel(pre, ev, post, act),
        takes_up(pre, ev, Work::Cont(e)),
        e matches Expr::Binary { operator, .. } && *operator == op,
        op.token_ty == TokenType::EQUAL_EQUAL || op.token_ty == TokenType::BANG_EQUAL,
        ready(pre, ev).vals.len() >= 2,
    ensures
        !(act is Fail),
        ({
            let s = ready(pre, ev);
            let b = s.vals.last();
            let a = s.vals.drop_last().last();
            let rest = s.vals.drop_last().drop_last();
            let same = op.token_ty == TokenType::EQUAL_EQUAL;
            match (a, b) {
                (Value::Number(x), Value::Number(y)) => post.vals == rest && act
                    == Action::<'a, N>::Compare(
                    if same {
                        CompareOp::Equal
                    } else {
                        CompareOp::NotEqual
                    },
                    x,
                    y,
                ),
                _ => act is Continue && post.vals == rest.push(
                    Value::Bool(equal_values(a, b) == same),
                ),
            }
        }),
{
}

/// `!` gives whether its operand's value is false (`nil` and `false` are
/// the false values); `-` negates a number through the host and is the error
/// `Operand must be a number.` on anything else.
pub proof fn law_unary_operators<'a, N>(
    pre: InterpretV<'a, N>,
    ev: Event<N>,
    post: InterpretV<'a, N>,
    act: Action<'a, N>,
    e: &'a Expr,
    op: Token,
)
    requires
        step_rel(pre, ev, post, act),
        takes_up(pre, ev, Work::Cont(e)),
        e matches Expr::Unary { operator, .. } && *operator == op,
        ready(pre, ev).vals.len() >= 1,
    ensures
        ({
            let s = ready(pre, ev);
            let v = s.vals.last();
            let rest = s.vals.drop_last();
            &&& op.token_ty == TokenType::BANG ==> act is Continue && post.vals == rest.push(
                Value::Bool(!truthy(v)),
            )
            &&& op.token_ty == TokenType::MINUS ==> match v {
                Value::Number(n) => act == Action::<'a, N>::Negate(n) && post.vals == rest,
                _ => fails(op, "Operand must be a number."@, act) && post == abandoned(s),
            }
        }),
{
}

/// A variable evaluates to its value in the innermost scope that binds it,
/// and is the error `Undefined variable 'name'.` when none does; the scopes
/// stay as they are when it is found.
pub proof fn law_variable<'a, N>(
    pre: InterpretV<'a, N>,
    ev: Event<N>,
    post: InterpretV<'a, N>,
    act: Action<'a, N>,
    e: &'a Expr,
    name: Token,
)
    requires
        step_rel(pre, ev, post, act),
        takes_up(pre, ev, Work::Eval(e)),
        e matches Expr::Variable { name: n } && *n == name,
    ensures
        ({
            let s = ready(pre, ev);
            match env_get(s.env, name.lexeme@) {
                Some(v) => act is Continue && post.vals == s.vals.push(v) && post.env == s.env,
                None => fails(name, undefined_message(name.lexeme@), act) && post == abandoned(s),
            }
        }),
{
}

/// An assignment rebinds the name in the innermost scope that binds it and
/// leaves every other binding as it was; its value stays as the
/// expression's value. When no scope binds the name it is the error
/// `Undefined variable 'name'.`.
pub proof fn law_assignment<'a, N>(
    pre: InterpretV<'a, N>,
    ev: Event<N>,
    post: InterpretV<'a, N>,
    act: Action<'a, N>,
    e: &'a Expr,
    name: Token,
)
    requires
        step_rel(pre, ev, post, act),
        takes_up(pre, ev, Work::Cont(e)),
        e matches Expr::Assign { name: n, .. } && *n == name,
        ready(pre, ev).vals.len() >= 1,
    ensures
        ({
            let s = ready(pre, ev);
            let v = s.vals.last();
            match defining_scope(s.env, name.lexeme@) {
                Some(i) => act is Continue && post.env == s.env.update(
                    i,
                    s.env[i].insert(name.lexeme@, v),
                ) && post.vals == s.vals,
                None => fails(name, undefined_message(name.lexeme@), act) && post == abandoned(s),
            }
        }),
{
    let s = ready(pre, ev);
    assert(s.vals.drop_last().push(s.vals.last()) =~= s.vals);
}

/// `or` keeps a true left value and `and` a false one, without evaluating
/// the right operand; otherwise the right operand is evaluated next and its
/// value is the result.
pub proof fn law_short_circuit<'a, N>(
    pre: InterpretV<'a, N>,
    ev: Event<N>,
    post: InterpretV<'a, N>,
    act: Action<'a, N>,
    e: &'a Expr,
)
    requires
        step_rel(pre, ev, post, act),
        takes_up(pre, ev, Work::Cont(e)),
        e is Logical,
        ready(pre, ev).vals.len() >= 1,
    ensures
        act is Continue,
        ({
            let s = ready(pre, ev);
            let l = s.vals.last();
            match e {
                Expr::Logical { operator, right, .. } => {
                    let keep = if operator.token_ty == TokenType::OR {
                        truthy(l)
                    } else {
                        !truthy(l)
                    };
                    if keep {
                        post.vals == s.vals && post.work == s.work.drop_last()
                    } else {
                        post.vals == s.vals.drop_last() && post.work == s.work.drop_last().push(
                            Work::Eval(&**right),
                        )
                    }
                },
                _ => true,
            }
        }),
{
    let s = ready(pre, ev);
    assert(s.vals.drop_last().push(s.vals.last()) =~= s.vals);
}

/// A `print` statement prints the value of its expression, once that value
/// is computed.
pub proof fn law_print<'a, N>(
    pre: InterpretV<'a, N>,
    ev: Event<N>,
    post: InterpretV<'a, N>,
    act: Action<'a, N>,
    x: &'a Stmt,
)
    requires
        step_rel(pre, ev, post, act),
        takes_up(pre, ev, Work::Finish(x)),
        x is Print,
        ready(pre, ev).vals.len() >= 1,
    ensures
        act == Action::<'a, N>::Print(ready(pre, ev).vals.last()),
        post.vals == ready(pre, ev).vals.drop_last(),
        post.env == ready(pre, ev).env,
{
}

/// A `var` declaration binds the name in the innermost scope, to the value
/// of its initializer or to `nil` when it has none.
pub proof fn law_var_declaration<'a, N>(
    pre: InterpretV<'a, N>,
    ev: Event<N>,
    post: InterpretV<'a, N>,
    act: Action<'a, N>,
    x: &'a Stmt,
    name: Token,
)
    requires
        step_rel(pre, ev, post, act),
        x matches Stmt::Var { name: n, .. } && *n == name,
    ensures
        (takes_up(pre, ev, Work::Exec(x)) && (x matches Stmt::Var { initializer: None, .. }))
            ==> post.env == define_spec(ready(pre, ev).env, name.lexeme@, Value::Nil),
        takes_up(pre, ev, Work::Finish(x)) && ready(pre, ev).vals.len() >= 1 ==> post.env
            == define_spec(ready(pre, ev).env, name.lexeme@, ready(pre, ev).vals.last()),
{
}

/// A block opens a scope of its own and schedules its statements, the
/// first on top, followed by the closing of that scope; closing it takes
/// the block's scope away again.
pub proof fn law_block<'a, N>(
    pre: InterpretV<'a, N>,
    ev: Event<N>,
    post: InterpretV<'a, N>,
    act: Action<'a, N>,
    x: &'a Stmt,
)
    requires
        step_rel(pre, ev, post, act),
    ensures
        takes_up(pre, ev, Work::Exec(x)) && x is Block ==> post.env == ready(pre, ev).env.push(
            Map::empty(),
        ) && match x {
            Stmt::Block { stmts } => execs_pushed(
                ready(pre, ev).work.drop_last().push(Work::LeaveScope),
                stmts@,
                post.work,
            ),
            _ => true,
        },
        takes_up(pre, ev, Work::LeaveScope) && ready(pre, ev).env.len() >= 2 ==> post.env
            == ready(pre, ev).env.drop_last() && act is Continue,
{
}

/// An `if` runs its then branch when the condition's value is true, else
/// its else branch when there is one, else nothing.
pub proof fn law_if<'a, N>(
    pre: InterpretV<'a, N>,
    ev: Event<N>,
    post: InterpretV<'a, N>,
    act: Action<'a, N>,
    x: &'a Stmt,
)
    requires
        step_rel(pre, ev, post, act),
        takes_up(pre, ev, Work::Finish(x)),
        x is IfStmt,
        ready(pre, ev).vals.len() >= 1,
    ensures
        act is Continue,
        ({
            let s = ready(pre, ev);
            let w = s.work.drop_last();
            match x {
                Stmt::IfStmt { then_branch, else_branch, .. } => if truthy(s.vals.last()) {
                    post.work == w.push(Work::Exec(&**then_branch))
                } else {
                    match else_branch {
                        Some(b) => post.work == w.push(Work::Exec(&**b)),
                        None => post.work == w,
                    }
                },
                _ => true,
            }
        }),
{
}

/// A `while` runs its body and then itself again while the condition's
/// value is true, and is done when it is false.
pub proof fn law_while<'a, N>(
    pre: InterpretV<'a, N>,
    ev: Event<N>,
    post: InterpretV<'a, N>,
    act: Action<'a, N>,
    x: &'a Stmt,
)
    requires
        step_rel(pre, ev, post, act),
        takes_up(pre, ev, Work::Finish(x)),
        x is While,
        ready(pre, ev).vals.len() >= 1,
    ensures
        act is Continue,
        ({
            let s = ready(pre, ev);
            let w = s.work.drop_last();
            match x {
                Stmt::While { body, .. } => if truthy(s.vals.last()) {
                    post.work == w.push(Work::Exec(x)).push(Work::Exec(&**body))
                } else {
                    post.work == w
                },
                _ => true,
            }
        }),
{
}

/// A function declaration binds its name, in the innermost scope, to the
/// function.
pub proof fn law_function_declaration<'a, N>(
    pre: InterpretV<'a, N>,
    ev: Event<N>,
    post: InterpretV<'a, N>,
    act: Action<'a, N>,
    x: &'a Stmt,
    name: Token,
)
    requires
        step_rel(pre, ev, post, act),
        takes_up(pre, ev, Work::Exec(x)),
        x matches Stmt::Function { name: n, .. } && *n == name,
    ensures
        act is Continue,
        post.env == define_spec(
            ready(pre, ev).env,
            name.lexeme@,
            Value::ForeignFn(LoxFunction { declaration: x }),
        ),
{
}

/// A call of a function with as many arguments as it has parameters runs
/// its body in a new scope, on top of the caller's, where each parameter is
/// bound to its argument; the end of the body closes that scope and gives
/// `nil` (a `return` gives its value instead, see `law_return_leaves_call`).
/// `clock` asks the host for the time. Anything else is an error.
pub proof fn law_call<'a, N>(
    pre: InterpretV<'a, N>,
    ev: Event<N>,
    post: InterpretV<'a, N>,
    act: Action<'a, N>,
    e: &'a Expr,
    paren: Token,
)
    requires
        step_rel(pre, ev, post, act),
        takes_up(pre, ev, Work::Cont(e)),
        e matches Expr::Call { paren: p, .. } && *p == paren,
    ensures
        ({
            let s = ready(pre, ev);
            let n = match e {
                Expr::Call { args, .. } => args@.len(),
                _ => 0,
            };
            let (r1, argv) = pop_n(s.vals, n);
            match top(r1) {
                Value::ForeignFn(f) => match f.declaration {
                    Stmt::Function { params, body, .. } => if params@.len() == n {
                        &&& act is Continue
                        &&& post.env == bind(s.env.push(Map::empty()), params@, argv)
                        &&& execs_pushed(s.work.drop_last().push(Work::Frame), body@, post.work)
                    } else {
                        fails(paren, arity_message(params@.len(), n), act) && post == abandoned(s)
                    },
                    _ => fails(paren, "Can only call functions and classes."@, act) && post
                        == abandoned(s),
                },
                Value::NativeFn(NativeFn::Clock) => if n == 0 {
                    act is Clock
                } else {
                    fails(paren, arity_message(0, n), act) && post == abandoned(s)
                },
                _ => fails(paren, "Can only call functions and classes."@, act) && post
                    == abandoned(s),
            }
        }),
{
}

/// When a function's body runs to its end, its scope is closed and the call
/// gives `nil`.
pub proof fn law_call_ends_with_nil<'a, N>(
    pre: InterpretV<'a, N>,
    ev: Event<N>,
    post: InterpretV<'a, N>,
    act: Action<'a, N>,
)
    requires
        step_rel(pre, ev, post, act),
        takes_up(pre, ev, Work::Frame),
        ready(pre, ev).env.len() >= 2,
    ensures
        act is Continue,
        post.env == ready(pre, ev).env.drop_last(),
        post.vals == ready(pre, ev).vals.push(Value::Nil),
        post.work == ready(pre, ev).work.drop_last(),
{
}

// ----------------------------------------------------------------------------
// Laws of arguments and equality.
// ----------------------------------------------------------------------------
/// Values pushed onto the value stack in turn come off it in the same
/// order: taking `n` arguments off a stack on which `args` were pushed, the
/// first one lowest, gives `args` itself, first argument first, and leaves
/// the stack as it was before them.
pub proof fn law_arguments_in_order<'a, N>(base: Seq<Value<'a, N>>, args: Seq<Value<'a, N>>)
    ensures
        pop_n(base + args, args.len()) == (base, args),
    decreases args.len(),
{
    if args.len() > 0 {
        let shorter = args.drop_last();
        assert(below(base + args) =~= base + shorter);
        assert(top(base + args) == args.last());
        law_arguments_in_order(base, shorter);
        assert(shorter.push(args.last()) =~= args);
    }
}

/// No parameter among `params` is named `k`.
pub open spec fn names_none(params: Seq<Token>, k: Seq<char>) -> bool {
    forall|i: int| 0 <= i < params.len() ==> params[i].lexeme@ != k
}

/// Binding distinct parameters to arguments, one for one, binds each
/// parameter to the argument in its own position in the innermost scope,
/// and leaves the other scopes alone.
pub proof fn law_bind_in_order<'a, N>(
    env: Seq<Map<Seq<char>, Value<'a, N>>>,
    params: Seq<Token>,
    args: Seq<Value<'a, N>>,
)
    requires
        env.len() > 0,
        params.len() == args.len(),
        forall|i: int, j: int|
            0 <= i < j < params.len() ==> params[i].lexeme@ != params[j].lexeme@,
    ensures
        bind(env, params, args).len() == env.len(),
        bind(env, params, args).drop_last() == env.drop_last(),
        forall|i: int|
            0 <= i < params.len() ==> bind(env, params, args).last().contains_key(
                #[trigger] params[i].lexeme@,
            ) && bind(env, params, args).last()[params[i].lexeme@] == args[i],
        forall|k: Seq<char>|
            #[trigger] names_none(params, k) ==> bind(env, params, args).last().contains_key(k)
                == env.last().contains_key(k) && (env.last().contains_key(k) ==> bind(
                env,
                params,
                args,
            ).last()[k] == env.last()[k]),
    decreases params.len(),
{
    if params.len() > 0 {
        let (ps, as_) = (params.drop_last(), args.drop_last());
        law_bind_in_order(env, ps, as_);
        let b = bind(env, ps, as_);
        let name = params.last().lexeme@;
        assert(bind(env, params, args) == define_spec(b, name, args.last()));
        assert forall|i: int| 0 <= i < params.len() implies bind(env, params, args).last().contains_key(
            #[trigger] params[i].lexeme@,
        ) && bind(env, params, args).last()[params[i].lexeme@] == args[i] by {
            if i < params.len() - 1 {
                assert(ps[i] == params[i]);
                assert(params[i].lexeme@ != name);
            }
        }
        assert(bind(env, params, args).drop_last() =~= env.drop_last());
        assert forall|k: Seq<char>| #[trigger] names_none(params, k) implies bind(
            env,
            params,
            args,
        ).last().contains_key(k) == env.last().contains_key(k) && (env.last().contains_key(k)
            ==> bind(env, params, args).last()[k] == env.last()[k]) by {
            assert(params[params.len() - 1].lexeme@ != k);
            assert forall|i: int| 0 <= i < ps.len() implies ps[i].lexeme@ != k by {
                assert(ps[i] == params[i]);
            }
            assert(names_none(ps, k));
            assert(b.last().contains_key(k) == env.last().contains_key(k));
            assert(env.last().contains_key(k) ==> b.last()[k] == env.last()[k]);
            assert(bind(env, params, args).last() == b.last().insert(name, args.last()));
        }
    }
}

/// A call of a function with distinct parameters, whose arguments were
/// evaluated in turn onto the value stack above the function, runs its body
/// in a new scope in which each parameter is bound to the value of the
/// argument in the same position, and which binds nothing else; the
/// caller's scopes stay as they were.
pub proof fn law_call_binds_arguments_in_order<'a, N>(
    paren: Token,
    s: InterpretV<'a, N>,
    t: InterpretV<'a, N>,
    act: Action<'a, N>,
    base: Seq<Value<'a, N>>,
    f: LoxFunction<'a>,
    argv: Seq<Value<'a, N>>,
)
    requires
        s.vals == base.push(Value::ForeignFn(f)) + argv,
        f.declaration matches Stmt::Function { params, .. } && params@.len() == argv.len() && (
        forall|i: int, j: int|
            0 <= i < j < params@.len() ==> params@[i].lexeme@ != params@[j].lexeme@),
        call_rel(paren, argv.len(), s, t, act),
    ensures
        act is Continue,
        t.vals == base,
        t.env.len() == s.env.len() + 1,
        t.env.drop_last() == s.env,
        f.declaration matches Stmt::Function { params, .. } && (forall|i: int|
            0 <= i < argv.len() ==> t.env.last().contains_key(#[trigger] params@[i].lexeme@)
                && t.env.last()[params@[i].lexeme@] == argv[i]) && (forall|k: Seq<char>|
            t.env.last().contains_key(k) ==> exists|i: int|
                0 <= i < argv.len() && #[trigger] params@[i].lexeme@ == k),
{
    law_arguments_in_order(base.push(Value::ForeignFn(f)), argv);
    assert(top(base.push(Value::ForeignFn(f))) == Value::<'a, N>::ForeignFn(f));
    assert(below(base.push(Value::ForeignFn(f))) =~= base);
    match f.declaration {
        Stmt::Function { params, .. } => {
            let env0 = s.env.push(Map::empty());
            law_bind_in_order(env0, params@, argv);
            assert(env0.drop_last() =~= s.env);
            assert(t.env == bind(env0, params@, argv));
            assert(env0.last() == Map::<Seq<char>, Value<'a, N>>::empty());
            assert forall|k: Seq<char>| t.env.last().contains_key(k) implies exists|i: int|
                0 <= i < argv.len() && #[trigger] params@[i].lexeme@ == k by {
                if names_none(params@, k) {
                    assert(!env0.last().contains_key(k));
                    assert(!t.env.last().contains_key(k));
                }
            }
        },
        _ => {},
    }
}

/// Two strings are equal under `==` exactly when they hold the same
/// characters: strings that differ anywhere, even of the same length, are
/// unequal, and a string never equals a value of another kind.
pub proof fn law_string_equality<'a, N>(x: String, y: String, v: Value<'a, N>)
    ensures
        equal_values(Value::<'a, N>::String(x), Value::String(y)) == (x@ == y@),
        x@.len() == y@.len() && x@ != y@ ==> !equal_values(
            Value::<'a, N>::String(x),
            Value::String(y),
        ),
        !(v is String) ==> !equal_values(Value::<'a, N>::String(x), v) && !equal_values(
            v,
            Value::<'a, N>::String(x),
        ),
{
}

/// Only `nil` and `false` count as false: `true`, every number, every
/// string (the empty one too) and every function count as true.
pub proof fn law_truthiness<'a, N>(v: Value<'a, N>)
    ensures
        truthy(v) == !(v is Nil || v == Value::<'a, N>::Bool(false)),
        truthy(Value::<'a, N>::Bool(true)),
        !truthy(Value::<'a, N>::Nil),
{
}

/// `nil` equals only `nil`, and booleans are equal exactly when they are
/// the same boolean.
pub proof fn law_nil_and_boolean_equality<'a, N>(x: bool, y: bool, v: Value<'a, N>)
    ensures
        equal_values(Value::<'a, N>::Bool(x), Value::Bool(y)) == (x == y),
        equal_values(Value::<'a, N>::Nil, v) == (v is Nil),
        equal_values(v, Value::<'a, N>::Nil) == (v is Nil),
        equal_values(Value::<'a, N>::Bool(x), v) ==> v == Value::<'a, N>::Bool(x),
{
}

/// A value prints as it is written: a string as its own characters, and
/// `nil`, `true` and `false` as the keywords that stand for them, so no two
/// of these print alike.
pub proof fn law_value_text<'a, N>(s: String, b: bool)
    ensures
        text_of(Value::<'a, N>::String(s)) == Some(s@),
        keyword_type(text_of(Value::<'a, N>::Nil).unwrap()) == TokenType::NIL,
        keyword_type(text_of(Value::<'a, N>::Bool(b)).unwrap()) == if b {
            TokenType::TRUE
        } else {
            TokenType::FALSE
        },
{
    reveal_strlit("and");
    reveal_strlit("class");
    reveal_strlit("else");
    reveal_strlit("false");
    reveal_strlit("fun");
    reveal_strlit("for");
    reveal_strlit("if");
    reveal_strlit("nil");
    reveal_strlit("or");
    reveal_strlit("print");
    reveal_strlit("return");
    reveal_strlit("super");
    reveal_strlit("this");
    reveal_strlit("true");
    assert("nil"@[0] != "and"@[0]);
    assert("nil"@.len() != "class"@.len());
    assert("nil"@.len() != "else"@.len());
    assert("nil"@.len() != "false"@.len());
    assert("nil"@[0] != "fun"@[0]);
    assert("nil"@[0] != "for"@[0]);
    assert("nil"@.len() != "if"@.len());
    assert("true"@.len() != "and"@.len());
    assert("true"@.len() != "class"@.len());
    assert("true"@[0] != "else"@[0]);
    assert("true"@.len() != "false"@.len());
    assert("true"@.len() != "fun"@.len());
    assert("true"@.len() != "for"@.len());
    assert("true"@.len() != "if"@.len());
    assert("true"@.len() != "nil"@.len());
    assert("true"@.len() != "or"@.len());
    assert("true"@.len() != "print"@.len());
    assert("true"@.len() != "return"@.len());
    assert("true"@.len() != "super"@.len());
    assert("true"@[1] != "this"@[1]);
    assert("false"@.len() != "and"@.len());
    assert("false"@[0] != "class"@[0]);
    assert("false"@.len() != "else"@.len());
}

/// The symbol of an arithmetic operation.
pub open spec fn arith_symbol(op: ArithOp) -> Seq<char> {
    match op {
        ArithOp::Add => "+"@,
        ArithOp::Subtract => "-"@,
        ArithOp::Multiply => "*"@,
        ArithOp::Divide => "/"@,
    }
}

/// The symbol of a comparison.
pub open spec fn compare_symbol(op: CompareOp) -> Seq<char> {
    match op {
        CompareOp::Greater => ">"@,
        CompareOp::GreaterEqual => ">="@,
        CompareOp::Less => "<"@,
        CompareOp::LessEqual => "<="@,
        CompareOp::Equal => "=="@,
        CompareOp::NotEqual => "!="@,
    }
}

/// On two numbers an arithmetic or comparison operator asks the host for
/// the operation written with the operator's own symbol, on the left
/// operand then the right one: `a - b` asks for `a - b`, never `b - a` nor
/// another operation.
pub proof fn law_operators_ask_their_symbol<'a, N>(
    op: Token,
    x: N,
    y: N,
    s: InterpretV<'a, N>,
    t: InterpretV<'a, N>,
    act: Action<'a, N>,
)
    requires
        binary_rel(op, Value::Number(x), Value::Number(y), s, t, act),
    ensures
        match act {
            Action::Arith(o, a, b) => spelling(op.token_ty) == Some(arith_symbol(o)) && a == x && b
                == y,
            Action::Compare(o, a, b) => spelling(op.token_ty) == Some(compare_symbol(o)) && a == x
                && b == y,
            _ => spelling(op.token_ty) is None || op.token_ty == TokenType::BANG || op.token_ty
                == TokenType::EQUAL || op.token_ty == TokenType::LEFT_PAREN || op.token_ty
                == TokenType::RIGHT_PAREN || op.token_ty == TokenType::LEFT_BRACE || op.token_ty
                == TokenType::RIGHT_BRACE || op.token_ty == TokenType::COMMA || op.token_ty
                == TokenType::DOT || op.token_ty == TokenType::SEMICOLON,
        },
{
}

} // verus!
