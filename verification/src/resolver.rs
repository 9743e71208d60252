//! Static resolution of names: a stack of block scopes recording which
//! names each declares, and whether their declaration is complete.
use vstd::prelude::*;

use crate::ast::{Expr, ExprV, Stmt, StmtV};
use crate::env::{find_last, last_index, lemma_last_index, scope_view};
use crate::interpret::Interpret;
use crate::token::Token;

verus! {

broadcast use vstd::string::group_string_axioms;

/// An error found before the program runs.
pub struct CompileTimeError {
    pub token: Token,
    pub message: &'static str,
}

pub type ResolverResult<T> = Result<T, CompileTimeError>;

/// Records `name` as declared, but not yet defined, in the innermost scope
/// (when there is one).
pub open spec fn declare_spec(scopes: Seq<Map<Seq<char>, bool>>, name: Seq<char>) -> Seq<
    Map<Seq<char>, bool>,
> {
    if scopes.len() == 0 {
        scopes
    } else {
        scopes.update(scopes.len() - 1, scopes.last().insert(name, false))
    }
}

/// What resolving a statement does to the scopes: declarations of
/// variables and functions are recorded in the innermost scope, also when
/// they stand as the branch of an `if` or the body of a `while`; blocks and
/// function bodies open and close their own scopes.
pub open spec fn resolve_effect(scopes: Seq<Map<Seq<char>, bool>>, st: StmtV) -> Seq<
    Map<Seq<char>, bool>,
>
    decreases st,
{
    match st {
        StmtV::Var(name, _) => declare_spec(scopes, name.lexeme),
        StmtV::Function(name, _, _) => declare_spec(scopes, name.lexeme),
        StmtV::If(_, th, el) => {
            let s1 = resolve_effect(scopes, *th);
            match el {
                Some(e) => resolve_effect(s1, *e),
                None => s1,
            }
        },
        StmtV::While(_, body) => resolve_effect(scopes, *body),
        _ => scopes,
    }
}

/// Whether resolving an expression reports a variable read in the scope
/// that declares it: a variable is reported when the innermost scope has a
/// record of its name.
pub open spec fn reads_own_declaration(scopes: Seq<Map<Seq<char>, bool>>, e: ExprV) -> bool {
    match e {
        ExprV::Variable(name) => scopes.len() > 0 && scopes.last().contains_key(name.lexeme),
        _ => false,
    }
}

pub struct Resolver<'a, N> {
    scopes: Vec<Vec<(String, bool)>>,
    interpret: Interpret<'a, N>,
}

impl<'a, N> View for Resolver<'a, N> {
    type V = Seq<Map<Seq<char>, bool>>;

    closed spec fn view(&self) -> Seq<Map<Seq<char>, bool>> {
        self.scopes@.map_values(|s: Vec<(String, bool)>| scope_view(s@))
    }
}

impl<'a, N> Resolver<'a, N> {
    /// The interpreter the resolver was made for.
    pub closed spec fn interpreter(&self) -> Interpret<'a, N> {
        self.interpret
    }

    proof fn lemma_view(&self)
        ensures
            self@.len() == self.scopes@.len(),
            forall|k: int|
                0 <= k < self.scopes@.len() ==> #[trigger] self@[k] == scope_view(
                    self.scopes@[k]@,
                ),
    {
    }

    /// A resolver outside any block, for the given interpreter.
    pub fn new(interpret: Interpret<'a, N>) -> (r: Self)
        ensures
            r@ == Seq::<Map<Seq<char>, bool>>::empty(),
            r.interpreter() == interpret,
    {
        let r = Resolver { scopes: Vec::new(), interpret };
        assert(r@ =~= Seq::<Map<Seq<char>, bool>>::empty());
        r
    }

    fn begin_scope(&mut self)
        ensures
            final(self).interpreter() == old(self).interpreter(),
            final(self)@ == old(self)@.push(Map::empty()),
    {
        self.scopes.push(Vec::new());
        assert(self@ =~= old(self)@.push(Map::empty()));
    }

    fn end_scrop(&mut self)
        ensures
            final(self).interpreter() == old(self).interpreter(),
            old(self)@.len() > 0 ==> final(self)@ == old(self)@.drop_last(),
            old(self)@.len() == 0 ==> final(self)@ == old(self)@,
    {
        let _ = self.scopes.pop();
        assert(old(self)@.len() > 0 ==> self@ =~= old(self)@.drop_last());
        assert(old(self)@.len() == 0 ==> self@ =~= old(self)@);
    }

    /// Whether no scope is open.
    pub fn is_scope_empty(&self) -> (r: bool)
        ensures
            r == (self@.len() == 0),
    {
        self.scopes.len() == 0
    }

    /// Whether the innermost scope has a record of `name`.
    fn current_scope_has(&self, name: &String) -> (r: bool)
        ensures
            r == (self@.len() > 0 && self@.last().contains_key(name@)),
    {
        if self.scopes.len() == 0 {
            return false;
        }
        let k = self.scopes.len() - 1;
        proof {
            self.lemma_view();
            lemma_last_index(self.scopes@[k as int]@, name@);
        }
        find_last(&self.scopes[k], name).is_some()
    }

    fn declare(&mut self, name: &Token)
        ensures
            final(self).interpreter() == old(self).interpreter(),
            final(self)@ == declare_spec(old(self)@, name.lexeme@),
    {
        if self.is_scope_empty() {
            return;
        }
        let mut scope = self.scopes.pop().unwrap();
        let ghost s0 = scope@;
        proof {
            lemma_last_index(s0, name.lexeme@);
        }
        match find_last(&scope, &name.lexeme) {
            Some(i) => {
                let _ = scope.remove(i);
                scope.insert(i, (name.lexeme.clone(), false));
                proof {
                    crate::env::lemma_scope_update(s0, i as int, name.lexeme, false);
                    assert(scope@ =~= s0.update(i as int, (name.lexeme, false)));
                }
            },
            None => {
                scope.push((name.lexeme.clone(), false));
                assert(scope@.drop_last() =~= s0);
            },
        }
        self.scopes.push(scope);
        proof {
            self.lemma_view();
            old(self).lemma_view();
            assert(self@ =~= declare_spec(old(self)@, name.lexeme@));
        }
    }

    /// Completes the declaration of `name`. (The record is left as
    /// declared: this step changes nothing.)
    fn define(&mut self, name: &Token)
        ensures
            final(self).interpreter() == old(self).interpreter(),
            final(self)@ == old(self)@,
    {
        if self.is_scope_empty() {
            return;
        }
    }

    /// Finds the scope that declares `name`: how many scopes out from the
    /// innermost it is.
    fn resolve_local(&self, name: &Token) -> (r: Option<usize>)
        ensures
            match r {
                Some(d) => d < self@.len() && self@[self@.len() - 1 - d].contains_key(name.lexeme@)
                    && forall|j: int|
                    self@.len() - 1 - d < j < self@.len() ==> !self@[j].contains_key(name.lexeme@),
                None => forall|j: int| 0 <= j < self@.len() ==> !self@[j].contains_key(name.lexeme@),
            },
    {
        let n = self.scopes.len();
        let mut d: usize = 0;
        proof {
            self.lemma_view();
        }
        while d < n
            invariant
                n == self@.len(),
                d <= n,
                forall|j: int| n - d <= j < n ==> !self@[j].contains_key(name.lexeme@),
            decreases n - d,
        {
            let k = n - 1 - d;
            proof {
                self.lemma_view();
                lemma_last_index(self.scopes@[k as int]@, name.lexeme@);
            }
            if find_last(&self.scopes[k], &name.lexeme).is_some() {
                return Some(d);
            }
            d = d + 1;
        }
        None
    }

    /// Checks an expression: a variable read in the scope that declares it
    /// is an error.
    pub fn resolve_expr(&mut self, expr: &Expr) -> (r: ResolverResult<()>)
        ensures
            final(self).interpreter() == old(self).interpreter(),
            final(self)@ == old(self)@,
            r is Err <==> reads_own_declaration(old(self)@, expr@),
            r matches Err(e) ==> e.message@ == "Cannot assign a variable to itself"@ && expr@
                == ExprV::Variable(e.token@),
        decreases expr,
    {
        match expr {
            Expr::Variable { name } => {
                if self.current_scope_has(&name.lexeme) {
                    return Err(
                        CompileTimeError {
                            token: name.duplicate(),
                            message: "Cannot assign a variable to itself",
                        },
                    );
                }
                let _ = self.resolve_local(name);
                Ok(())
            },
            Expr::Assign { name, value } => {
                let _ = self.resolve_expr(value);
                let _ = self.resolve_local(name);
                Ok(())
            },
            _ => Ok(()),
        }
    }

    /// Resolves a function declaration: its parameters are declared in a
    /// scope of their own.
    fn resolve_fn(&mut self, params: &Vec<Token>)
        ensures
            final(self).interpreter() == old(self).interpreter(),
            final(self)@ == old(self)@,
    {
        self.begin_scope();
        let ghost inner = self@;
        let n = params.len();
        for k in 0..n
            invariant
                n == params@.len(),
                self@.len() == old(self)@.len() + 1,
                self@.drop_last() == old(self)@,
                self.interpreter() == old(self).interpreter(),
        {
            self.declare(&params[k]);
            self.define(&params[k]);
            assert(self@.drop_last() =~= old(self)@);
        }
        self.end_scrop();
    }

    fn resolve_stmt_ref(&mut self, stmt: &Stmt)
        ensures
            final(self).interpreter() == old(self).interpreter(),
            final(self)@ == resolve_effect(old(self)@, stmt@),
        decreases stmt,
    {
        match stmt {
            Stmt::Block { stmts: _ } => {
                self.begin_scope();
                self.end_scrop();
            },
            Stmt::Var { name, initializer } => {
                self.declare(name);
                if let Some(init) = initializer {
                    let _ = self.resolve_expr(init);
                }
                self.define(name);
            },
            Stmt::Function { name, params, body: _ } => {
                self.define(name);
                self.declare(name);
                self.resolve_fn(params);
            },
            Stmt::Expression { expr } => {
                let _ = self.resolve_expr(expr);
            },
            Stmt::IfStmt { condition, then_branch, else_branch } => {
                let _ = self.resolve_expr(condition);
                self.resolve_stmt_ref(then_branch);
                if let Some(else_branch) = else_branch {
                    self.resolve_stmt_ref(else_branch);
                }
            },
            Stmt::Print { expr } => {
                let _ = self.resolve_expr(expr);
            },
            Stmt::Return { keyword: _, value } => {
                if let Some(return_val) = value {
                    let _ = self.resolve_expr(return_val);
                }
            },
            Stmt::While { condition, body } => {
                let _ = self.resolve_expr(condition);
                self.resolve_stmt_ref(body);
            },
        }
    }

    /// Resolves a statement (see `resolve_effect`).
    pub fn resolve_stmt(&mut self, stmt: Stmt)
        ensures
            final(self).interpreter() == old(self).interpreter(),
            final(self)@ == resolve_effect(old(self)@, stmt@),
    {
        self.resolve_stmt_ref(&stmt);
    }
}

/// Resolving a statement leaves as many scopes open as there were: the
/// scopes a block or a function body opens are closed again.
pub proof fn law_resolve_keeps_depth(scopes: Seq<Map<Seq<char>, bool>>, st: StmtV)
    ensures
        resolve_effect(scopes, st).len() == scopes.len(),
    decreases st,
{
    match st {
        StmtV::If(_, th, el) => {
            law_resolve_keeps_depth(scopes, *th);
            match el {
                Some(e) => law_resolve_keeps_depth(resolve_effect(scopes, *th), *e),
                None => {},
            }
        },
        StmtV::While(_, body) => law_resolve_keeps_depth(scopes, *body),
        _ => {},
    }
}

} // verus!
