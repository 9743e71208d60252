//! Environments: a stack of scopes, each binding names to values. The
//! innermost scope is the last one; a name is looked up from the innermost
//! scope outwards.
use vstd::prelude::*;

use crate::text::{push_str, string_from_chars};

verus! {

broadcast use vstd::string::group_string_axioms;

/// The bindings of one scope, later entries taking precedence.
pub open spec fn scope_view<V>(s: Seq<(String, V)>) -> Map<Seq<char>, V>
    decreases s.len(),
{
    if s.len() == 0 {
        Map::empty()
    } else {
        scope_view(s.drop_last()).insert(s.last().0@, s.last().1)
    }
}

/// The value bound to `name` by the innermost scope that binds it.
pub open spec fn env_get<V>(scopes: Seq<Map<Seq<char>, V>>, name: Seq<char>) -> Option<V>
    decreases scopes.len(),
{
    if scopes.len() == 0 {
        None
    } else if scopes.last().contains_key(name) {
        Some(scopes.last()[name])
    } else {
        env_get(scopes.drop_last(), name)
    }
}

/// The index of the innermost scope that binds `name`.
pub open spec fn defining_scope<V>(scopes: Seq<Map<Seq<char>, V>>, name: Seq<char>) -> Option<int>
    decreases scopes.len(),
{
    if scopes.len() == 0 {
        None
    } else if scopes.last().contains_key(name) {
        Some(scopes.len() - 1)
    } else {
        defining_scope(scopes.drop_last(), name)
    }
}

/// Binds `name` to `value` in the innermost scope.
pub open spec fn define_spec<V>(scopes: Seq<Map<Seq<char>, V>>, name: Seq<char>, value: V) -> Seq<
    Map<Seq<char>, V>,
> {
    scopes.update(scopes.len() - 1, scopes.last().insert(name, value))
}

/// Rebinds `name` to `value` in the innermost scope that binds it; fails
/// when no scope does.
pub open spec fn assign_spec<V>(scopes: Seq<Map<Seq<char>, V>>, name: Seq<char>, value: V) -> Option<
    Seq<Map<Seq<char>, V>>,
> {
    match defining_scope(scopes, name) {
        Some(i) => Some(scopes.update(i, scopes[i].insert(name, value))),
        None => None,
    }
}

/// The message of an assignment to a name no scope binds.
pub open spec fn undefined_message(name: Seq<char>) -> Seq<char> {
    "Undefined variable '"@ + name + "'."@
}

/// A stack of scopes; `nil` is the value of a variable declared without
/// one. Each scope is a list of bindings searched from its end: lookups in
/// a hash map keyed by `String` have no specification in vstd to prove
/// against, and a chain of shared scopes behind `Rc<RefCell<..>>` is not
/// supported by Verus.
pub struct Env<V> {
    scopes: Vec<Vec<(String, V)>>,
    nil: V,
}

impl<V> View for Env<V> {
    type V = Seq<Map<Seq<char>, V>>;

    closed spec fn view(&self) -> Seq<Map<Seq<char>, V>> {
        self.scopes@.map_values(|s: Vec<(String, V)>| scope_view(s@))
    }
}

// ----------------------------------------------------------------- lemmas
/// The last entry for `name`, searching from index `k` down.
pub open spec fn last_index<V>(s: Seq<(String, V)>, name: Seq<char>) -> Option<int>
    decreases s.len(),
{
    if s.len() == 0 {
        None
    } else if s.last().0@ == name {
        Some(s.len() - 1)
    } else {
        last_index(s.drop_last(), name)
    }
}

pub proof fn lemma_last_index<V>(s: Seq<(String, V)>, name: Seq<char>)
    ensures
        match last_index(s, name) {
            Some(i) => 0 <= i < s.len() && s[i].0@ == name && scope_view(s).contains_key(name)
                && scope_view(s)[name] == s[i].1 && forall|j: int| i < j < s.len() ==> s[j].0@ != name,
            None => !scope_view(s).contains_key(name) && forall|j: int|
                0 <= j < s.len() ==> s[j].0@ != name,
        },
    decreases s.len(),
{
    if s.len() > 0 {
        let d = s.drop_last();
        lemma_last_index(d, name);
        assert forall|j: int| 0 <= j < d.len() implies d[j] == s[j] by {}
        if s.last().0@ != name {
            assert(scope_view(s) == scope_view(d).insert(s.last().0@, s.last().1));
            assert(scope_view(s).contains_key(name) == scope_view(d).contains_key(name));
            match last_index(d, name) {
                Some(i) => {
                    assert(scope_view(s)[name] == scope_view(d)[name]);
                },
                None => {},
            }
        }
    }
}

/// Overwriting the last entry for `name` rebinds it.
pub proof fn lemma_scope_update<V>(s: Seq<(String, V)>, i: int, name: String, value: V)
    requires
        last_index(s, name@) == Some(i),
    ensures
        scope_view(s.update(i, (name, value))) == scope_view(s).insert(name@, value),
    decreases s.len(),
{
    lemma_last_index(s, name@);
    let u = s.update(i, (name, value));
    if i == s.len() - 1 {
        assert(u.drop_last() =~= s.drop_last());
    } else {
        assert(u.drop_last() =~= s.drop_last().update(i, (name, value)));
        lemma_scope_update(s.drop_last(), i, name, value);
        assert(scope_view(u) =~= scope_view(s).insert(name@, value));
    }
}

pub proof fn lemma_env_get<V>(scopes: Seq<Map<Seq<char>, V>>, name: Seq<char>)
    ensures
        match defining_scope(scopes, name) {
            Some(i) => 0 <= i < scopes.len() && scopes[i].contains_key(name) && env_get(
                scopes,
                name,
            ) == Some(scopes[i][name]) && forall|j: int|
                i < j < scopes.len() ==> !scopes[j].contains_key(name),
            None => env_get(scopes, name) is None && forall|j: int|
                0 <= j < scopes.len() ==> !scopes[j].contains_key(name),
        },
    decreases scopes.len(),
{
    if scopes.len() > 0 {
        let d = scopes.drop_last();
        lemma_env_get(d, name);
        assert forall|j: int| 0 <= j < d.len() implies d[j] == scopes[j] by {}
    }
}

/// The index of the last entry for `name` in a scope.
pub fn find_last<V>(scope: &Vec<(String, V)>, name: &String) -> (r: Option<usize>)
    ensures
        match r {
            Some(i) => last_index(scope@, name@) == Some(i as int),
            None => last_index(scope@, name@) is None,
        },
{
    let mut i = scope.len();
    assert(scope@.take(i as int) =~= scope@);
    while i > 0
        invariant
            i <= scope@.len(),
            last_index(scope@, name@) == last_index(scope@.take(i as int), name@),
        decreases i,
    {
        let ghost pre = scope@.take(i as int);
        assert(pre.drop_last() =~= scope@.take(i - 1));
        if scope[i - 1].0 == *name {
            return Some(i - 1);
        }
        i = i - 1;
    }
    None
}

impl<V> Env<V> {
    /// The environment has a global scope.
    pub open spec fn wf(&self) -> bool {
        self@.len() >= 1
    }

    /// The value of a variable declared without one.
    pub closed spec fn nil_value(&self) -> V {
        self.nil
    }

    proof fn lemma_view(&self)
        ensures
            self@.len() == self.scopes@.len(),
            forall|k: int|
                0 <= k < self.scopes@.len() ==> #[trigger] self@[k] == scope_view(
                    self.scopes@[k]@,
                ),
    {
    }

    /// An environment with only an empty global scope.
    pub fn new(nil: V) -> (r: Self)
        ensures
            r@ == seq![Map::<Seq<char>, V>::empty()],
            r.nil_value() == nil,
    {
        let mut scopes: Vec<Vec<(String, V)>> = Vec::new();
        scopes.push(Vec::new());
        let r = Env { scopes, nil };
        assert(r@ =~= seq![Map::<Seq<char>, V>::empty()]);
        r
    }

    /// Opens a new innermost scope.
    pub fn push_scope(&mut self)
        ensures
            final(self)@ == old(self)@.push(Map::empty()),
            final(self).nil_value() == old(self).nil_value(),
    {
        self.scopes.push(Vec::new());
        assert(self@ =~= old(self)@.push(Map::empty()));
    }

    /// Closes the innermost scope.
    pub fn pop_scope(&mut self)
        requires
            old(self)@.len() >= 2,
        ensures
            final(self)@ == old(self)@.drop_last(),
            final(self).nil_value() == old(self).nil_value(),
    {
        let _ = self.scopes.pop();
        assert(self@ =~= old(self)@.drop_last());
    }

    /// Closes every scope but the global one.
    pub fn close_scopes(&mut self)
        requires
            old(self).wf(),
        ensures
            final(self)@ == old(self)@.take(1),
            final(self).nil_value() == old(self).nil_value(),
    {
        while self.scopes.len() > 1
            invariant
                1 <= self@.len() <= old(self)@.len(),
                self@ == old(self)@.take(self@.len() as int),
                old(self)@.len() >= 1,
                self.nil_value() == old(self).nil_value(),
            decreases self@.len(),
        {
            proof {
                self.lemma_view();
            }
            let ghost k: int = self@.len() as int;
            self.pop_scope();
            assert(old(self)@.take(k).drop_last() =~= old(self)@.take(k - 1));
        }
        proof {
            self.lemma_view();
        }
    }

    /// The number of scopes.
    pub fn depth(&self) -> (r: usize)
        ensures
            r == self@.len(),
    {
        self.scopes.len()
    }

    /// The index, in scope `k`, of the last entry for `name`.
    fn find_in(&self, k: usize, name: &String) -> (r: Option<usize>)
        requires
            k < self.scopes@.len(),
        ensures
            match r {
                Some(i) => last_index(self.scopes@[k as int]@, name@) == Some(i as int),
                None => last_index(self.scopes@[k as int]@, name@) is None,
            },
    {
        find_last(&self.scopes[k], name)
    }

    /// The innermost scope, at or below `top`, that binds `name`.
    fn find_scope(&self, top: usize, name: &String) -> (r: Option<(usize, usize)>)
        requires
            top <= self.scopes@.len(),
        ensures
            match r {
                Some((k, i)) => defining_scope(self@.take(top as int), name@) == Some(k as int)
                    && k < top && last_index(self.scopes@[k as int]@, name@) == Some(i as int),
                None => defining_scope(self@.take(top as int), name@) is None,
            },
    {
        let mut k = top;
        while k > 0
            invariant
                k <= top <= self.scopes@.len(),
                defining_scope(self@.take(top as int), name@) == defining_scope(
                    self@.take(k as int),
                    name@,
                ),
            decreases k,
        {
            proof {
                self.lemma_view();
                lemma_last_index(self.scopes@[k - 1]@, name@);
                assert(self@.take(k as int).drop_last() =~= self@.take(k - 1));
            }
            match self.find_in(k - 1, name) {
                Some(i) => {
                    return Some((k - 1, i));
                },
                None => {},
            }
            k = k - 1;
        }
        None
    }

    /// The value bound to `name` by the innermost scope that binds it.
    pub fn get(&self, name: &str) -> (r: Option<&V>)
        ensures
            match r {
                Some(v) => env_get(self@, name@) == Some(*v),
                None => env_get(self@, name@) is None,
            },
    {
        let n = self.scopes.len();
        proof {
            self.lemma_view();
            assert(self@.take(n as int) =~= self@);
            lemma_env_get(self@, name@);
        }
        let key = String::from_str(name);
        match self.find_scope(n, &key) {
            Some((k, i)) => {
                proof {
                    lemma_last_index(self.scopes@[k as int]@, name@);
                }
                Some(&self.scopes[k][i].1)
            },
            None => None,
        }
    }

    /// A clone of the value bound to `name` by the innermost scope that
    /// binds it.
    pub fn get_owned(&self, name: &str) -> (r: Option<V>) where V: Clone
        ensures
            match r {
                Some(v) => env_get(self@, name@) matches Some(x) && cloned(x, v),
                None => env_get(self@, name@) is None,
            },
    {
        match self.get(name) {
            Some(v) => Some(v.clone()),
            None => None,
        }
    }

    /// Replaces entry `i` of scope `k`.
    fn overwrite(&mut self, k: usize, i: usize, name: String, value: V)
        requires
            k < old(self).scopes@.len(),
            last_index(old(self).scopes@[k as int]@, name@) == Some(i as int),
        ensures
            final(self)@ == old(self)@.update(k as int, old(self)@[k as int].insert(name@, value)),
            final(self).nil_value() == old(self).nil_value(),
    {
        proof {
            old(self).lemma_view();
            lemma_last_index(old(self).scopes@[k as int]@, name@);
            lemma_scope_update(old(self).scopes@[k as int]@, i as int, name, value);
        }
        let mut scope = self.scopes.remove(k);
        let ghost s0 = scope@;
        let _ = scope.remove(i);
        scope.insert(i, (name, value));
        assert(scope@ =~= s0.update(i as int, (name, value)));
        self.scopes.insert(k, scope);
        proof {
            self.lemma_view();
            assert(self@ =~= old(self)@.update(k as int, old(self)@[k as int].insert(name@, value)));
        }
    }

    /// Binds `name` in the innermost scope to `value`, or to the nil value
    /// when there is none.
    pub fn define(&mut self, name: String, value: Option<V>) where V: Clone
        requires
            old(self).wf(),
        ensures
            final(self).wf(),
            final(self).nil_value() == old(self).nil_value(),
            match value {
                Some(v) => final(self)@ == define_spec(old(self)@, name@, v),
                None => exists|v: V|
                    cloned(old(self).nil_value(), v) && final(self)@ == define_spec(
                        old(self)@,
                        name@,
                        v,
                    ),
            },
    {
        let ghost given = value;
        let v = match value {
            Some(v) => v,
            None => {
                let c = self.nil.clone();
                assert(cloned(self.nil, c));
                c
            },
        };
        assert(given matches Some(x) ==> x == v);
        let ghost nm0 = name@;
        let k = self.scopes.len() - 1;
        proof {
            self.lemma_view();
        }
        match self.find_in(k, &name) {
            Some(i) => {
                let ghost nm = name@;
                assert(k == old(self)@.len() - 1);
                assert(old(self)@[k as int] == old(self)@.last());
                self.overwrite(k, i, name, v);
                assert(self@ == define_spec(old(self)@, nm, v));
            },
            None => {
                proof {
                    lemma_last_index(self.scopes@[k as int]@, name@);
                }
                let mut scope = self.scopes.pop().unwrap();
                let ghost s0 = scope@;
                scope.push((name, v));
                assert(scope@.drop_last() =~= s0);
                self.scopes.push(scope);
                proof {
                    self.lemma_view();
                    assert(self@ =~= define_spec(old(self)@, nm0, v));
                }
            },
        }
        assert(self@ == define_spec(old(self)@, nm0, v));
        assert(given matches Some(x) ==> self@ == define_spec(old(self)@, nm0, x));
        assert(given is None ==> cloned(old(self).nil_value(), v));
    }

    /// Rebinds `name` to `value` in the innermost scope that binds it.
    /// Fails with `Undefined variable 'name'.` when no scope binds it, and
    /// then changes nothing.
    pub fn assign(&mut self, name: String, value: V) -> (r: Result<(), String>)
        ensures
            final(self).nil_value() == old(self).nil_value(),
            final(self)@.len() == old(self)@.len(),
            match assign_spec(old(self)@, name@, value) {
                Some(s) => r is Ok && final(self)@ == s,
                None => r matches Err(m) && m@ == undefined_message(name@) && final(self)@ == old(
                    self,
                )@,
            },
    {
        let n = self.scopes.len();
        proof {
            self.lemma_view();
            assert(self@.take(n as int) =~= self@);
            lemma_env_get(self@, name@);
        }
        match self.find_scope(n, &name) {
            Some((k, i)) => {
                self.overwrite(k, i, name, value);
                Ok(())
            },
            None => {
                let mut m: Vec<char> = Vec::new();
                push_str(&mut m, "Undefined variable '");
                push_str(&mut m, name.as_str());
                push_str(&mut m, "'.");
                Err(string_from_chars(m))
            },
        }
    }
}

impl<V> Env<V> {
    /// The value of `name` looked up from the scope `distance` levels out:
    /// the whole chain for distance 0, and from the enclosing scope for any
    /// larger distance (only the innermost scope is ever skipped).
    pub fn get_at(&self, distance: usize, name: &str) -> (r: Option<V>) where V: Clone
        requires
            distance == 0 || self@.len() >= 2,
        ensures
            ({
                let skip: int = if distance == 0 {
                    0
                } else {
                    1
                };
                match r {
                    Some(v) => env_get(self@.take(self@.len() - skip), name@) matches Some(x) && cloned(x, v),
                    None => env_get(self@.take(self@.len() - skip), name@) is None,
                }
            }),
    {
        let n = self.scopes.len();
        let top = if distance == 0 {
            n
        } else {
            n - 1
        };
        proof {
            self.lemma_view();
            lemma_env_get(self@.take(top as int), name@);
        }
        let key = String::from_str(name);
        match self.find_scope(top, &key) {
            Some((k, i)) => {
                proof {
                    lemma_last_index(self.scopes@[k as int]@, name@);
                    assert(self@.take(top as int)[k as int] == self@[k as int]);
                }
                Some(self.scopes[k][i].1.clone())
            },
            None => None,
        }
    }

    /// Assigns `name` in the scopes from `distance` levels out: the
    /// innermost of those that binds it is rebound; when none does, nothing
    /// changes.
    pub fn assigne_at(&mut self, distance: usize, name: String, value: V)
        requires
            distance < old(self)@.len(),
        ensures
            final(self).nil_value() == old(self).nil_value(),
            ({
                let top = old(self)@.len() - distance;
                match defining_scope(old(self)@.take(top), name@) {
                    Some(i) => final(self)@ == old(self)@.update(i, old(self)@[i].insert(name@, value)),
                    None => final(self)@ == old(self)@,
                }
            }),
    {
        let top = self.scopes.len() - distance;
        proof {
            self.lemma_view();
            lemma_env_get(self@.take(top as int), name@);
        }
        match self.find_scope(top, &name) {
            Some((k, i)) => {
                proof {
                    assert(self@.take(top as int)[k as int] == self@[k as int]);
                }
                self.overwrite(k, i, name, value);
            },
            None => {},
        }
    }
}

// ------------------------------------------------------------------- laws
/// A variable reads back the value it was just defined with.
pub proof fn law_define_then_get<V>(scopes: Seq<Map<Seq<char>, V>>, name: Seq<char>, value: V)
    requires
        scopes.len() >= 1,
    ensures
        env_get(define_spec(scopes, name, value), name) == Some(value),
{
    let s2 = define_spec(scopes, name, value);
    assert(s2.last() == scopes.last().insert(name, value));
}

/// Defining a variable leaves every other name as it was.
pub proof fn law_define_keeps_others<V>(
    scopes: Seq<Map<Seq<char>, V>>,
    name: Seq<char>,
    value: V,
    other: Seq<char>,
)
    requires
        scopes.len() >= 1,
        other != name,
    ensures
        env_get(define_spec(scopes, name, value), other) == env_get(scopes, other),
{
    let s2 = define_spec(scopes, name, value);
    assert(s2.drop_last() =~= scopes.drop_last());
    assert(s2.last() == scopes.last().insert(name, value));
}

/// An assignment succeeds exactly when some scope binds the name.
pub proof fn law_assign_defined<V>(scopes: Seq<Map<Seq<char>, V>>, name: Seq<char>, value: V)
    ensures
        assign_spec(scopes, name, value) is Some <==> env_get(scopes, name) is Some,
{
    lemma_env_get(scopes, name);
}

/// After an assignment the name reads back the assigned value, and every
/// other name reads as before.
pub proof fn law_assign_then_get<V>(
    scopes: Seq<Map<Seq<char>, V>>,
    name: Seq<char>,
    value: V,
    other: Seq<char>,
)
    requires
        assign_spec(scopes, name, value) is Some,
    ensures
        env_get(assign_spec(scopes, name, value).unwrap(), name) == Some(value),
        other != name ==> env_get(assign_spec(scopes, name, value).unwrap(), other) == env_get(
            scopes,
            other,
        ),
{
    lemma_env_get(scopes, name);
    let i = defining_scope(scopes, name).unwrap();
    let s2 = assign_spec(scopes, name, value).unwrap();
    lemma_env_get(s2, name);
    lemma_env_get(scopes, other);
    lemma_env_get(s2, other);
    assert forall|j: int| 0 <= j < scopes.len() && j != i implies s2[j] == scopes[j] by {}
    assert(s2[i] == scopes[i].insert(name, value));
    match defining_scope(s2, name) {
        Some(k) => {
            if k != i {
                assert(s2[i].contains_key(name));
            }
        },
        None => {
            assert(s2[i].contains_key(name));
        },
    }
    if other != name {
        match (defining_scope(scopes, other), defining_scope(s2, other)) {
            (Some(a), Some(b)) => {
                if a < b {
                    assert(s2[b].contains_key(other));
                    assert(scopes[b].contains_key(other));
                } else if b < a {
                    assert(scopes[a].contains_key(other));
                }
            },
            (Some(a), None) => {
                assert(s2[a].contains_key(other));
            },
            (None, Some(b)) => {
                assert(scopes[b].contains_key(other));
            },
            (None, None) => {},
        }
    }
}

/// What a block defines does not outlive it: defining a name in a fresh
/// innermost scope and closing that scope gives back the scopes before.
pub proof fn law_block_scoping<V>(scopes: Seq<Map<Seq<char>, V>>, name: Seq<char>, value: V)
    ensures
        define_spec(scopes.push(Map::empty()), name, value).drop_last() == scopes,
{
    assert(define_spec(scopes.push(Map::empty()), name, value).drop_last() =~= scopes);
}

/// Assigning a name bound in the innermost scope leaves the enclosing
/// scopes, where it may be shadowed, untouched.
pub proof fn law_assign_shadowed<V>(scopes: Seq<Map<Seq<char>, V>>, name: Seq<char>, value: V)
    requires
        scopes.len() >= 1,
        scopes.last().contains_key(name),
    ensures
        assign_spec(scopes, name, value) matches Some(s2) && s2.drop_last() == scopes.drop_last()
            && s2.last() == scopes.last().insert(name, value),
{
    let s2 = assign_spec(scopes, name, value).unwrap();
    assert(s2.drop_last() =~= scopes.drop_last());
}

/// Assigning from inside a fresh scope a name bound outside it rebinds it
/// outside: the scopes left after closing the inner one are those the same
/// assignment would have given there.
pub proof fn law_assign_through_scope<V>(scopes: Seq<Map<Seq<char>, V>>, name: Seq<char>, value: V)
    ensures
        match assign_spec(scopes, name, value) {
            Some(s2) => assign_spec(scopes.push(Map::empty()), name, value) == Some(
                s2.push(Map::empty()),
            ),
            None => assign_spec(scopes.push(Map::empty()), name, value) is None,
        },
{
    let p = scopes.push(Map::<Seq<char>, V>::empty());
    assert(p.drop_last() =~= scopes);
    match assign_spec(scopes, name, value) {
        Some(s2) => {
            let i = defining_scope(scopes, name).unwrap();
            lemma_env_get(scopes, name);
            assert(p.update(i, p[i].insert(name, value)) =~= s2.push(Map::empty()));
        },
        None => {},
    }
}

} // verus!
