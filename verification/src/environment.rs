//! A chain of lexical scopes mapping variable names to values.
//!
//! The chain is a stack: the global scope at the bottom, the innermost scope
//! on top. Each scope is an association list with unique keys, modeled as a
//! `Map` from name to value; lookups and assignments act on the first scope,
//! searched innermost to outermost, that knows the name.

use vstd::prelude::*;

use crate::errors::{ErrorModel, LoxError};
use crate::location::Location;
use crate::value::{Value, ValueModel};

verus! {

use vstd::string::StringExecFns;

/// One scope: name/value pairs with pairwise distinct names.
pub open spec fn wf_scope(s: Seq<(String, Value)>) -> bool {
    forall|i: int, j: int| 0 <= i < j < s.len() ==> s[i].0@ != s[j].0@
}

/// The map a scope's association list denotes.
pub open spec fn scope_map(s: Seq<(String, Value)>) -> Map<Seq<char>, ValueModel>
    decreases s.len(),
{
    if s.len() == 0 {
        Map::empty()
    } else {
        scope_map(s.drop_last()).insert(s.last().0@, s.last().1.model())
    }
}

/// The model of a whole environment: one map per scope, innermost last.
pub type EnvModel = Seq<Map<Seq<char>, ValueModel>>;

/// Lookup walking the scopes innermost to outermost.
pub open spec fn env_get(m: EnvModel, name: Seq<char>) -> Option<ValueModel>
    decreases m.len(),
{
    if m.len() == 0 {
        None
    } else if m.last().contains_key(name) {
        Some(m.last()[name])
    } else {
        env_get(m.drop_last(), name)
    }
}

/// Whether any scope of the environment binds the name.
pub open spec fn env_has(m: EnvModel, name: Seq<char>) -> bool {
    exists|i: int| 0 <= i < m.len() && (#[trigger] m[i]).contains_key(name)
}

/// The innermost scope index binding the name.
pub open spec fn env_binding_scope(m: EnvModel, name: Seq<char>) -> int
    decreases m.len(),
{
    if m.len() == 0 {
        -1
    } else if m.last().contains_key(name) {
        m.len() - 1
    } else {
        env_binding_scope(m.drop_last(), name)
    }
}

/// A definition: insert into the innermost scope.
pub open spec fn env_define(m: EnvModel, name: Seq<char>, v: ValueModel) -> EnvModel
    recommends
        m.len() >= 1,
{
    if m.len() == 0 {
        m
    } else {
        m.update(m.len() - 1, m.last().insert(name, v))
    }
}

/// An assignment: overwrite in the innermost scope that binds the name.
pub open spec fn env_assign(m: EnvModel, name: Seq<char>, v: ValueModel) -> EnvModel
    recommends
        env_has(m, name),
{
    let i = env_binding_scope(m, name);
    m.update(i, m[i].insert(name, v))
}

proof fn lemma_scope_map_found(s: Seq<(String, Value)>, name: Seq<char>, j: int)
    requires
        wf_scope(s),
        0 <= j < s.len(),
        s[j].0@ == name,
    ensures
        scope_map(s).contains_key(name),
        scope_map(s)[name] == s[j].1.model(),
    decreases s.len(),
{
    if j == s.len() - 1 {
    } else {
        lemma_scope_map_found(s.drop_last(), name, j);
    }
}

proof fn lemma_scope_map_absent(s: Seq<(String, Value)>, name: Seq<char>)
    requires
        forall|j: int| 0 <= j < s.len() ==> (#[trigger] s[j]).0@ != name,
    ensures
        !scope_map(s).contains_key(name),
    decreases s.len(),
{
    if s.len() > 0 {
        lemma_scope_map_absent(s.drop_last(), name);
    }
}

proof fn lemma_scope_map_update(s: Seq<(String, Value)>, j: int, p: (String, Value))
    requires
        wf_scope(s),
        0 <= j < s.len(),
        s[j].0@ == p.0@,
    ensures
        scope_map(s.update(j, p)) == scope_map(s).insert(p.0@, p.1.model()),
        wf_scope(s.update(j, p)),
    decreases s.len(),
{
    let su = s.update(j, p);
    if j == s.len() - 1 {
        assert(su.drop_last() =~= s.drop_last());
        assert(scope_map(su) =~= scope_map(s).insert(p.0@, p.1.model()));
    } else {
        lemma_scope_map_update(s.drop_last(), j, p);
        assert(su.drop_last() =~= s.drop_last().update(j, p));
        assert(su.last() == s.last());
        assert(scope_map(su) =~= scope_map(s).insert(p.0@, p.1.model()));
    }
}

/// The scope chain. There is always at least one scope: the global one.
pub struct Environment {
    scopes: Vec<Vec<(String, Value)>>,
}

impl Environment {
    /// Each scope's association list has unique keys, and the global scope
    /// exists.
    pub closed spec fn wf(self) -> bool {
        &&& self.scopes@.len() >= 1
        &&& forall|i: int|
            0 <= i < self.scopes@.len() ==> wf_scope((#[trigger] self.scopes@[i])@)
    }

    /// The stack of scope maps, innermost last.
    pub closed spec fn model(self) -> EnvModel {
        self.scopes@.map_values(|sc: Vec<(String, Value)>| scope_map(sc@))
    }

    /// A fresh environment holding one empty global scope.
    pub fn new() -> (r: Environment)
        ensures
            r.wf(),
            r.model() =~= seq![Map::<Seq<char>, ValueModel>::empty()],
    {
        let mut scopes: Vec<Vec<(String, Value)>> = Vec::new();
        scopes.push(Vec::new());
        Environment { scopes }
    }

    /// Push a fresh empty scope; it becomes the innermost.
    pub fn new_child_scope(&mut self)
        requires
            old(self).wf(),
        ensures
            final(self).wf(),
            final(self).model() =~= old(self).model().push(Map::empty()),
    {
        self.scopes.push(Vec::new());
        proof {
            assert(self.model() =~= old(self).model().push(Map::empty()));
        }
    }

    /// Pop the innermost scope. The global scope can never be popped: a
    /// caller that tries has broken the block pairing discipline.
    pub fn destroy_child_scope(&mut self)
        requires
            old(self).wf(),
            old(self).model().len() >= 2,
        ensures
            final(self).wf(),
            final(self).model() =~= old(self).model().drop_last(),
    {
        let popped = self.scopes.pop();
        proof {
            assert(self.model() =~= old(self).model().drop_last());
        }
    }

    /// How many scopes are open, the global one included.
    pub fn depth(&self) -> (r: usize)
        ensures
            r == self.model().len(),
    {
        self.scopes.len()
    }

    /// Insert or overwrite `key` in the innermost scope only.
    pub fn define(&mut self, key: String, value: Value)
        requires
            old(self).wf(),
        ensures
            final(self).wf(),
            final(self).model() =~= env_define(old(self).model(), key@, value.model()),
    {
        let ghost m0 = self.model();
        let ghost kview = key@;
        let ghost vm = value.model();
        let top = self.scopes.len() - 1;
        let ghost s0 = self.scopes@[top as int]@;
        let n = self.scopes[top].len();
        let mut j: usize = 0;
        while j < n
            invariant
                old(self).wf(),
                self.scopes@ == old(self).scopes@,
                m0 == self.model(),
                kview == key@,
                vm == value.model(),
                top == self.scopes@.len() - 1,
                s0 == self.scopes@[top as int]@,
                n == s0.len(),
                j <= n,
                forall|k: int| 0 <= k < j ==> (#[trigger] s0[k]).0@ != kview,
            decreases n - j,
        {
            if self.scopes[top][j].0 == key {
                self.scopes[top][j] = (key, value);
                proof {
                    let p = self.scopes@[top as int]@[j as int];
                    assert(p.0@ == kview && p.1.model() == vm);
                    lemma_scope_map_update(s0, j as int, p);
                    assert(self.model() =~= m0.update(
                        top as int,
                        scope_map(s0).insert(kview, vm),
                    ));
                }
                return ;
            }
            j += 1;
        }
        self.scopes[top].push((key, value));
        proof {
            let s1 = self.scopes@[top as int]@;
            assert(s1.drop_last() =~= s0);
            lemma_scope_map_absent(s0, kview);
            assert(scope_map(s1) == scope_map(s0).insert(kview, vm));
            assert(wf_scope(s1));
            assert(self.model() =~= m0.update(top as int, scope_map(s0).insert(kview, vm)));
        }
    }

    /// Search the scopes innermost to outermost; return a copy of the first
    /// binding found.
    pub fn get(&self, key: &str) -> (r: Option<Value>)
        requires
            self.wf(),
        ensures
            match r {
                Some(v) => env_get(self.model(), key@) == Some(v.model()),
                None => env_get(self.model(), key@) is None,
            },
    {
        let key_string = String::from_str(key);
        let mut i = self.scopes.len();
        proof {
            assert(self.model().take(i as int) =~= self.model());
        }
        while i > 0
            invariant
                self.wf(),
                key_string@ == key@,
                i <= self.model().len(),
                env_get(self.model(), key@) == env_get(self.model().take(i as int), key@),
            decreases i,
        {
            i -= 1;
            let ghost s0 = self.scopes@[i as int]@;
            let n = self.scopes[i].len();
            let mut j: usize = 0;
            while j < n
                invariant
                    self.wf(),
                    key_string@ == key@,
                    i < self.model().len(),
                    env_get(self.model(), key@) == env_get(self.model().take(i + 1), key@),
                    s0 == self.scopes@[i as int]@,
                    n == s0.len(),
                    j <= n,
                    forall|k: int| 0 <= k < j ==> (#[trigger] s0[k]).0@ != key@,
                decreases n - j,
            {
                if self.scopes[i][j].0 == key_string {
                    let found = self.scopes[i][j].1.clone();
                    proof {
                        lemma_scope_map_found(s0, key@, j as int);
                        assert(self.model()[i as int] == scope_map(s0));
                        let t = self.model().take(i + 1);
                        assert(t.last() == self.model()[i as int]);
                        assert(env_get(t, key@) == Some(scope_map(s0)[key@]));
                    }
                    return Some(found);
                }
                j += 1;
            }
            proof {
                lemma_scope_map_absent(s0, key@);
                assert(self.model()[i as int] == scope_map(s0));
                let t = self.model().take(i + 1);
                assert(t.last() == self.model()[i as int]);
                assert(t.drop_last() =~= self.model().take(i as int));
            }
        }
        proof {
            assert(self.model().take(0) =~= Seq::<Map<Seq<char>, ValueModel>>::empty());
        }
        None
    }

    /// Overwrite the innermost existing binding of `key`, or fail with a
    /// runtime error when no scope binds it. Assignment never creates a
    /// binding.
    pub fn assign(&mut self, key: &str, value: Value, location: Location) -> (r: Result<
        Value,
        LoxError,
    >)
        requires
            old(self).wf(),
        ensures
            final(self).wf(),
            match r {
                Ok(v) => {
                    &&& env_has(old(self).model(), key@)
                    &&& v.model() == value.model()
                    &&& final(self).model() =~= env_assign(old(self).model(), key@, value.model())
                },
                Err(e) => {
                    &&& !env_has(old(self).model(), key@)
                    &&& final(self).model() =~= old(self).model()
                    &&& e.model() == ErrorModel::Runtime(
                        location.model(),
                        "Undefined variable: "@ + key@,
                    )
                },
            },
    {
        let ghost m0 = self.model();
        let ghost vm = value.model();
        let key_string = String::from_str(key);
        let mut i = self.scopes.len();
        while i > 0
            invariant
                old(self).wf(),
                self.scopes@ == old(self).scopes@,
                key_string@ == key@,
                i <= m0.len(),
                m0 == self.model(),
                vm == value.model(),
                forall|k: int| i <= k < m0.len() ==> !(#[trigger] m0[k]).contains_key(key@),
            decreases i,
        {
            i -= 1;
            let ghost s0 = self.scopes@[i as int]@;
            let n = self.scopes[i].len();
            let mut j: usize = 0;
            while j < n
                invariant
                    old(self).wf(),
                    self.scopes@ == old(self).scopes@,
                    key_string@ == key@,
                    i < m0.len(),
                    m0 == self.model(),
                    vm == value.model(),
                    forall|k: int| i < k < m0.len() ==> !(#[trigger] m0[k]).contains_key(key@),
                    s0 == self.scopes@[i as int]@,
                    n == s0.len(),
                    j <= n,
                    forall|k: int| 0 <= k < j ==> (#[trigger] s0[k]).0@ != key@,
                decreases n - j,
            {
                if self.scopes[i][j].0 == key_string {
                    let returned = value.clone();
                    self.scopes[i][j] = (key_string, value);
                    proof {
                        let p = self.scopes@[i as int]@[j as int];
                        assert(p.0@ == key@ && p.1.model() == vm);
                        lemma_scope_map_found(s0, key@, j as int);
                        assert(m0[i as int] == scope_map(s0));
                        assert(m0[i as int].contains_key(key@));
                        assert(env_has(m0, key@));
                        lemma_env_binding_scope_is(m0, key@, i as int);
                        lemma_scope_map_update(s0, j as int, p);
                        assert(self.model() =~= m0.update(
                            i as int,
                            m0[i as int].insert(key@, vm),
                        ));
                    }
                    return Ok(returned);
                }
                j += 1;
            }
            proof {
                lemma_scope_map_absent(s0, key@);
                assert(m0[i as int] == scope_map(s0));
            }
        }
        let mut msg = String::from_str("Undefined variable: ");
        msg.append(key);
        Err(LoxError::RuntimeError(location, msg))
    }
}

/// The innermost scope containing the key is the one `env_binding_scope`
/// names.
proof fn lemma_env_binding_scope_is(m: EnvModel, name: Seq<char>, i: int)
    requires
        0 <= i < m.len(),
        m[i].contains_key(name),
        forall|k: int| i < k < m.len() ==> !(#[trigger] m[k]).contains_key(name),
    ensures
        env_binding_scope(m, name) == i,
    decreases m.len(),
{
    if i == m.len() - 1 {
    } else {
        lemma_env_binding_scope_is(m.drop_last(), name, i);
    }
}

/// A well-formed environment always holds at least the global scope.
pub proof fn lemma_wf_depth(env: Environment)
    requires
        env.wf(),
    ensures
        env.model().len() >= 1,
{
}

/// Where some scope binds the name, the innermost binding scope is a real
/// index.
pub proof fn lemma_env_binding_scope_bounds(m: EnvModel, name: Seq<char>)
    requires
        env_has(m, name),
    ensures
        0 <= env_binding_scope(m, name) < m.len(),
    decreases m.len(),
{
    if m.len() == 0 {
        assert(false);
    } else if m.last().contains_key(name) {
    } else {
        let i = choose|i: int| 0 <= i < m.len() && (#[trigger] m[i]).contains_key(name);
        assert(i < m.len() - 1);
        assert(m.drop_last()[i] == m[i]);
        assert(env_has(m.drop_last(), name));
        lemma_env_binding_scope_bounds(m.drop_last(), name);
    }
}

/// Shadowing law: defining a name in a child scope hides the enclosing
/// binding only while the child scope is open; popping the child scope
/// uncovers the original binding unchanged.
pub proof fn lemma_scope_shadowing(
    m: EnvModel,
    name: Seq<char>,
    a: ValueModel,
    b: ValueModel,
)
    requires
        m.len() >= 1,
    ensures
        ({
            let with_a = env_define(m, name, a);
            let child = with_a.push(Map::empty());
            let with_b = env_define(child, name, b);
            &&& env_get(with_b, name) == Some(b)
            &&& env_get(with_b.drop_last(), name) == Some(a)
        }),
{
    let with_a = env_define(m, name, a);
    let child = with_a.push(Map::empty());
    let with_b = env_define(child, name, b);
    assert(with_b.last() == Map::<Seq<char>, ValueModel>::empty().insert(name, b));
    assert(with_b.drop_last() =~= with_a);
    assert(with_a.last() == m.last().insert(name, a));
}

/// Assignment-never-creates law: assigning to a name no scope binds fails
/// and leaves every scope without a binding for the name.
pub proof fn lemma_assign_creates_nothing(m: EnvModel, name: Seq<char>)
    requires
        !env_has(m, name),
    ensures
        env_get(m, name) is None,
    decreases m.len(),
{
    if m.len() > 0 {
        assert(!m.last().contains_key(name));
        assert(!env_has(m.drop_last(), name)) by {
            assert(forall|i: int|
                0 <= i < m.len() - 1 ==> !(#[trigger] m.drop_last()[i]).contains_key(name)
                    || !m[i].contains_key(name));
        }
        lemma_assign_creates_nothing(m.drop_last(), name);
    }
}

} // verus!
