//! The scope chain: variables, and the scopes that hold them.
use vstd::prelude::*;
use vstd::string::StringExecFns;
use crate::error::error_at;
use crate::error::ErrorKind;
use crate::error::LoxError;
use crate::literal::Literal;
use crate::literal::Value;
use crate::token::Token;

verus! {

/// One lexical scope: its variables, and the scope that encloses it.
pub struct Scope {
    names: Vec<String>,
    values: Vec<Literal>,
    enclosing: Option<usize>,
}

/// What a scope stands for: a map from names to values, and the index of
/// the enclosing scope, which only the global scope lacks.
pub struct ScopeView {
    pub bindings: Map<Seq<char>, Value>,
    pub enclosing: Option<nat>,
}

impl ScopeView {
    /// This scope with `name` bound to `value`.
    pub open spec fn bind(self, name: Seq<char>, value: Value) -> ScopeView {
        ScopeView { bindings: self.bindings.insert(name, value), enclosing: self.enclosing }
    }
}

/// The scopes of a program, each known by its index. A scope reads and
/// writes through the scope that encloses it but does not own it, and
/// several scopes may have the same enclosing scope. Scope 0 is the global
/// scope.
pub struct Environment {
    scopes: Vec<Scope>,
}

/// The index of `key` among `names`.
spec fn index_of(names: Seq<String>, key: Seq<char>) -> int {
    choose|i: int| 0 <= i < names.len() && (#[trigger] names[i])@ == key
}

spec fn has_name(names: Seq<String>, key: Seq<char>) -> bool {
    exists|i: int| 0 <= i < names.len() && (#[trigger] names[i])@ == key
}

spec fn distinct(names: Seq<String>) -> bool {
    forall|i: int, j: int|
        0 <= i < names.len() && 0 <= j < names.len() && i != j ==> (#[trigger] names[i])@ != (
        #[trigger] names[j])@
}

spec fn bindings_of(names: Seq<String>, values: Seq<Literal>) -> Map<Seq<char>, Value> {
    Map::new(|k: Seq<char>| has_name(names, k), |k: Seq<char>| values[index_of(names, k)]@)
}

proof fn lemma_bound_at(names: Seq<String>, values: Seq<Literal>, i: int)
    requires
        distinct(names),
        0 <= i < names.len(),
    ensures
        has_name(names, names[i]@),
        index_of(names, names[i]@) == i,
{
}

proof fn lemma_bind_new(names: Seq<String>, values: Seq<Literal>, name: String, value: Literal)
    requires
        distinct(names),
        names.len() == values.len(),
        !has_name(names, name@),
    ensures
        distinct(names.push(name)),
        bindings_of(names.push(name), values.push(value)) == bindings_of(names, values).insert(
            name@,
            value@,
        ),
{
    let names2 = names.push(name);
    let values2 = values.push(value);
    assert(distinct(names2)) by {
        assert forall|i: int, j: int|
            0 <= i < names2.len() && 0 <= j < names2.len() && i != j implies (
        #[trigger] names2[i])@ != (#[trigger] names2[j])@ by {
            if i < names.len() && j < names.len() {
                assert(names[i]@ != names[j]@);
            } else if i < names.len() {
                assert(names[i]@ != name@);
            } else {
                assert(names[j]@ != name@);
            }
        }
    }
    assert forall|k: Seq<char>| has_name(names2, k) <==> (k == name@ || has_name(names, k)) by {
        if has_name(names2, k) {
            let i = index_of(names2, k);
            if i < names.len() {
                assert(names[i]@ == k);
            }
        }
        if k == name@ {
            assert(names2[names.len() as int]@ == k);
        }
        if has_name(names, k) {
            let i = index_of(names, k);
            assert(names2[i]@ == k);
        }
    }
    assert forall|k: Seq<char>| has_name(names2, k) implies #[trigger] bindings_of(
        names2,
        values2,
    )[k] == bindings_of(names, values).insert(name@, value@)[k] by {
        let i = index_of(names2, k);
        if k == name@ {
            lemma_bound_at(names2, values2, names.len() as int);
        } else {
            let j = index_of(names, k);
            assert(names2[j]@ == k);
            lemma_bound_at(names2, values2, j);
        }
    }
    assert(bindings_of(names2, values2) =~= bindings_of(names, values).insert(name@, value@));
}

proof fn lemma_bind_again(names: Seq<String>, values: Seq<Literal>, i: int, value: Literal)
    requires
        distinct(names),
        names.len() == values.len(),
        0 <= i < names.len(),
    ensures
        bindings_of(names, values.update(i, value)) == bindings_of(names, values).insert(
            names[i]@,
            value@,
        ),
{
    let values2 = values.update(i, value);
    assert forall|k: Seq<char>| has_name(names, k) implies #[trigger] bindings_of(
        names,
        values2,
    )[k] == bindings_of(names, values).insert(names[i]@, value@)[k] by {
        let j = index_of(names, k);
        if k == names[i]@ {
            lemma_bound_at(names, values, i);
        }
    }
    lemma_bound_at(names, values, i);
    assert(bindings_of(names, values2) =~= bindings_of(names, values).insert(names[i]@, value@));
}

impl View for Scope {
    type V = ScopeView;

    closed spec fn view(&self) -> ScopeView {
        ScopeView {
            bindings: bindings_of(self.names@, self.values@),
            enclosing: match self.enclosing {
                Some(e) => Some(e as nat),
                None => None,
            },
        }
    }
}

impl Scope {
    spec fn wf(&self) -> bool {
        self.names.len() == self.values.len() && distinct(self.names@)
    }

    /// The place of `name` among the names of this scope.
    fn find(&self, name: &String) -> (r: Option<usize>)
        requires
            self.wf(),
        ensures
            match r {
                Some(i) => i < self.names.len() && self.names[i as int]@ == name@
                    && self@.bindings.contains_key(name@) && self@.bindings[name@]
                    == self.values[i as int]@,
                None => !has_name(self.names@, name@) && !self@.bindings.contains_key(name@),
            },
    {
        let mut i: usize = 0;
        while i < self.names.len()
            invariant
                self.wf(),
                i <= self.names.len(),
                forall|j: int| 0 <= j < i ==> (#[trigger] self.names[j])@ != name@,
            decreases self.names.len() - i,
        {
            if self.names[i] == *name {
                proof {
                    lemma_bound_at(self.names@, self.values@, i as int);
                }
                return Some(i);
            }
            i += 1;
        }
        None
    }
}

/// The views of the scopes.
pub open spec fn scope_views(scopes: Seq<Scope>) -> Seq<ScopeView> {
    scopes.map_values(|s: Scope| s@)
}

impl View for Environment {
    type V = Seq<ScopeView>;

    closed spec fn view(&self) -> Seq<ScopeView> {
        scope_views(self.scopes@)
    }
}

/// The chain of scopes is finite and without a cycle: the global scope has
/// no enclosing scope, and every other scope is enclosed by an earlier one.
pub open spec fn chained(scopes: Seq<ScopeView>) -> bool {
    &&& scopes.len() > 0
    &&& scopes[0].enclosing is None
    &&& forall|i: int|
        0 < i < scopes.len() ==> (#[trigger] scopes[i]).enclosing is Some && scopes[i].enclosing->0
            < i
}

/// The nearest scope, from `scope` outwards, that binds `name`.
pub open spec fn resolve(scopes: Seq<ScopeView>, scope: nat, name: Seq<char>) -> Option<nat>
    decreases scope,
{
    if scope >= scopes.len() {
        None
    } else if scopes[scope as int].bindings.contains_key(name) {
        Some(scope)
    } else {
        match scopes[scope as int].enclosing {
            Some(outer) => if outer < scope {
                resolve(scopes, outer, name)
            } else {
                None
            },
            None => None,
        }
    }
}

/// The value of `name` as seen from `scope`: that of the nearest scope that
/// binds it.
pub open spec fn lookup(scopes: Seq<ScopeView>, scope: nat, name: Seq<char>) -> Option<Value> {
    match resolve(scopes, scope, name) {
        Some(holder) => Some(scopes[holder as int].bindings[name]),
        None => None,
    }
}

/// The scopes after `name` is bound to `value` in scope `scope`.
pub open spec fn bound(scopes: Seq<ScopeView>, scope: nat, name: Seq<char>, value: Value) -> Seq<
    ScopeView,
> {
    scopes.update(scope as int, scopes[scope as int].bind(name, value))
}

/// The message of the runtime error for a name that no scope binds.
pub open spec fn undefined_message(name: Seq<char>) -> Seq<char> {
    "Undefined variable '"@ + name + "'."@
}

fn undefined(name: &Token) -> (r: LoxError)
    ensures
        r@ == error_at(ErrorKind::Runtime, *name, undefined_message(name.lexeme@)),
{
    let mut message = "Undefined variable '".to_owned();
    message.append(name.as_string().as_str());
    message.append("'.");
    LoxError::runtime_error(name, message)
}

impl Environment {
    /// Every scope is sound and the chain is finite.
    pub closed spec fn wf(&self) -> bool {
        &&& chained(self@)
        &&& forall|i: int| 0 <= i < self.scopes.len() ==> (#[trigger] self.scopes[i]).wf()
    }

    /// An environment with the global scope alone, which binds nothing.
    pub fn new() -> (r: Environment)
        ensures
            r.wf(),
            r@ == seq![ScopeView { bindings: Map::empty(), enclosing: None }],
    {
        let mut scopes: Vec<Scope> = Vec::new();
        let global = Scope { names: Vec::new(), values: Vec::new(), enclosing: None };
        assert(global@.bindings =~= Map::empty());
        scopes.push(global);
        let r = Environment { scopes };
        assert(r@ =~= seq![ScopeView { bindings: Map::empty(), enclosing: None }]);
        r
    }

    /// The number of scopes.
    pub fn len(&self) -> (r: usize)
        ensures
            r == self@.len(),
    {
        self.scopes.len()
    }

    /// Adds a scope that binds nothing and is enclosed by `enclosing`; hands
    /// out its index.
    pub fn new_with_enclosing(&mut self, enclosing: usize) -> (r: usize)
        requires
            old(self).wf(),
            enclosing < old(self)@.len(),
        ensures
            final(self).wf(),
            r == old(self)@.len(),
            final(self)@ == old(self)@.push(
                ScopeView { bindings: Map::empty(), enclosing: Some(enclosing as nat) },
            ),
    {
        let id = self.scopes.len();
        let scope = Scope { names: Vec::new(), values: Vec::new(), enclosing: Some(enclosing) };
        assert(scope@.bindings =~= Map::empty());
        self.scopes.push(scope);
        assert(self@ =~= old(self)@.push(
            ScopeView { bindings: Map::empty(), enclosing: Some(enclosing as nat) },
        ));
        id
    }

    /// Drops the scope that was added last.
    pub fn release(&mut self)
        requires
            old(self).wf(),
            old(self)@.len() > 1,
        ensures
            final(self).wf(),
            final(self)@ == old(self)@.drop_last(),
    {
        self.scopes.pop();
        assert(self@ =~= old(self)@.drop_last());
    }

    /// Binds `name` to `value` in scope `scope`, whether or not the scope
    /// bound it before.
    pub fn define(&mut self, scope: usize, name: &str, value: Literal)
        requires
            old(self).wf(),
            scope < old(self)@.len(),
        ensures
            final(self).wf(),
            final(self)@ == bound(old(self)@, scope as nat, name@, value@),
    {
        let key = name.to_owned();
        self.store(scope, key, value);
    }

    fn store(&mut self, scope: usize, key: String, value: Literal)
        requires
            old(self).wf(),
            scope < old(self)@.len(),
        ensures
            final(self).wf(),
            final(self)@ == bound(old(self)@, scope as nat, key@, value@),
    {
        let found = self.scopes[scope].find(&key);
        let ghost before = self.scopes[scope as int];
        let ghost bound_value = value@;
        match found {
            Some(i) => {
                proof {
                    lemma_bind_again(before.names@, before.values@, i as int, value);
                }
                self.scopes[scope].values[i] = value;
            },
            None => {
                proof {
                    lemma_bind_new(before.names@, before.values@, key, value);
                }
                self.scopes[scope].names.push(key);
                self.scopes[scope].values.push(value);
            },
        }
        assert(self@ =~= bound(old(self)@, scope as nat, key@, bound_value));
    }

    /// The scope that encloses scope `scope`; the global scope has none.
    pub fn enclosing(&self, scope: usize) -> (r: Option<usize>)
        requires
            self.wf(),
            scope < self@.len(),
        ensures
            match r {
                Some(outer) => self@[scope as int].enclosing == Some(outer as nat),
                None => self@[scope as int].enclosing is None,
            },
    {
        assert(self@[scope as int] == self.scopes[scope as int]@);
        self.scopes[scope].enclosing
    }

    /// The value that scope `scope` itself binds `name` to, if it binds it.
    pub fn binding(&self, scope: usize, name: &str) -> (r: Option<Literal>)
        requires
            self.wf(),
            scope < self@.len(),
        ensures
            match r {
                Some(value) => self@[scope as int].bindings.contains_key(name@)
                    && self@[scope as int].bindings[name@] == value@,
                None => !self@[scope as int].bindings.contains_key(name@),
            },
    {
        assert(self@[scope as int] == self.scopes[scope as int]@);
        let key = name.to_owned();
        match self.scopes[scope].find(&key) {
            Some(i) => Some(self.scopes[scope].values[i].dup()),
            None => None,
        }
    }

    /// The names that scope `scope` itself binds, each with its value, in
    /// the order in which they were first bound.
    pub fn bindings(&self, scope: usize) -> (r: Vec<(String, Literal)>)
        requires
            self.wf(),
            scope < self@.len(),
        ensures
            forall|i: int|
                0 <= i < r.len() ==> self@[scope as int].bindings.contains_key(
                    (#[trigger] r[i]).0@,
                ) && self@[scope as int].bindings[r[i].0@] == r[i].1@,
            forall|k: Seq<char>|
                self@[scope as int].bindings.contains_key(k) ==> exists|i: int|
                    0 <= i < r.len() && (#[trigger] r[i]).0@ == k,
    {
        assert(self@[scope as int] == self.scopes[scope as int]@);
        let entry = &self.scopes[scope];
        let mut out: Vec<(String, Literal)> = Vec::new();
        let mut i: usize = 0;
        while i < entry.names.len()
            invariant
                entry.wf(),
                i <= entry.names.len(),
                out.len() == i,
                forall|j: int|
                    0 <= j < i ==> (#[trigger] out[j]).0 == entry.names[j] && out[j].1
                        == entry.values[j],
            decreases entry.names.len() - i,
        {
            out.push((entry.names[i].clone(), entry.values[i].dup()));
            i += 1;
        }
        proof {
            assert forall|j: int| 0 <= j < out.len() implies entry@.bindings.contains_key(
                (#[trigger] out[j]).0@,
            ) && entry@.bindings[out[j].0@] == out[j].1@ by {
                lemma_bound_at(entry.names@, entry.values@, j);
            }
            assert forall|k: Seq<char>| entry@.bindings.contains_key(k) implies exists|j: int|
                0 <= j < out.len() && (#[trigger] out[j]).0@ == k by {
                let j = index_of(entry.names@, k);
                assert(out[j].0@ == k);
            }
        }
        out
    }

    /// The index of the nearest scope, from `scope` outwards, that binds
    /// the name `key`.
    fn holder(&self, scope: usize, key: &String) -> (r: Option<usize>)
        requires
            self.wf(),
            scope < self@.len(),
        ensures
            match r {
                Some(h) => h < self@.len() && resolve(self@, scope as nat, key@) == Some(h as nat),
                None => resolve(self@, scope as nat, key@) is None,
            },
    {
        let mut at: usize = scope;
        loop
            invariant
                self.wf(),
                at < self@.len(),
                resolve(self@, at as nat, key@) == resolve(self@, scope as nat, key@),
            decreases at,
        {
            match self.scopes[at].find(key) {
                Some(_) => {
                    return Some(at);
                },
                None => match self.scopes[at].enclosing {
                    Some(outer) => {
                        assert(self@[at as int].enclosing == Some(outer as nat));
                        at = outer;
                    },
                    None => {
                        assert(self@[at as int].enclosing is None);
                        return None;
                    },
                },
            }
        }
    }

    /// The value of the variable `name` as seen from scope `scope`: that of
    /// the nearest scope that binds it. Where none does, the runtime error
    /// "Undefined variable '<name>'." at `name`.
    pub fn get(&self, scope: usize, name: &Token) -> (r: Result<Literal, LoxError>)
        requires
            self.wf(),
            scope < self@.len(),
        ensures
            match lookup(self@, scope as nat, name.lexeme@) {
                Some(value) => r is Ok && r->Ok_0@ == value,
                None => r is Err && r->Err_0@ == error_at(
                    ErrorKind::Runtime,
                    *name,
                    undefined_message(name.lexeme@),
                ),
            },
    {
        match self.holder(scope, name.as_string()) {
            Some(h) => {
                proof {
                    lemma_resolve_holds(self@, scope as nat, name.lexeme@);
                    assert(self@[h as int] == self.scopes[h as int]@);
                }
                match self.scopes[h].find(name.as_string()) {
                    Some(i) => Ok(self.scopes[h].values[i].dup()),
                    None => Err(undefined(name)),
                }
            },
            None => Err(undefined(name)),
        }
    }

    /// Gives the variable `name` the value `value` in the nearest scope,
    /// from `scope` outwards, that binds it. Binds nothing anew: where no
    /// scope binds `name`, nothing changes and the result is the runtime
    /// error "Undefined variable '<name>'." at `name`.
    pub fn assign(&mut self, scope: usize, name: &Token, value: Literal) -> (r: Result<
        (),
        LoxError,
    >)
        requires
            old(self).wf(),
            scope < old(self)@.len(),
        ensures
            final(self).wf(),
            match resolve(old(self)@, scope as nat, name.lexeme@) {
                Some(holder) => r is Ok && final(self)@ == bound(
                    old(self)@,
                    holder,
                    name.lexeme@,
                    value@,
                ),
                None => final(self)@ == old(self)@ && r is Err && r->Err_0@ == error_at(
                    ErrorKind::Runtime,
                    *name,
                    undefined_message(name.lexeme@),
                ),
            },
    {
        match self.holder(scope, name.as_string()) {
            Some(h) => {
                self.store(h, name.as_string().clone(), value);
                Ok(())
            },
            None => Err(undefined(name)),
        }
    }
}

/// A variable reads back as it was defined: after `define(scope, name, value)`
/// a `get` of `name` from `scope` gives `value`.
pub proof fn lemma_get_after_define(
    scopes: Seq<ScopeView>,
    scope: nat,
    name: Seq<char>,
    value: Value,
)
    requires
        scope < scopes.len(),
    ensures
        lookup(bound(scopes, scope, name, value), scope, name) == Some(value),
{
}

/// Binding a name in a scope changes which scope holds it only towards that
/// scope, and changes no other name's holder.
pub proof fn lemma_resolve_after_bind(
    scopes: Seq<ScopeView>,
    holder: nat,
    name: Seq<char>,
    value: Value,
    from: nat,
    other: Seq<char>,
)
    requires
        holder < scopes.len(),
        scopes[holder as int].bindings.contains_key(name) || other != name,
    ensures
        resolve(bound(scopes, holder, name, value), from, other) == resolve(scopes, from, other),
    decreases from,
{
    let after = bound(scopes, holder, name, value);
    if from < scopes.len() {
        if !scopes[from as int].bindings.contains_key(other) {
            match scopes[from as int].enclosing {
                Some(outer) => {
                    if outer < from {
                        lemma_resolve_after_bind(scopes, holder, name, value, outer, other);
                    }
                },
                None => {},
            }
        }
    }
}

/// A variable reads back as it was assigned: where `assign` of `name` from
/// `scope` succeeds, a `get` of `name` from `scope` gives the value assigned.
pub proof fn lemma_get_after_assign(
    scopes: Seq<ScopeView>,
    scope: nat,
    name: Seq<char>,
    value: Value,
)
    requires
        resolve(scopes, scope, name) is Some,
    ensures
        lookup(bound(scopes, resolve(scopes, scope, name)->0, name, value), scope, name) == Some(
            value,
        ),
{
    let holder = resolve(scopes, scope, name)->0;
    lemma_resolve_holds(scopes, scope, name);
    lemma_resolve_after_bind(scopes, holder, name, value, scope, name);
}

/// The scope that `resolve` finds exists and binds the name.
pub proof fn lemma_resolve_holds(scopes: Seq<ScopeView>, scope: nat, name: Seq<char>)
    requires
        resolve(scopes, scope, name) is Some,
    ensures
        resolve(scopes, scope, name)->0 <= scope,
        resolve(scopes, scope, name)->0 < scopes.len(),
        scopes[resolve(scopes, scope, name)->0 as int].bindings.contains_key(name),
    decreases scope,
{
    if scope < scopes.len() && !scopes[scope as int].bindings.contains_key(name) {
        match scopes[scope as int].enclosing {
            Some(outer) => {
                if outer < scope {
                    lemma_resolve_holds(scopes, outer, name);
                }
            },
            None => {},
        }
    }
}

/// An assignment to a name that no scope binds always fails: `assign`
/// succeeds exactly where `get` does.
pub proof fn lemma_assign_needs_binding(scopes: Seq<ScopeView>, scope: nat, name: Seq<char>)
    ensures
        resolve(scopes, scope, name) is None <==> lookup(scopes, scope, name) is None,
{
}

} // verus!
