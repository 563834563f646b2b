//! The environment: scopes of names and values, chained from the inside
//! out.

use vstd::prelude::*;
use crate::eval::assoc::{
    distinct_keys, inserted, lemma_inserted_distinct, lemma_position_skips, lookup, position,
};
use crate::eval::object::{Object, ObjectView};

verus! {

/// One scope, as a mathematical value: the names bound in it with their
/// values, and the index of the scope around it.
pub struct ScopeView {
    pub bindings: Seq<(Seq<char>, ObjectView)>,
    pub outer: Option<nat>,
}

/// Every scope lies inside a scope that was made before it.
pub open spec fn chained(env: Seq<ScopeView>) -> bool {
    forall|i: int|
        0 <= i < env.len() ==> ((#[trigger] env[i]).outer matches Some(o) ==> o < i)
}

/// No scope binds a name twice.
pub open spec fn bound_once(env: Seq<ScopeView>) -> bool {
    forall|i: int| 0 <= i < env.len() ==> distinct_keys((#[trigger] env[i]).bindings)
}

/// The value of `name` as seen from the scope `scope`: its binding in the
/// innermost scope that has one, `null` where none has.
pub open spec fn resolve(env: Seq<ScopeView>, scope: nat, name: Seq<char>) -> ObjectView
    decreases scope,
{
    if scope >= env.len() {
        ObjectView::Null
    } else {
        match lookup(env[scope as int].bindings, name) {
            Some(value) => value,
            None => match env[scope as int].outer {
                Some(outer) => if outer < scope {
                    resolve(env, outer, name)
                } else {
                    ObjectView::Null
                },
                None => ObjectView::Null,
            },
        }
    }
}

/// The environment with `name` bound to `value` in the scope `scope`, and
/// in no other.
pub open spec fn bound(
    env: Seq<ScopeView>,
    scope: nat,
    name: Seq<char>,
    value: ObjectView,
) -> Seq<ScopeView> {
    if scope >= env.len() {
        env
    } else {
        env.update(
            scope as int,
            ScopeView {
                bindings: inserted(env[scope as int].bindings, name, value),
                outer: env[scope as int].outer,
            },
        )
    }
}

/// The environment with one more scope, empty, inside the scope `outer`.
/// Its index is the number of scopes that there were.
pub open spec fn nested(env: Seq<ScopeView>, outer: nat) -> Seq<ScopeView> {
    env.push(
        ScopeView {
            bindings: Seq::empty(),
            outer: if outer < env.len() {
                Some(outer)
            } else {
                None
            },
        },
    )
}

/// The environment with the first `count` names of `names` bound, in
/// order, to the values at the same indices, in the scope `scope`.
pub open spec fn bound_all(
    env: Seq<ScopeView>,
    scope: nat,
    names: Seq<Seq<char>>,
    values: Seq<ObjectView>,
    count: nat,
) -> Seq<ScopeView>
    decreases count,
{
    if count == 0 || count > names.len() || count > values.len() {
        env
    } else {
        bound(
            bound_all(env, scope, names, values, (count - 1) as nat),
            scope,
            names[count - 1],
            values[count - 1],
        )
    }
}

/// One scope of an environment.
#[derive(Debug, PartialEq, Eq)]
pub struct Scope {
    bindings: Vec<(String, Object)>,
    outer: Option<usize>,
}

/// The values of the bindings of a scope.
pub open spec fn bindings_view(v: Seq<(String, Object)>) -> Seq<(Seq<char>, ObjectView)> {
    Seq::new(v.len(), |i: int| (v[i].0@, v[i].1@))
}

impl View for Scope {
    type V = ScopeView;

    closed spec fn view(&self) -> ScopeView {
        ScopeView {
            bindings: bindings_view(self.bindings@),
            outer: match self.outer {
                Some(o) => Some(o as nat),
                None => None,
            },
        }
    }
}

/// The variables of a running program: scopes of names and values, each
/// but the outermost inside another.
///
/// A scope is known by its index. The scope with index 0 is the outermost
/// one, and scopes are never removed, so a function can keep the index of
/// the scope it was made in.
#[derive(Debug, PartialEq, Eq)]
pub struct Environment {
    scopes: Vec<Scope>,
}

impl View for Environment {
    type V = Seq<ScopeView>;

    closed spec fn view(&self) -> Seq<ScopeView> {
        Seq::new(self.scopes.len() as nat, |i: int| self.scopes[i]@)
    }
}

/// The index of the first binding of `name`, if there is one.
fn find_name(bindings: &Vec<(String, Object)>, name: &str) -> (found: Option<usize>)
    ensures
        match position(bindings_view(bindings@), name@, 0) {
            Some(i) => found == Some(i as usize) && 0 <= i < bindings.len(),
            None => found is None,
        },
{
    let ghost view = bindings_view(bindings@);
    let wanted = name.to_owned();
    let mut i: usize = 0;
    while i < bindings.len()
        invariant
            i <= bindings.len(),
            view == bindings_view(bindings@),
            wanted@ == name@,
            forall|k: int| 0 <= k < i ==> (#[trigger] view[k]).0 != name@,
        decreases bindings.len() - i,
    {
        if bindings[i].0 == wanted {
            proof {
                lemma_position_skips(view, name@, 0, i as int);
                assert(view[i as int].0 == name@);
            }
            return Some(i);
        }
        i += 1;
    }
    proof {
        lemma_position_skips(view, name@, 0, i as int);
    }
    None
}

/// Whether no name is bound twice.
fn names_are_distinct(bindings: &Vec<(String, Object)>) -> (ok: bool)
    ensures
        ok == distinct_keys(bindings_view(bindings@)),
{
    let ghost view = bindings_view(bindings@);
    let mut b: usize = 0;
    while b < bindings.len()
        invariant
            b <= bindings.len(),
            view == bindings_view(bindings@),
            forall|i: int, j: int|
                0 <= i < j < b ==> (#[trigger] view[i]).0 != (#[trigger] view[j]).0,
        decreases bindings.len() - b,
    {
        let mut a: usize = 0;
        while a < b
            invariant
                a <= b < bindings.len(),
                view == bindings_view(bindings@),
                forall|i: int| 0 <= i < a ==> (#[trigger] view[i]).0 != view[b as int].0,
            decreases b - a,
        {
            if bindings[a].0 == bindings[b].0 {
                assert(view[a as int].0 == view[b as int].0);
                return false;
            }
            a += 1;
        }
        b += 1;
    }
    true
}

impl Environment {
    /// There is an outermost scope, every scope lies inside a scope that
    /// was made before it, and no scope binds a name twice.
    pub open spec fn well_formed(&self) -> bool {
        self@.len() > 0 && chained(self@) && bound_once(self@)
    }

    /// An environment with one scope, in which no name is bound.
    pub fn new() -> (env: Environment)
        ensures
            env.well_formed(),
            env@ == seq![ScopeView { bindings: Seq::empty(), outer: None }],
    {
        let mut scopes: Vec<Scope> = Vec::new();
        scopes.push(Scope { bindings: Vec::new(), outer: None });
        let env = Environment { scopes };
        assert(env@ =~= seq![ScopeView { bindings: Seq::empty(), outer: None }]) by {
            assert(bindings_view(env.scopes[0].bindings@) =~= Seq::empty());
        }
        env
    }

    /// Whether the environment is well formed. Every environment that this
    /// library hands out is.
    pub fn is_well_formed(&self) -> (ok: bool)
        ensures
            ok == self.well_formed(),
    {
        if self.scopes.len() == 0 {
            return false;
        }
        let mut i: usize = 0;
        while i < self.scopes.len()
            invariant
                i <= self.scopes.len(),
                forall|j: int|
                    0 <= j < i ==> ((#[trigger] self@[j]).outer matches Some(o) ==> o < j),
                forall|j: int| 0 <= j < i ==> distinct_keys((#[trigger] self@[j]).bindings),
            decreases self.scopes.len() - i,
        {
            assert(self@[i as int] == self.scopes[i as int]@);
            match self.scopes[i].outer {
                Some(outer) => {
                    if outer >= i {
                        return false;
                    }
                },
                None => {},
            }
            if !names_are_distinct(&self.scopes[i].bindings) {
                return false;
            }
            i += 1;
        }
        true
    }

    /// The number of scopes.
    pub fn scope_count(&self) -> (count: usize)
        ensures
            count == self@.len(),
    {
        self.scopes.len()
    }

    /// The value of `var_name` as seen from the scope `scope`: `null` where
    /// no scope from there outwards binds it.
    pub fn get(&self, scope: usize, var_name: &str) -> (value: Object)
        requires
            self.well_formed(),
        ensures
            value@ == resolve(self@, scope as nat, var_name@),
    {
        let mut current = scope;
        loop
            invariant
                self.well_formed(),
                resolve(self@, scope as nat, var_name@) == resolve(self@, current as nat, var_name@),
            decreases current,
        {
            if current >= self.scopes.len() {
                return Object::Null;
            }
            assert(self@[current as int] == self.scopes[current as int]@);
            match find_name(&self.scopes[current].bindings, var_name) {
                Some(i) => {
                    assert(bindings_view(self.scopes[current as int].bindings@)[i as int].1
                        == self.scopes[current as int].bindings[i as int].1@);
                    return self.scopes[current].bindings[i].1.duplicate();
                },
                None => {},
            }
            match self.scopes[current].outer {
                Some(outer) => {
                    current = outer;
                },
                None => {
                    return Object::Null;
                },
            }
        }
    }

    /// Binds `var_name` to `obj` in the scope `scope`, and returns the
    /// bound value. Where there is no such scope, nothing is bound.
    pub fn set(&mut self, scope: usize, var_name: String, obj: Object) -> (value: Object)
        requires
            old(self).well_formed(),
        ensures
            final(self).well_formed(),
            final(self)@ == bound(old(self)@, scope as nat, var_name@, obj@),
            value@ == obj@,
    {
        let value = obj.duplicate();
        if scope >= self.scopes.len() {
            return value;
        }
        let ghost before = self@;
        let ghost bindings = bindings_view(self.scopes[scope as int].bindings@);
        assert(before[scope as int] == self.scopes[scope as int]@);
        match find_name(&self.scopes[scope].bindings, var_name.as_str()) {
            Some(i) => {
                self.scopes[scope].bindings[i] = (var_name, obj);
                assert(bindings_view(self.scopes[scope as int].bindings@) =~= bindings.update(
                    i as int,
                    (var_name@, obj@),
                ));
            },
            None => {
                self.scopes[scope].bindings.push((var_name, obj));
                assert(bindings_view(self.scopes[scope as int].bindings@) =~= bindings.push(
                    (var_name@, obj@),
                ));
            },
        }
        proof {
            let after = bound(before, scope as nat, var_name@, obj@);
            assert(self@.len() == after.len());
            assert forall|j: int| 0 <= j < after.len() implies self@[j] == after[j] by {
                assert(self@[j] == self.scopes[j]@);
                if j != scope {
                    assert(before[j] == old(self).scopes[j]@);
                }
            }
            assert(self@ =~= after);
            assert(chained(self@)) by {
                assert forall|j: int| 0 <= j < self@.len() implies ((#[trigger] self@[j]).outer
                    matches Some(o) ==> o < j) by {
                    assert(before[j].outer == self@[j].outer);
                }
            }
            assert(bound_once(self@)) by {
                assert forall|j: int| 0 <= j < self@.len() implies distinct_keys(
                    (#[trigger] self@[j]).bindings,
                ) by {
                    assert(distinct_keys(before[j].bindings));
                    if j == scope {
                        lemma_inserted_distinct(before[j].bindings, var_name@, obj@);
                    }
                }
            }
        }
        value
    }

    /// Makes an empty scope inside the scope `outer`, and returns its
    /// index. Where there is no scope `outer`, the new scope is inside
    /// none.
    pub fn init_with_outer(&mut self, outer: usize) -> (scope: usize)
        requires
            old(self).well_formed(),
        ensures
            final(self).well_formed(),
            final(self)@ == nested(old(self)@, outer as nat),
            scope == old(self)@.len(),
    {
        let ghost before = self@;
        let scope = self.scopes.len();
        let link = if outer < scope {
            Some(outer)
        } else {
            None
        };
        self.scopes.push(Scope { bindings: Vec::new(), outer: link });
        proof {
            let after = nested(before, outer as nat);
            assert(bindings_view(self.scopes[scope as int].bindings@) =~= Seq::empty());
            assert forall|j: int| 0 <= j < after.len() implies self@[j] == after[j] by {
                assert(self@[j] == self.scopes[j]@);
                if j != scope {
                    assert(before[j] == old(self).scopes[j]@);
                }
            }
            assert(self@ =~= after);
            assert(chained(self@)) by {
                assert forall|j: int| 0 <= j < self@.len() implies ((#[trigger] self@[j]).outer
                    matches Some(o) ==> o < j) by {
                    if j < scope {
                        assert(before[j].outer == self@[j].outer);
                    }
                }
            }
            assert(bound_once(self@)) by {
                assert forall|j: int| 0 <= j < self@.len() implies distinct_keys(
                    (#[trigger] self@[j]).bindings,
                ) by {
                    if j < scope {
                        assert(distinct_keys(before[j].bindings));
                    }
                }
            }
        }
        scope
    }
}

impl Environment {
    /// A fresh environment with the same scopes and bindings.
    pub fn duplicate(&self) -> (copy: Environment)
        ensures
            copy@ == self@,
    {
        let mut scopes: Vec<Scope> = Vec::new();
        let mut i: usize = 0;
        while i < self.scopes.len()
            invariant
                i <= self.scopes.len(),
                scopes.len() == i,
                forall|j: int| 0 <= j < i ==> scopes[j]@ == self.scopes[j]@,
            decreases self.scopes.len() - i,
        {
            let scope = &self.scopes[i];
            let mut bindings: Vec<(String, Object)> = Vec::new();
            let mut k: usize = 0;
            while k < scope.bindings.len()
                invariant
                    k <= scope.bindings.len(),
                    bindings.len() == k,
                    forall|j: int|
                        0 <= j < k ==> bindings[j].0@ == scope.bindings[j].0@ && bindings[j].1@
                            == scope.bindings[j].1@,
                decreases scope.bindings.len() - k,
            {
                bindings.push((scope.bindings[k].0.clone(), scope.bindings[k].1.duplicate()));
                k += 1;
            }
            assert(bindings_view(bindings@) =~= bindings_view(scope.bindings@));
            scopes.push(Scope { bindings, outer: scope.outer });
            i += 1;
        }
        let copy = Environment { scopes };
        assert(copy@ =~= self@);
        copy
    }
}

impl Clone for Environment {
    fn clone(&self) -> (copy: Environment)
        ensures
            copy@ == self@,
    {
        self.duplicate()
    }
}

impl Default for Environment {
    /// An environment with one scope, in which no name is bound.
    fn default() -> (env: Environment)
        ensures
            env.well_formed(),
            env@ == seq![ScopeView { bindings: Seq::empty(), outer: None }],
    {
        Environment::new()
    }
}

} // verus!
