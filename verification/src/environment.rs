//! The environment: a chain of lexical scopes held in one growing arena and
//! addressed by index. Each scope owns its local bindings and points to its
//! enclosing scope; many inner scopes may share one outer scope, which is how
//! closures observe later mutations of the scope they captured.
use vstd::prelude::*;

use crate::object::{lemma_obj_wf_grow, obj_wf, Object, ObjectView};

verus! {

/// One lexical scope: its local bindings in insertion order (a later entry
/// for a name shadows an earlier one) and the handle of the enclosing scope,
/// if any.
#[derive(Debug, PartialEq)]
pub struct Scope {
    entries: Vec<(String, Object)>,
    outer_scope: Option<usize>,
}

/// The mathematical mirror of `Scope`.
pub ghost struct ScopeView {
    pub bindings: Seq<(Seq<char>, ObjectView)>,
    pub outer: Option<usize>,
}

/// The element-wise view of a binding list.
pub open spec fn entries_view(s: Seq<(String, Object)>) -> Seq<(Seq<char>, ObjectView)>
    decreases s,
{
    if s.len() == 0 {
        Seq::<(Seq<char>, ObjectView)>::empty()
    } else {
        entries_view(s.drop_last()).push((s.last().0@, s.last().1@))
    }
}

/// `entries_view` is the element-wise image of the pair views.
pub broadcast proof fn lemma_entries_view(s: Seq<(String, Object)>)
    ensures
        (#[trigger] entries_view(s)).len() == s.len(),
        forall|i: int|
            0 <= i < s.len() ==> entries_view(s)[i] == (s[i].0@, s[i].1@),
    decreases s,
{
    if s.len() > 0 {
        lemma_entries_view(s.drop_last());
    }
}

impl View for Scope {
    type V = ScopeView;

    closed spec fn view(&self) -> ScopeView {
        ScopeView { bindings: entries_view(self.entries@), outer: self.outer_scope }
    }
}

/// The element-wise view of the scope arena.
pub open spec fn scopes_view(s: Seq<Scope>) -> Seq<ScopeView>
    decreases s,
{
    if s.len() == 0 {
        Seq::<ScopeView>::empty()
    } else {
        scopes_view(s.drop_last()).push(s.last()@)
    }
}

/// `scopes_view` is the element-wise image of the scope view.
pub broadcast proof fn lemma_scopes_view(s: Seq<Scope>)
    ensures
        (#[trigger] scopes_view(s)).len() == s.len(),
        forall|i: int| 0 <= i < s.len() ==> scopes_view(s)[i] == s[i]@,
    decreases s,
{
    if s.len() > 0 {
        lemma_scopes_view(s.drop_last());
    }
}

/// The arena of scopes. Handles (indices) stay valid for the arena's whole
/// life: scopes are only ever appended.
#[derive(Debug, PartialEq)]
pub struct Environment {
    scopes: Vec<Scope>,
}

impl View for Environment {
    type V = Seq<ScopeView>;

    closed spec fn view(&self) -> Seq<ScopeView> {
        scopes_view(self.scopes@)
    }
}

/// Looks a name up in one scope's local bindings; the latest entry for the
/// name wins.
pub open spec fn scope_lookup(bindings: Seq<(Seq<char>, ObjectView)>, name: Seq<char>) -> Option<
    ObjectView,
>
    decreases bindings,
{
    if bindings.len() == 0 {
        None
    } else if bindings.last().0 == name {
        Some(bindings.last().1)
    } else {
        scope_lookup(bindings.drop_last(), name)
    }
}

/// Looks a name up in the scope chain starting at `scope`: a local miss
/// delegates to the outer scope, recursively, and a missing outer link ends
/// the search.
pub open spec fn env_lookup(env: Seq<ScopeView>, scope: int, name: Seq<char>) -> Option<ObjectView>
    decreases scope,
{
    if !(0 <= scope < env.len()) {
        None
    } else {
        match scope_lookup(env[scope].bindings, name) {
            Some(v) => Some(v),
            None => match env[scope].outer {
                Some(j) => if (j as int) < scope {
                    env_lookup(env, j as int, name)
                } else {
                    None
                },
                None => None,
            },
        }
    }
}

/// Well-formedness of one scope within the arena: the outer link points
/// strictly downwards (so chains are acyclic) and every bound value is well
/// formed against the whole arena.
pub open spec fn scope_wf(env: Seq<ScopeView>, i: int) -> bool {
    &&& (match env[i].outer {
        Some(j) => (j as int) < i,
        None => true,
    })
    &&& (forall|k: int|
        0 <= k < env[i].bindings.len() ==> obj_wf((#[trigger] env[i].bindings[k]).1, env.len() as nat))
}

/// Well-formedness of the whole arena.
pub open spec fn env_wf(env: Seq<ScopeView>) -> bool {
    forall|i: int| 0 <= i < env.len() ==> #[trigger] scope_wf(env, i)
}

/// A value found in a well-formed scope's bindings is well formed.
pub proof fn lemma_scope_lookup_wf(
    bindings: Seq<(Seq<char>, ObjectView)>,
    name: Seq<char>,
    n: nat,
    v: ObjectView,
)
    requires
        scope_lookup(bindings, name) == Some(v),
        forall|k: int| 0 <= k < bindings.len() ==> obj_wf((#[trigger] bindings[k]).1, n),
    ensures
        obj_wf(v, n),
    decreases bindings,
{
    if bindings.len() > 0 && bindings.last().0 != name {
        lemma_scope_lookup_wf(bindings.drop_last(), name, n, v);
    }
}

/// A value found anywhere in a well-formed arena is well formed.
pub proof fn lemma_env_lookup_wf(env: Seq<ScopeView>, scope: int, name: Seq<char>, v: ObjectView)
    requires
        env_wf(env),
        env_lookup(env, scope, name) == Some(v),
    ensures
        obj_wf(v, env.len() as nat),
    decreases scope,
{
    assert(scope_wf(env, scope));
    match scope_lookup(env[scope].bindings, name) {
        Some(u) => {
            lemma_scope_lookup_wf(env[scope].bindings, name, env.len() as nat, v);
        },
        None => {
            match env[scope].outer {
                Some(j) => {
                    lemma_env_lookup_wf(env, j as int, name, v);
                },
                None => {},
            }
        },
    }
}

/// The arena after one binding: the named value appended to exactly the
/// given scope's bindings; every other scope untouched.
pub open spec fn env_set(
    env: Seq<ScopeView>,
    scope: usize,
    name: Seq<char>,
    v: ObjectView,
) -> Seq<ScopeView> {
    let old_scope = env[scope as int];
    env.update(
        scope as int,
        ScopeView { bindings: old_scope.bindings.push((name, v)), outer: old_scope.outer },
    )
}

/// The arena after one fresh empty scope is appended, its outer link set.
pub open spec fn env_push(env: Seq<ScopeView>, outer: usize) -> Seq<ScopeView> {
    env.push(ScopeView { bindings: Seq::<(Seq<char>, ObjectView)>::empty(), outer: Some(outer) })
}

/// A binding is visible at once in the scope it was made in: looking the
/// name up from that scope finds exactly the new value, whatever was bound
/// before. Together with `Environment::set`'s contract (which touches no
/// other scope) this is the shadowing rule: assignment always targets the
/// local scope and never leaks into an outer one.
pub proof fn lemma_set_shadows(env: Seq<ScopeView>, scope: usize, name: Seq<char>, v: ObjectView)
    requires
        scope < env.len(),
    ensures
        env_lookup(env_set(env, scope, name, v), scope as int, name) == Some(v),
{
    let env2 = env_set(env, scope, name, v);
    assert(env2[scope as int].bindings.last() == (name, v));
    assert(scope_lookup(env2[scope as int].bindings, name) == Some(v));
}

impl Environment {
    /// A fresh arena holding one empty top-level scope, handle zero.
    pub fn new() -> (r: Environment)
        ensures
            r@ =~= seq![
                (ScopeView { bindings: Seq::<(Seq<char>, ObjectView)>::empty(), outer: None }),
            ],
            env_wf(r@),
    {
        let mut scopes: Vec<Scope> = Vec::new();
        scopes.push(Scope { entries: Vec::new(), outer_scope: None });
        let r = Environment { scopes };
        proof {
            lemma_scopes_view(r.scopes@);
            assert(r@ =~= seq![
                (ScopeView { bindings: Seq::<(Seq<char>, ObjectView)>::empty(), outer: None }),
            ]);
        }
        r
    }

    /// Appends a new empty scope whose outer link is `outer` and hands back
    /// its handle. Every existing handle keeps its meaning.
    pub fn create_enclosed_environment(&mut self, outer: usize) -> (h: usize)
        requires
            outer < old(self)@.len(),
        ensures
            h == old(self)@.len(),
            final(self)@ =~= env_push(old(self)@, outer),
            env_wf(old(self)@) ==> env_wf(final(self)@),
    {
        proof {
            lemma_scopes_view(self.scopes@);
        }
        let h = self.scopes.len();
        self.scopes.push(Scope { entries: Vec::new(), outer_scope: Some(outer) });
        proof {
            let pre = old(self).scopes@;
            let post = self.scopes@;
            lemma_scopes_view(post);
            lemma_scopes_view(pre);
            assert(post.drop_last() =~= pre);
            assert(final(self)@ =~= old(self)@.push(
                (ScopeView {
                    bindings: Seq::<(Seq<char>, ObjectView)>::empty(),
                    outer: Some(outer),
                }),
            ));
            if env_wf(old(self)@) {
                let e1 = old(self)@;
                let e2 = self@;
                assert forall|i: int| 0 <= i < e2.len() implies #[trigger] scope_wf(e2, i) by {
                    if i < e1.len() {
                        assert(scope_wf(e1, i));
                        assert(e2[i] == e1[i]);
                        assert forall|k: int|
                            0 <= k < e2[i].bindings.len() implies obj_wf(
                            (#[trigger] e2[i].bindings[k]).1,
                            e2.len() as nat,
                        ) by {
                            assert(obj_wf(e1[i].bindings[k].1, e1.len() as nat));
                            lemma_obj_wf_grow(
                                e1[i].bindings[k].1,
                                e1.len() as nat,
                                e2.len() as nat,
                            );
                        }
                    } else {
                        assert(e2[i].bindings.len() == 0);
                    }
                }
            }
        }
        h
    }

    /// Returns a copy of the value bound to `name`, looked up through the
    /// scope chain that starts at `scope`; `None` when the whole chain
    /// misses.
    pub fn get(&self, scope: usize, name: &String) -> (r: Option<Object>)
        requires
            env_wf(self@),
            scope < self@.len(),
        ensures
            match r {
                Some(o) => env_lookup(self@, scope as int, name@) == Some(o@) && obj_wf(
                    o@,
                    self@.len() as nat,
                ),
                None => env_lookup(self@, scope as int, name@) is None,
            },
    {
        let ghost env = self@;
        let mut cur: usize = scope;
        loop
            invariant
                env == self@,
                env_wf(env),
                cur < env.len(),
                scope < env.len(),
                env_lookup(env, scope as int, name@) == env_lookup(env, cur as int, name@),
            decreases cur,
        {
            proof {
                lemma_scopes_view(self.scopes@);
            }
            let sc = &self.scopes[cur];
            let ghost bindings = env[cur as int].bindings;
            proof {
                lemma_entries_view(sc.entries@);
                assert(bindings == entries_view(sc.entries@));
                assert(bindings.take(sc.entries@.len() as int) =~= bindings);
            }
            let mut j: usize = sc.entries.len();
            while j > 0
                invariant
                    j <= sc.entries.len(),
                    env == self@,
                    env_wf(env),
                    cur < env.len(),
                    scope < env.len(),
                    env_lookup(env, scope as int, name@) == env_lookup(env, cur as int, name@),
                    bindings == env[cur as int].bindings,
                    bindings == entries_view(sc.entries@),
                    bindings.len() == sc.entries.len(),
                    scope_lookup(bindings, name@) == scope_lookup(bindings.take(j as int), name@),
                decreases j,
            {
                proof {
                    lemma_entries_view(sc.entries@);
                    assert(bindings[j - 1] == (sc.entries@[j - 1].0@, sc.entries@[j - 1].1@));
                    assert(bindings.take(j as int).last() == bindings[j - 1]);
                }
                if sc.entries[j - 1].0 == *name {
                    let found = sc.entries[j - 1].1.clone();
                    proof {
                        assert(bindings.take(j as int).last().0 == name@);
                        assert(scope_lookup(bindings.take(j as int), name@) == Some(
                            bindings[j - 1].1,
                        ));
                        assert(scope_wf(env, cur as int));
                        lemma_scope_lookup_wf(bindings, name@, env.len() as nat, found@);
                        assert(found@ == bindings[j - 1].1);
                        assert(scope_lookup(env[cur as int].bindings, name@) == Some(found@));
                        assert(env_lookup(env, cur as int, name@) == Some(found@));
                    }
                    return Some(found);
                }
                proof {
                    assert(bindings.take(j as int).last().0 != name@);
                    assert(bindings.take(j as int).drop_last() =~= bindings.take(j - 1));
                }
                j = j - 1;
            }
            proof {
                assert(bindings.take(0) =~= Seq::<(Seq<char>, ObjectView)>::empty());
                assert(scope_lookup(bindings, name@) is None);
            }
            match sc.outer_scope {
                Some(next) => {
                    proof {
                        assert(scope_wf(env, cur as int));
                        assert(env[cur as int].outer == Some(next));
                    }
                    cur = next;
                },
                None => {
                    proof {
                        assert(env_lookup(env, cur as int, name@) is None);
                    }
                    return None;
                },
            }
        }
    }

    /// Binds `name` to `value` in exactly the scope `scope`: later lookups
    /// in that scope see the new value, every other scope is untouched.
    /// Assignment never writes to an outer scope, so a `let` always shadows.
    pub fn set(&mut self, scope: usize, name: String, value: Object)
        requires
            scope < old(self)@.len(),
        ensures
            final(self)@ =~= env_set(old(self)@, scope, name@, value@),
            (env_wf(old(self)@) && obj_wf(value@, old(self)@.len() as nat)) ==> env_wf(
                final(self)@,
            ),
    {
        proof {
            lemma_scopes_view(self.scopes@);
        }
        let ghost namev = name@;
        let ghost valuev = value@;
        let ghost pre = self.scopes@;
        let ghost pre_sc = self.scopes@[scope as int];
        let ghost pushed: (String, Object) = (name, value);
        let sc = &mut self.scopes[scope];
        sc.entries.push((name, value));
        proof {
            let post = self.scopes@;
            lemma_scopes_view(pre);
            lemma_scopes_view(post);
            assert(post =~= pre.update(scope as int, post[scope as int]));
            assert(post[scope as int].entries@ =~= pre_sc.entries@.push(pushed));
            assert(post[scope as int].outer_scope == pre_sc.outer_scope);
            assert(post[scope as int].entries@.drop_last() =~= pre_sc.entries@);
            assert(entries_view(post[scope as int].entries@) =~= entries_view(
                pre_sc.entries@,
            ).push((namev, valuev)));
            let target = old(self)@.update(
                scope as int,
                (ScopeView {
                    bindings: old(self)@[scope as int].bindings.push((namev, valuev)),
                    outer: old(self)@[scope as int].outer,
                }),
            );
            assert forall|i: int| 0 <= i < post.len() implies scopes_view(post)[i] == target[i] by {
                if i != scope {
                    assert(post[i] == pre[i]);
                }
            }
            assert(final(self)@ =~= target);
            if env_wf(old(self)@) && obj_wf(valuev, old(self)@.len() as nat) {
                let e1 = old(self)@;
                let e2 = self@;
                assert forall|i: int| 0 <= i < e2.len() implies #[trigger] scope_wf(e2, i) by {
                    assert(scope_wf(e1, i));
                    if i == scope {
                        assert forall|k: int|
                            0 <= k < e2[i].bindings.len() implies obj_wf(
                            (#[trigger] e2[i].bindings[k]).1,
                            e2.len() as nat,
                        ) by {
                            if k < e1[i].bindings.len() {
                                assert(obj_wf(e1[i].bindings[k].1, e1.len() as nat));
                            }
                        }
                    }
                }
            }
        }
    }
}

} // verus!
