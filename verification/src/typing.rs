//! Type checking for the linear language: every linear binding must be
//! consumed exactly once, and unrestricted values may not capture or
//! contain linear ones.
//!
//! Contracts speak of environments through scope views: each stack of
//! scopes is a sequence of maps from variable names to their types, where
//! `None` marks a consumed linear binding.

use vstd::prelude::*;
use crate::helper::safe_add;
use crate::parser;
use crate::parser::{Expr, PrimType, Qual, TypeExpr};

verus! {

/// Why an expression was rejected.
#[derive(Debug)]
pub enum TypeError {
    /// The operator of an application is not a function.
    NotFunction,
    /// The operand's type differs from the parameter type.
    ArgMismatch,
    /// An unrestricted pair holds a linear component.
    UnPairHoldsLin,
    /// A linear binding was never consumed.
    UnconsumedLin(String),
    /// The condition of `if` is not a boolean.
    NotBool,
    /// The two branches of `if` disagree in type or in consumption.
    BranchMismatch,
    /// `split` binds the same name twice.
    SplitSameVar,
    /// The expression given to `split` is not a pair.
    NotPair,
    /// A variable is unbound, already consumed, or not capturable.
    UnknownVar(String),
    /// The bound expression's type differs from the annotation.
    LetTypeMismatch(String),
    /// Scopes are nested too deeply to count.
    TooDeep,
}

/// The bindings of one scope: each variable's type, or `None` once a
/// linear binding has been consumed.
type VarToType = Vec<(String, Option<TypeExpr>)>;

/// One stack's scopes as contracts see them: each scope's depth and its
/// bindings, outermost first.
pub type ScopeView = Seq<(usize, Map<Seq<char>, Option<TypeExpr>>)>;

/// Some entry of the scope binds this name.
pub open spec fn scope_has(s: Seq<(String, Option<TypeExpr>)>, k: Seq<char>) -> bool {
    exists|i: int| 0 <= i < s.len() && (#[trigger] s[i]).0@ == k
}

/// The index of the entry binding this name.
pub open spec fn scope_index(s: Seq<(String, Option<TypeExpr>)>, k: Seq<char>) -> int {
    choose|i: int| 0 <= i < s.len() && (#[trigger] s[i]).0@ == k
}

/// The bindings of one scope, as a map.
pub open spec fn scope_view(s: Seq<(String, Option<TypeExpr>)>) -> Map<Seq<char>, Option<TypeExpr>> {
    Map::new(|k: Seq<char>| scope_has(s, k), |k: Seq<char>| s[scope_index(s, k)].1)
}

/// Names are bound at most once per scope.
pub open spec fn scope_unique(s: Seq<(String, Option<TypeExpr>)>) -> bool {
    forall|i: int, j: int| 0 <= i < j < s.len() ==> (#[trigger] s[i]).0@ != (#[trigger] s[j]).0@
}

/// The innermost binding of a name in a stack of scopes: its scope's
/// depth and its (possibly consumed) type.
pub open spec fn stack_find(s: ScopeView, k: Seq<char>) -> Option<(usize, Option<TypeExpr>)>
    decreases s.len(),
{
    if s.len() == 0 {
        None
    } else if s.last().1.contains_key(k) {
        Some((s.last().0, s.last().1[k]))
    } else {
        stack_find(s.drop_last(), k)
    }
}

/// The stack after the innermost binding of a name is marked consumed;
/// a stack without the name is unchanged.
pub open spec fn stack_consume(s: ScopeView, k: Seq<char>) -> ScopeView
    decreases s.len(),
{
    if s.len() == 0 {
        s
    } else if s.last().1.contains_key(k) {
        s.drop_last().push((s.last().0, s.last().1.insert(k, None)))
    } else {
        stack_consume(s.drop_last(), k).push(s.last())
    }
}

/// Replacing the entry that binds `name` updates the scope's map there.
proof fn lemma_scope_view_update(
    s: Seq<(String, Option<TypeExpr>)>,
    i: int,
    name: String,
    v: Option<TypeExpr>,
)
    requires
        scope_unique(s),
        0 <= i < s.len(),
        s[i].0@ == name@,
    ensures
        scope_view(s.update(i, (name, v))) == scope_view(s).insert(name@, v),
        scope_unique(s.update(i, (name, v))),
{
    let s2 = s.update(i, (name, v));
    assert(forall|j: int| 0 <= j < s2.len() ==> (#[trigger] s2[j]).0@ == s[j].0@);
    assert forall|k: Seq<char>| #![auto] scope_has(s2, k) == scope_has(s, k) by {
        if scope_has(s2, k) {
            let w = scope_index(s2, k);
            assert(s[w].0@ == k);
        }
        if scope_has(s, k) {
            let w = scope_index(s, k);
            assert(s2[w].0@ == k);
        }
    }
    assert(scope_has(s, name@));
    assert forall|k: Seq<char>| #![auto] scope_view(s2).dom().contains(k) implies scope_view(s2)[k]
        == scope_view(s).insert(name@, v)[k] by {
        let w = scope_index(s2, k);
        assert(0 <= w < s2.len() && s2[w].0@ == k);
        if k == name@ {
            assert(w == i) by {
                if w != i {
                    assert(s[w].0@ == k && s[i].0@ == k);
                }
            }
            assert(scope_view(s2)[k] == v);
        } else {
            assert(w != i);
            let w2 = scope_index(s, k);
            assert(s[w2].0@ == k);
            assert(w2 == w) by {
                if w2 != w {
                    assert(s[w2].0@ == s[w].0@);
                }
            }
            assert(scope_view(s2)[k] == s[w].1);
        }
    }
    assert(scope_view(s2) =~= scope_view(s).insert(name@, v));
}

/// Binding a fresh name appends it to the scope's map.
proof fn lemma_scope_view_push(
    s: Seq<(String, Option<TypeExpr>)>,
    name: String,
    v: Option<TypeExpr>,
)
    requires
        scope_unique(s),
        !scope_has(s, name@),
    ensures
        scope_view(s.push((name, v))) == scope_view(s).insert(name@, v),
        scope_unique(s.push((name, v))),
{
    let s2 = s.push((name, v));
    assert(s2[s.len() as int].0@ == name@);
    assert(scope_unique(s2)) by {
        assert forall|i: int, j: int| 0 <= i < j < s2.len() implies (#[trigger] s2[i]).0@ != (
        #[trigger] s2[j]).0@ by {
            if j == s.len() {
                assert(s2[i].0@ == s[i].0@);
                if s[i].0@ == name@ {
                    assert(scope_has(s, name@));
                }
            }
        }
    }
    assert forall|k: Seq<char>| #![auto] scope_has(s2, k) == (scope_has(s, k) || k == name@) by {
        if scope_has(s2, k) {
            let w = scope_index(s2, k);
            if w < s.len() {
                assert(s[w].0@ == k);
            }
        }
        if scope_has(s, k) {
            let w = scope_index(s, k);
            assert(s2[w].0@ == k);
        }
    }
    assert forall|k: Seq<char>| #![auto] scope_view(s2).dom().contains(k) implies scope_view(s2)[k]
        == scope_view(s).insert(name@, v)[k] by {
        let w = scope_index(s2, k);
        assert(0 <= w < s2.len() && s2[w].0@ == k);
        if k == name@ {
            assert(w == s.len()) by {
                if w < s.len() {
                    assert(s[w].0@ == name@);
                    assert(scope_has(s, name@));
                }
            }
            assert(scope_view(s2)[k] == v);
        } else {
            assert(w < s.len());
            let w2 = scope_index(s, k);
            assert(s[w2].0@ == k);
            assert(w2 == w) by {
                if w2 != w {
                    assert(s[w2].0@ == s[w].0@);
                }
            }
            assert(scope_view(s2)[k] == s[w].1);
        }
    }
    assert(scope_view(s2) =~= scope_view(s).insert(name@, v));
}

/// Consuming a name that scope `i` binds, with no deeper scope binding it,
/// updates exactly that scope.
proof fn lemma_stack_consume_at(s: ScopeView, k: Seq<char>, i: int)
    requires
        0 <= i < s.len(),
        s[i].1.contains_key(k),
        forall|j: int| i < j < s.len() ==> !(#[trigger] s[j]).1.contains_key(k),
    ensures
        stack_consume(s, k) == s.update(i, (s[i].0, s[i].1.insert(k, None))),
    decreases s.len(),
{
    if i == s.len() - 1 {
        assert(stack_consume(s, k) == s.drop_last().push((s.last().0, s.last().1.insert(k, None))));
        assert(s.drop_last().push((s.last().0, s.last().1.insert(k, None))) =~= s.update(
            i,
            (s[i].0, s[i].1.insert(k, None)),
        ));
    } else {
        assert(!s.last().1.contains_key(k));
        let t = s.drop_last();
        assert(t[i] == s[i]);
        assert(forall|j: int| i < j < t.len() ==> !(#[trigger] t[j]).1.contains_key(k));
        lemma_stack_consume_at(t, k, i);
        assert(stack_consume(s, k) == stack_consume(t, k).push(s.last()));
        assert(t.update(i, (s[i].0, s[i].1.insert(k, None))).push(s.last()) =~= s.update(
            i,
            (s[i].0, s[i].1.insert(k, None)),
        ));
    }
}

/// Consuming a name no scope binds changes nothing.
proof fn lemma_stack_consume_absent(s: ScopeView, k: Seq<char>)
    requires
        forall|j: int| 0 <= j < s.len() ==> !(#[trigger] s[j]).1.contains_key(k),
    ensures
        stack_consume(s, k) == s,
    decreases s.len(),
{
    if s.len() > 0 {
        lemma_stack_consume_absent(s.drop_last(), k);
        assert(s.drop_last().push(s.last()) =~= s);
    }
}

/// One stack of scopes, outermost first, each tagged with its depth.
#[derive(Debug)]
pub struct TypeEnvStack {
    vars: Vec<(usize, VarToType)>,
}

/// Looks a name up in one scope.
fn scope_get(scope: &VarToType, key: &String) -> (r: Option<usize>)
    ensures
        r is Some <==> scope_has(scope@, key@),
        r matches Some(i) ==> i < scope@.len() && scope@[i as int].0@ == key@,
{
    let n = scope.len();
    let mut i: usize = 0;
    while i < n
        invariant
            n == scope@.len(),
            i <= n,
            forall|j: int| 0 <= j < i ==> (#[trigger] scope@[j]).0@ != key@,
        decreases n - i,
    {
        if scope[i].0 == *key {
            return Some(i);
        }
        i = i + 1;
    }
    proof {
        if scope_has(scope@, key@) {
            let w = scope_index(scope@, key@);
            assert(scope@[w].0@ != key@);
        }
    }
    None
}

impl TypeEnvStack {
    /// The stack as contracts see it.
    pub closed spec fn scopes(&self) -> ScopeView {
        Seq::new(self.vars@.len(), |i: int| (self.vars@[i].0, scope_view(self.vars@[i].1@)))
    }

    /// Names are bound at most once per scope.
    pub closed spec fn wf(&self) -> bool {
        forall|i: int| 0 <= i < self.vars@.len() ==> scope_unique((#[trigger] self.vars@[i]).1@)
    }

    pub fn new() -> (r: TypeEnvStack)
        ensures
            r.wf(),
            r.scopes() == Seq::<(usize, Map<Seq<char>, Option<TypeExpr>>)>::empty(),
    {
        let r = TypeEnvStack { vars: Vec::new() };
        proof {
            assert(r.scopes() =~= Seq::<(usize, Map<Seq<char>, Option<TypeExpr>>)>::empty());
        }
        r
    }

    /// Opens a scope at the given depth.
    pub fn push(&mut self, depth: usize)
        requires
            old(self).wf(),
        ensures
            final(self).wf(),
            final(self).scopes() == old(self).scopes().push(
                (depth, Map::<Seq<char>, Option<TypeExpr>>::empty()),
            ),
    {
        self.vars.push((depth, Vec::new()));
        proof {
            assert(scope_view(Seq::<(String, Option<TypeExpr>)>::empty()) =~= Map::<
                Seq<char>,
                Option<TypeExpr>,
            >::empty());
            assert(self.scopes() =~= old(self).scopes().push(
                (depth, Map::<Seq<char>, Option<TypeExpr>>::empty()),
            ));
        }
    }

    /// Closes the scope at the given depth, returning its bindings; scopes
    /// only leave from the top of the stack.
    pub fn pop(&mut self, depth: usize) -> (r: Option<VarToType>)
        requires
            old(self).wf(),
        ensures
            final(self).wf(),
            old(self).scopes().len() > 0 && old(self).scopes().last().0 == depth ==> final(self).scopes() == old(self).scopes().drop_last() && (r matches Some(sc) && scope_view(sc@)
                == old(self).scopes().last().1),
            !(old(self).scopes().len() > 0 && old(self).scopes().last().0 == depth) ==> final(self).scopes() == old(self).scopes() && r is None,
    {
        let n = self.vars.len();
        if n == 0 {
            return None;
        }
        if self.vars[n - 1].0 == depth {
            match self.vars.pop() {
                Some((_, scope)) => {
                    proof {
                        assert(self.scopes() =~= old(self).scopes().drop_last());
                    }
                    Some(scope)
                },
                None => {
                    proof {
                        assert(false);
                    }
                    None
                },
            }
        } else {
            None
        }
    }

    /// Binds a name in the topmost scope; without one, does nothing.
    pub fn insert(&mut self, key: String, value: TypeExpr)
        requires
            old(self).wf(),
        ensures
            final(self).wf(),
            old(self).scopes().len() == 0 ==> final(self).scopes() == old(self).scopes(),
            old(self).scopes().len() > 0 ==> final(self).scopes() == old(self).scopes().update(
                old(self).scopes().len() - 1,
                (
                    old(self).scopes().last().0,
                    old(self).scopes().last().1.insert(key@, Some(value)),
                ),
            ),
    {
        let n = self.vars.len();
        if n == 0 {
            return ;
        }
        let ghost oldscope = self.vars@[n - 1].1@;
        let scope = &mut self.vars[n - 1].1;
        let ghost kname = key;
        let ghost v: Option<TypeExpr> = Some(value);
        match scope_get(scope, &key) {
            Some(i) => {
                scope[i] = (key, Some(value));
                proof {
                    lemma_scope_view_update(oldscope, i as int, kname, v);
                }
            },
            None => {
                scope.push((key, Some(value)));
                proof {
                    lemma_scope_view_push(oldscope, kname, v);
                }
            },
        }
        proof {
            assert(self.scopes() =~= old(self).scopes().update(
                old(self).scopes().len() - 1,
                (
                    old(self).scopes().last().0,
                    old(self).scopes().last().1.insert(kname@, v),
                ),
            ));
        }
    }

    /// Finds the innermost binding of a name: its scope's depth and its
    /// type (`None` once consumed).
    pub fn find(&self, key: &String) -> (r: Option<(usize, Option<TypeExpr>)>)
        requires
            self.wf(),
        ensures
            r == stack_find(self.scopes(), key@),
    {
        let n = self.vars.len();
        let mut i: usize = n;
        proof {
            assert(self.scopes().subrange(0, n as int) =~= self.scopes());
        }
        while i > 0
            invariant
                self.wf(),
                i <= n,
                n == self.vars@.len(),
                stack_find(self.scopes(), key@) == stack_find(
                    self.scopes().subrange(0, i as int),
                    key@,
                ),
            decreases i,
        {
            i = i - 1;
            let ghost part = self.scopes().subrange(0, i + 1);
            proof {
                assert(part.last() == self.scopes()[i as int]);
                assert(part.drop_last() =~= self.scopes().subrange(0, i as int));
            }
            let scope = &self.vars[i].1;
            if let Some(j) = scope_get(scope, key) {
                let depth = self.vars[i].0;
                let ty = match &scope[j].1 {
                    Some(t) => Some(t.clone_type()),
                    None => None,
                };
                proof {
                    assert(scope_has(scope@, key@));
                    assert(self.scopes()[i as int].1.contains_key(key@));
                    let w = scope_index(scope@, key@);
                    assert(w == j) by {
                        if w < j {
                            assert(scope@[w].0@ != scope@[j as int].0@);
                        }
                        if w > j {
                            assert(scope@[j as int].0@ != scope@[w].0@);
                        }
                    }
                    assert(self.scopes()[i as int].1[key@] == scope@[j as int].1);
                }
                return Some((depth, ty));
            }
            proof {
                assert(!scope_has(self.vars@[i as int].1@, key@));
                assert(!part.last().1.contains_key(key@));
            }
        }
        proof {
            assert(self.scopes().subrange(0, 0) =~= Seq::<
                (usize, Map<Seq<char>, Option<TypeExpr>>),
            >::empty());
        }
        None
    }

    /// Marks the innermost binding of a name as consumed; a name no scope
    /// binds is left alone.
    pub fn consume(&mut self, key: &String)
        requires
            old(self).wf(),
        ensures
            final(self).wf(),
            final(self).scopes() == stack_consume(old(self).scopes(), key@),
    {
        let n = self.vars.len();
        let mut i: usize = n;
        while i > 0
            invariant
                *self == *old(self),
                self.wf(),
                i <= n,
                n == self.vars@.len(),
                forall|j: int|
                    i <= j < n ==> !(#[trigger] old(self).scopes()[j]).1.contains_key(key@),
            decreases i,
        {
            i = i - 1;
            let found = scope_get(&self.vars[i].1, key);
            if let Some(j) = found {
                proof {
                    assert(old(self).scopes()[i as int].1.contains_key(key@));
                }
                let ghost oldscope = self.vars@[i as int].1@;
                let scope = &mut self.vars[i].1;
                let name = key.clone();
                let ghost nm = name;
                let ghost v: Option<TypeExpr> = None;
                scope[j] = (name, None);
                proof {
                    lemma_scope_view_update(oldscope, j as int, nm, v);
                    lemma_stack_consume_at(old(self).scopes(), key@, i as int);
                    assert(scope_view(oldscope).insert(key@, None) == old(self).scopes()[
                    i as int].1.insert(key@, None));
                    assert(self.scopes() =~= stack_consume(old(self).scopes(), key@));
                }
                return ;
            }
            proof {
                assert(!scope_has(self.vars@[i as int].1@, key@));
                assert(!old(self).scopes()[i as int].1.contains_key(key@));
            }
        }
        proof {
            lemma_stack_consume_absent(old(self).scopes(), key@);
        }
    }
}

/// The innermost binding of a name across the two stacks: the deeper
/// scope wins, and a tie goes to the linear stack. The flag says which
/// stack held it.
pub open spec fn env_find(lin: ScopeView, un: ScopeView, k: Seq<char>) -> Option<
    (bool, Option<TypeExpr>),
> {
    match (stack_find(lin, k), stack_find(un, k)) {
        (Some(f1), Some(f2)) => if f1.0 >= f2.0 {
            Some((true, f1.1))
        } else {
            Some((false, f2.1))
        },
        (Some(f1), None) => Some((true, f1.1)),
        (None, Some(f2)) => Some((false, f2.1)),
        (None, None) => None,
    }
}

/// The type environment: one stack of scopes for linear bindings and one
/// for unrestricted ones.
#[derive(Debug)]
pub struct TypeEnv {
    env_lin: TypeEnvStack,
    env_un: TypeEnvStack,
}

impl TypeEnv {
    /// The linear stack's scopes.
    pub closed spec fn lin_scopes(&self) -> ScopeView {
        self.env_lin.scopes()
    }

    /// The unrestricted stack's scopes.
    pub closed spec fn un_scopes(&self) -> ScopeView {
        self.env_un.scopes()
    }

    /// Both stacks bind each name at most once per scope.
    pub closed spec fn wf(&self) -> bool {
        self.env_lin.wf() && self.env_un.wf()
    }

    /// A fresh, empty environment: no scopes, so no name is bound.
    pub fn new() -> (r: TypeEnv)
        ensures
            r.wf(),
            r.lin_scopes() == Seq::<(usize, Map<Seq<char>, Option<TypeExpr>>)>::empty(),
            r.un_scopes() == Seq::<(usize, Map<Seq<char>, Option<TypeExpr>>)>::empty(),
    {
        TypeEnv { env_lin: TypeEnvStack::new(), env_un: TypeEnvStack::new() }
    }

    /// Opens a scope at the given depth in both stacks.
    fn push(&mut self, depth: usize)
        requires
            old(self).wf(),
        ensures
            final(self).wf(),
            final(self).lin_scopes() == old(self).lin_scopes().push(
                (depth, Map::<Seq<char>, Option<TypeExpr>>::empty()),
            ),
            final(self).un_scopes() == old(self).un_scopes().push(
                (depth, Map::<Seq<char>, Option<TypeExpr>>::empty()),
            ),
    {
        self.env_lin.push(depth);
        self.env_un.push(depth);
    }

    /// Closes the scope at the given depth in both stacks.
    fn pop(&mut self, depth: usize) -> (r: (Option<VarToType>, Option<VarToType>))
        requires
            old(self).wf(),
        ensures
            final(self).wf(),
            old(self).lin_scopes().len() > 0 && old(self).lin_scopes().last().0 == depth ==> final(self).lin_scopes() == old(self).lin_scopes().drop_last() && (r.0 matches Some(sc)
                && scope_view(sc@) == old(self).lin_scopes().last().1),
            old(self).un_scopes().len() > 0 && old(self).un_scopes().last().0 == depth ==> final(self).un_scopes() == old(self).un_scopes().drop_last(),
    {
        let t1 = self.env_lin.pop(depth);
        let t2 = self.env_un.pop(depth);
        (t1, t2)
    }

    /// Binds a name in the stack its qualifier selects.
    fn insert(&mut self, key: String, value: TypeExpr)
        requires
            old(self).wf(),
        ensures
            final(self).wf(),
            value.qual == Qual::Lin ==> final(self).un_scopes() == old(self).un_scopes() && (old(
                self,
            ).lin_scopes().len() > 0 ==> final(self).lin_scopes() == old(
                self,
            ).lin_scopes().update(
                old(self).lin_scopes().len() - 1,
                (
                    old(self).lin_scopes().last().0,
                    old(self).lin_scopes().last().1.insert(key@, Some(value)),
                ),
            )),
            value.qual != Qual::Lin ==> final(self).lin_scopes() == old(self).lin_scopes() && (old(
                self,
            ).un_scopes().len() > 0 ==> final(self).un_scopes() == old(self).un_scopes().update(
                old(self).un_scopes().len() - 1,
                (
                    old(self).un_scopes().last().0,
                    old(self).un_scopes().last().1.insert(key@, Some(value)),
                ),
            )),
    {
        if matches!(value.qual, Qual::Lin) {
            self.env_lin.insert(key, value);
        } else {
            self.env_un.insert(key, value);
        }
    }

    /// Finds the innermost binding of a name across both stacks, deeper
    /// scopes first; a tie is resolved to the linear stack.
    fn find(&self, key: &String) -> (r: Option<(bool, Option<TypeExpr>)>)
        requires
            self.wf(),
        ensures
            r == env_find(self.lin_scopes(), self.un_scopes(), key@),
    {
        match (self.env_lin.find(key), self.env_un.find(key)) {
            (Some((d1, t1)), Some((d2, t2))) => {
                if d1 >= d2 {
                    Some((true, t1))
                } else {
                    Some((false, t2))
                }
            },
            (Some((_, t1)), None) => Some((true, t1)),
            (None, Some((_, t2))) => Some((false, t2)),
            _ => None,
        }
    }
}

/// A fresh copy of a qualified type.
impl TypeExpr {
    pub fn clone_type(&self) -> (r: TypeExpr)
        ensures
            r == *self,
        decreases self,
    {
        TypeExpr { qual: self.qual, prim: self.prim.clone_prim() }
    }
}

/// A fresh copy of an unqualified type.
impl PrimType {
    pub fn clone_prim(&self) -> (r: PrimType)
        ensures
            r == *self,
        decreases self,
    {
        match self {
            PrimType::Bool => PrimType::Bool,
            PrimType::Pair(a, b) => PrimType::Pair(
                Box::new(a.clone_type()),
                Box::new(b.clone_type()),
            ),
            PrimType::Arrow(a, b) => PrimType::Arrow(
                Box::new(a.clone_type()),
                Box::new(b.clone_type()),
            ),
        }
    }
}

/// The first binding of the scope that is still unconsumed; such a
/// binding is a linear value that was never used.
fn first_unconsumed(scope: &VarToType) -> (r: Option<String>) {
    let n = scope.len();
    let mut i: usize = 0;
    while i < n
        invariant
            n == scope@.len(),
            i <= n,
        decreases n - i,
    {
        if scope[i].1.is_some() {
            return Some(scope[i].0.clone());
        }
        i = i + 1;
    }
    None
}

/// Checks deep equality of two scope stacks, comparing names and types.
fn stack_eq(a: &TypeEnvStack, b: &TypeEnvStack) -> (r: bool) {
    let n = a.vars.len();
    if n != b.vars.len() {
        return false;
    }
    let mut i: usize = 0;
    while i < n
        invariant
            i <= n,
            n == a.vars@.len(),
            n == b.vars@.len(),
        decreases n - i,
    {
        if a.vars[i].0 != b.vars[i].0 {
            return false;
        }
        let sa = &a.vars[i].1;
        let sb = &b.vars[i].1;
        let m = sa.len();
        if m != sb.len() {
            return false;
        }
        let mut j: usize = 0;
        while j < m
            invariant
                j <= m,
                m == sa@.len(),
                m == sb@.len(),
            decreases m - j,
        {
            if sa[j].0 != sb[j].0 {
                return false;
            }
            match (&sa[j].1, &sb[j].1) {
                (Some(ta), Some(tb)) => {
                    if !parser::type_eq(ta, tb) {
                        return false;
                    }
                },
                (None, None) => {},
                _ => {
                    return false;
                },
            }
            j = j + 1;
        }
        i = i + 1;
    }
    true
}

/// Checks deep equality of two environments.
fn env_eq(a: &TypeEnv, b: &TypeEnv) -> (r: bool) {
    stack_eq(&a.env_lin, &b.env_lin) && stack_eq(&a.env_un, &b.env_un)
}

/// A fresh copy of a scope.
fn clone_scope(scope: &VarToType) -> (r: VarToType)
    ensures
        r@ == scope@,
{
    let n = scope.len();
    let mut out: VarToType = Vec::new();
    let mut i: usize = 0;
    while i < n
        invariant
            n == scope@.len(),
            i <= n,
            out@ == scope@.subrange(0, i as int),
        decreases n - i,
    {
        let name = scope[i].0.clone();
        let ty = match &scope[i].1 {
            Some(t) => Some(t.clone_type()),
            None => None,
        };
        out.push((name, ty));
        proof {
            assert(out@ =~= scope@.subrange(0, i + 1 as int));
        }
        i = i + 1;
    }
    proof {
        assert(out@ =~= scope@);
    }
    out
}

/// A fresh copy of a scope stack.
fn clone_stack(s: &TypeEnvStack) -> (r: TypeEnvStack)
    requires
        s.wf(),
    ensures
        r.wf(),
        r.scopes() == s.scopes(),
{
    let n = s.vars.len();
    let mut out: Vec<(usize, VarToType)> = Vec::new();
    let mut i: usize = 0;
    while i < n
        invariant
            n == s.vars@.len(),
            i <= n,
            out@.len() == i,
            forall|j: int|
                0 <= j < i ==> (#[trigger] out@[j]).0 == s.vars@[j].0 && out@[j].1@
                    == s.vars@[j].1@,
        decreases n - i,
    {
        out.push((s.vars[i].0, clone_scope(&s.vars[i].1)));
        i = i + 1;
    }
    let r = TypeEnvStack { vars: out };
    proof {
        assert forall|j: int| 0 <= j < n implies scope_unique(
            (#[trigger] r.vars@[j]).1@,
        ) by {
            assert(r.vars@[j].1@ == s.vars@[j].1@);
            assert(scope_unique(s.vars@[j].1@));
        }
        assert(r.scopes() =~= s.scopes());
    }
    r
}

/// A fresh copy of an environment.
fn clone_env(env: &TypeEnv) -> (r: TypeEnv)
    requires
        env.wf(),
    ensures
        r.wf(),
        r.lin_scopes() == env.lin_scopes(),
        r.un_scopes() == env.un_scopes(),
{
    TypeEnv { env_lin: clone_stack(&env.env_lin), env_un: clone_stack(&env.env_un) }
}

/// Types an expression in the given environment at the given scope depth.
/// The result is a function of the arguments alone: typing the same
/// expression under equal environments gives equal answers.
pub fn typing(expr: &Expr, env: &mut TypeEnv, depth: usize) -> (r: Result<TypeExpr, TypeError>)
    requires
        old(env).wf(),
    ensures
        final(env).wf(),
        r is Ok ==> final(env).un_scopes() == old(env).un_scopes(),
    decreases expr, 1int,
{
    match expr {
        Expr::App(e) => {
            proof {
                assert(decreases_to!(expr => expr->App_0));
            }
            typing_app(e, env, depth)
        },
        Expr::QVal(e) => {
            proof {
                assert(decreases_to!(expr => expr->QVal_0));
            }
            typing_qval(e, env, depth)
        },
        Expr::Free(e) => {
            proof {
                assert(decreases_to!(expr => expr->Free_0));
            }
            typing_free(e, env, depth)
        },
        Expr::If(e) => {
            proof {
                assert(decreases_to!(expr => expr->If_0));
            }
            typing_if(e, env, depth)
        },
        Expr::Split(e) => {
            proof {
                assert(decreases_to!(expr => expr->Split_0));
            }
            typing_split(e, env, depth)
        },
        Expr::Var(e) => typing_var(e, env),
        Expr::Let(e) => {
            proof {
                assert(decreases_to!(expr => expr->Let_0));
            }
            typing_let(e, env, depth)
        },
    }
}

/// Types an application: the operator must be a function and the operand
/// must have exactly its parameter type.
fn typing_app(expr: &parser::AppExpr, env: &mut TypeEnv, depth: usize) -> (r: Result<
    TypeExpr,
    TypeError,
>)
    requires
        old(env).wf(),
    ensures
        final(env).wf(),
        r is Ok ==> final(env).un_scopes() == old(env).un_scopes(),
    decreases *expr, 0int,
{
    proof {
        assert(decreases_to!(*expr => expr.expr1));
        assert(decreases_to!(*expr => expr.expr2));
    }
    let t1 = typing(&expr.expr1, env, depth)?;
    let (t_arg, t_ret) = match t1.prim {
        PrimType::Arrow(a, b) => (a, b),
        _ => {
            return Err(TypeError::NotFunction);
        },
    };
    let t2 = typing(&expr.expr2, env, depth)?;
    if parser::type_eq(&t_arg, &t2) {
        Ok(*t_ret)
    } else {
        Err(TypeError::ArgMismatch)
    }
}

/// Types a qualified value, whose type carries the value's qualifier. An
/// unrestricted pair may not hold linear components, and an unrestricted
/// function may not capture linear bindings; a function's body must
/// consume every linear binding the function introduced.
fn typing_qval(expr: &parser::QValExpr, env: &mut TypeEnv, depth: usize) -> (r: Result<
    TypeExpr,
    TypeError,
>)
    requires
        old(env).wf(),
    ensures
        final(env).wf(),
        r is Ok ==> final(env).un_scopes() == old(env).un_scopes(),
        r matches Ok(t) ==> t.qual == expr.qual,
        expr.val matches parser::ValExpr::Bool(_) ==> (r matches Ok(t) ==> t.prim is Bool),
        expr.val matches parser::ValExpr::Pair(_, _) ==> (r matches Ok(t) ==> (t.prim matches
            PrimType::Pair(a, b) && (expr.qual == Qual::Un ==> a.qual == Qual::Un && b.qual
            == Qual::Un))),
        expr.val matches parser::ValExpr::Fun(f) ==> (r matches Ok(t) ==> (t.prim matches
            PrimType::Arrow(a, _) && *a == f.ty)),
    decreases *expr, 0int,
{
    let p = match &expr.val {
        parser::ValExpr::Bool(_) => PrimType::Bool,
        parser::ValExpr::Pair(e1, e2) => {
            proof {
                assert(decreases_to!(*expr => expr.val));
                assert(decreases_to!(expr.val => expr.val->Pair_0));
                assert(decreases_to!(expr.val => expr.val->Pair_1));
            }
            let t1 = typing(e1, env, depth)?;
            let t2 = typing(e2, env, depth)?;
            if matches!(expr.qual, Qual::Un) && (matches!(t1.qual, Qual::Lin) || matches!(
                t2.qual,
                Qual::Lin,
            )) {
                return Err(TypeError::UnPairHoldsLin);
            }
            PrimType::Pair(Box::new(t1), Box::new(t2))
        },
        parser::ValExpr::Fun(e) => {
            proof {
                assert(decreases_to!(*expr => expr.val));
                assert(decreases_to!(expr.val => expr.val->Fun_0));
                assert(decreases_to!(expr.val->Fun_0 => e.expr));
            }
            // An unrestricted function may not capture linear bindings,
            // so they are hidden while its body is typed.
            let mut env_prev: Option<TypeEnvStack> = None;
            if matches!(expr.qual, Qual::Un) {
                let mut taken = TypeEnvStack::new();
                std::mem::swap(&mut taken, &mut env.env_lin);
                env_prev = Some(taken);
            }
            let mut depth = depth;
            if safe_add(&mut depth, &1, || TypeError::TooDeep).is_err() {
                return Err(TypeError::TooDeep);
            }
            env.push(depth);
            env.insert(e.var.clone(), e.ty.clone_type());
            let t = typing(&e.expr, env, depth)?;
            let (elin, _) = env.pop(depth);
            if let Some(scope) = elin {
                if let Some(name) = first_unconsumed(&scope) {
                    return Err(TypeError::UnconsumedLin(name));
                }
            }
            if let Some(ep) = env_prev {
                env.env_lin = ep;
            }
            PrimType::Arrow(Box::new(e.ty.clone_type()), Box::new(t))
        },
    };
    Ok(TypeExpr { qual: expr.qual, prim: p })
}

/// Types a `free`: the freed variable must be a live linear binding, which
/// it consumes.
fn typing_free(expr: &parser::FreeExpr, env: &mut TypeEnv, depth: usize) -> (r: Result<
    TypeExpr,
    TypeError,
>)
    requires
        old(env).wf(),
    ensures
        final(env).wf(),
        r is Ok ==> final(env).un_scopes() == old(env).un_scopes(),
        ({
            let found = stack_find(old(env).lin_scopes(), expr.var@);
            !(found matches Some((_, live)) && live is Some) ==> r == Err::<TypeExpr, TypeError>(
                TypeError::UnknownVar(expr.var),
            ) && *final(env) == *old(env)
        }),
    decreases *expr, 0int,
{
    proof {
        assert(decreases_to!(*expr => expr.expr));
    }
    if let Some((_, t)) = env.env_lin.find(&expr.var) {
        if t.is_some() {
            env.env_lin.consume(&expr.var);
            return typing(&expr.expr, env, depth);
        }
    }
    Err(TypeError::UnknownVar(expr.var.clone()))
}

/// Types an `if`: the condition must be boolean, and the two branches must
/// agree both in their type and in which linear bindings they consume.
fn typing_if(expr: &parser::IfExpr, env: &mut TypeEnv, depth: usize) -> (r: Result<
    TypeExpr,
    TypeError,
>)
    requires
        old(env).wf(),
    ensures
        final(env).wf(),
        r is Ok ==> final(env).un_scopes() == old(env).un_scopes(),
    decreases *expr, 0int,
{
    proof {
        assert(decreases_to!(*expr => expr.cond_expr));
        assert(decreases_to!(*expr => expr.then_expr));
        assert(decreases_to!(*expr => expr.else_expr));
    }
    let t1 = typing(&expr.cond_expr, env, depth)?;
    if !matches!(t1.prim, PrimType::Bool) {
        return Err(TypeError::NotBool);
    }
    let mut e = clone_env(env);
    let t2 = typing(&expr.then_expr, &mut e, depth)?;
    let t3 = typing(&expr.else_expr, env, depth)?;
    if !parser::type_eq(&t2, &t3) || !env_eq(&e, env) {
        return Err(TypeError::BranchMismatch);
    }
    Ok(t2)
}

/// Types a `split`: the expression must be a pair, whose components are
/// bound to two distinct names for the body; linear components must be
/// consumed by the body.
fn typing_split(expr: &parser::SplitExpr, env: &mut TypeEnv, depth: usize) -> (r: Result<
    TypeExpr,
    TypeError,
>)
    requires
        old(env).wf(),
    ensures
        final(env).wf(),
        r is Ok ==> final(env).un_scopes() == old(env).un_scopes(),
    decreases *expr, 0int,
{
    proof {
        assert(decreases_to!(*expr => expr.expr));
        assert(decreases_to!(*expr => expr.body));
    }
    if expr.left == expr.right {
        return Err(TypeError::SplitSameVar);
    }
    let t1 = typing(&expr.expr, env, depth)?;
    let mut depth = depth;
    if safe_add(&mut depth, &1, || TypeError::TooDeep).is_err() {
        return Err(TypeError::TooDeep);
    }
    match t1.prim {
        PrimType::Pair(p1, p2) => {
            env.push(depth);
            env.insert(expr.left.clone(), *p1);
            env.insert(expr.right.clone(), *p2);
        },
        _ => {
            return Err(TypeError::NotPair);
        },
    }
    let ret = typing(&expr.body, env, depth);
    let (elin, _) = env.pop(depth);
    if let Some(scope) = elin {
        if let Some(name) = first_unconsumed(&scope) {
            return Err(TypeError::UnconsumedLin(name));
        }
    }
    ret
}

/// Types a variable. A live binding gives its type; using a live binding
/// from the linear stack consumes it, while an unrestricted one may be
/// used again; an unbound or consumed name is an error, and either way
/// nothing else of the environment changes.
fn typing_var(expr: &String, env: &mut TypeEnv) -> (r: Result<TypeExpr, TypeError>)
    requires
        old(env).wf(),
    ensures
        final(env).wf(),
        r is Ok ==> final(env).un_scopes() == old(env).un_scopes(),
        ({
            let found = env_find(old(env).lin_scopes(), old(env).un_scopes(), expr@);
            match found {
                Some((is_lin, ot)) => {
                    if ot is Some {
                        &&& r == Ok::<TypeExpr, TypeError>(ot->0)
                        &&& (is_lin && ot->0.qual == Qual::Lin ==> final(env).lin_scopes()
                            == stack_consume(old(env).lin_scopes(), expr@) && final(env).un_scopes() == old(env).un_scopes())
                        &&& (!(is_lin && ot->0.qual == Qual::Lin) ==> *final(env) == *old(env))
                    } else {
                        &&& r == Err::<TypeExpr, TypeError>(TypeError::UnknownVar(*expr))
                        &&& *final(env) == *old(env)
                    }
                },
                None => {
                    &&& r == Err::<TypeExpr, TypeError>(TypeError::UnknownVar(*expr))
                    &&& *final(env) == *old(env)
                },
            }
        }),
{
    match env.find(expr) {
        Some((is_lin, Some(t))) => {
            if is_lin && matches!(t.qual, Qual::Lin) {
                env.env_lin.consume(expr);
            }
            Ok(t)
        },
        _ => Err(TypeError::UnknownVar(expr.clone())),
    }
}

/// Types a `let`: the bound expression must have the annotated type, and a
/// linear binding must be consumed by the body.
fn typing_let(expr: &parser::LetExpr, env: &mut TypeEnv, depth: usize) -> (r: Result<
    TypeExpr,
    TypeError,
>)
    requires
        old(env).wf(),
    ensures
        final(env).wf(),
        r is Ok ==> final(env).un_scopes() == old(env).un_scopes(),
    decreases *expr, 0int,
{
    proof {
        assert(decreases_to!(*expr => expr.expr1));
        assert(decreases_to!(*expr => expr.expr2));
    }
    let t1 = typing(&expr.expr1, env, depth)?;
    if !parser::type_eq(&t1, &expr.ty) {
        return Err(TypeError::LetTypeMismatch(expr.var.clone()));
    }
    let mut depth = depth;
    if safe_add(&mut depth, &1, || TypeError::TooDeep).is_err() {
        return Err(TypeError::TooDeep);
    }
    env.push(depth);
    env.insert(expr.var.clone(), t1);
    let t2 = typing(&expr.expr2, env, depth)?;
    let (elin, _) = env.pop(depth);
    if let Some(scope) = elin {
        if let Some(name) = first_unconsumed(&scope) {
            return Err(TypeError::UnconsumedLin(name));
        }
    }
    Ok(t2)
}

} // verus!
