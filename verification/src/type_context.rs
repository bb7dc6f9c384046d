//! The typing context of the grammar type checker: the types of the rule
//! variables in scope, and whether they are guarded.
use std::borrow::Cow;
use std::collections::HashMap;
use vstd::prelude::*;

use crate::core_syntax::Symbol;

verus! {

broadcast use vstd::std_specs::hash::group_hash_axioms;

/// The type of a grammar expression: the tokens it may start with, the tokens
/// that may follow it, whether it accepts the empty input, and whether it is
/// guarded (sits behind a token, so that a fixpoint may use it).
#[derive(Clone, Debug)]
pub struct Type {
    pub first: Vec<Symbol>,
    pub follow: Vec<Symbol>,
    pub nullable: bool,
    pub guarded: bool,
}

pub struct TypeView {
    pub first: Seq<Symbol>,
    pub follow: Seq<Symbol>,
    pub nullable: bool,
    pub guarded: bool,
}

impl View for Type {
    type V = TypeView;

    open spec fn view(&self) -> TypeView {
        TypeView {
            first: self.first@,
            follow: self.follow@,
            nullable: self.nullable,
            guarded: self.guarded,
        }
    }
}

impl TypeView {
    /// The same type, guarded.
    pub open spec fn as_guarded(self) -> TypeView {
        TypeView { guarded: true, ..self }
    }
}

fn copy_symbols(v: &Vec<Symbol>) -> (r: Vec<Symbol>)
    ensures
        r@ == v@,
{
    let mut r: Vec<Symbol> = Vec::new();
    let mut i: usize = 0;
    while i < v.len()
        invariant
            0 <= i <= v.len(),
            r@ == v@.subrange(0, i as int),
        decreases v.len() - i,
    {
        r.push(v[i]);
        proof {
            assert(v@.subrange(0, i + 1) =~= v@.subrange(0, i as int).push(v@[i as int]));
        }
        i = i + 1;
    }
    proof {
        assert(v@.subrange(0, v@.len() as int) =~= v@);
    }
    r
}

impl Type {
    /// A copy of this type.
    fn duplicate(&self) -> (r: Type)
        ensures
            r@ == self@,
    {
        Type {
            first: copy_symbols(&self.first),
            follow: copy_symbols(&self.follow),
            nullable: self.nullable,
            guarded: self.guarded,
        }
    }
}

/// The types of the rule variables in scope, by the id of their symbol, and
/// whether the scope is guarded.
pub struct TypeContext {
    guarded: bool,
    gamma: HashMap<u64, Type>,
}

pub struct TypeContextView {
    pub guarded: bool,
    pub gamma: Map<u64, TypeView>,
}

impl TypeContextView {
    pub open spec fn with_guarded(self, guarded: bool) -> TypeContextView {
        TypeContextView { guarded, ..self }
    }

    pub open spec fn with_gamma(self, gamma: Map<u64, TypeView>) -> TypeContextView {
        TypeContextView { gamma, ..self }
    }

    /// The type of `sym` as a lookup gives it: guarded in a guarded scope.
    pub open spec fn type_of(self, sym: Symbol) -> Option<TypeView> {
        if self.gamma.contains_key(sym.id) {
            Some(
                if self.guarded {
                    self.gamma[sym.id].as_guarded()
                } else {
                    self.gamma[sym.id]
                },
            )
        } else {
            None
        }
    }

    /// The bindings of `inner` with the binding of `key` put back as in `outer`.
    pub open spec fn restore(outer: Map<u64, TypeView>, inner: Map<u64, TypeView>, key: u64) -> Map<
        u64,
        TypeView,
    > {
        if outer.contains_key(key) {
            inner.insert(key, outer[key])
        } else {
            inner.remove(key)
        }
    }
}

impl View for TypeContext {
    type V = TypeContextView;

    closed spec fn view(&self) -> TypeContextView {
        TypeContextView {
            guarded: self.guarded,
            gamma: self.gamma@.map_values(|t: Type| t@),
        }
    }
}

/// The view of a type that a lookup hands out.
pub open spec fn cow_view(r: Option<Cow<'_, Type>>) -> Option<TypeView> {
    match r {
        Some(c) => Some(c@),
        None => None,
    }
}

impl TypeContext {
    /// An empty, unguarded context.
    pub fn new() -> (r: Self)
        ensures
            r@.guarded == false,
            r@.gamma == Map::<u64, TypeView>::empty(),
    {
        let r = Self { guarded: false, gamma: HashMap::new() };
        proof {
            assert(r@.gamma =~= Map::<u64, TypeView>::empty());
        }
        r
    }

    /// The type of `sym`, marked guarded where the context is guarded.
    pub fn lookup(&self, sym: Symbol) -> (r: Option<Cow<'_, Type>>)
        ensures
            cow_view(r) == self@.type_of(sym),
            match r {
                Some(Cow::Borrowed(_)) => !self@.guarded,
                Some(Cow::Owned(_)) => self@.guarded,
                None => true,
            },
    {
        let target = match self.gamma.get(&sym.id) {
            Some(t) => t,
            None => {
                return None;
            },
        };
        if self.guarded {
            let copy = target.duplicate();
            Some(Cow::Owned(Type { guarded: true, ..copy }))
        } else {
            Some(Cow::Borrowed(target))
        }
    }

    /// Runs `f` on this context made guarded, then puts back the guard it had.
    pub fn guarded<F, R>(&mut self, f: F) -> (result: R) where F: FnOnce(&mut Self) -> R
        requires
            forall|c: &mut Self| (*c)@ == old(self)@.with_guarded(true) ==> f.requires((c,)),
        ensures
            exists|c: &mut Self|
                {
                    &&& (*c)@ == old(self)@.with_guarded(true)
                    &&& f.ensures((c,), result)
                    &&& final(self)@ == final(c)@.with_guarded(old(self)@.guarded)
                },
            final(self)@.guarded == old(self)@.guarded,
    {
        let backup = self.guarded;
        self.guarded = true;
        assert(self@ == old(self)@.with_guarded(true));
        let result = f(self);
        self.guarded = backup;
        result
    }

    /// Runs `f` on this context with `sym` bound to `ty`, then puts back the
    /// binding `sym` had before (or none).
    pub fn with<F, R>(&mut self, sym: Symbol, ty: Type, f: F) -> (result: R) where
        F: FnOnce(&mut Self) -> R,
        requires
            forall|c: &mut Self|
                (*c)@ == old(self)@.with_gamma(old(self)@.gamma.insert(sym.id, ty@)) ==> f.requires(
                    (c,),
                ),
        ensures
            exists|c: &mut Self|
                {
                    &&& (*c)@ == old(self)@.with_gamma(old(self)@.gamma.insert(sym.id, ty@))
                    &&& f.ensures((c,), result)
                    &&& final(self)@ == final(c)@.with_gamma(
                        TypeContextView::restore(old(self)@.gamma, final(c)@.gamma, sym.id),
                    )
                },
            final(self)@.gamma.contains_key(sym.id) == old(self)@.gamma.contains_key(sym.id),
            old(self)@.gamma.contains_key(sym.id) ==> final(self)@.gamma[sym.id]
                == old(self)@.gamma[sym.id],
    {
        let ghost before = self@;
        let backup = self.gamma.insert(sym.id, ty);
        proof {
            assert(self@.gamma =~= before.gamma.insert(sym.id, ty@));
        }
        let result = f(self);
        let ghost inner = self@;
        if let Some(backup) = backup {
            self.gamma.insert(sym.id, backup);
            proof {
                assert(self@.gamma =~= TypeContextView::restore(before.gamma, inner.gamma, sym.id));
            }
        } else {
            self.gamma.remove(&sym.id);
            proof {
                assert(self@.gamma =~= TypeContextView::restore(before.gamma, inner.gamma, sym.id));
            }
        }
        result
    }
}

/// Scoping: when the body of `with` leaves the context it is given as it found
/// it, `with` leaves the context as it was before, whatever `sym` was bound to.
pub proof fn law_with_is_scoped(before: TypeContextView, sym: Symbol, ty: TypeView)
    ensures
        ({
            let inner = before.with_gamma(before.gamma.insert(sym.id, ty));
            inner.with_gamma(TypeContextView::restore(before.gamma, inner.gamma, sym.id)) == before
        }),
{
    let inner = before.with_gamma(before.gamma.insert(sym.id, ty));
    assert(TypeContextView::restore(before.gamma, inner.gamma, sym.id) =~= before.gamma);
}

/// Scoping: when the body of `guarded` leaves the context it is given as it
/// found it, `guarded` leaves the context as it was before.
pub proof fn law_guarded_is_scoped(before: TypeContextView)
    ensures
        before.with_guarded(true).with_guarded(before.guarded) == before,
{
}

/// Nesting: the context that the body of a `guarded` call nested in another one
/// is given is the one the outer body is given, and the context the two calls
/// leave is the one the inner body leaves, with the outermost guard put back;
/// so `guarded` nested in `guarded` behaves as one `guarded`.
pub proof fn law_guarded_nested(before: TypeContextView, inner_after: TypeContextView)
    ensures
        before.with_guarded(true).with_guarded(true) == before.with_guarded(true),
        inner_after.with_guarded(before.with_guarded(true).guarded).with_guarded(before.guarded)
            == inner_after.with_guarded(before.guarded),
{
}

/// Inside `guarded`, every bound symbol is looked up with its type marked
/// guarded and its other fields unchanged; unbound symbols stay unbound.
pub proof fn law_guarded_lookup(before: TypeContextView, s: Symbol)
    ensures
        before.with_guarded(true).type_of(s) == (if before.gamma.contains_key(s.id) {
            Some(before.gamma[s.id].as_guarded())
        } else {
            None
        }),
        before.with_guarded(true).type_of(s) matches Some(t) ==> {
            &&& t.guarded
            &&& t.first == before.gamma[s.id].first
            &&& t.follow == before.gamma[s.id].follow
            &&& t.nullable == before.gamma[s.id].nullable
        },
{
}

/// Shadowing: inside a `with` on `s` nested in another `with` on `s`, `s` has
/// the inner type; once the inner call is left, the outer type is back; once
/// both are left, the binding of `s` is what it was before.
pub proof fn law_with_shadows(
    before: TypeContextView,
    s: Symbol,
    t1: TypeView,
    t2: TypeView,
    body_after: Map<u64, TypeView>,
)
    ensures
        ({
            let outer = before.gamma.insert(s.id, t1);
            let inner = outer.insert(s.id, t2);
            let back = TypeContextView::restore(outer, body_after, s.id);
            let out = TypeContextView::restore(before.gamma, back, s.id);
            &&& inner[s.id] == t2
            &&& back[s.id] == t1
            &&& out.contains_key(s.id) == before.gamma.contains_key(s.id)
            &&& before.gamma.contains_key(s.id) ==> out[s.id] == before.gamma[s.id]
        }),
{
}

/// Inside `with` on `sym`, every other symbol is looked up as before.
pub proof fn law_with_keeps_other_bindings(
    before: TypeContextView,
    sym: Symbol,
    ty: TypeView,
    x: Symbol,
)
    requires
        x != sym,
    ensures
        before.with_gamma(before.gamma.insert(sym.id, ty)).type_of(x) == before.type_of(x),
{
}

/// Two `with` calls on different symbols commute: nested either way, they give
/// their body the same context, and for whatever context the body leaves,
/// they leave the same context.
pub proof fn law_with_commutes(
    before: TypeContextView,
    s1: Symbol,
    t1: TypeView,
    s2: Symbol,
    t2: TypeView,
    body_after: TypeContextView,
)
    requires
        s1 != s2,
    ensures
        before.gamma.insert(s1.id, t1).insert(s2.id, t2) == before.gamma.insert(s2.id, t2).insert(
            s1.id,
            t1,
        ),
        TypeContextView::restore(
            before.gamma,
            TypeContextView::restore(before.gamma.insert(s1.id, t1), body_after.gamma, s2.id),
            s1.id,
        ) == TypeContextView::restore(
            before.gamma,
            TypeContextView::restore(before.gamma.insert(s2.id, t2), body_after.gamma, s1.id),
            s2.id,
        ),
{
    assert(before.gamma.insert(s1.id, t1).insert(s2.id, t2) =~= before.gamma.insert(
        s2.id,
        t2,
    ).insert(s1.id, t1));
    assert(TypeContextView::restore(
        before.gamma,
        TypeContextView::restore(before.gamma.insert(s1.id, t1), body_after.gamma, s2.id),
        s1.id,
    ) =~= TypeContextView::restore(
        before.gamma,
        TypeContextView::restore(before.gamma.insert(s2.id, t2), body_after.gamma, s1.id),
        s2.id,
    ));
}

} // verus!
