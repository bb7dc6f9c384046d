use std::borrow::Cow;
use pag::core_syntax::Symbol;
use pag::type_context::{Type, TypeContext};

fn ty(nullable: bool) -> Type {
    Type { first: vec![Symbol { id: 1 }], follow: vec![], nullable, guarded: false }
}

#[test]
fn empty_context_has_no_types() {
    let ctx = TypeContext::new();
    assert!(ctx.lookup(Symbol { id: 0 }).is_none());
}

#[test]
fn with_binds_for_its_body_only() {
    let mut ctx = TypeContext::new();
    let x = Symbol { id: 5 };
    let seen = ctx.with(x, ty(true), |c| {
        let t = c.lookup(x).unwrap();
        (t.nullable, t.guarded, t.first.clone())
    });
    assert_eq!(seen, (true, false, vec![Symbol { id: 1 }]));
    assert!(ctx.lookup(x).is_none());
}

#[test]
fn with_restores_the_outer_binding() {
    let mut ctx = TypeContext::new();
    let x = Symbol { id: 5 };
    let inner = ctx.with(x, ty(false), |c| {
        let shadowed = c.with(x, ty(true), |d| d.lookup(x).unwrap().nullable);
        (shadowed, c.lookup(x).unwrap().nullable)
    });
    assert_eq!(inner, (true, false));
    assert!(ctx.lookup(x).is_none());
}

#[test]
fn guarded_marks_types_and_restores_the_flag() {
    let mut ctx = TypeContext::new();
    let x = Symbol { id: 2 };
    let (inside, after) = ctx.with(x, ty(false), |c| {
        let inside = c.guarded(|d| d.lookup(x).unwrap().guarded);
        (inside, c.lookup(x).unwrap().guarded)
    });
    assert!(inside);
    assert!(!after);
    let nested = ctx.guarded(|c| c.guarded(|d| d.with(x, ty(true), |e| e.lookup(x).unwrap().guarded)));
    assert!(nested);
    assert!(ctx.lookup(x).is_none());
}

#[test]
fn guarded_lookup_copies_every_field() {
    let mut ctx = TypeContext::new();
    let x = Symbol { id: 8 };
    let t = Type { first: vec![Symbol { id: 3 }, Symbol { id: 4 }], follow: vec![Symbol { id: 9 }], nullable: true, guarded: false };
    let (first, follow, nullable, guarded) = ctx.with(x, t, |c| {
        c.guarded(|d| {
            let t = d.lookup(x).unwrap();
            (t.first.clone(), t.follow.clone(), t.nullable, t.guarded)
        })
    });
    assert_eq!(first, vec![Symbol { id: 3 }, Symbol { id: 4 }]);
    assert_eq!(follow, vec![Symbol { id: 9 }]);
    assert!(nullable);
    assert!(guarded);
}

#[test]
fn unguarded_lookup_borrows_and_guarded_lookup_owns() {
    let mut ctx = TypeContext::new();
    let x = Symbol { id: 3 };
    let (plain, marked) = ctx.with(x, ty(true), |c| {
        let plain = matches!(c.lookup(x), Some(Cow::Borrowed(t)) if !t.guarded && t.nullable);
        let marked = c.guarded(|d| matches!(d.lookup(x), Some(Cow::Owned(t)) if t.guarded && t.nullable));
        (plain, marked)
    });
    assert!(plain);
    assert!(marked);
}

#[test]
fn nested_guarded_keeps_the_outer_flag() {
    let mut ctx = TypeContext::new();
    let x = Symbol { id: 4 };
    let still = ctx.with(x, ty(false), |c| {
        c.guarded(|d| {
            d.guarded(|_| ());
            d.lookup(x).unwrap().guarded
        })
    });
    assert!(still);
    assert!(ctx.with(x, ty(false), |c| !c.lookup(x).unwrap().guarded));
}

#[test]
fn with_keeps_other_bindings_and_commutes() {
    let mut ctx = TypeContext::new();
    let (a, b) = (Symbol { id: 1 }, Symbol { id: 2 });
    let one = ctx.with(a, ty(true), |c| c.with(b, ty(false), |d| (d.lookup(a).unwrap().nullable, d.lookup(b).unwrap().nullable)));
    let two = ctx.with(b, ty(false), |c| c.with(a, ty(true), |d| (d.lookup(a).unwrap().nullable, d.lookup(b).unwrap().nullable)));
    assert_eq!(one, (true, false));
    assert_eq!(one, two);
    assert!(ctx.lookup(a).is_none() && ctx.lookup(b).is_none());
}
