use querydb::ast::{ConstDecl, DeclItem, PkgDecl, TypeDecl};
use querydb::hir::{AnyScope, Context, DeclRef, DummyScope, Node, Package2, Slot, TypeDecl2};
use querydb::source::{Name, ScopeId, Span, Spanned};

fn named(code: u64, lo: u32, hi: u32) -> Spanned<Name> {
    Spanned { value: Name { code }, span: Span::new(lo, hi) }
}

fn scope() -> ScopeId {
    // The scope is an opaque back-reference; a dummy owner stands in.
    let _owner: &dyn AnyScope = &DummyScope;
    ScopeId { index: 0 }
}

#[test]
fn poll_builds_once_and_repolls_identically() {
    let mut ctx = Context::new();
    let ast = TypeDecl { span: Span::new(0, 9), name: named(10, 0, 4) };
    let si = TypeDecl2::new_slot(&mut ctx, scope(), ast).unwrap();
    let first = Slot::<TypeDecl2>::poll(&mut ctx, si);
    let second = Slot::<TypeDecl2>::poll(&mut ctx, si);
    let third = Slot::<TypeDecl2>::poll(&mut ctx, si);
    // Identical reference every time, and construction ran once: one
    // node in the arena.
    assert_eq!(first, Ok(0));
    assert_eq!(second, first);
    assert_eq!(third, first);
    assert_eq!(ctx.type_decls.len(), 1);
    let node = ctx.type_decl(0);
    assert_eq!(node.name.value, Name { code: 10 });
    assert_eq!(node.span, Span::new(0, 9));
}

#[test]
fn failed_construction_is_cached_and_sticky() {
    let mut ctx = Context::new();
    // Name code 0 is the missing name: construction fails.
    let ast = TypeDecl { span: Span::new(3, 8), name: named(0, 3, 5) };
    let si = TypeDecl2::new_slot(&mut ctx, scope(), ast).unwrap();
    assert_eq!(Slot::<TypeDecl2>::poll(&mut ctx, si), Err(()));
    // The identical failure signal, every time, with nothing rebuilt.
    assert_eq!(Slot::<TypeDecl2>::poll(&mut ctx, si), Err(()));
    assert_eq!(ctx.type_decls.len(), 0);
}

#[test]
fn span_forwards_or_reports_invalid() {
    let mut ctx = Context::new();
    let good = TypeDecl { span: Span::new(1, 7), name: named(3, 1, 2) };
    let bad = TypeDecl { span: Span::new(9, 12), name: named(0, 9, 10) };
    let sg = TypeDecl2::new_slot(&mut ctx, scope(), good).unwrap();
    let sb = TypeDecl2::new_slot(&mut ctx, scope(), bad).unwrap();
    assert_eq!(Slot::<TypeDecl2>::span(&mut ctx, sg), Span::new(1, 7));
    assert_eq!(
        Slot::<TypeDecl2>::span(&mut ctx, sb),
        Span::new(u32::MAX, u32::MAX)
    );
    // The node's own span capability agrees.
    let j = Slot::<TypeDecl2>::poll(&mut ctx, sg).unwrap();
    assert_eq!(ctx.type_decl(j).span(), Span::new(1, 7));
}

#[test]
fn package_collects_child_slots_lazily() {
    let mut ctx = Context::new();
    let ast = PkgDecl {
        span: Span::new(0, 100),
        name: named(1, 0, 3),
        decls: vec![
            DeclItem::TypeDecl(TypeDecl { span: Span::new(10, 20), name: named(2, 10, 12) }),
            DeclItem::ConstDecl(ConstDecl { span: Span::new(30, 40), name: named(3, 30, 32) }),
            DeclItem::PkgDecl(PkgDecl {
                span: Span::new(50, 90),
                name: named(4, 50, 53),
                decls: vec![DeclItem::TypeDecl(TypeDecl {
                    span: Span::new(60, 70),
                    name: named(5, 60, 62),
                })],
            }),
        ],
    };
    let si = Package2::new_slot(&mut ctx, scope(), ast).unwrap();
    let pi = Slot::<Package2>::poll(&mut ctx, si).unwrap();
    // The constant declaration is skipped; the other two children got
    // slots, unforced as yet.
    assert_eq!(ctx.package(pi).decls().len(), 2);
    assert_eq!(ctx.packages.len(), 1);
    assert_eq!(ctx.type_decls.len(), 0);
    // Forcing is caller-driven, in any order: poll the nested package
    // first, then the type declaration.
    let decls = ctx.package(pi).decls().clone();
    match decls[1] {
        DeclRef::Package(child) => {
            let cj = Slot::<Package2>::poll(&mut ctx, child).unwrap();
            assert_eq!(ctx.package(cj).name.value, Name { code: 4 });
            assert_eq!(ctx.package(cj).decls().len(), 1);
        }
        DeclRef::TypeDecl(_) => panic!("second child should be the nested package"),
    }
    match decls[0] {
        DeclRef::TypeDecl(child) => {
            let tj = Slot::<TypeDecl2>::poll(&mut ctx, child).unwrap();
            assert_eq!(ctx.type_decl(tj).name.value, Name { code: 2 });
        }
        DeclRef::Package(_) => panic!("first child should be the type declaration"),
    }
}

#[test]
fn arena_references_stay_stable() {
    let mut ctx = Context::new();
    let first = TypeDecl { span: Span::new(0, 1), name: named(11, 0, 1) };
    let s0 = TypeDecl2::new_slot(&mut ctx, scope(), first).unwrap();
    let j0 = Slot::<TypeDecl2>::poll(&mut ctx, s0).unwrap();
    let id0 = ctx.type_decl(j0).id;
    let name0 = ctx.type_decl(j0).name;
    // Many subsequent allocations...
    for k in 0..50u32 {
        let ast = TypeDecl { span: Span::new(k, k + 1), name: named(100 + k as u64, k, k) };
        let sk = TypeDecl2::new_slot(&mut ctx, scope(), ast).unwrap();
        Slot::<TypeDecl2>::poll(&mut ctx, sk).unwrap();
    }
    // ...and the first reference still reaches the same, unchanged node.
    assert_eq!(ctx.type_decls.len(), 51);
    assert_eq!(ctx.type_decl(j0).id, id0);
    assert_eq!(ctx.type_decl(j0).name, name0);
}

#[test]
fn package_ids_come_from_the_session_counter() {
    let mut ctx = Context::new();
    let ast = PkgDecl { span: Span::new(0, 4), name: named(8, 0, 2), decls: vec![] };
    let si = Package2::new_slot(&mut ctx, scope(), ast).unwrap();
    let pi = Slot::<Package2>::poll(&mut ctx, si).unwrap();
    assert_eq!(ctx.package(pi).id.index, 0);
    assert_eq!(ctx.next_id, 1);
    // A node of the other kind draws from the same counter: identities
    // never collide across kinds.
    let tast = TypeDecl { span: Span::new(5, 6), name: named(9, 5, 6) };
    let ti = TypeDecl2::new_slot(&mut ctx, scope(), tast).unwrap();
    let tj = Slot::<TypeDecl2>::poll(&mut ctx, ti).unwrap();
    assert_eq!(ctx.type_decl(tj).id.index, 1);
    assert_ne!(ctx.package(pi).id, ctx.type_decl(tj).id);
    assert_eq!(ctx.next_id, 2);
}

#[test]
fn nameless_package_fails_to_build() {
    let mut ctx = Context::new();
    // Name code 0 is the missing name; the name is checked before any
    // child slot is created.
    let ast = PkgDecl {
        span: Span::new(0, 20),
        name: named(0, 0, 1),
        decls: vec![DeclItem::TypeDecl(TypeDecl {
            span: Span::new(5, 10),
            name: named(6, 5, 6),
        })],
    };
    let si = Package2::new_slot(&mut ctx, scope(), ast).unwrap();
    assert_eq!(Slot::<Package2>::poll(&mut ctx, si), Err(()));
    assert_eq!(Slot::<Package2>::poll(&mut ctx, si), Err(()));
    assert_eq!(ctx.packages.len(), 0);
    assert_eq!(ctx.type_decl_slots.len(), 0);
    assert_eq!(
        Slot::<Package2>::span(&mut ctx, si),
        Span::new(u32::MAX, u32::MAX)
    );
}

#[test]
fn package_span_forwards_to_the_built_node() {
    let mut ctx = Context::new();
    let ast = PkgDecl { span: Span::new(7, 42), name: named(9, 7, 9), decls: vec![] };
    let si = Package2::new_slot(&mut ctx, scope(), ast).unwrap();
    assert_eq!(Slot::<Package2>::span(&mut ctx, si), Span::new(7, 42));
    // The slot settled on the node; its span capability agrees.
    let pi = Slot::<Package2>::poll(&mut ctx, si).unwrap();
    assert_eq!(ctx.package(pi).span(), Span::new(7, 42));
}

#[test]
fn a_hand_made_slot_polls_like_an_allocated_one() {
    let mut ctx = Context::new();
    let ast = TypeDecl { span: Span::new(2, 4), name: named(7, 2, 3) };
    let slot = Slot::<TypeDecl2>::new(ScopeId { index: 1 }, ast);
    ctx.type_decl_slots.push(slot);
    assert_eq!(Slot::<TypeDecl2>::poll(&mut ctx, 0), Ok(0));
    assert_eq!(ctx.type_decl(0).span(), Span::new(2, 4));
}
