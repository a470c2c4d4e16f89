//! Semantic nodes, the arena that owns them, and the lazy slots that
//! build them from syntax nodes on demand.
//!
//! A [`Slot`] is a one-shot, fallible, memoized placeholder for one
//! semantic node. It starts out `Fresh`, holding the inputs construction
//! will need; the first poll replaces the state with the failure marker
//! *before* construction runs — so a reentrant poll of the same slot
//! observes a failure instead of recursing — and then settles the slot
//! on `ReadyOk` with the index of the built node, or leaves it on
//! `ReadyErr` forever. Terminal states are sticky: every later poll
//! returns the same outcome without constructing again.
//!
//! The [`Context`] owns one append-only arena per node kind. Allocation
//! hands out the index of the value, and nothing ever moves, changes or
//! frees an allocated value, so an index stays valid and its target
//! unchanged for the context's whole life.

use vstd::prelude::*;
use vstd::pervasive::VecAdditionalExecFns;
use vstd::pervasive::unreached;
use crate::ast;
use crate::source::{Name, NodeId, ScopeId, Span, Spanned, invalid_span};

verus! {

/// An opaque lexical scope capability. Nodes point back at the scope
/// they were declared under through a [`ScopeId`]; this trait is the
/// capability a scope owner implements.
pub trait AnyScope {}

/// A scope that resolves nothing; a stand-in where no real scope
/// owner exists yet.
pub struct DummyScope;

impl AnyScope for DummyScope {}

/// Whatever exposes a source location.
pub trait Node {
    /// The node's source location, in spec form.
    spec fn spec_span(&self) -> Span;

    /// The source file location of this node.
    fn span(&self) -> (s: Span)
        ensures
            s == self.spec_span(),
    ;
}

/// Fixes, for each semantic node type, the syntax node it is built
/// from. Method-free so that slots can be generic over the node type
/// without dragging the whole construction protocol into their own
/// definition.
pub trait Constructed: Sized {
    /// The syntax node the semantic node is built from.
    type Input;
}

/// The capability to build a semantic node from a syntax node: the
/// construction protocol. Exact contracts live on the concrete types'
/// own construction functions; the trait fixes the shape and what every
/// implementation must preserve.
pub trait FromAst: Constructed {
    /// Put a fresh slot for the future node into the arena and return
    /// the slot's index.
    fn alloc_slot(ctx: &mut Context, scope: ScopeId, ast: Self::Input) -> (r: Result<
        usize,
        (),
    >)
        requires
            old(ctx).wf(),
        ensures
            final (ctx).wf(),
            arena_preserved(*old(ctx), *final (ctx)),
            slots_preserved(*old(ctx), *final (ctx)),
            final (ctx).next_id == old(ctx).next_id,
    ;

    /// Build the node from its syntax node under the given scope. On
    /// success the caller owns the node; allocating it is the caller's
    /// business.
    fn from_ast(ctx: &mut Context, scope: ScopeId, ast: Self::Input) -> (r: Result<Self, ()>)
        requires
            old(ctx).wf(),
            old(ctx).next_id < u64::MAX,
        ensures
            final (ctx).wf(),
            arena_preserved(*old(ctx), *final (ctx)),
            slots_preserved(*old(ctx), *final (ctx)),
            final (ctx).next_id >= old(ctx).next_id,
    ;
}

/// The state of a [`Slot`]: the one-way journey
/// `Fresh` → `ReadyErr` (tentative, while construction runs)
/// → `ReadyOk` or `ReadyErr` (terminal, sticky forever).
pub enum SlotState<T: Constructed> {
    /// Not built yet: the scope and syntax node construction will need.
    Fresh(ScopeId, T::Input),
    /// Built: the node sits at this index of its arena.
    ReadyOk(usize),
    /// Construction failed — or is running right now, so that a
    /// reentrant poll observes a failure instead of recursing.
    ReadyErr,
}

/// A placeholder for a semantic node: lazy, fallible, memoized.
pub struct Slot<T: Constructed> {
    /// The slot's one-way state.
    pub state: SlotState<T>,
}

impl<T: Constructed> Slot<T> {
    /// Create a new slot around the inputs of a later construction.
    pub fn new(scope: ScopeId, ast: T::Input) -> (s: Slot<T>)
        ensures
            s.state == SlotState::<T>::Fresh(scope, ast),
    {
        Slot { state: SlotState::Fresh(scope, ast) }
    }
}

/// A reference from a package to one of its child declarations' slots.
/// Children stay slots until somebody polls them, so siblings may be
/// built in any order a caller chooses.
#[derive(Clone, Copy, Debug, PartialEq, Eq, Structural)]
pub enum DeclRef {
    /// Index of a nested package's slot.
    Package(usize),
    /// Index of a type declaration's slot.
    TypeDecl(usize),
}

/// A package: a named, scoped container of child declarations, each of
/// them a slot.
pub struct Package2 {
    /// The node's identity within the session.
    pub id: NodeId,
    /// Where the package stands in the source text.
    pub span: Span,
    /// The package's name.
    pub name: Spanned<Name>,
    /// The scope the package was declared under.
    pub scope: ScopeId,
    /// The package's child declarations, lazy slots all of them.
    pub decls: Vec<DeclRef>,
}

/// A type declaration node.
pub struct TypeDecl2 {
    /// The node's identity within the session.
    pub id: NodeId,
    /// Where the declaration stands in the source text.
    pub span: Span,
    /// The declared type's name.
    pub name: Spanned<Name>,
}

impl Node for Package2 {
    open spec fn spec_span(&self) -> Span {
        self.span
    }

    fn span(&self) -> (s: Span) {
        self.span
    }
}

impl Node for TypeDecl2 {
    open spec fn spec_span(&self) -> Span {
        self.span
    }

    fn span(&self) -> (s: Span) {
        self.span
    }
}

/// The arena context of one compilation session: one append-only arena
/// per node kind, one per slot kind, and the session's id counter.
pub struct Context {
    /// All built packages, in allocation order.
    pub packages: Vec<Package2>,
    /// All built type declarations, in allocation order.
    pub type_decls: Vec<TypeDecl2>,
    /// All package slots, in allocation order.
    pub package_slots: Vec<Slot<Package2>>,
    /// All type declaration slots, in allocation order.
    pub type_decl_slots: Vec<Slot<TypeDecl2>>,
    /// The next node identity to hand out.
    pub next_id: u64,
}

/// One sequence extends another: everything the shorter one holds, the
/// longer one holds unchanged at the same index.
pub open spec fn seq_extends<T>(post: Seq<T>, pre: Seq<T>) -> bool {
    &&& pre.len() <= post.len()
    &&& forall|i: int| 0 <= i < pre.len() ==> post[i] == pre[i]
}

/// Arena stability: every node the context held before an operation it
/// still holds afterwards, unchanged, at the same index.
pub open spec fn arena_preserved(pre: Context, post: Context) -> bool {
    &&& seq_extends(post.packages@, pre.packages@)
    &&& seq_extends(post.type_decls@, pre.type_decls@)
}

/// Slot stability: no slot disappears and no already-present slot
/// changes state.
pub open spec fn slots_preserved(pre: Context, post: Context) -> bool {
    &&& seq_extends(post.package_slots@, pre.package_slots@)
    &&& seq_extends(post.type_decl_slots@, pre.type_decl_slots@)
}

/// Slot stability up to one package slot, the one a poll is settling.
pub open spec fn slots_preserved_except_package(pre: Context, post: Context, x: int) -> bool {
    &&& pre.package_slots@.len() <= post.package_slots@.len()
    &&& forall|i: int|
        0 <= i < pre.package_slots@.len() && i != x ==> post.package_slots@[i]
            == pre.package_slots@[i]
    &&& seq_extends(post.type_decl_slots@, pre.type_decl_slots@)
}

/// Slot stability up to one type declaration slot.
pub open spec fn slots_preserved_except_type_decl(pre: Context, post: Context, x: int) -> bool {
    &&& seq_extends(post.package_slots@, pre.package_slots@)
    &&& pre.type_decl_slots@.len() <= post.type_decl_slots@.len()
    &&& forall|i: int|
        0 <= i < pre.type_decl_slots@.len() && i != x ==> post.type_decl_slots@[i]
            == pre.type_decl_slots@[i]
}

impl Package2 {
    /// All child references point into the context's slot arenas.
    pub open spec fn refs_in(self, ctx: Context) -> bool {
        forall|k: int|
            0 <= k < self.decls@.len() ==> match #[trigger] self.decls@[k] {
                DeclRef::Package(si) => si < ctx.package_slots@.len(),
                DeclRef::TypeDecl(si) => si < ctx.type_decl_slots@.len(),
            }
    }

    /// The package's child declarations. They are slots: polling one
    /// builds it the first time.
    pub fn decls(&self) -> (r: &Vec<DeclRef>)
        ensures
            r@ == self.decls@,
    {
        &self.decls
    }
}

impl Context {
    /// Internal consistency: every settled slot points at a node that
    /// exists, and every package's child references point at slots that
    /// exist.
    pub open spec fn wf(self) -> bool {
        &&& forall|i: int|
            0 <= i < self.package_slots@.len() ==> match (
            #[trigger] self.package_slots@[i]).state {
                SlotState::ReadyOk(j) => j < self.packages@.len(),
                _ => true,
            }
        &&& forall|i: int|
            0 <= i < self.type_decl_slots@.len() ==> match (
            #[trigger] self.type_decl_slots@[i]).state {
                SlotState::ReadyOk(j) => j < self.type_decls@.len(),
                _ => true,
            }
        &&& forall|i: int|
            0 <= i < self.packages@.len() ==> (#[trigger] self.packages@[i]).refs_in(self)
        &&& forall|i: int|
            0 <= i < self.packages@.len() ==> (#[trigger] self.packages@[i]).id.index
                < self.next_id
        &&& forall|i: int|
            0 <= i < self.type_decls@.len() ==> (#[trigger] self.type_decls@[i]).id.index
                < self.next_id
    }

    /// An empty context: nothing allocated, ids start at zero.
    pub fn new() -> (ctx: Context)
        ensures
            ctx.packages@.len() == 0,
            ctx.type_decls@.len() == 0,
            ctx.package_slots@.len() == 0,
            ctx.type_decl_slots@.len() == 0,
            ctx.next_id == 0,
            ctx.wf(),
    {
        Context {
            packages: Vec::new(),
            type_decls: Vec::new(),
            package_slots: Vec::new(),
            type_decl_slots: Vec::new(),
            next_id: 0,
        }
    }

    /// Hand out the next node identity.
    fn fresh_id(&mut self) -> (id: NodeId)
        requires
            old(self).next_id < u64::MAX,
        ensures
            id == (NodeId { index: old(self).next_id }),
            final (self).next_id == old(self).next_id + 1,
            final (self).packages@ == old(self).packages@,
            final (self).type_decls@ == old(self).type_decls@,
            final (self).package_slots@ == old(self).package_slots@,
            final (self).type_decl_slots@ == old(self).type_decl_slots@,
    {
        let id = NodeId { index: self.next_id };
        self.next_id = self.next_id + 1;
        id
    }

    /// Allocate a built package into the arena; its index is its
    /// stable reference.
    pub fn alloc_package(&mut self, node: Package2) -> (i: usize)
        requires
            old(self).wf(),
            node.refs_in(*old(self)),
            node.id.index < old(self).next_id,
        ensures
            i == old(self).packages@.len(),
            final (self).packages@ == old(self).packages@.push(node),
            final (self).type_decls@ == old(self).type_decls@,
            final (self).package_slots@ == old(self).package_slots@,
            final (self).type_decl_slots@ == old(self).type_decl_slots@,
            final (self).next_id == old(self).next_id,
            final (self).wf(),
    {
        let i = self.packages.len();
        self.packages.push(node);
        proof {
            assert forall|k: int| 0 <= k < self.packages@.len() implies (
            #[trigger] self.packages@[k]).refs_in(*self) by {
                assert(old(self).wf());
            }
        }
        i
    }

    /// Allocate a built type declaration into the arena.
    pub fn alloc_type_decl(&mut self, node: TypeDecl2) -> (i: usize)
        requires
            old(self).wf(),
            node.id.index < old(self).next_id,
        ensures
            i == old(self).type_decls@.len(),
            final (self).type_decls@ == old(self).type_decls@.push(node),
            final (self).packages@ == old(self).packages@,
            final (self).package_slots@ == old(self).package_slots@,
            final (self).type_decl_slots@ == old(self).type_decl_slots@,
            final (self).next_id == old(self).next_id,
            final (self).wf(),
    {
        let i = self.type_decls.len();
        self.type_decls.push(node);
        i
    }

    /// Allocate a package slot into the arena.
    pub fn alloc_package_slot(&mut self, slot: Slot<Package2>) -> (i: usize)
        requires
            old(self).wf(),
            slot.state matches SlotState::ReadyOk(j) ==> j < old(self).packages@.len(),
        ensures
            i == old(self).package_slots@.len(),
            final (self).package_slots@ == old(self).package_slots@.push(slot),
            final (self).packages@ == old(self).packages@,
            final (self).type_decls@ == old(self).type_decls@,
            final (self).type_decl_slots@ == old(self).type_decl_slots@,
            final (self).next_id == old(self).next_id,
            final (self).wf(),
    {
        let i = self.package_slots.len();
        self.package_slots.push(slot);
        i
    }

    /// Allocate a type declaration slot into the arena.
    pub fn alloc_type_decl_slot(&mut self, slot: Slot<TypeDecl2>) -> (i: usize)
        requires
            old(self).wf(),
            slot.state matches SlotState::ReadyOk(j) ==> j < old(self).type_decls@.len(),
        ensures
            i == old(self).type_decl_slots@.len(),
            final (self).type_decl_slots@ == old(self).type_decl_slots@.push(slot),
            final (self).packages@ == old(self).packages@,
            final (self).type_decls@ == old(self).type_decls@,
            final (self).package_slots@ == old(self).package_slots@,
            final (self).next_id == old(self).next_id,
            final (self).wf(),
    {
        let i = self.type_decl_slots.len();
        self.type_decl_slots.push(slot);
        i
    }

    /// Read an allocated package. The reference is as stable as the
    /// index: the value never changes once allocated.
    pub fn package(&self, i: usize) -> (r: &Package2)
        requires
            i < self.packages@.len(),
        ensures
            *r == self.packages@[i as int],
    {
        &self.packages[i]
    }

    /// Read an allocated type declaration.
    pub fn type_decl(&self, i: usize) -> (r: &TypeDecl2)
        requires
            i < self.type_decls@.len(),
        ensures
            *r == self.type_decls@[i as int],
    {
        &self.type_decls[i]
    }
}

impl TypeDecl2 {
    /// Put a fresh slot for a type declaration into the arena.
    pub fn new_slot(ctx: &mut Context, scope: ScopeId, ast: ast::TypeDecl) -> (r: Result<
        usize,
        (),
    >)
        requires
            old(ctx).wf(),
        ensures
            r matches Ok(si) && si == old(ctx).type_decl_slots@.len(),
            final (ctx).type_decl_slots@ == old(ctx).type_decl_slots@.push(
                (Slot { state: SlotState::<TypeDecl2>::Fresh(scope, ast) }),
            ),
            final (ctx).packages@ == old(ctx).packages@,
            final (ctx).type_decls@ == old(ctx).type_decls@,
            final (ctx).package_slots@ == old(ctx).package_slots@,
            final (ctx).next_id == old(ctx).next_id,
            final (ctx).wf(),
    {
        Ok(ctx.alloc_type_decl_slot(Slot::new(scope, ast)))
    }

    /// Build a type declaration node from its syntax node. Succeeds
    /// exactly when the declaration has a real name; the scope is a
    /// back-reference only and plays no part.
    pub fn build(ctx: &mut Context, _scope: ScopeId, ast: ast::TypeDecl) -> (r: Result<
        TypeDecl2,
        (),
    >)
        requires
            old(ctx).wf(),
            old(ctx).next_id < u64::MAX,
        ensures
            final (ctx).packages@ == old(ctx).packages@,
            final (ctx).type_decls@ == old(ctx).type_decls@,
            final (ctx).package_slots@ == old(ctx).package_slots@,
            final (ctx).type_decl_slots@ == old(ctx).type_decl_slots@,
            final (ctx).wf(),
            r is Ok <==> ast.name.value.spec_is_named(),
            r matches Ok(node) ==> {
                &&& node == (TypeDecl2 {
                    id: NodeId { index: old(ctx).next_id },
                    span: ast.span,
                    name: ast.name,
                })
                &&& final (ctx).next_id == old(ctx).next_id + 1
            },
            r is Err ==> *final (ctx) == *old(ctx),
    {
        if !ast.name.value.is_named() {
            return Err(());
        }
        let id = ctx.fresh_id();
        Ok(TypeDecl2 { id, span: ast.span, name: ast.name })
    }
}

/// Whether construction of a package keeps this child declaration:
/// packages and type declarations become child slots, everything else
/// is skipped.
pub open spec fn is_kept_decl(item: ast::DeclItem) -> bool {
    match item {
        ast::DeclItem::PkgDecl(_) => true,
        ast::DeclItem::TypeDecl(_) => true,
        ast::DeclItem::ConstDecl(_) => false,
    }
}

/// The subsequence of declarations that construction keeps, in source
/// order.
pub open spec fn kept_decls(items: Seq<ast::DeclItem>) -> Seq<ast::DeclItem>
    decreases items.len(),
{
    if items.len() == 0 {
        Seq::empty()
    } else if is_kept_decl(items.last()) {
        kept_decls(items.drop_last()).push(items.last())
    } else {
        kept_decls(items.drop_last())
    }
}

/// One child reference matches one kept declaration: it points at a
/// slot that exists and still holds exactly that declaration's inputs,
/// fresh and unforced.
pub open spec fn decl_ref_matches(
    ctx: Context,
    scope: ScopeId,
    item: ast::DeclItem,
    r: DeclRef,
) -> bool {
    match item {
        ast::DeclItem::PkgDecl(c) => match r {
            DeclRef::Package(si) => si < ctx.package_slots@.len()
                && ctx.package_slots@[si as int].state == SlotState::<Package2>::Fresh(scope, c),
            _ => false,
        },
        ast::DeclItem::TypeDecl(c) => match r {
            DeclRef::TypeDecl(si) => si < ctx.type_decl_slots@.len()
                && ctx.type_decl_slots@[si as int].state == SlotState::<TypeDecl2>::Fresh(
                scope,
                c,
            ),
            _ => false,
        },
        ast::DeclItem::ConstDecl(_) => false,
    }
}

/// The child references match the kept declarations one for one, in
/// order.
pub open spec fn decls_match(
    ctx: Context,
    scope: ScopeId,
    kept: Seq<ast::DeclItem>,
    refs: Seq<DeclRef>,
) -> bool {
    &&& refs.len() == kept.len()
    &&& forall|k: int|
        0 <= k < kept.len() ==> decl_ref_matches(ctx, scope, kept[k], #[trigger] refs[k])
}

/// A matching set of child references stays matching while the fresh
/// slots it points at are left alone, however much else the context
/// grows or settles.
proof fn lemma_decls_match_stable(
    c1: Context,
    c2: Context,
    scope: ScopeId,
    kept: Seq<ast::DeclItem>,
    refs: Seq<DeclRef>,
)
    requires
        decls_match(c1, scope, kept, refs),
        c1.package_slots@.len() <= c2.package_slots@.len(),
        c1.type_decl_slots@.len() <= c2.type_decl_slots@.len(),
        forall|s: int|
            (0 <= s < c1.package_slots@.len() && (#[trigger] c1.package_slots@[s]).state matches
            SlotState::Fresh(_, _)) ==> c2.package_slots@[s] == c1.package_slots@[s],
        forall|s: int|
            (0 <= s < c1.type_decl_slots@.len() && (
            #[trigger] c1.type_decl_slots@[s]).state matches SlotState::Fresh(_, _))
                ==> c2.type_decl_slots@[s] == c1.type_decl_slots@[s],
    ensures
        decls_match(c2, scope, kept, refs),
{
    assert forall|k: int| 0 <= k < kept.len() implies decl_ref_matches(
        c2,
        scope,
        kept[k],
        #[trigger] refs[k],
    ) by {
        assert(decl_ref_matches(c1, scope, kept[k], refs[k]));
    }
}

impl Package2 {
    /// What a successfully built package looks like: identity from the
    /// session counter, location and name from the syntax node, and one
    /// fresh child slot per kept declaration.
    pub open spec fn built_from(
        self,
        pre: Context,
        post: Context,
        scope: ScopeId,
        ast: ast::PkgDecl,
    ) -> bool {
        &&& self.id == (NodeId { index: pre.next_id })
        &&& self.span == ast.span
        &&& self.name == ast.name
        &&& self.scope == scope
        &&& decls_match(post, scope, kept_decls(ast.decls@), self.decls@)
    }

    /// Put a fresh slot for a package into the arena.
    pub fn new_slot(ctx: &mut Context, scope: ScopeId, ast: ast::PkgDecl) -> (r: Result<
        usize,
        (),
    >)
        requires
            old(ctx).wf(),
        ensures
            r matches Ok(si) && si == old(ctx).package_slots@.len(),
            final (ctx).package_slots@ == old(ctx).package_slots@.push(
                (Slot { state: SlotState::<Package2>::Fresh(scope, ast) }),
            ),
            final (ctx).packages@ == old(ctx).packages@,
            final (ctx).type_decls@ == old(ctx).type_decls@,
            final (ctx).type_decl_slots@ == old(ctx).type_decl_slots@,
            final (ctx).next_id == old(ctx).next_id,
            final (ctx).wf(),
    {
        Ok(ctx.alloc_package_slot(Slot::new(scope, ast)))
    }

    /// Build a package node from its syntax node. Succeeds exactly when
    /// the package has a real name. Construction allocates a fresh slot
    /// for every kept child declaration but forces none of them: who
    /// reads the children later decides the construction order.
    pub fn build(ctx: &mut Context, scope: ScopeId, ast: ast::PkgDecl) -> (r: Result<
        Package2,
        (),
    >)
        requires
            old(ctx).wf(),
            old(ctx).next_id < u64::MAX,
        ensures
            final (ctx).packages@ == old(ctx).packages@,
            final (ctx).type_decls@ == old(ctx).type_decls@,
            slots_preserved(*old(ctx), *final (ctx)),
            final (ctx).wf(),
            r is Ok <==> ast.name.value.spec_is_named(),
            r matches Ok(node) ==> {
                &&& node.built_from(*old(ctx), *final (ctx), scope, ast)
                &&& node.refs_in(*final (ctx))
                &&& final (ctx).next_id == old(ctx).next_id + 1
                &&& final (ctx).package_slots@.len() == old(ctx).package_slots@.len()
                    + pkg_decl_count(ast.decls@)
                &&& final (ctx).type_decl_slots@.len() == old(ctx).type_decl_slots@.len()
                    + type_decl_count(ast.decls@)
            },
            r is Err ==> *final (ctx) == *old(ctx),
    {
        if !ast.name.value.is_named() {
            return Err(());
        }
        let ast::PkgDecl { span, name, decls } = ast;
        let mut items = decls;
        let ghost orig: Seq<ast::DeclItem> = items@;
        let mut refs: Vec<DeclRef> = Vec::new();
        proof {
            assert(items@ =~= orig.subrange(0, orig.len() as int));
        }
        while items.len() > 0
            invariant
                items@.len() <= orig.len(),
                items@ == orig.subrange(orig.len() - items@.len(), orig.len() as int),
                ctx.wf(),
                ctx.packages@ == old(ctx).packages@,
                ctx.type_decls@ == old(ctx).type_decls@,
                ctx.next_id == old(ctx).next_id,
                slots_preserved(*old(ctx), *ctx),
                ctx.package_slots@.len() == old(ctx).package_slots@.len() + pkg_decl_count(
                    orig.subrange(0, orig.len() - items@.len()),
                ),
                ctx.type_decl_slots@.len() == old(ctx).type_decl_slots@.len() + type_decl_count(
                    orig.subrange(0, orig.len() - items@.len()),
                ),
                decls_match(
                    *ctx,
                    scope,
                    kept_decls(orig.subrange(0, orig.len() - items@.len())),
                    refs@,
                ),
            decreases items@.len(),
        {
            let ghost j: int = orig.len() - items@.len();
            let ghost pre_step_ctx: Context = *ctx;
            let ghost pre_refs: Seq<DeclRef> = refs@;
            let ghost kept_j: Seq<ast::DeclItem> = kept_decls(orig.subrange(0, j));
            let ghost pre_items: Seq<ast::DeclItem> = items@;
            let item = items.remove(0);
            proof {
                assert(pre_items == orig.subrange(j, orig.len() as int));
                assert(orig.subrange(j, orig.len() as int)[0] == orig[j]);
                assert(item == orig[j]);
                assert(items@ == pre_items.remove(0));
                assert(items@ =~= orig.subrange(j + 1, orig.len() as int));
                assert(items@ == orig.subrange(j + 1, orig.len() as int));
            }
            match item {
                ast::DeclItem::PkgDecl(c) => {
                    let ghost gc: ast::PkgDecl = c;
                    match Package2::new_slot(ctx, scope, c) {
                        Ok(si) => {
                            refs.push(DeclRef::Package(si));
                            proof {
                                assert(orig[j] == ast::DeclItem::PkgDecl(gc));
                                assert(refs@ == pre_refs.push(DeclRef::Package(si)));
                                assert(decl_ref_matches(*ctx, scope, orig[j], refs@.last()));
                            }
                        },
                        Err(()) => {},
                    }
                },
                ast::DeclItem::TypeDecl(c) => {
                    let ghost gc: ast::TypeDecl = c;
                    match TypeDecl2::new_slot(ctx, scope, c) {
                        Ok(si) => {
                            refs.push(DeclRef::TypeDecl(si));
                            proof {
                                assert(orig[j] == ast::DeclItem::TypeDecl(gc));
                                assert(refs@ == pre_refs.push(DeclRef::TypeDecl(si)));
                                assert(decl_ref_matches(*ctx, scope, orig[j], refs@.last()));
                            }
                        },
                        Err(()) => {},
                    }
                },
                ast::DeclItem::ConstDecl(_) => {},
            }
            proof {
                let done = orig.subrange(0, j + 1);
                assert(done.drop_last() =~= orig.subrange(0, j));
                assert(done.last() == orig[j]);
                lemma_decls_match_stable(pre_step_ctx, *ctx, scope, kept_j, pre_refs);
                if is_kept_decl(orig[j]) {
                    assert(kept_decls(done) == kept_j.push(orig[j]));
                    assert(refs@ == pre_refs.push(refs@.last()));
                    assert(decl_ref_matches(*ctx, scope, orig[j], refs@.last()));
                    assert forall|k: int| 0 <= k < kept_decls(done).len() implies decl_ref_matches(
                        *ctx,
                        scope,
                        kept_decls(done)[k],
                        #[trigger] refs@[k],
                    ) by {
                        if k < kept_j.len() {
                            assert(decl_ref_matches(*ctx, scope, kept_j[k], pre_refs[k]));
                        }
                    }
                } else {
                    assert(kept_decls(done) == kept_j);
                    assert(refs@ == pre_refs);
                }
                assert(decls_match(*ctx, scope, kept_decls(orig.subrange(0, j + 1)), refs@));
            }
        }
        let ghost pre_id_ctx: Context = *ctx;
        proof {
            assert(orig.subrange(0, orig.len() as int) =~= orig);
        }
        let id = ctx.fresh_id();
        proof {
            lemma_decls_match_stable(pre_id_ctx, *ctx, scope, kept_decls(orig), refs@);
            assert forall|k: int| 0 <= k < refs@.len() implies match #[trigger] refs@[k] {
                DeclRef::Package(si) => si < ctx.package_slots@.len(),
                DeclRef::TypeDecl(si) => si < ctx.type_decl_slots@.len(),
            } by {
                assert(decl_ref_matches(*ctx, scope, kept_decls(orig)[k], refs@[k]));
            }
        }
        Ok(Package2 { id, span, name, scope, decls: refs })
    }
}

impl Constructed for Package2 {
    type Input = ast::PkgDecl;
}

impl FromAst for Package2 {

    fn alloc_slot(ctx: &mut Context, scope: ScopeId, ast: ast::PkgDecl) -> (r: Result<
        usize,
        (),
    >) {
        Package2::new_slot(ctx, scope, ast)
    }

    fn from_ast(ctx: &mut Context, scope: ScopeId, ast: ast::PkgDecl) -> (r: Result<
        Package2,
        (),
    >) {
        Package2::build(ctx, scope, ast)
    }
}

impl Constructed for TypeDecl2 {
    type Input = ast::TypeDecl;
}

impl FromAst for TypeDecl2 {

    fn alloc_slot(ctx: &mut Context, scope: ScopeId, ast: ast::TypeDecl) -> (r: Result<
        usize,
        (),
    >) {
        TypeDecl2::new_slot(ctx, scope, ast)
    }

    fn from_ast(ctx: &mut Context, scope: ScopeId, ast: ast::TypeDecl) -> (r: Result<
        TypeDecl2,
        (),
    >) {
        TypeDecl2::build(ctx, scope, ast)
    }
}

/// How many of the declarations become package slots.
pub open spec fn pkg_decl_count(items: Seq<ast::DeclItem>) -> nat
    decreases items.len(),
{
    if items.len() == 0 {
        0
    } else {
        pkg_decl_count(items.drop_last()) + (match items.last() {
            ast::DeclItem::PkgDecl(_) => 1nat,
            _ => 0nat,
        })
    }
}

/// How many of the declarations become type declaration slots.
pub open spec fn type_decl_count(items: Seq<ast::DeclItem>) -> nat
    decreases items.len(),
{
    if items.len() == 0 {
        0
    } else {
        type_decl_count(items.drop_last()) + (match items.last() {
            ast::DeclItem::TypeDecl(_) => 1nat,
            _ => 0nat,
        })
    }
}

/// A node identity at or above the session counter is carried by no
/// stored node: what makes every freshly assigned identity unique.
pub proof fn lemma_fresh_id_unused(ctx: Context, id: NodeId)
    requires
        ctx.wf(),
        id.index >= ctx.next_id,
    ensures
        forall|i: int| 0 <= i < ctx.packages@.len() ==> (#[trigger] ctx.packages@[i]).id != id,
        forall|i: int|
            0 <= i < ctx.type_decls@.len() ==> (#[trigger] ctx.type_decls@[i]).id != id,
{
}

/// What the first poll of a fresh package slot leaves behind: for a
/// named package, the built node sits at the end of the package arena
/// and the slot is settled on it; for a nameless one, the slot is
/// settled on failure and nothing else has changed.
pub open spec fn poll_package_fresh_post(
    pre: Context,
    post: Context,
    i: int,
    scope: ScopeId,
    ast: ast::PkgDecl,
) -> bool {
    if ast.name.value.spec_is_named() {
        &&& post.packages@.len() == pre.packages@.len() + 1
        &&& post.packages@.last().built_from(pre, post, scope, ast)
        &&& post.package_slots@[i].state matches SlotState::ReadyOk(j) && j == pre.packages@.len()
        &&& post.package_slots@.len() == pre.package_slots@.len() + pkg_decl_count(ast.decls@)
        &&& post.type_decl_slots@.len() == pre.type_decl_slots@.len() + type_decl_count(
            ast.decls@,
        )
        &&& post.type_decls@ == pre.type_decls@
        &&& post.next_id == pre.next_id + 1
    } else {
        &&& post.packages@ == pre.packages@
        &&& post.type_decls@ == pre.type_decls@
        &&& post.type_decl_slots@ == pre.type_decl_slots@
        &&& post.package_slots@ == pre.package_slots@.update(
            i,
            (Slot { state: SlotState::<Package2>::ReadyErr }),
        )
        &&& post.next_id == pre.next_id
    }
}

/// What the first poll of a fresh type declaration slot leaves behind.
pub open spec fn poll_type_decl_fresh_post(
    pre: Context,
    post: Context,
    i: int,
    scope: ScopeId,
    ast: ast::TypeDecl,
) -> bool {
    if ast.name.value.spec_is_named() {
        &&& post.type_decls@ == pre.type_decls@.push(
            (TypeDecl2 { id: NodeId { index: pre.next_id }, span: ast.span, name: ast.name }),
        )
        &&& post.packages@ == pre.packages@
        &&& post.package_slots@ == pre.package_slots@
        &&& post.type_decl_slots@[i].state matches SlotState::ReadyOk(j) && j
            == pre.type_decls@.len()
        &&& post.type_decl_slots@.len() == pre.type_decl_slots@.len()
        &&& post.next_id == pre.next_id + 1
    } else {
        &&& post.packages@ == pre.packages@
        &&& post.type_decls@ == pre.type_decls@
        &&& post.package_slots@ == pre.package_slots@
        &&& post.type_decl_slots@ == pre.type_decl_slots@.update(
            i,
            (Slot { state: SlotState::<TypeDecl2>::ReadyErr }),
        )
        &&& post.next_id == pre.next_id
    }
}

impl Slot<Package2> {
    /// Poll the slot, building the package from its syntax node the
    /// first time and handing back the node's arena index ever after.
    ///
    /// The transition is one-way and idempotent: a settled slot returns
    /// its outcome unchanged, with no side effect. Before construction
    /// runs, the state is replaced by the failure marker, so
    /// construction that somehow reaches this same slot again observes
    /// a failure instead of recursing into uninitialized state.
    pub fn poll(ctx: &mut Context, i: usize) -> (r: Result<usize, ()>)
        requires
            old(ctx).wf(),
            i < old(ctx).package_slots@.len(),
            old(ctx).next_id < u64::MAX,
        ensures
            final (ctx).wf(),
            arena_preserved(*old(ctx), *final (ctx)),
            slots_preserved_except_package(*old(ctx), *final (ctx), i as int),
            old(ctx).package_slots@[i as int].state matches SlotState::ReadyOk(j) ==> r
                == Ok::<usize, ()>(j) && *final (ctx) == *old(ctx),
            old(ctx).package_slots@[i as int].state is ReadyErr ==> r == Err::<usize, ()>(())
                && *final (ctx) == *old(ctx),
            old(ctx).package_slots@[i as int].state matches SlotState::Fresh(scope, ast)
                ==> poll_package_fresh_post(*old(ctx), *final (ctx), i as int, scope, ast) && (
            ast.name.value.spec_is_named() ==> (r matches Ok(j) && j == old(
                ctx,
            ).packages@.len())) && (!ast.name.value.spec_is_named() ==> r is Err),
            r matches Ok(j) ==> j < final (ctx).packages@.len() && (final (
            ctx).package_slots@[i as int].state matches SlotState::ReadyOk(jj) && jj == j),
            r is Err ==> final (ctx).package_slots@[i as int].state is ReadyErr,
    {
        match &ctx.package_slots[i].state {
            SlotState::ReadyOk(j) => {
                return Ok(*j);
            },
            SlotState::ReadyErr => {
                return Err(());
            },
            SlotState::Fresh(_, _) => {},
        }
        // From here until the slot settles, it reads as failed: the
        // reentrant-construction guard.
        let mut taken: Slot<Package2> = Slot { state: SlotState::ReadyErr };
        ctx.package_slots.set_and_swap(i, &mut taken);
        let (scope, ast) = match taken.state {
            SlotState::Fresh(scope, ast) => (scope, ast),
            _ => unreached(),
        };
        let ghost gscope: ScopeId = scope;
        let ghost gast: ast::PkgDecl = ast;
        proof {
            assert forall|k: int| 0 <= k < ctx.packages@.len() implies (
            #[trigger] ctx.packages@[k]).refs_in(*ctx) by {
                assert(old(ctx).packages@[k].refs_in(*old(ctx)));
            }
            assert(ctx.wf());
        }
        let ghost mid: Context = *ctx;
        match Package2::build(ctx, scope, ast) {
            Ok(node) => {
                let ghost built: Context = *ctx;
                let ghost gnode: Package2 = node;
                let j = ctx.alloc_package(node);
                ctx.package_slots.set(i, Slot { state: SlotState::ReadyOk(j) });
                proof {
                    assert forall|k: int| 0 <= k < ctx.packages@.len() implies (
                    #[trigger] ctx.packages@[k]).refs_in(*ctx) by {
                        if k < built.packages@.len() {
                            assert(built.packages@[k].refs_in(built));
                        } else {
                            assert(gnode.refs_in(built));
                        }
                    }
                    assert(ctx.wf());
                    lemma_decls_match_stable(
                        built,
                        *ctx,
                        gscope,
                        kept_decls(gast.decls@),
                        gnode.decls@,
                    );
                    assert(ctx.packages@.last().built_from(*old(ctx), *ctx, gscope, gast));
                }
                Ok(j)
            },
            Err(()) => {
                proof {
                    assert(*ctx == mid);
                    assert(ctx.package_slots@ == old(ctx).package_slots@.update(
                        i as int,
                        (Slot { state: SlotState::<Package2>::ReadyErr }),
                    ));
                }
                Err(())
            },
        }
    }

    /// The source location of the node behind the slot: polling, then
    /// the built node's span, or the invalid span if construction
    /// failed. Callers that only need a location for diagnostics are
    /// spared the fallible path.
    pub fn span(ctx: &mut Context, i: usize) -> (s: Span)
        requires
            old(ctx).wf(),
            i < old(ctx).package_slots@.len(),
            old(ctx).next_id < u64::MAX,
        ensures
            final (ctx).wf(),
            arena_preserved(*old(ctx), *final (ctx)),
            slots_preserved_except_package(*old(ctx), *final (ctx), i as int),
            old(ctx).package_slots@[i as int].state matches SlotState::ReadyOk(j) ==> s == old(
                ctx,
            ).packages@[j as int].span && *final (ctx) == *old(ctx),
            old(ctx).package_slots@[i as int].state is ReadyErr ==> s == invalid_span() && *final (
            ctx) == *old(ctx),
            old(ctx).package_slots@[i as int].state matches SlotState::Fresh(scope, ast) ==> s == (
            if ast.name.value.spec_is_named() {
                ast.span
            } else {
                invalid_span()
            }) && poll_package_fresh_post(*old(ctx), *final (ctx), i as int, scope, ast),
    {
        match Slot::<Package2>::poll(ctx, i) {
            Ok(j) => ctx.package(j).span(),
            Err(()) => Span::invalid(),
        }
    }
}

impl Slot<TypeDecl2> {
    /// Poll the slot, building the type declaration from its syntax
    /// node the first time and handing back the node's arena index
    /// ever after. Settled slots return their outcome unchanged; while
    /// construction runs, the slot reads as failed.
    pub fn poll(ctx: &mut Context, i: usize) -> (r: Result<usize, ()>)
        requires
            old(ctx).wf(),
            i < old(ctx).type_decl_slots@.len(),
            old(ctx).next_id < u64::MAX,
        ensures
            final (ctx).wf(),
            arena_preserved(*old(ctx), *final (ctx)),
            slots_preserved_except_type_decl(*old(ctx), *final (ctx), i as int),
            old(ctx).type_decl_slots@[i as int].state matches SlotState::ReadyOk(j) ==> r
                == Ok::<usize, ()>(j) && *final (ctx) == *old(ctx),
            old(ctx).type_decl_slots@[i as int].state is ReadyErr ==> r == Err::<usize, ()>(())
                && *final (ctx) == *old(ctx),
            old(ctx).type_decl_slots@[i as int].state matches SlotState::Fresh(scope, ast)
                ==> poll_type_decl_fresh_post(*old(ctx), *final (ctx), i as int, scope, ast) && (
            ast.name.value.spec_is_named() ==> (r matches Ok(j) && j == old(
                ctx,
            ).type_decls@.len())) && (!ast.name.value.spec_is_named() ==> r is Err),
            r matches Ok(j) ==> j < final (ctx).type_decls@.len() && (final (
            ctx).type_decl_slots@[i as int].state matches SlotState::ReadyOk(jj) && jj == j),
            r is Err ==> final (ctx).type_decl_slots@[i as int].state is ReadyErr,
    {
        match &ctx.type_decl_slots[i].state {
            SlotState::ReadyOk(j) => {
                return Ok(*j);
            },
            SlotState::ReadyErr => {
                return Err(());
            },
            SlotState::Fresh(_, _) => {},
        }
        // The reentrant-construction guard, as for packages.
        let mut taken: Slot<TypeDecl2> = Slot { state: SlotState::ReadyErr };
        ctx.type_decl_slots.set_and_swap(i, &mut taken);
        let (scope, ast) = match taken.state {
            SlotState::Fresh(scope, ast) => (scope, ast),
            _ => unreached(),
        };
        proof {
            assert forall|k: int| 0 <= k < ctx.packages@.len() implies (
            #[trigger] ctx.packages@[k]).refs_in(*ctx) by {
                assert(old(ctx).packages@[k].refs_in(*old(ctx)));
            }
            assert(ctx.wf());
        }
        let ghost mid: Context = *ctx;
        match TypeDecl2::build(ctx, scope, ast) {
            Ok(node) => {
                let j = ctx.alloc_type_decl(node);
                ctx.type_decl_slots.set(i, Slot { state: SlotState::ReadyOk(j) });
                proof {
                    assert forall|k: int| 0 <= k < ctx.packages@.len() implies (
                    #[trigger] ctx.packages@[k]).refs_in(*ctx) by {
                        assert(old(ctx).packages@[k].refs_in(*old(ctx)));
                    }
                    assert(ctx.wf());
                }
                Ok(j)
            },
            Err(()) => {
                proof {
                    assert(*ctx == mid);
                }
                Err(())
            },
        }
    }

    /// The source location of the node behind the slot, or the invalid
    /// span if construction failed.
    pub fn span(ctx: &mut Context, i: usize) -> (s: Span)
        requires
            old(ctx).wf(),
            i < old(ctx).type_decl_slots@.len(),
            old(ctx).next_id < u64::MAX,
        ensures
            final (ctx).wf(),
            arena_preserved(*old(ctx), *final (ctx)),
            slots_preserved_except_type_decl(*old(ctx), *final (ctx), i as int),
            old(ctx).type_decl_slots@[i as int].state matches SlotState::ReadyOk(j) ==> s == old(
                ctx,
            ).type_decls@[j as int].span && *final (ctx) == *old(ctx),
            old(ctx).type_decl_slots@[i as int].state is ReadyErr ==> s == invalid_span() && *final (
            ctx) == *old(ctx),
            old(ctx).type_decl_slots@[i as int].state matches SlotState::Fresh(scope, ast) ==> s
                == (if ast.name.value.spec_is_named() {
                ast.span
            } else {
                invalid_span()
            }) && poll_type_decl_fresh_post(*old(ctx), *final (ctx), i as int, scope, ast),
    {
        match Slot::<TypeDecl2>::poll(ctx, i) {
            Ok(j) => ctx.type_decl(j).span(),
            Err(()) => Span::invalid(),
        }
    }
}

/// Arena stability composes: what one operation leaves in place, a
/// whole run of operations leaves in place.
pub proof fn lemma_arena_preserved_trans(a: Context, b: Context, c: Context)
    requires
        arena_preserved(a, b),
        arena_preserved(b, c),
    ensures
        arena_preserved(a, c),
{
}

} // verus!
