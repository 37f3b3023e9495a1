//! Type names by scope: each name declared in a scope is allocated in an
//! arena, and a name written at some position resolves to the innermost
//! declaration visible there.
use vstd::prelude::*;
use crate::analysis::{
    chain_ids, lemma_chain_ids_valid, lemma_scope_search_bound, scope_search, scopes_wf, SScope, Scope, ScopeId,
};
use crate::ast::{Argument, Expression, Identifier, SArgument, SExpr, SStmt, StatementKind};
use crate::errors::Span;
use crate::explorer::Visitor;
use crate::text::text_eq;
use crate::types::{TypeArena, TypeId};

verus! {

/// A type name as written: the name and where it stands.
#[derive(Debug, Clone)]
pub struct TypeIdent {
    pub name: String,
    pub span: Span,
}

/// A declared type name with the index it was given in the arena.
#[derive(Debug, Clone)]
pub struct AllocatedTypeIdent {
    pub name: String,
    pub span: Span,
    pub id: TypeId,
}

/// The mathematical value of a declared type name.
pub struct SAllocated {
    pub name: Seq<char>,
    pub span: Span,
    pub id: TypeId,
}

impl View for AllocatedTypeIdent {
    type V = SAllocated;

    open spec fn view(&self) -> SAllocated {
        SAllocated { name: self.name@, span: self.span, id: self.id }
    }
}

/// Type names by scope, with the arena in which each declared name is
/// allocated.
#[derive(Debug)]
pub struct TypeCollector {
    pub arena: TypeArena<TypeIdent>,
    pub types: Vec<AllocatedTypeIdent>,
    pub current: ScopeId,
    pub scopes: Vec<Scope>,
}

/// The mathematical value of a collector: its scopes, the current scope
/// and the declared names.
#[verifier::ext_equal]
pub struct SCollector {
    pub scopes: Seq<SScope>,
    pub current: ScopeId,
    pub types: Seq<SAllocated>,
}

impl View for TypeCollector {
    type V = SCollector;

    open spec fn view(&self) -> SCollector {
        SCollector {
            scopes: self.scopes@.map_values(|s: Scope| s@),
            current: self.current,
            types: self.types@.map_values(|t: AllocatedTypeIdent| t@),
        }
    }
}

/// Scopes form a forest in which a parent comes before its children, every
/// type a scope lists exists, and the current scope exists.
pub open spec fn collector_wf(v: SCollector) -> bool {
    &&& forall|i: int| 0 <= i < v.scopes.len() ==> (#[trigger] v.scopes[i].parent matches Some(p) ==> p.0 < i)
    &&& forall|i: int, j: int| 0 <= i < v.scopes.len() && 0 <= j < v.scopes[i].symbols.len()
        ==> #[trigger] v.scopes[i].symbols[j] < v.types.len()
    &&& v.current.0 < v.scopes.len()
}

/// `v` with the name `name` at `span`, allocated as `id`, declared in the current scope.
pub open spec fn declare(v: SCollector, name: Seq<char>, span: Span, id: TypeId) -> SCollector {
    let c = v.current.0 as int;
    SCollector {
        scopes: v.scopes.update(c, SScope { symbols: v.scopes[c].symbols.push(v.types.len() as usize), ..v.scopes[c] }),
        current: v.current,
        types: v.types.push(SAllocated { name, span, id }),
    }
}

/// `v` with a scope covering `span` opened inside the current one and made current.
pub open spec fn opened(v: SCollector, span: Span) -> SCollector {
    let c = v.current.0 as int;
    let id = ScopeId(v.scopes.len() as usize);
    SCollector {
        scopes: v.scopes.update(c, SScope { children: v.scopes[c].children.push(id), ..v.scopes[c] }).push(
            SScope { parent: Some(v.current), children: Seq::empty(), symbols: Seq::empty(), span: Some(span) },
        ),
        current: id,
        types: v.types,
    }
}

proof fn lemma_declare_wf(v: SCollector, name: Seq<char>, span: Span, id: TypeId)
    requires
        collector_wf(v),
    ensures
        collector_wf(declare(v, name, span, id)),
{
    let w = declare(v, name, span, id);
    let c = v.current.0 as int;
    assert forall|i: int, j: int| 0 <= i < w.scopes.len() && 0 <= j < w.scopes[i].symbols.len()
        implies #[trigger] w.scopes[i].symbols[j] < w.types.len() by {
        if i == c && j == w.scopes[i].symbols.len() - 1 {
        } else if i == c {
            assert(w.scopes[i].symbols[j] == v.scopes[i].symbols[j]);
        } else {
            assert(w.scopes[i] == v.scopes[i]);
        }
    }
    assert forall|i: int| 0 <= i < w.scopes.len() implies (#[trigger] w.scopes[i].parent matches Some(p) ==> p.0 < i) by {
        assert(w.scopes[i].parent == v.scopes[i].parent);
    }
}

proof fn lemma_opened_wf(v: SCollector, span: Span)
    requires
        collector_wf(v),
    ensures
        collector_wf(opened(v, span)),
{
    let w = opened(v, span);
    let c = v.current.0 as int;
    assert forall|i: int| 0 <= i < w.scopes.len() implies (#[trigger] w.scopes[i].parent matches Some(p) ==> p.0 < i) by {
        if i < v.scopes.len() {
            assert(w.scopes[i].parent == v.scopes[i].parent);
        }
    }
    assert forall|i: int, j: int| 0 <= i < w.scopes.len() && 0 <= j < w.scopes[i].symbols.len()
        implies #[trigger] w.scopes[i].symbols[j] < w.types.len() by {
        if i < v.scopes.len() {
            assert(w.scopes[i].symbols == v.scopes[i].symbols);
        }
    }
}

/// The first of `ids` that names a type called `name`.
pub open spec fn first_type(types: Seq<AllocatedTypeIdent>, ids: Seq<usize>, name: Seq<char>) -> Option<usize>
    decreases ids.len(),
{
    if ids.len() == 0 {
        None
    } else if types[ids[0] as int].name@ == name {
        Some(ids[0])
    } else {
        first_type(types, ids.drop_first(), name)
    }
}

proof fn lemma_first_type_skip(types: Seq<AllocatedTypeIdent>, ids: Seq<usize>, name: Seq<char>, j: int)
    requires
        0 <= j < ids.len(),
        types[ids[j] as int].name@ != name,
    ensures
        first_type(types, ids.skip(j), name) == first_type(types, ids.skip(j + 1), name),
{
    assert(ids.skip(j).drop_first() =~= ids.skip(j + 1));
    assert(ids.skip(j)[0] == ids[j]);
}

impl TypeCollector {
    /// The exec scopes and types agree with `collector_wf` on the view.
    pub open spec fn wf(&self) -> bool {
        &&& scopes_wf(self.scopes@, self.types@.len())
        &&& self.current.0 < self.scopes@.len()
    }

    proof fn lemma_wf_view(&self)
        ensures
            self.wf() == collector_wf(self@),
    {
        let v = self@;
        if collector_wf(v) {
            assert forall|i: int| 0 <= i < self.scopes@.len() implies (#[trigger] self.scopes@[i].parent matches Some(p) ==> p.0 < i) by {
                assert(v.scopes[i] == self.scopes@[i]@);
            }
            assert forall|i: int, j: int| 0 <= i < self.scopes@.len() && 0 <= j < self.scopes@[i].symbols@.len()
                implies #[trigger] self.scopes@[i].symbols@[j] < self.types@.len() by {
                assert(v.scopes[i] == self.scopes@[i]@);
                assert(v.scopes[i].symbols[j] == self.scopes@[i].symbols@[j]);
            }
        }
        if self.wf() {
            assert forall|i: int| 0 <= i < v.scopes.len() implies (#[trigger] v.scopes[i].parent matches Some(p) ==> p.0 < i) by {
                assert(v.scopes[i] == self.scopes@[i]@);
            }
            assert forall|i: int, j: int| 0 <= i < v.scopes.len() && 0 <= j < v.scopes[i].symbols.len()
                implies #[trigger] v.scopes[i].symbols[j] < v.types.len() by {
                assert(v.scopes[i] == self.scopes@[i]@);
                assert(v.scopes[i].symbols[j] == self.scopes@[i].symbols@[j]);
            }
        }
    }

    /// Allocates `ty` in the arena and declares its name in the current
    /// scope; returns the index it was given.
    fn define(&mut self, ty: TypeIdent) -> (r: TypeId)
        requires
            collector_wf(old(self)@),
        ensures
            r == TypeId(old(self).arena.types@.len() as u32),
            final(self).arena.types@ == old(self).arena.types@.push(ty),
            final(self).arena.defaults == old(self).arena.defaults,
            final(self)@ == declare(old(self)@, ty.name@, ty.span, r),
            collector_wf(final(self)@),
    {
        let id = self.types.len();
        let type_id = self.arena.alloc_type(TypeIdent { name: ty.name.clone(), span: ty.span });
        let ghost v0 = self@;
        let ghost nm = ty.name@;
        let span = ty.span;
        self.types.push(AllocatedTypeIdent { name: ty.name, span, id: type_id });
        let c = self.current.0;
        let mut scope = self.scopes.remove(c);
        scope.symbols.push(id);
        self.scopes.insert(c, scope);
        proof {
            let w = declare(v0, nm, span, type_id);
            assert(self@.types =~= w.types);
            assert(self@.scopes =~= w.scopes) by {
                assert forall|i: int| 0 <= i < w.scopes.len() implies self@.scopes[i] == w.scopes[i] by {
                    if i != c as int {
                        assert(self.scopes@[i] == old(self).scopes@[i]);
                    } else {
                        assert(self@.scopes[i] =~= w.scopes[i]);
                    }
                }
            }
            lemma_declare_wf(v0, nm, span, type_id);
        }
        type_id
    }

    /// The innermost scope at `pos`: the first of the scopes with the
    /// smallest span that contains `pos`, or the global scope.
    pub fn scope_at_position(&self, pos: usize) -> (r: ScopeId)
        ensures
            r == ScopeId(scope_search(self.scopes@, pos, self.scopes@.len() as int).0),
    {
        let mut best = ScopeId(0);
        let mut best_size = usize::MAX;
        let mut i: usize = 0;
        while i < self.scopes.len()
            invariant
                i <= self.scopes@.len(),
                (best.0, best_size) == scope_search(self.scopes@, pos, i as int),
            decreases self.scopes.len() - i,
        {
            if let Some(span) = self.scopes[i].span {
                if pos >= span.start && pos <= span.end {
                    let size = span.end - span.start;
                    if size < best_size {
                        best = ScopeId(i);
                        best_size = size;
                    }
                }
            }
            i += 1;
        }
        best
    }

    /// The index of the scope that `scope_at_position` returns.
    pub open spec fn scope_at_position_spec(&self, pos: usize) -> int {
        scope_search(self.scopes@, pos, self.scopes@.len() as int).0 as int
    }

    /// The index of the declaration of the name `type_ident` that is
    /// visible where the name stands: the first one, innermost scope first.
    pub fn find_definition(&self, type_ident: TypeIdent) -> (r: Option<&TypeId>)
        requires
            collector_wf(self@),
        ensures
            match first_type(
                self.types@,
                chain_ids(self.scopes@, self.scope_at_position_spec(type_ident.span.start)),
                type_ident.name@,
            ) {
                Some(i) => r matches Some(t) && *t == self.types@[i as int].id,
                None => r is None,
            },
    {
        let pos = type_ident.span.start;
        let name = type_ident.name.as_str();
        let scope = self.scope_at_position(pos);
        proof {
            self.lemma_wf_view();
            lemma_scope_search_bound(self.scopes@, pos, self.scopes@.len() as int);
            lemma_chain_ids_valid(self.scopes@, self.types@.len(), scope.0 as int);
        }
        let ghost all = chain_ids(self.scopes@, scope.0 as int);
        let ghost mut done: int = 0;
        let mut current = Some(scope);
        loop
            invariant
                self.wf(),
                all == chain_ids(self.scopes@, self.scope_at_position_spec(pos)),
                pos == type_ident.span.start,
                name@ == type_ident.name@,
                forall|i: int| 0 <= i < all.len() ==> #[trigger] all[i] < self.types@.len(),
                current matches Some(c) ==> c.0 < self.scopes@.len(),
                0 <= done <= all.len(),
                all.skip(done) == match current {
                    Some(c) => chain_ids(self.scopes@, c.0 as int),
                    None => Seq::<usize>::empty(),
                },
                first_type(self.types@, all, name@) == first_type(self.types@, all.skip(done), name@),
            ensures
                first_type(self.types@, all, name@) is None,
            decreases match current {
                Some(c) => c.0 + 1,
                None => 0,
            },
        {
            match current {
                None => {
                    break;
                },
                Some(scope_id) => {
                    let scope = &self.scopes[scope_id.0];
                    let ghost here = all.skip(done);
                    let rest = scope.parent;
                    proof {
                        let r = match rest {
                            Some(p) => chain_ids(self.scopes@, p.0 as int),
                            None => Seq::<usize>::empty(),
                        };
                        assert(here =~= scope.symbols@ + r);
                        assert forall|i: int| 0 <= i < scope.symbols@.len() implies all[done + i] == scope.symbols@[i] by {
                            assert(all.skip(done)[i] == all[done + i]);
                            assert((scope.symbols@ + r)[i] == scope.symbols@[i]);
                        }
                        assert(all.skip(done).len() == all.len() - done);
                    }
                    let mut j: usize = 0;
                    while j < scope.symbols.len()
                        invariant
                            j <= scope.symbols@.len(),
                            all == chain_ids(self.scopes@, self.scope_at_position_spec(pos)),
                            pos == type_ident.span.start,
                            name@ == type_ident.name@,
                            0 <= done,
                            done + scope.symbols@.len() <= all.len(),
                            forall|i: int| 0 <= i < all.len() ==> #[trigger] all[i] < self.types@.len(),
                            forall|i: int| 0 <= i < scope.symbols@.len() ==> all[done + i] == scope.symbols@[i],
                            first_type(self.types@, all, name@) == first_type(self.types@, all.skip(done + j), name@),
                        decreases scope.symbols.len() - j,
                    {
                        let symbol_id = scope.symbols[j];
                        let ty = &self.types[symbol_id];
                        proof {
                            assert(all[done + j] == symbol_id);
                        }
                        if text_eq(&ty.name, name) {
                            proof {
                                assert(all.skip(done + j)[0] == symbol_id);
                                assert(all.skip(done + j).len() > 0);
                                assert(first_type(self.types@, all.skip(done + j), name@) == Some(symbol_id));
                            }
                            return Some(&ty.id);
                        }
                        proof {
                            lemma_first_type_skip(self.types@, all, name@, done + j);
                        }
                        j += 1;
                    }
                    proof {
                        done = done + scope.symbols@.len();
                        let r = match rest {
                            Some(p) => chain_ids(self.scopes@, p.0 as int),
                            None => Seq::<usize>::empty(),
                        };
                        assert(all.skip(done) =~= r) by {
                            assert forall|i: int| 0 <= i < r.len() implies all.skip(done)[i] == r[i] by {
                                assert(here[scope.symbols@.len() + i] == r[i]);
                            }
                        }
                    }
                    current = rest;
                },
            }
        }
        None
    }
}

/// Scopes are opened and closed around the bodies that the walk enters;
/// nothing else changes the collector.
impl Visitor for TypeCollector {
    open spec fn ready(v: SCollector) -> bool {
        collector_wf(v)
    }

    open spec fn can_exit(v: SCollector, parent: ScopeId) -> bool {
        parent.0 < v.scopes.len()
    }

    open spec fn grows(a: SCollector, b: SCollector) -> bool {
        a.scopes.len() <= b.scopes.len()
    }

    open spec fn after_expression(v: SCollector, e: SExpr) -> SCollector {
        v
    }

    open spec fn after_statement(v: SCollector, s: SStmt) -> SCollector {
        v
    }

    open spec fn after_argument(v: SCollector, a: SArgument) -> SCollector {
        v
    }

    open spec fn after_enter(v: SCollector, span: Span) -> SCollector {
        opened(v, span)
    }

    open spec fn entered(v: SCollector, span: Span) -> ScopeId {
        v.current
    }

    open spec fn after_exit(v: SCollector, parent: ScopeId) -> SCollector {
        SCollector { current: parent, ..v }
    }

    proof fn lemma_grows_refl(a: SCollector) {
    }

    proof fn lemma_grows_trans(a: SCollector, b: SCollector, c: SCollector) {
    }

    proof fn lemma_can_exit_grows(a: SCollector, b: SCollector, parent: ScopeId) {
    }

    fn visit_expression(&mut self, expression: &Expression)
        ensures
            final(self).arena == old(self).arena,
    {
    }

    fn visit_statement(&mut self, kind: &StatementKind, start: usize, end: usize)
        ensures
            final(self).arena == old(self).arena,
    {
    }

    fn visit_argument(&mut self, argument: &Argument<Identifier, ()>)
        ensures
            final(self).arena == old(self).arena,
    {
    }

    /// Opens a scope covering `span` inside the current one, makes it
    /// current, and returns the scope that was current.
    fn enter_scope(&mut self, span: Span) -> (r: ScopeId)
        ensures
            final(self).arena == old(self).arena,
    {
        let ghost v0 = self@;
        let parent = self.current;
        let id = ScopeId(self.scopes.len());
        self.scopes.push(Scope { parent: Some(parent), children: Vec::new(), symbols: Vec::new(), span: Some(span) });
        let mut scope = self.scopes.remove(parent.0);
        scope.children.push(id);
        self.scopes.insert(parent.0, scope);
        self.current = id;
        proof {
            let w = opened(v0, span);
            assert(self@.types =~= w.types);
            assert(self@.scopes =~= w.scopes) by {
                assert forall|i: int| 0 <= i < w.scopes.len() implies self@.scopes[i] == w.scopes[i] by {
                    if i == parent.0 as int {
                        assert(self@.scopes[i] =~= w.scopes[i]);
                    } else if i < v0.scopes.len() {
                        assert(self.scopes@[i] == old(self).scopes@[i]);
                    } else {
                        assert(self@.scopes[i] =~= w.scopes[i]);
                    }
                }
            }
            lemma_opened_wf(v0, span);
        }
        parent
    }

    /// Makes `parent` the current scope again.
    fn exit_scope(&mut self, parent: ScopeId)
        ensures
            final(self).arena == old(self).arena,
    {
        self.current = parent;
        proof {
            assert(self@ =~= SCollector { current: parent, ..old(self)@ });
        }
    }
}

} // verus!
