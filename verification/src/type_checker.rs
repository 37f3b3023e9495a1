//! Collecting the types that a program declares (its classes and the names
//! it imports), each in the scope where it is declared, so that a name can
//! be resolved from any position.
use vstd::prelude::*;
use std::path::PathBuf;
use crate::analysis::{
    chain_ids, lemma_chain_ids_valid, lemma_scope_search_bound, scope_search, scopes_wf, SScope, Scope, ScopeId,
};
use crate::ast::{
    Argument, Expression, Identifier, SArgument, SExpr, SExprKind, SIdent, SIterable, SLiteralKind, SStmt, SStmtKind,
    StatementKind,
};
use crate::errors::Span;
use crate::explorer::{block_span, walk_entries, walk_expr, walk_exprs, walk_kind, walk_stmts, Visitor};
use crate::text::text_eq;

verus! {

/// A declared type: its name, where the name stands, and its scope.
#[derive(Debug)]
pub struct CollectedType {
    pub name: String,
    pub span: Span,
    pub scope: ScopeId,
}

/// The mathematical value of a declared type.
pub struct SCollected {
    pub name: Seq<char>,
    pub span: Span,
    pub scope: ScopeId,
}

impl View for CollectedType {
    type V = SCollected;

    open spec fn view(&self) -> SCollected {
        SCollected { name: self.name@, span: self.span, scope: self.scope }
    }
}

/// Collects the types that a program declares, scope by scope.
#[derive(Debug)]
pub struct TypeCollector {
    pub scopes: Vec<Scope>,
    pub current: ScopeId,
    pub types: Vec<CollectedType>,
    pub path: PathBuf,
}

/// The mathematical value of a collector: its scopes, the current scope
/// and the types found so far.
#[verifier::ext_equal]
pub struct SCollector {
    pub scopes: Seq<SScope>,
    pub current: ScopeId,
    pub types: Seq<SCollected>,
}

impl View for TypeCollector {
    type V = SCollector;

    open spec fn view(&self) -> SCollector {
        SCollector {
            scopes: self.scopes@.map_values(|s: Scope| s@),
            current: self.current,
            types: self.types@.map_values(|t: CollectedType| t@),
        }
    }
}

/// Scopes form a forest in which a parent comes before its children, every
/// type a scope lists exists, and the current scope exists.
pub open spec fn collector_wf(v: SCollector) -> bool {
    &&& forall|i: int| 0 <= i < v.scopes.len() ==> (#[trigger] v.scopes[i].parent matches Some(p) ==> p.0 < i)
    &&& forall|i: int, j: int| 0 <= i < v.scopes.len() && 0 <= j < v.scopes[i].symbols.len()
        ==> #[trigger] v.scopes[i].symbols[j] < v.types.len()
    &&& v.current.0 < v.scopes.len()
}

/// `v` with the type `name` at `span` declared in the current scope.
pub open spec fn declare(v: SCollector, name: Seq<char>, span: Span) -> SCollector {
    let c = v.current.0 as int;
    SCollector {
        scopes: v.scopes.update(c, SScope { symbols: v.scopes[c].symbols.push(v.types.len() as usize), ..v.scopes[c] }),
        current: v.current,
        types: v.types.push(SCollected { name, span, scope: v.current }),
    }
}

/// `v` with the names `names` declared in order.
pub open spec fn declare_all(v: SCollector, names: Seq<SIdent>) -> SCollector
    decreases names.len(),
{
    if names.len() == 0 {
        v
    } else {
        let last = names.last();
        declare(declare_all(v, names.drop_last()), last.value, Span { start: last.start as usize, end: last.end as usize })
    }
}

/// What a statement declares: a class its name, an import each name it brings in.
pub open spec fn after_declaration(v: SCollector, s: SStmt) -> SCollector {
    match s.kind {
        SStmtKind::Class(variable, _, _, _, _) => declare(
            v,
            variable.value,
            Span { start: variable.start as usize, end: variable.end as usize },
        ),
        SStmtKind::Import(specifiers, _) => declare_all(v, specifiers),
        _ => v,
    }
}

/// `v` with a scope covering `span` opened inside the current one and made current.
pub open spec fn opened(v: SCollector, span: Span) -> SCollector {
    let c = v.current.0 as int;
    let id = ScopeId(v.scopes.len() as usize);
    SCollector {
        scopes: v.scopes.update(c, SScope { children: v.scopes[c].children.push(id), ..v.scopes[c] }).push(
            SScope { parent: Some(v.current), children: Seq::empty(), symbols: Seq::empty(), span: Some(span) },
        ),
        current: id,
        types: v.types,
    }
}

proof fn lemma_declare_wf(v: SCollector, name: Seq<char>, span: Span)
    requires
        collector_wf(v),
    ensures
        collector_wf(declare(v, name, span)),
        declare(v, name, span).scopes.len() == v.scopes.len(),
{
    let w = declare(v, name, span);
    let c = v.current.0 as int;
    assert forall|i: int, j: int| 0 <= i < w.scopes.len() && 0 <= j < w.scopes[i].symbols.len()
        implies #[trigger] w.scopes[i].symbols[j] < w.types.len() by {
        if i == c && j == w.scopes[i].symbols.len() - 1 {
        } else if i == c {
            assert(w.scopes[i].symbols[j] == v.scopes[i].symbols[j]);
        } else {
            assert(w.scopes[i] == v.scopes[i]);
        }
    }
    assert forall|i: int| 0 <= i < w.scopes.len() implies (#[trigger] w.scopes[i].parent matches Some(p) ==> p.0 < i) by {
        assert(w.scopes[i].parent == v.scopes[i].parent);
    }
}

proof fn lemma_opened_wf(v: SCollector, span: Span)
    requires
        collector_wf(v),
    ensures
        collector_wf(opened(v, span)),
{
    let w = opened(v, span);
    let c = v.current.0 as int;
    assert forall|i: int| 0 <= i < w.scopes.len() implies (#[trigger] w.scopes[i].parent matches Some(p) ==> p.0 < i) by {
        if i < v.scopes.len() {
            assert(w.scopes[i].parent == v.scopes[i].parent);
        }
    }
    assert forall|i: int, j: int| 0 <= i < w.scopes.len() && 0 <= j < w.scopes[i].symbols.len()
        implies #[trigger] w.scopes[i].symbols[j] < w.types.len() by {
        if i < v.scopes.len() {
            assert(w.scopes[i].symbols == v.scopes[i].symbols);
        }
    }
}

/// The first of `ids` that names a type called `name`.
pub open spec fn first_type(types: Seq<CollectedType>, ids: Seq<usize>, name: Seq<char>) -> Option<usize>
    decreases ids.len(),
{
    if ids.len() == 0 {
        None
    } else if types[ids[0] as int].name@ == name {
        Some(ids[0])
    } else {
        first_type(types, ids.drop_first(), name)
    }
}

proof fn lemma_first_type_skip(types: Seq<CollectedType>, ids: Seq<usize>, name: Seq<char>, j: int)
    requires
        0 <= j < ids.len(),
        types[ids[j] as int].name@ != name,
    ensures
        first_type(types, ids.skip(j), name) == first_type(types, ids.skip(j + 1), name),
{
    assert(ids.skip(j).drop_first() =~= ids.skip(j + 1));
    assert(ids.skip(j)[0] == ids[j]);
}

impl TypeCollector {
    /// The exec scopes and types agree with `collector_wf` on the view.
    pub open spec fn wf(&self) -> bool {
        &&& scopes_wf(self.scopes@, self.types@.len())
        &&& self.current.0 < self.scopes@.len()
    }

    proof fn lemma_wf_view(&self)
        ensures
            self.wf() == collector_wf(self@),
    {
        let v = self@;
        if collector_wf(v) {
            assert forall|i: int| 0 <= i < self.scopes@.len() implies (#[trigger] self.scopes@[i].parent matches Some(p) ==> p.0 < i) by {
                assert(v.scopes[i] == self.scopes@[i]@);
            }
            assert forall|i: int, j: int| 0 <= i < self.scopes@.len() && 0 <= j < self.scopes@[i].symbols@.len()
                implies #[trigger] self.scopes@[i].symbols@[j] < self.types@.len() by {
                assert(v.scopes[i] == self.scopes@[i]@);
                assert(v.scopes[i].symbols[j] == self.scopes@[i].symbols@[j]);
            }
        }
        if self.wf() {
            assert forall|i: int| 0 <= i < v.scopes.len() implies (#[trigger] v.scopes[i].parent matches Some(p) ==> p.0 < i) by {
                assert(v.scopes[i] == self.scopes@[i]@);
            }
            assert forall|i: int, j: int| 0 <= i < v.scopes.len() && 0 <= j < v.scopes[i].symbols.len()
                implies #[trigger] v.scopes[i].symbols[j] < v.types.len() by {
                assert(v.scopes[i] == self.scopes@[i]@);
                assert(v.scopes[i].symbols[j] == self.scopes@[i].symbols@[j]);
            }
        }
    }

    /// A collector with only the global scope, which is the current one.
    pub fn new(path: PathBuf) -> (r: TypeCollector)
        ensures
            r@.scopes == seq![SScope { parent: None, children: Seq::empty(), symbols: Seq::empty(), span: None }],
            r@.current == ScopeId(0),
            r@.types.len() == 0,
            r.path == path,
            collector_wf(r@),
    {
        let mut scopes: Vec<Scope> = Vec::new();
        scopes.push(Scope { parent: None, children: Vec::new(), symbols: Vec::new(), span: None });
        let r = TypeCollector { scopes, current: ScopeId(0), types: Vec::new(), path };
        proof {
            assert(r@.scopes =~= seq![SScope { parent: None, children: Seq::empty(), symbols: Seq::empty(), span: None }]);
        }
        r
    }

    /// Declares the type `name` at `span` in the current scope.
    fn define(&mut self, name: String, span: Span)
        requires
            collector_wf(old(self)@),
        ensures
            final(self)@ == declare(old(self)@, name@, span),
            final(self).path == old(self).path,
            collector_wf(final(self)@),
    {
        let id = self.types.len();
        let ghost nm = name@;
        let ghost v0 = self@;
        self.types.push(CollectedType { name, span, scope: self.current });
        let c = self.current.0;
        let mut scope = self.scopes.remove(c);
        scope.symbols.push(id);
        self.scopes.insert(c, scope);
        proof {
            let w = declare(v0, nm, span);
            assert(self@.types =~= w.types);
            assert(self@.scopes =~= w.scopes) by {
                assert forall|i: int| 0 <= i < w.scopes.len() implies self@.scopes[i] == w.scopes[i] by {
                    if i != c as int {
                        assert(self.scopes@[i] == old(self).scopes@[i]);
                    } else {
                        assert(self@.scopes[i] =~= w.scopes[i]);
                    }
                }
            }
            lemma_declare_wf(v0, nm, span);
        }
    }

    /// The innermost scope at `pos`: the first of the scopes with the
    /// smallest span that contains `pos`, or the global scope.
    pub fn scope_at_position(&self, pos: usize) -> (r: ScopeId)
        ensures
            r == ScopeId(scope_search(self.scopes@, pos, self.scopes@.len() as int).0),
    {
        let mut best = ScopeId(0);
        let mut best_size = usize::MAX;
        let mut i: usize = 0;
        while i < self.scopes.len()
            invariant
                i <= self.scopes@.len(),
                (best.0, best_size) == scope_search(self.scopes@, pos, i as int),
            decreases self.scopes.len() - i,
        {
            if let Some(span) = self.scopes[i].span {
                if pos >= span.start && pos <= span.end {
                    let size = span.end - span.start;
                    if size < best_size {
                        best = ScopeId(i);
                        best_size = size;
                    }
                }
            }
            i += 1;
        }
        best
    }

    /// The index of the scope that `scope_at_position` returns.
    pub open spec fn scope_at_position_spec(&self, pos: usize) -> int {
        scope_search(self.scopes@, pos, self.scopes@.len() as int).0 as int
    }

    /// The type called `name` that is visible at `pos`: the first one,
    /// innermost scope first.
    pub fn find_definition(&self, name: &str, pos: usize) -> (r: Option<&CollectedType>)
        requires
            collector_wf(self@),
        ensures
            match first_type(self.types@, chain_ids(self.scopes@, self.scope_at_position_spec(pos)), name@) {
                Some(i) => r matches Some(t) && *t == self.types@[i as int],
                None => r is None,
            },
    {
        let scope = self.scope_at_position(pos);
        proof {
            self.lemma_wf_view();
            lemma_scope_search_bound(self.scopes@, pos, self.scopes@.len() as int);
            lemma_chain_ids_valid(self.scopes@, self.types@.len(), scope.0 as int);
        }
        let ghost all = chain_ids(self.scopes@, scope.0 as int);
        let ghost mut done: int = 0;
        let mut current = Some(scope);
        loop
            invariant
                self.wf(),
                all == chain_ids(self.scopes@, self.scope_at_position_spec(pos)),
                forall|i: int| 0 <= i < all.len() ==> #[trigger] all[i] < self.types@.len(),
                current matches Some(c) ==> c.0 < self.scopes@.len(),
                0 <= done <= all.len(),
                all.skip(done) == match current {
                    Some(c) => chain_ids(self.scopes@, c.0 as int),
                    None => Seq::<usize>::empty(),
                },
                first_type(self.types@, all, name@) == first_type(self.types@, all.skip(done), name@),
            ensures
                first_type(self.types@, all, name@) is None,
            decreases match current {
                Some(c) => c.0 + 1,
                None => 0,
            },
        {
            match current {
                None => {
                    break;
                },
                Some(scope_id) => {
                    let scope = &self.scopes[scope_id.0];
                    let ghost here = all.skip(done);
                    let rest = scope.parent;
                    proof {
                        let r = match rest {
                            Some(p) => chain_ids(self.scopes@, p.0 as int),
                            None => Seq::<usize>::empty(),
                        };
                        assert(here =~= scope.symbols@ + r);
                        assert forall|i: int| 0 <= i < scope.symbols@.len() implies all[done + i] == scope.symbols@[i] by {
                            assert(all.skip(done)[i] == all[done + i]);
                            assert((scope.symbols@ + r)[i] == scope.symbols@[i]);
                        }
                        assert(all.skip(done).len() == all.len() - done);
                    }
                    let mut j: usize = 0;
                    while j < scope.symbols.len()
                        invariant
                            j <= scope.symbols@.len(),
                            all == chain_ids(self.scopes@, self.scope_at_position_spec(pos)),
                            0 <= done,
                            done + scope.symbols@.len() <= all.len(),
                            forall|i: int| 0 <= i < all.len() ==> #[trigger] all[i] < self.types@.len(),
                            forall|i: int| 0 <= i < scope.symbols@.len() ==> all[done + i] == scope.symbols@[i],
                            first_type(self.types@, all, name@) == first_type(self.types@, all.skip(done + j), name@),
                        decreases scope.symbols.len() - j,
                    {
                        let symbol_id = scope.symbols[j];
                        let ty = &self.types[symbol_id];
                        proof {
                            assert(all[done + j] == symbol_id);
                        }
                        if text_eq(&ty.name, name) {
                            proof {
                                assert(all.skip(done + j)[0] == symbol_id);
                                assert(all.skip(done + j).len() > 0);
                                assert(first_type(self.types@, all.skip(done + j), name@) == Some(symbol_id));
                            }
                            return Some(ty);
                        }
                        proof {
                            lemma_first_type_skip(self.types@, all, name@, done + j);
                        }
                        j += 1;
                    }
                    proof {
                        done = done + scope.symbols@.len();
                        let r = match rest {
                            Some(p) => chain_ids(self.scopes@, p.0 as int),
                            None => Seq::<usize>::empty(),
                        };
                        assert(all.skip(done) =~= r) by {
                            assert forall|i: int| 0 <= i < r.len() implies all.skip(done)[i] == r[i] by {
                                assert(here[scope.symbols@.len() + i] == r[i]);
                            }
                        }
                    }
                    current = rest;
                },
            }
        }
        None
    }
}

/// Statements declare types; scopes are opened and closed around the
/// bodies that the walk enters; expressions and parameters change nothing.
impl Visitor for TypeCollector {
    open spec fn ready(v: SCollector) -> bool {
        collector_wf(v)
    }

    open spec fn can_exit(v: SCollector, parent: ScopeId) -> bool {
        parent.0 < v.scopes.len()
    }

    open spec fn grows(a: SCollector, b: SCollector) -> bool {
        a.scopes.len() <= b.scopes.len()
    }

    open spec fn after_expression(v: SCollector, e: SExpr) -> SCollector {
        v
    }

    open spec fn after_statement(v: SCollector, s: SStmt) -> SCollector {
        after_declaration(v, s)
    }

    open spec fn after_argument(v: SCollector, a: SArgument) -> SCollector {
        v
    }

    open spec fn after_enter(v: SCollector, span: Span) -> SCollector {
        opened(v, span)
    }

    open spec fn entered(v: SCollector, span: Span) -> ScopeId {
        v.current
    }

    open spec fn after_exit(v: SCollector, parent: ScopeId) -> SCollector {
        SCollector { current: parent, ..v }
    }

    proof fn lemma_grows_refl(a: SCollector) {
    }

    proof fn lemma_grows_trans(a: SCollector, b: SCollector, c: SCollector) {
    }

    proof fn lemma_can_exit_grows(a: SCollector, b: SCollector, parent: ScopeId) {
    }

    fn visit_expression(&mut self, expression: &Expression)
        ensures
            final(self).path == old(self).path,
    {
    }

    /// Declares the name of a class, or each name that an import brings in.
    fn visit_statement(&mut self, kind: &StatementKind, start: usize, end: usize)
        ensures
            final(self).path == old(self).path,
    {
        let ghost v0 = self@;
        match kind {
            StatementKind::Class { variable, .. } => {
                self.define(variable.value.clone(), Span { start: variable.start, end: variable.end });
            },
            StatementKind::Import { specifiers, .. } => {
                let ghost names = kind@->Import_0;
                let mut i: usize = 0;
                proof {
                    assert(names.take(0) =~= Seq::<SIdent>::empty());
                }
                while i < specifiers.len()
                    invariant
                        i <= specifiers@.len(),
                        names == specifiers@.map_values(|x: Identifier| x@),
                        collector_wf(self@),
                        self@ == declare_all(v0, names.take(i as int)),
                        self@.scopes.len() == v0.scopes.len(),
                        self.path == old(self).path,
                    decreases specifiers.len() - i,
                {
                    let ident = &specifiers[i];
                    self.define(ident.value.clone(), Span { start: ident.start, end: ident.end });
                    proof {
                        assert(names.take(i as int + 1).drop_last() =~= names.take(i as int));
                        assert(names.take(i as int + 1).last() == ident@);
                    }
                    i += 1;
                }
                proof {
                    assert(names.take(i as int) =~= names);
                }
            },
            _ => {},
        }
    }

    fn visit_argument(&mut self, argument: &Argument<Identifier, ()>)
        ensures
            final(self).path == old(self).path,
    {
    }

    /// Opens a scope covering `span` inside the current one, makes it
    /// current, and returns the scope that was current.
    fn enter_scope(&mut self, span: Span) -> (r: ScopeId)
        ensures
            final(self).path == old(self).path,
    {
        let ghost v0 = self@;
        let parent = self.current;
        let id = ScopeId(self.scopes.len());
        self.scopes.push(Scope { parent: Some(parent), children: Vec::new(), symbols: Vec::new(), span: Some(span) });
        let mut scope = self.scopes.remove(parent.0);
        scope.children.push(id);
        self.scopes.insert(parent.0, scope);
        self.current = id;
        proof {
            let w = opened(v0, span);
            assert(self@.types =~= w.types);
            assert(self@.scopes =~= w.scopes) by {
                assert forall|i: int| 0 <= i < w.scopes.len() implies self@.scopes[i] == w.scopes[i] by {
                    if i == parent.0 as int {
                        assert(self@.scopes[i] =~= w.scopes[i]);
                    } else if i < v0.scopes.len() {
                        assert(self.scopes@[i] == old(self).scopes@[i]);
                    } else {
                        assert(self@.scopes[i] =~= w.scopes[i]);
                    }
                }
            }
            lemma_opened_wf(v0, span);
        }
        parent
    }

    /// Makes `parent` the current scope again.
    fn exit_scope(&mut self, parent: ScopeId)
        ensures
            final(self).path == old(self).path,
    {
        self.current = parent;
        proof {
            assert(self@ =~= SCollector { current: parent, ..old(self)@ });
        }
    }
}

} // verus!

verus! {

// ---------------------------------------------------------------------
// Laws.

proof fn lemma_declare_all_current(v: SCollector, names: Seq<SIdent>)
    ensures
        declare_all(v, names).current == v.current,
    decreases names.len(),
{
    if names.len() > 0 {
        lemma_declare_all_current(v, names.drop_last());
    }
}

proof fn lemma_walk_kind_current(v: SCollector, kind: SStmtKind, start: nat, end: nat)
    ensures
        walk_kind::<TypeCollector>(v, kind, start, end).current == v.current,
    decreases kind,
{
    let v1 = after_declaration(v, SStmt { kind, start, end });
    if let SStmtKind::Import(names, _) = kind {
        lemma_declare_all_current(v, names);
    }
    match kind {
        SStmtKind::If(condition, block, alternate) => {
            let span = block_span(block);
            let v2 = SCollector {
                current: v1.current,
                ..walk_stmts::<TypeCollector>(opened(v1, span), block.statements)
            };
            match alternate {
                Some(a) => {
                    let v3 = SCollector {
                        current: v2.current,
                        ..walk_kind::<TypeCollector>(opened(v2, span), a.kind, a.start, a.end)
                    };
                    lemma_walk_expr_current(v3, condition);
                },
                None => {
                    lemma_walk_expr_current(v2, condition);
                },
            }
        },
        SStmtKind::Block(block) => {
            lemma_walk_stmts_current(v1, block.statements);
        },
        SStmtKind::While(_, statements) => {
            lemma_walk_stmts_current(v1, statements);
        },
        SStmtKind::For(_, iterable, statements) => {
            let v2 = match iterable {
                SIterable::Range(left, right) => {
                    let v3 = match left {
                        Some(l) => {
                            lemma_walk_expr_current(v1, l);
                            walk_expr::<TypeCollector>(v1, l)
                        },
                        None => v1,
                    };
                    match right {
                        Some(r) => {
                            lemma_walk_expr_current(v3, r);
                            walk_expr::<TypeCollector>(v3, r)
                        },
                        None => v3,
                    }
                },
                SIterable::Array(e) => {
                    lemma_walk_expr_current(v1, e);
                    walk_expr::<TypeCollector>(v1, e)
                },
            };
            lemma_walk_stmts_current(v2, statements);
        },
        SStmtKind::Export(declaration) => {
            lemma_walk_kind_current(v1, declaration.kind, declaration.start, declaration.end);
        },
        SStmtKind::Return(e) => {
            lemma_walk_expr_current(v1, e);
        },
        SStmtKind::Expression(e) => {
            lemma_walk_expr_current(v1, e);
        },
        SStmtKind::VariableDefinition(_, e, _) => {
            lemma_walk_expr_current(v1, e);
        },
        _ => {},
    }
}

proof fn lemma_walk_stmts_current(v: SCollector, ss: Seq<SStmt>)
    ensures
        walk_stmts::<TypeCollector>(v, ss).current == v.current,
    decreases ss,
{
    if ss.len() > 0 {
        lemma_walk_stmts_current(v, ss.drop_last());
        lemma_walk_kind_current(walk_stmts::<TypeCollector>(v, ss.drop_last()), ss.last().kind, ss.last().start, ss.last().end);
    }
}

proof fn lemma_walk_expr_current(v: SCollector, e: SExpr)
    ensures
        walk_expr::<TypeCollector>(v, e).current == v.current,
    decreases e,
{
    match e.kind {
        SExprKind::Binary(l, _, r) => {
            lemma_walk_expr_current(v, *l);
            lemma_walk_expr_current(walk_expr::<TypeCollector>(v, *l), *r);
        },
        SExprKind::Equality(l, _, r) => {
            lemma_walk_expr_current(v, *l);
            lemma_walk_expr_current(walk_expr::<TypeCollector>(v, *l), *r);
        },
        SExprKind::Logical(l, _, r) => {
            lemma_walk_expr_current(v, *l);
            lemma_walk_expr_current(walk_expr::<TypeCollector>(v, *l), *r);
        },
        SExprKind::Relational(l, _, r) => {
            lemma_walk_expr_current(v, *l);
            lemma_walk_expr_current(walk_expr::<TypeCollector>(v, *l), *r);
        },
        SExprKind::Assignment(l, _, r) => {
            lemma_walk_expr_current(v, *l);
            lemma_walk_expr_current(walk_expr::<TypeCollector>(v, *l), *r);
        },
        SExprKind::Unary(l, _) => {
            lemma_walk_expr_current(v, *l);
        },
        SExprKind::Call(callee, arguments) => {
            lemma_walk_expr_current(v, *callee);
            lemma_walk_exprs_current(walk_expr::<TypeCollector>(v, *callee), arguments);
        },
        SExprKind::Member(object, property) => {
            lemma_walk_expr_current(v, *object);
            lemma_walk_expr_current(walk_expr::<TypeCollector>(v, *object), *property);
        },
        SExprKind::Literal(SLiteralKind::Function(kind), _) => {
            lemma_walk_kind_current(v, *kind, 0, 0);
        },
        SExprKind::Literal(SLiteralKind::Array(values), _) => {
            lemma_walk_exprs_current(v, values);
        },
        SExprKind::Literal(SLiteralKind::Object(entries), _) => {
            lemma_walk_entries_current(v, entries);
        },
        _ => {},
    }
}

proof fn lemma_walk_exprs_current(v: SCollector, es: Seq<SExpr>)
    ensures
        walk_exprs::<TypeCollector>(v, es).current == v.current,
    decreases es,
{
    if es.len() > 0 {
        lemma_walk_exprs_current(v, es.drop_last());
        lemma_walk_expr_current(walk_exprs::<TypeCollector>(v, es.drop_last()), es.last());
    }
}

proof fn lemma_walk_entries_current(v: SCollector, es: Seq<(Seq<char>, SExpr)>)
    ensures
        walk_entries::<TypeCollector>(v, es).current == v.current,
    decreases es,
{
    if es.len() > 0 {
        lemma_walk_entries_current(v, es.drop_last());
        lemma_walk_expr_current(walk_entries::<TypeCollector>(v, es.drop_last()), es.last().1);
    }
}

/// Every scope that a walk opens, it closes again: after walking any
/// statements, the current scope of a type collector is the one it was
/// before.
pub proof fn law_walk_restores_current_scope(v: SCollector, statements: Seq<SStmt>)
    ensures
        walk_stmts::<TypeCollector>(v, statements).current == v.current,
{
    lemma_walk_stmts_current(v, statements);
}

} // verus!
