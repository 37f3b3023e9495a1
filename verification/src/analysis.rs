//! The symbol index behind editor features: scopes nested by their spans,
//! the symbols defined in them, and the module's exports; and the builder
//! that fills it while the syntax tree is walked.
use vstd::prelude::*;
use crate::ast::{Argument, Expression, ExpressionKind, Identifier, LiteralExpressionKind, SArgument, SExpr, SExprKind, SLiteralKind, SStmt, SValue, StatementKind, ValueHolder};
use crate::explorer::Visitor;
use crate::errors::Span;
use crate::text::text_eq;
use crate::types::{ClassType, FunctionType, Type, TypeArena, TypeId};

verus! {

/// The index of a scope; the global scope is number 0.
#[derive(Debug, Clone, Copy, PartialEq, Eq, Structural)]
pub struct ScopeId(pub usize);

/// A scope: its parent, the scopes opened in it, the symbols defined in it
/// (by index), and the source range it covers (none for the global scope).
#[derive(Debug)]
pub struct Scope {
    pub parent: Option<ScopeId>,
    pub children: Vec<ScopeId>,
    pub symbols: Vec<usize>,
    pub span: Option<Span>,
}

/// The mathematical value of a scope.
#[verifier::ext_equal]
pub struct SScope {
    pub parent: Option<ScopeId>,
    pub children: Seq<ScopeId>,
    pub symbols: Seq<usize>,
    pub span: Option<Span>,
}

impl View for Scope {
    type V = SScope;

    open spec fn view(&self) -> SScope {
        SScope { parent: self.parent, children: self.children@, symbols: self.symbols@, span: self.span }
    }
}

/// What a symbol stands for.
#[derive(Debug)]
pub enum SymbolKind {
    Definition(TypeId),
    Variable,
    Function(FunctionType),
    Class(ClassType),
    Method,
    Constant,
    Import(String),
    /// A property accessed on the object that starts at this offset.
    Property(usize),
}

/// A named thing of the source, where it stands and in which scope.
#[derive(Debug)]
pub struct Symbol {
    pub name: String,
    pub kind: SymbolKind,
    pub span: Span,
    pub scope: ScopeId,
}

/// A symbol that the module exports, under a name.
#[derive(Debug)]
pub struct Export {
    pub name: String,
    pub symbol: Symbol,
}

/// The finished index of a module.
#[derive(Debug)]
pub struct SymbolIndex {
    pub scopes: Vec<Scope>,
    pub symbols: Vec<Symbol>,
    pub exports: Vec<Export>,
    pub arena: TypeArena<Type>,
}

/// Scopes form a forest in which a parent comes before its children, and
/// every symbol a scope lists exists.
pub open spec fn scopes_wf(scopes: Seq<Scope>, symbol_count: nat) -> bool {
    &&& forall|i: int| 0 <= i < scopes.len() ==> (#[trigger] scopes[i].parent matches Some(p) ==> p.0 < i)
    &&& forall|i: int, j: int| 0 <= i < scopes.len() && 0 <= j < scopes[i].symbols@.len()
        ==> #[trigger] scopes[i].symbols@[j] < symbol_count
}

/// The symbols visible from scope `s`, by index: those of `s`, then those of
/// its parent, and so on up to the global scope.
pub open spec fn chain_ids(scopes: Seq<Scope>, s: int) -> Seq<usize>
    decreases s,
{
    if 0 <= s < scopes.len() {
        match scopes[s].parent {
            Some(p) => if 0 <= p.0 < s {
                scopes[s].symbols@ + chain_ids(scopes, p.0 as int)
            } else {
                scopes[s].symbols@
            },
            None => scopes[s].symbols@,
        }
    } else {
        Seq::empty()
    }
}

/// The symbols visible from scope `s`, by index, going out through the
/// parents of at most `fuel` scopes: those of `s`, then those of its parent,
/// and so on.
pub open spec fn chain_of(scopes: Seq<Scope>, s: int, fuel: nat) -> Seq<usize>
    decreases fuel,
{
    if fuel == 0 || s < 0 || s >= scopes.len() {
        Seq::empty()
    } else {
        scopes[s].symbols@ + match scopes[s].parent {
            Some(p) => chain_of(scopes, p.0 as int, (fuel - 1) as nat),
            None => Seq::empty(),
        }
    }
}

/// Whether going out from scope `s` through parents meets only scopes that
/// exist and reaches one without a parent within `fuel` scopes.
pub open spec fn chain_ends(scopes: Seq<Scope>, s: int, fuel: nat) -> bool
    decreases fuel,
{
    &&& fuel > 0
    &&& 0 <= s < scopes.len()
    &&& match scopes[s].parent {
        Some(p) => chain_ends(scopes, p.0 as int, (fuel - 1) as nat),
        None => true,
    }
}

/// The symbols visible from scope `s`, by index, innermost scope first.
pub open spec fn visible_ids(scopes: Seq<Scope>, s: int) -> Seq<usize> {
    chain_of(scopes, s, scopes.len())
}

/// Whether the chain of scopes out from `s` ends, and every symbol it lists
/// exists.
pub open spec fn chain_ok(scopes: Seq<Scope>, symbol_count: nat, s: int) -> bool {
    &&& chain_ends(scopes, s, scopes.len())
    &&& forall|i: int| 0 <= i < visible_ids(scopes, s).len() ==> #[trigger] visible_ids(scopes, s)[i] < symbol_count
}

/// The scope chosen for a position after looking at the first `n` scopes,
/// with the size of its span: the first of the smallest spans that contain
/// the position, or the global scope.
pub open spec fn scope_search(scopes: Seq<Scope>, pos: usize, n: int) -> (usize, usize)
    decreases n,
{
    if n <= 0 {
        (0, usize::MAX)
    } else {
        let (best, size) = scope_search(scopes, pos, n - 1);
        match scopes[n - 1].span {
            Some(sp) => if sp.start <= pos <= sp.end && ((sp.end - sp.start) as usize) < size {
                ((n - 1) as usize, (sp.end - sp.start) as usize)
            } else {
                (best, size)
            },
            None => (best, size),
        }
    }
}

/// Whether `span` contains `pos`, both ends included.
pub open spec fn covers(span: Span, pos: usize) -> bool {
    span.start <= pos <= span.end
}

/// The symbol chosen for a position after looking at the first `n` symbols:
/// a symbol that covers it replaces the one chosen so far when it starts
/// later or ends earlier.
pub open spec fn symbol_search(symbols: Seq<Symbol>, pos: usize, n: int) -> Option<int>
    decreases n,
{
    if n <= 0 {
        None
    } else {
        let d = symbol_search(symbols, pos, n - 1);
        let s = symbols[n - 1];
        if covers(s.span, pos) {
            match d {
                Some(j) => if s.span.start > symbols[j].span.start || s.span.end < symbols[j].span.end {
                    Some(n - 1)
                } else {
                    d
                },
                None => Some(n - 1),
            }
        } else {
            d
        }
    }
}

/// The first of `ids` that names a definition (no mere use of a variable)
/// called `name`.
pub open spec fn first_definition(symbols: Seq<Symbol>, ids: Seq<usize>, name: Seq<char>) -> Option<usize>
    decreases ids.len(),
{
    if ids.len() == 0 {
        None
    } else if !(symbols[ids[0] as int].kind is Variable) && symbols[ids[0] as int].name@ == name {
        Some(ids[0])
    } else {
        first_definition(symbols, ids.drop_first(), name)
    }
}

/// The first export under the name `name`.
pub open spec fn first_export(exports: Seq<Export>, name: Seq<char>) -> Option<int>
    decreases exports.len(),
{
    if exports.len() == 0 {
        None
    } else if exports.last().name@ == name && first_export(exports.drop_last(), name) is None {
        Some(exports.len() - 1)
    } else {
        first_export(exports.drop_last(), name)
    }
}

pub(crate) proof fn lemma_chain_ids_valid(scopes: Seq<Scope>, n: nat, s: int)
    requires
        scopes_wf(scopes, n),
    ensures
        forall|i: int| 0 <= i < chain_ids(scopes, s).len() ==> #[trigger] chain_ids(scopes, s)[i] < n,
    decreases s,
{
    if 0 <= s < scopes.len() {
        if let Some(p) = scopes[s].parent {
            if 0 <= p.0 < s {
                lemma_chain_ids_valid(scopes, n, p.0 as int);
                assert forall|i: int| 0 <= i < chain_ids(scopes, s).len() implies #[trigger] chain_ids(scopes, s)[i] < n by {
                    if i < scopes[s].symbols@.len() {
                        assert(chain_ids(scopes, s)[i] == scopes[s].symbols@[i]);
                    } else {
                        assert(chain_ids(scopes, s)[i] == chain_ids(scopes, p.0 as int)[i - scopes[s].symbols@.len()]);
                    }
                }
            }
        }
    }
}

proof fn lemma_first_definition_skip(symbols: Seq<Symbol>, ids: Seq<usize>, name: Seq<char>, j: int)
    requires
        0 <= j < ids.len(),
        !(!(symbols[ids[j] as int].kind is Variable) && symbols[ids[j] as int].name@ == name),
    ensures
        first_definition(symbols, ids.skip(j), name) == first_definition(symbols, ids.skip(j + 1), name),
{
    assert(ids.skip(j).drop_first() =~= ids.skip(j + 1));
    assert(ids.skip(j)[0] == ids[j]);
}

impl SymbolIndex {
    pub open spec fn wf(&self) -> bool {
        scopes_wf(self.scopes@, self.symbols@.len())
    }

    /// Whether there is a scope, and from every scope the chain of parents
    /// ends and lists only symbols that exist.
    pub open spec fn chains_ok(&self) -> bool {
        &&& self.scopes@.len() > 0
        &&& forall|s: int| 0 <= s < self.scopes@.len() ==> #[trigger] chain_ok(self.scopes@, self.symbols@.len(), s)
    }

    /// The symbols visible from `scope`: those of the scope, then those of
    /// each enclosing scope, innermost first.
    pub fn visible_symbols(&self, scope: ScopeId) -> (r: Vec<&Symbol>)
        requires
            chain_ok(self.scopes@, self.symbols@.len(), scope.0 as int),
        ensures
            r@.len() == visible_ids(self.scopes@, scope.0 as int).len(),
            forall|i: int| 0 <= i < r@.len() ==> *r@[i] == self.symbols@[visible_ids(self.scopes@, scope.0 as int)[i] as int],
    {
        let ghost all = visible_ids(self.scopes@, scope.0 as int);
        let ghost mut fuel: nat = self.scopes@.len();
        let mut result: Vec<&Symbol> = Vec::new();
        let mut current = Some(scope);
        proof {
            assert(all.take(0) + all =~= all);
        }
        loop
            invariant
                forall|i: int| 0 <= i < all.len() ==> #[trigger] all[i] < self.symbols@.len(),
                current matches Some(c) ==> chain_ends(self.scopes@, c.0 as int, fuel),
                result@.len() <= all.len(),
                forall|i: int| 0 <= i < result@.len() ==> *result@[i] == self.symbols@[all[i] as int],
                all == all.take(result@.len() as int) + match current {
                    Some(c) => chain_of(self.scopes@, c.0 as int, fuel),
                    None => Seq::<usize>::empty(),
                },
            ensures
                result@.len() == all.len(),
                forall|i: int| 0 <= i < result@.len() ==> *result@[i] == self.symbols@[all[i] as int],
            decreases fuel,
        {
            match current {
                None => {
                    proof {
                        assert(all.take(result@.len() as int) + Seq::<usize>::empty() =~= all.take(result@.len() as int));
                    }
                    break;
                },
                Some(scope_id) => {
                    let scope = &self.scopes[scope_id.0];
                    let ghost base = result@.len();
                    let ghost here = chain_of(self.scopes@, scope_id.0 as int, fuel);
                    let ghost rest = match scope.parent {
                        Some(p) => chain_of(self.scopes@, p.0 as int, (fuel - 1) as nat),
                        None => Seq::<usize>::empty(),
                    };
                    proof {
                        assert(all == all.take(base as int) + here);
                        assert forall|i: int| 0 <= i < here.len() implies all[base + i] == here[i] by {
                            assert((all.take(base as int) + here)[base + i] == here[i]);
                        }
                        assert(here =~= scope.symbols@ + rest);
                        assert forall|i: int| 0 <= i < scope.symbols@.len() implies here[i] == scope.symbols@[i] by {
                            assert((scope.symbols@ + rest)[i] == scope.symbols@[i]);
                        }
                    }
                    let mut j: usize = 0;
                    while j < scope.symbols.len()
                        invariant
                            j <= scope.symbols@.len(),
                            scope.symbols@.len() <= here.len(),
                            result@.len() == base + j,
                            base + here.len() == all.len(),
                            forall|i: int| 0 <= i < all.len() ==> #[trigger] all[i] < self.symbols@.len(),
                            forall|i: int| 0 <= i < result@.len() ==> *result@[i] == self.symbols@[all[i] as int],
                            forall|i: int| 0 <= i < here.len() ==> all[base + i] == here[i],
                            forall|i: int| 0 <= i < scope.symbols@.len() ==> here[i] == scope.symbols@[i],
                        decreases scope.symbols.len() - j,
                    {
                        let symbol_id = scope.symbols[j];
                        proof {
                            assert(here[j as int] == scope.symbols@[j as int]);
                            assert(all[base + j] == here[j as int]);
                        }
                        result.push(&self.symbols[symbol_id]);
                        j += 1;
                    }
                    let next = scope.parent;
                    proof {
                        assert(here =~= scope.symbols@ + rest);
                        assert(all =~= all.take(result@.len() as int) + rest);
                        fuel = (fuel - 1) as nat;
                    }
                    current = next;
                },
            }
        }
        result
    }
}

impl SymbolIndex {
    /// The innermost scope at `pos`: the first of the scopes with the
    /// smallest span that contains `pos`, or the global scope.
    pub fn scope_at_position(&self, pos: usize) -> (r: ScopeId)
        ensures
            r == ScopeId(scope_search(self.scopes@, pos, self.scopes@.len() as int).0),
    {
        let mut best = ScopeId(0);
        let mut best_size = usize::MAX;
        let mut i: usize = 0;
        while i < self.scopes.len()
            invariant
                i <= self.scopes@.len(),
                (best.0, best_size) == scope_search(self.scopes@, pos, i as int),
            decreases self.scopes.len() - i,
        {
            if let Some(span) = self.scopes[i].span {
                if pos >= span.start && pos <= span.end {
                    let size = span.end - span.start;
                    if size < best_size {
                        best = ScopeId(i);
                        best_size = size;
                    }
                }
            }
            i += 1;
        }
        best
    }

    /// The symbol at `pos`: of the symbols whose span contains `pos`, in
    /// order, each replaces the one chosen so far when it starts later or
    /// ends earlier.
    pub fn symbol_at(&self, pos: usize) -> (r: Option<&Symbol>)
        ensures
            match symbol_search(self.symbols@, pos, self.symbols@.len() as int) {
                Some(i) => r matches Some(s) && *s == self.symbols@[i],
                None => r is None,
            },
    {
        let mut deepest: Option<usize> = None;
        let mut i: usize = 0;
        while i < self.symbols.len()
            invariant
                i <= self.symbols@.len(),
                deepest matches Some(d) ==> d < i,
                symbol_search(self.symbols@, pos, i as int) == match deepest {
                    Some(d) => Some(d as int),
                    None => None::<int>,
                },
            decreases self.symbols.len() - i,
        {
            let symbol = &self.symbols[i];
            if pos >= symbol.span.start && pos <= symbol.span.end {
                match deepest {
                    Some(d) => {
                        let span = self.symbols[d].span;
                        if symbol.span.start > span.start || symbol.span.end < span.end {
                            deepest = Some(i);
                        }
                    },
                    None => {
                        deepest = Some(i);
                    },
                }
            }
            i += 1;
        }
        match deepest {
            Some(d) => Some(&self.symbols[d]),
            None => None,
        }
    }

    /// The definition called `name` that is visible at `pos`: the first one,
    /// innermost scope first, that is not a mere use of a variable.
    pub fn find_definition(&self, name: &str, pos: usize) -> (r: Option<&Symbol>)
        requires
            chain_ok(self.scopes@, self.symbols@.len(), self.scope_at_position_spec(pos)),
        ensures
            match first_definition(self.symbols@, visible_ids(self.scopes@, self.scope_at_position_spec(pos)), name@) {
                Some(i) => r matches Some(s) && *s == self.symbols@[i as int],
                None => r is None,
            },
    {
        let scope = self.scope_at_position(pos);
        let ghost all = visible_ids(self.scopes@, scope.0 as int);
        let ghost mut done: int = 0;
        let ghost mut fuel: nat = self.scopes@.len();
        let mut current = Some(scope);
        proof {
            assert(all.skip(0) =~= all);
        }
        loop
            invariant
                all == visible_ids(self.scopes@, self.scope_at_position_spec(pos)),
                forall|i: int| 0 <= i < all.len() ==> #[trigger] all[i] < self.symbols@.len(),
                current matches Some(c) ==> chain_ends(self.scopes@, c.0 as int, fuel),
                0 <= done <= all.len(),
                all.skip(done) == match current {
                    Some(c) => chain_of(self.scopes@, c.0 as int, fuel),
                    None => Seq::<usize>::empty(),
                },
                first_definition(self.symbols@, all, name@) == first_definition(self.symbols@, all.skip(done), name@),
            ensures
                first_definition(self.symbols@, all, name@) is None,
            decreases fuel,
        {
            match current {
                None => {
                    break;
                },
                Some(scope_id) => {
                    let scope = &self.scopes[scope_id.0];
                    let ghost here = all.skip(done);
                    let rest = scope.parent;
                    let ghost r = match rest {
                        Some(p) => chain_of(self.scopes@, p.0 as int, (fuel - 1) as nat),
                        None => Seq::<usize>::empty(),
                    };
                    proof {
                        assert(here =~= scope.symbols@ + r);
                        assert forall|i: int| 0 <= i < scope.symbols@.len() implies all[done + i] == scope.symbols@[i] by {
                            assert(all.skip(done)[i] == all[done + i]);
                            assert((scope.symbols@ + r)[i] == scope.symbols@[i]);
                        }
                        assert(all.skip(done).len() == all.len() - done);
                    }
                    let mut j: usize = 0;
                    while j < scope.symbols.len()
                        invariant
                            j <= scope.symbols@.len(),
                            all == visible_ids(self.scopes@, self.scope_at_position_spec(pos)),
                            0 <= done,
                            done + scope.symbols@.len() <= all.len(),
                            forall|i: int| 0 <= i < all.len() ==> #[trigger] all[i] < self.symbols@.len(),
                            forall|i: int| 0 <= i < scope.symbols@.len() ==> all[done + i] == scope.symbols@[i],
                            first_definition(self.symbols@, all, name@) == first_definition(self.symbols@, all.skip(done + j), name@),
                        decreases scope.symbols.len() - j,
                    {
                        let symbol_id = scope.symbols[j];
                        let symbol = &self.symbols[symbol_id];
                        proof {
                            assert(all[done + j] == symbol_id);
                        }
                        let is_variable = match symbol.kind {
                            SymbolKind::Variable => true,
                            _ => false,
                        };
                        if !is_variable {
                            if text_eq(&symbol.name, name) {
                                proof {
                                    assert(all.skip(done + j)[0] == symbol_id);
                                    assert(all.skip(done + j).len() > 0);
                                    assert(!(self.symbols@[symbol_id as int].kind is Variable));
                                    assert(first_definition(self.symbols@, all.skip(done + j), name@) == Some(symbol_id));
                                }
                                return Some(symbol);
                            }
                        }
                        proof {
                            lemma_first_definition_skip(self.symbols@, all, name@, done + j);
                        }
                        j += 1;
                    }
                    proof {
                        done = done + scope.symbols@.len();
                        assert(all.skip(done) =~= r) by {
                            assert forall|i: int| 0 <= i < r.len() implies all.skip(done)[i] == r[i] by {
                                assert(here[scope.symbols@.len() + i] == r[i]);
                            }
                        }
                        fuel = (fuel - 1) as nat;
                    }
                    current = rest;
                },
            }
        }
        None
    }

    /// The index of the scope that `scope_at_position` returns.
    pub open spec fn scope_at_position_spec(&self, pos: usize) -> int {
        scope_search(self.scopes@, pos, self.scopes@.len() as int).0 as int
    }

    /// The symbol exported under the name `name`: the first such export.
    pub fn find_export(&self, name: &str) -> (r: Option<&Symbol>)
        ensures
            match first_export(self.exports@, name@) {
                Some(i) => r matches Some(s) && *s == self.exports@[i].symbol,
                None => r is None,
            },
    {
        let mut i: usize = 0;
        while i < self.exports.len()
            invariant
                i <= self.exports@.len(),
                first_export(self.exports@.take(i as int), name@) is None,
            decreases self.exports.len() - i,
        {
            proof {
                assert(self.exports@.take(i as int + 1).drop_last() =~= self.exports@.take(i as int));
            }
            if text_eq(&self.exports[i].name, name) {
                proof {
                    lemma_first_export_prefix(self.exports@, name@, i as int + 1);
                }
                return Some(&self.exports[i].symbol);
            }
            i += 1;
        }
        proof {
            assert(self.exports@.take(i as int) =~= self.exports@);
        }
        None
    }
}

pub(crate) proof fn lemma_scope_search_bound(scopes: Seq<Scope>, pos: usize, n: int)
    requires
        0 <= n <= scopes.len(),
        scopes.len() > 0,
    ensures
        scope_search(scopes, pos, n).0 < scopes.len(),
    decreases n,
{
    if n > 0 {
        lemma_scope_search_bound(scopes, pos, n - 1);
    }
}

/// A first export found in a prefix is the first export of the whole list.
proof fn lemma_first_export_prefix(exports: Seq<Export>, name: Seq<char>, n: int)
    requires
        0 < n <= exports.len(),
        exports[n - 1].name@ == name,
        first_export(exports.take(n - 1), name) is None,
    ensures
        first_export(exports, name) == Some(n - 1),
    decreases exports.len() - n,
{
    assert(exports.take(n).drop_last() =~= exports.take(n - 1));
    if n < exports.len() {
        lemma_first_export_prefix_grow(exports, name, n, exports.len() as int);
        assert(exports.take(exports.len() as int) =~= exports);
    } else {
        assert(exports.take(n) =~= exports);
    }
}

proof fn lemma_first_export_prefix_grow(exports: Seq<Export>, name: Seq<char>, n: int, m: int)
    requires
        0 < n <= m <= exports.len(),
        exports[n - 1].name@ == name,
        first_export(exports.take(n - 1), name) is None,
    ensures
        first_export(exports.take(m), name) == Some(n - 1),
    decreases m - n,
{
    if m == n {
        assert(exports.take(n).drop_last() =~= exports.take(n - 1));
    } else {
        lemma_first_export_prefix_grow(exports, name, n, m - 1);
        assert(exports.take(m).drop_last() =~= exports.take(m - 1));
    }
}

/// The builder of a symbol index: the scopes so far, the scope being
/// filled, and the symbols and exports found.
#[derive(Debug)]
pub struct TypedScopeBuilder {
    pub scopes: Vec<Scope>,
    pub current: ScopeId,
    pub symbols: Vec<Symbol>,
    pub exports: Vec<Export>,
    pub arena: TypeArena<Type>,
}

/// `new` is `old` with the symbol `(name, kind, span)` defined in the current scope.
pub open spec fn defined(old: TypedScopeBuilder, new: TypedScopeBuilder, name: Seq<char>, kind: SymbolKind, span: Span) -> bool {
    let c = old.current.0 as int;
    &&& new.symbols@.len() == old.symbols@.len() + 1
    &&& forall|i: int| 0 <= i < old.symbols@.len() ==> new.symbols@[i] == old.symbols@[i]
    &&& new.symbols@.last().name@ == name
    &&& new.symbols@.last().kind == kind
    &&& new.symbols@.last().span == span
    &&& new.symbols@.last().scope == old.current
    &&& new.scopes@.len() == old.scopes@.len()
    &&& forall|i: int| 0 <= i < old.scopes@.len() && i != c ==> new.scopes@[i] == old.scopes@[i]
    &&& new.scopes@[c].symbols@ == old.scopes@[c].symbols@.push(old.symbols@.len() as usize)
    &&& new.scopes@[c].parent == old.scopes@[c].parent
    &&& new.scopes@[c].children == old.scopes@[c].children
    &&& new.scopes@[c].span == old.scopes@[c].span
    &&& new.current == old.current
    &&& new.exports == old.exports
    &&& new.arena == old.arena
}

impl TypedScopeBuilder {
    pub open spec fn wf(&self) -> bool {
        scopes_wf(self.scopes@, self.symbols@.len())
    }

    /// A builder with only the global scope, which is the current one.
    pub fn new(arena: TypeArena<Type>) -> (r: TypedScopeBuilder)
        ensures
            r.wf(),
            r.scopes@.len() == 1,
            r.scopes@[0].parent is None,
            r.scopes@[0].children@.len() == 0,
            r.scopes@[0].symbols@.len() == 0,
            r.scopes@[0].span is None,
            r.current == ScopeId(0),
            r.symbols@.len() == 0,
            r.exports@.len() == 0,
            r.arena == arena,
    {
        let mut scopes: Vec<Scope> = Vec::new();
        scopes.push(Scope { parent: None, children: Vec::new(), symbols: Vec::new(), span: None });
        TypedScopeBuilder { scopes, current: ScopeId(0), symbols: Vec::new(), exports: Vec::new(), arena }
    }

    /// Defines a symbol in the current scope and returns its index.
    pub fn define(&mut self, name: String, kind: SymbolKind, span: Span) -> (r: usize)
        requires
            old(self).wf(),
            old(self).current.0 < old(self).scopes@.len(),
        ensures
            final(self).wf(),
            r == old(self).symbols@.len(),
            defined(*old(self), *final(self), name@, kind, span),
    {
        let id = self.symbols.len();
        let ghost nm = name@;
        self.symbols.push(Symbol { name, span, kind, scope: self.current });
        let c = self.current.0;
        let mut scope = self.scopes.remove(c);
        scope.symbols.push(id);
        self.scopes.insert(c, scope);
        proof {
            assert forall|i: int| 0 <= i < self.scopes@.len() implies (#[trigger] self.scopes@[i].parent matches Some(p) ==> p.0 < i) by {
                assert(self.scopes@[i].parent == old(self).scopes@[i].parent);
            }
            assert forall|i: int, j: int| 0 <= i < self.scopes@.len() && 0 <= j < self.scopes@[i].symbols@.len()
                implies #[trigger] self.scopes@[i].symbols@[j] < self.symbols@.len() by {
                if i == c as int && j == self.scopes@[i].symbols@.len() - 1 {
                } else if i == c as int {
                    assert(self.scopes@[i].symbols@[j] == old(self).scopes@[i].symbols@[j]);
                } else {
                    assert(self.scopes@[i] == old(self).scopes@[i]);
                }
            }
        }
        id
    }

    /// Opens a scope covering `span` inside the current one, makes it current,
    /// and returns the scope that was current.
    pub fn enter_scope(&mut self, span: Span) -> (r: ScopeId)
        requires
            old(self).wf(),
            old(self).current.0 < old(self).scopes@.len(),
        ensures
            final(self).wf(),
            r == old(self).current,
            final(self).current == ScopeId(old(self).scopes@.len() as usize),
            final(self).scopes@.len() == old(self).scopes@.len() + 1,
            final(self).scopes@.last().parent == Some(old(self).current),
            final(self).scopes@.last().children@.len() == 0,
            final(self).scopes@.last().symbols@.len() == 0,
            final(self).scopes@.last().span == Some(span),
            forall|i: int| 0 <= i < old(self).scopes@.len() && i != old(self).current.0 ==> final(self).scopes@[i] == old(self).scopes@[i],
            final(self).scopes@[old(self).current.0 as int].children@
                == old(self).scopes@[old(self).current.0 as int].children@.push(ScopeId(old(self).scopes@.len() as usize)),
            final(self).scopes@[old(self).current.0 as int].symbols == old(self).scopes@[old(self).current.0 as int].symbols,
            final(self).scopes@[old(self).current.0 as int].parent == old(self).scopes@[old(self).current.0 as int].parent,
            final(self).scopes@[old(self).current.0 as int].span == old(self).scopes@[old(self).current.0 as int].span,
            final(self).symbols == old(self).symbols,
            final(self).exports == old(self).exports,
            final(self).arena == old(self).arena,
    {
        let parent = self.current;
        let id = ScopeId(self.scopes.len());
        self.scopes.push(Scope { parent: Some(parent), children: Vec::new(), symbols: Vec::new(), span: Some(span) });
        let mut scope = self.scopes.remove(parent.0);
        scope.children.push(id);
        self.scopes.insert(parent.0, scope);
        self.current = id;
        proof {
            assert forall|i: int| 0 <= i < self.scopes@.len() implies (#[trigger] self.scopes@[i].parent matches Some(p) ==> p.0 < i) by {
                if i < old(self).scopes@.len() {
                    assert(self.scopes@[i].parent == old(self).scopes@[i].parent);
                }
            }
            assert forall|i: int, j: int| 0 <= i < self.scopes@.len() && 0 <= j < self.scopes@[i].symbols@.len()
                implies #[trigger] self.scopes@[i].symbols@[j] < self.symbols@.len() by {
                if i < old(self).scopes@.len() {
                    assert(self.scopes@[i].symbols == old(self).scopes@[i].symbols);
                }
            }
        }
        parent
    }

    /// Makes `parent` the current scope again.
    pub fn exit_scope(&mut self, parent: ScopeId)
        ensures
            final(self).current == parent,
            final(self).scopes == old(self).scopes,
            final(self).symbols == old(self).symbols,
            final(self).exports == old(self).exports,
            final(self).arena == old(self).arena,
    {
        self.current = parent;
    }

    /// Records what an expression defines: a variable it names, or the
    /// property it reads off a variable.
    pub fn visit_expression(&mut self, expression: &Expression)
        requires
            old(self).wf(),
            old(self).current.0 < old(self).scopes@.len(),
        ensures
            final(self).wf(),
            match expression_symbol(*expression) {
                Some((name, kind, span)) => defined(*old(self), *final(self), name, kind, span),
                None => *final(self) == *old(self),
            },
    {
        match &expression.kind {
            ExpressionKind::Literal { literal_kind: LiteralExpressionKind::Variable, value: ValueHolder::String(name) } => {
                self.define(name.clone(), SymbolKind::Variable, Span { start: expression.start, end: expression.end });
            },
            ExpressionKind::Member { object, property } => {
                let is_variable = match &object.kind {
                    ExpressionKind::Literal { literal_kind: LiteralExpressionKind::Variable, .. } => true,
                    _ => false,
                };
                if !is_variable {
                    return;
                }
                if let ExpressionKind::Literal { literal_kind: LiteralExpressionKind::Literal, value: ValueHolder::String(value) } = &property.kind {
                    self.define(value.clone(), SymbolKind::Property(object.start), Span { start: property.start, end: property.end });
                }
            },
            _ => {},
        }
    }

    /// Records a parameter as a definition of its type.
    pub fn visit_argument(&mut self, argument: &Argument<Identifier, TypeId>)
        requires
            old(self).wf(),
            old(self).current.0 < old(self).scopes@.len(),
        ensures
            final(self).wf(),
            defined(
                *old(self),
                *final(self),
                argument.variable.value@,
                SymbolKind::Definition(argument.ty),
                Span { start: argument.variable.start, end: argument.variable.end },
            ),
    {
        self.define(
            argument.variable.value.clone(),
            SymbolKind::Definition(argument.ty),
            Span { start: argument.variable.start, end: argument.variable.end },
        );
    }
}

/// The symbol an expression defines, if any: a variable that it names, or a
/// property named by a string that it reads off a variable.
pub open spec fn expression_symbol(e: Expression) -> Option<(Seq<char>, SymbolKind, Span)> {
    match e.kind {
        ExpressionKind::Literal { literal_kind: LiteralExpressionKind::Variable, value: ValueHolder::String(name) } => Some(
            (name@, SymbolKind::Variable, Span { start: e.start, end: e.end }),
        ),
        ExpressionKind::Member { object, property } => if object.kind matches ExpressionKind::Literal {
            literal_kind: LiteralExpressionKind::Variable,
            ..
        } {
            match property.kind {
                ExpressionKind::Literal { literal_kind: LiteralExpressionKind::Literal, value: ValueHolder::String(v) } => Some(
                    (v@, SymbolKind::Property(object.start), Span { start: property.start, end: property.end }),
                ),
                _ => None,
            }
        } else {
            None
        },
        _ => None,
    }
}

impl SymbolIndex {
    /// The index that a finished builder holds.
    pub fn from(builder: TypedScopeBuilder) -> (r: SymbolIndex)
        ensures
            r.scopes == builder.scopes,
            r.symbols == builder.symbols,
            r.exports == builder.exports,
            r.arena == builder.arena,
    {
        SymbolIndex { scopes: builder.scopes, symbols: builder.symbols, exports: builder.exports, arena: builder.arena }
    }
}

/// A place where a completion can be offered: the name after a `.` and the
/// object before it.
#[derive(Debug, Clone, Copy, PartialEq, Eq, Structural)]
pub struct CompletionCandidate {
    pub completion_span: Span,
    pub object_span: Span,
}

/// Collects the places where completions can be offered.
#[derive(Debug)]
pub struct CompletionResolver {
    pub candidates: Vec<CompletionCandidate>,
}

impl Default for CompletionResolver {
    fn default() -> (r: CompletionResolver)
        ensures
            r.candidates@.len() == 0,
    {
        CompletionResolver { candidates: Vec::new() }
    }
}

/// The completion candidate of an expression: a member access whose
/// property is a string.
pub open spec fn completion_of(e: SExpr) -> Option<CompletionCandidate> {
    match e.kind {
        SExprKind::Member(object, property) => match property.kind {
            SExprKind::Literal(SLiteralKind::Literal, SValue::String(_)) => Some(
                CompletionCandidate {
                    completion_span: Span { start: property.start as usize, end: property.end as usize },
                    object_span: Span { start: object.start as usize, end: object.end as usize },
                },
            ),
            _ => None,
        },
        _ => None,
    }
}

impl View for CompletionResolver {
    type V = Seq<CompletionCandidate>;

    open spec fn view(&self) -> Seq<CompletionCandidate> {
        self.candidates@
    }
}

/// The candidates after an expression: its candidate, if it has one, goes last.
pub open spec fn with_completion(v: Seq<CompletionCandidate>, e: SExpr) -> Seq<CompletionCandidate> {
    match completion_of(e) {
        Some(c) => v.push(c),
        None => v,
    }
}

/// Only expressions matter to a completion resolver: every other event
/// leaves its candidates as they are, and it opens no scopes.
impl Visitor for CompletionResolver {
    open spec fn ready(v: Seq<CompletionCandidate>) -> bool {
        true
    }

    open spec fn can_exit(v: Seq<CompletionCandidate>, parent: ScopeId) -> bool {
        true
    }

    open spec fn grows(a: Seq<CompletionCandidate>, b: Seq<CompletionCandidate>) -> bool {
        a.is_prefix_of(b)
    }

    open spec fn after_expression(v: Seq<CompletionCandidate>, e: SExpr) -> Seq<CompletionCandidate> {
        with_completion(v, e)
    }

    open spec fn after_statement(v: Seq<CompletionCandidate>, s: SStmt) -> Seq<CompletionCandidate> {
        v
    }

    open spec fn after_argument(v: Seq<CompletionCandidate>, a: SArgument) -> Seq<CompletionCandidate> {
        v
    }

    open spec fn after_enter(v: Seq<CompletionCandidate>, span: Span) -> Seq<CompletionCandidate> {
        v
    }

    open spec fn entered(v: Seq<CompletionCandidate>, span: Span) -> ScopeId {
        ScopeId(0)
    }

    open spec fn after_exit(v: Seq<CompletionCandidate>, parent: ScopeId) -> Seq<CompletionCandidate> {
        v
    }

    proof fn lemma_grows_refl(a: Seq<CompletionCandidate>) {
        assert(a.take(a.len() as int) =~= a);
    }

    proof fn lemma_grows_trans(a: Seq<CompletionCandidate>, b: Seq<CompletionCandidate>, c: Seq<CompletionCandidate>) {
        assert forall|i: int| 0 <= i < a.len() implies a[i] == c[i] by {
            assert(a[i] == b[i]);
        }
    }

    proof fn lemma_can_exit_grows(a: Seq<CompletionCandidate>, b: Seq<CompletionCandidate>, parent: ScopeId) {
    }

    /// Records the completion candidate of an expression, if it has one.
    fn visit_expression(&mut self, expression: &Expression) {
        if let ExpressionKind::Member { object, property } = &expression.kind {
            if let ExpressionKind::Literal { literal_kind: LiteralExpressionKind::Literal, value: ValueHolder::String(_) } = &property.kind {
                proof {
                    assert(expression@.kind == SExprKind::Member(Box::new((**object)@), Box::new((**property)@)));
                    assert(property@.kind == property.kind@);
                }
                self.candidates.push(CompletionCandidate {
                    completion_span: Span { start: property.start, end: property.end },
                    object_span: Span { start: object.start, end: object.end },
                });
                proof {
                    assert(old(self).candidates@.is_prefix_of(self.candidates@));
                }
                return;
            }
            proof {
                assert(expression@.kind == SExprKind::Member(Box::new((**object)@), Box::new((**property)@)));
                assert(property@.kind == property.kind@);
            }
        }
        proof {
            assert(old(self).candidates@.take(old(self).candidates@.len() as int) =~= old(self).candidates@);
        }
    }

    fn visit_statement(&mut self, kind: &StatementKind, start: usize, end: usize) {
        proof {
            assert(self.candidates@.take(self.candidates@.len() as int) =~= self.candidates@);
        }
    }

    fn visit_argument(&mut self, argument: &Argument<Identifier, ()>) {
        proof {
            assert(self.candidates@.take(self.candidates@.len() as int) =~= self.candidates@);
        }
    }

    fn enter_scope(&mut self, span: Span) -> (r: ScopeId) {
        proof {
            assert(self.candidates@.take(self.candidates@.len() as int) =~= self.candidates@);
        }
        ScopeId(0)
    }

    fn exit_scope(&mut self, parent: ScopeId) {
        proof {
            assert(self.candidates@.take(self.candidates@.len() as int) =~= self.candidates@);
        }
    }
}

// ---------------------------------------------------------------------
// Laws.

/// Whether a scope has a span and it contains `pos`.
pub open spec fn covering(scope: Scope, pos: usize) -> bool {
    scope.span matches Some(sp) && covers(sp, pos)
}

/// The size of the span of a scope that has one.
pub open spec fn span_size(scope: Scope) -> int {
    scope.span->0.end - scope.span->0.start
}

/// The scope found at a position is the global scope or one whose span
/// contains the position; no scope that contains it has a smaller span, and
/// none before it has a span as small.
pub proof fn law_scope_at_position(scopes: Seq<Scope>, pos: usize)
    requires
        scopes.len() <= usize::MAX,
    ensures
        ({
            let (best, size) = scope_search(scopes, pos, scopes.len() as int);
            &&& (best == 0 && size == usize::MAX) || (best < scopes.len() && covering(scopes[best as int], pos)
                && span_size(scopes[best as int]) == size)
            &&& forall|i: int| 0 <= i < scopes.len() && covering(#[trigger] scopes[i], pos) ==> span_size(scopes[i]) >= size
            &&& forall|i: int| 0 <= i < best && covering(#[trigger] scopes[i], pos) ==> span_size(scopes[i]) > size
        }),
{
    lemma_scope_search(scopes, pos, scopes.len() as int);
}

proof fn lemma_scope_search(scopes: Seq<Scope>, pos: usize, n: int)
    requires
        0 <= n <= scopes.len(),
        scopes.len() <= usize::MAX,
    ensures
        ({
            let (best, size) = scope_search(scopes, pos, n);
            &&& (best == 0 && size == usize::MAX) || (best < n && covering(scopes[best as int], pos)
                && span_size(scopes[best as int]) == size)
            &&& forall|i: int| 0 <= i < n && covering(#[trigger] scopes[i], pos) ==> span_size(scopes[i]) >= size
            &&& forall|i: int| 0 <= i < best && covering(#[trigger] scopes[i], pos) ==> span_size(scopes[i]) > size
        }),
    decreases n,
{
    if n > 0 {
        lemma_scope_search(scopes, pos, n - 1);
        let (b0, s0) = scope_search(scopes, pos, n - 1);
        let (b, sz) = scope_search(scopes, pos, n);
        if covering(scopes[n - 1], pos) {
            let sp = scopes[n - 1].span->0;
            assert(0 <= sp.end - sp.start <= usize::MAX);
            assert(((sp.end - sp.start) as usize) as int == sp.end - sp.start);
        }
        if covering(scopes[n - 1], pos) && span_size(scopes[n - 1]) < s0 {
            assert(b == n - 1 && sz == span_size(scopes[n - 1]));
            assert forall|i: int| 0 <= i < n && covering(#[trigger] scopes[i], pos) implies span_size(scopes[i]) >= sz by {
                if i < n - 1 {
                    assert(span_size(scopes[i]) >= s0);
                }
            }
            assert forall|i: int| 0 <= i < b && covering(#[trigger] scopes[i], pos) implies span_size(scopes[i]) > sz by {
                assert(span_size(scopes[i]) >= s0);
            }
        } else {
            assert(b == b0 && sz == s0);
            assert forall|i: int| 0 <= i < n && covering(#[trigger] scopes[i], pos) implies span_size(scopes[i]) >= sz by {
                if i == n - 1 {
                    assert(span_size(scopes[i]) >= s0);
                }
            }
        }
    }
}

/// The symbol found at a position covers it, and none is found only when no
/// symbol covers it.
pub proof fn law_symbol_at(symbols: Seq<Symbol>, pos: usize)
    ensures
        symbol_search(symbols, pos, symbols.len() as int) matches Some(i) ==> 0 <= i < symbols.len() && covers(symbols[i].span, pos),
        symbol_search(symbols, pos, symbols.len() as int) is None ==> forall|i: int| 0 <= i < symbols.len() ==> !covers(#[trigger] symbols[i].span, pos),
{
    lemma_symbol_search(symbols, pos, symbols.len() as int);
}

proof fn lemma_symbol_search(symbols: Seq<Symbol>, pos: usize, n: int)
    requires
        0 <= n <= symbols.len(),
    ensures
        symbol_search(symbols, pos, n) matches Some(i) ==> 0 <= i < n && covers(symbols[i].span, pos),
        symbol_search(symbols, pos, n) is None ==> forall|i: int| 0 <= i < n ==> !covers(#[trigger] symbols[i].span, pos),
    decreases n,
{
    if n > 0 {
        lemma_symbol_search(symbols, pos, n - 1);
    }
}

/// A definition found by name is no mere use of a variable, has that name,
/// and is visible from the scope searched.
pub proof fn law_first_definition(symbols: Seq<Symbol>, ids: Seq<usize>, name: Seq<char>)
    requires
        forall|i: int| 0 <= i < ids.len() ==> #[trigger] ids[i] < symbols.len(),
    ensures
        first_definition(symbols, ids, name) matches Some(id) ==> ids.contains(id)
            && !(symbols[id as int].kind is Variable) && symbols[id as int].name@ == name,
        first_definition(symbols, ids, name) is None ==> forall|i: int| 0 <= i < ids.len()
            ==> (symbols[#[trigger] ids[i] as int].kind is Variable || symbols[ids[i] as int].name@ != name),
    decreases ids.len(),
{
    if ids.len() > 0 {
        law_first_definition(symbols, ids.drop_first(), name);
        if let Some(id) = first_definition(symbols, ids, name) {
            if id != ids[0] || !( !(symbols[ids[0] as int].kind is Variable) && symbols[ids[0] as int].name@ == name) {
                let w = choose|w: int| 0 <= w < ids.drop_first().len() && ids.drop_first()[w] == id;
                assert(ids[w + 1] == id);
            }
        }
        assert forall|i: int| 0 < i < ids.len() implies ids.drop_first()[i - 1] == #[trigger] ids[i] by {}
    }
}

/// A symbol defined in the current scope is visible from it: it is the last
/// of the symbols of that scope.
pub proof fn law_defined_is_visible(old: TypedScopeBuilder, new: TypedScopeBuilder, name: Seq<char>, kind: SymbolKind, span: Span)
    requires
        old.current.0 < old.scopes@.len(),
        defined(old, new, name, kind, span),
    ensures
        chain_ids(new.scopes@, new.current.0 as int).contains(old.symbols@.len() as usize),
        new.symbols@[old.symbols@.len() as int].name@ == name,
{
    let c = old.current.0 as int;
    let here = new.scopes@[c].symbols@;
    assert(here.last() == old.symbols@.len() as usize);
    let chain = chain_ids(new.scopes@, c);
    assert(chain[here.len() - 1] == here[here.len() - 1]);
}

} // verus!
