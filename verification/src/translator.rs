//! The scopes of the translator, which turns names into slots: each scope
//! keeps a table from names to slots, and a name is resolved to the slot it
//! has in the innermost scope that defines it, with the number of scopes
//! passed on the way (its depth).
use vstd::prelude::*;
use crate::ast::{expression_entries, exprs_view, stmts_view, Argument, Block, Program, Expression, ExpressionKind, ExpressionMap, Identifier, Iterable, LiteralExpressionKind, Statement, StatementKind, StringLiteral, ValueHolder, VariableDescriptor, SArgument, SDescriptor, SExpr, SExprKind, SIdent, SIterable, SLiteralKind, SStmt, SStmtKind, SValue};
use crate::lexer::TokenKind;
use crate::errors::{ErrorKind, LanguageError, LanguageResult, TranslatorError};
use crate::entries::{distinct_keys, find_key, lemma_lookup_at, lookup, map_insert, map_insert_exec, pairs_view};

verus! {

/// A resolved name: its slot in the scope that defines it, how many scopes
/// out that scope is, and the byte range of the definition.
#[derive(Debug)]
pub struct VariableRef {
    pub name: Option<String>,
    pub slot: usize,
    pub depth: usize,
    pub start: usize,
    pub end: usize,
}

/// What kind of construct opened a scope. A call scope names the scope
/// from which the lookup of names goes on.
#[derive(Debug, Clone, Copy, PartialEq, Eq, Structural)]
pub enum ScopeKind {
    Program,
    Call(usize),
    Loop,
    Conditional,
    Function,
    Block,
}

/// A name's entry in a scope: its slot and the byte range of its definition.
#[derive(Debug, Clone, Copy, PartialEq, Eq, Structural)]
pub struct SlotSymbol {
    pub slot: usize,
    pub start: usize,
    pub end: usize,
}

impl View for SlotSymbol {
    type V = SlotSymbol;

    open spec fn view(&self) -> SlotSymbol {
        *self
    }
}

/// The names of a scope with their entries; no name occurs twice.
#[derive(Debug)]
pub struct SymbolTable {
    pub map: Vec<(String, SlotSymbol)>,
}

/// A scope of the translator.
#[derive(Debug)]
pub struct TranslatorScope {
    pub kind: ScopeKind,
    pub slot_index: usize,
    pub symbol_table: SymbolTable,
}

/// The scopes of the translator, the innermost last.
#[derive(Debug)]
pub struct Context {
    pub stack: Vec<TranslatorScope>,
}

/// The mathematical value of a scope.
pub struct SScopeT {
    pub kind: ScopeKind,
    pub slot_index: usize,
    pub names: Seq<(Seq<char>, SlotSymbol)>,
}

impl View for TranslatorScope {
    type V = SScopeT;

    open spec fn view(&self) -> SScopeT {
        SScopeT { kind: self.kind, slot_index: self.slot_index, names: pairs_view(self.symbol_table.map@) }
    }
}

impl View for Context {
    type V = Seq<SScopeT>;

    open spec fn view(&self) -> Seq<SScopeT> {
        self.stack@.map_values(|s: TranslatorScope| s@)
    }
}

/// The mathematical value of a resolved name.
pub struct SVarRef {
    pub name: Option<Seq<char>>,
    pub slot: usize,
    pub depth: usize,
    pub start: usize,
    pub end: usize,
}

impl View for VariableRef {
    type V = SVarRef;

    open spec fn view(&self) -> SVarRef {
        SVarRef {
            name: match &self.name {
                Some(n) => Some(n@),
                None => None,
            },
            slot: self.slot,
            depth: self.depth,
            start: self.start,
            end: self.end,
        }
    }
}

/// Scopes whose tables hold no name twice, and whose call scopes send the
/// lookup on to a scope further out.
pub open spec fn context_wf(c: Seq<SScopeT>) -> bool {
    &&& forall|p: int| 0 <= p < c.len() ==> distinct_keys(#[trigger] c[p].names)
    &&& forall|p: int| 0 <= p < c.len() ==> (#[trigger] c[p].kind matches ScopeKind::Call(idx) ==> idx < p)
}

/// Where the lookup goes after scope `p`: to the scope a call names, or to
/// the next one out.
pub open spec fn next_scope(c: Seq<SScopeT>, p: int) -> int {
    match c[p].kind {
        ScopeKind::Call(idx) => idx as int,
        _ => p - 1,
    }
}

/// The resolution of `name` looking from scope `p` inward-out, with
/// `depth` scopes passed already.
pub open spec fn resolve_from(c: Seq<SScopeT>, name: Seq<char>, p: int, depth: nat) -> Option<SVarRef>
    decreases p + 1,
{
    if p < 0 || p >= c.len() {
        None
    } else {
        match lookup(c[p].names, name) {
            Some(s) => Some(SVarRef { name: None, slot: s.slot, depth: depth as usize, start: s.start, end: s.end }),
            None => if next_scope(c, p) < p {
                resolve_from(c, name, next_scope(c, p), depth + 1)
            } else {
                None
            },
        }
    }
}

/// The resolution of `name` from the innermost scope.
pub open spec fn resolve(c: Seq<SScopeT>, name: Seq<char>) -> Option<SVarRef> {
    resolve_from(c, name, c.len() - 1, 0)
}

/// `c` with `name` defined at `(start, end)` in the innermost scope, in the
/// slot numbered by the size of that scope's table.
pub open spec fn defined_in(c: Seq<SScopeT>, name: Seq<char>, start: usize, end: usize) -> Seq<SScopeT> {
    let top = c.last();
    let s = SlotSymbol { slot: top.names.len() as usize, start, end };
    c.update(c.len() - 1, SScopeT { names: map_insert(top.names, name, s), ..top })
}

impl SymbolTable {
    /// The entry of `name`, if any.
    pub fn get(&self, name: &str) -> (r: Option<SlotSymbol>)
        requires
            distinct_keys(pairs_view(self.map@)),
        ensures
            r == lookup(pairs_view(self.map@), name@),
    {
        let key = name.to_owned();
        match find_key(&self.map, &key) {
            Some(i) => {
                proof {
                    lemma_lookup_at(pairs_view(self.map@), i as int);
                    assert(pairs_view(self.map@)[i as int].0 == name@);
                }
                Some(self.map[i].1)
            },
            None => {
                proof {
                    assert(!crate::entries::has_key(pairs_view(self.map@), name@)) by {
                        if crate::entries::has_key(pairs_view(self.map@), name@) {
                            let j = choose|j: int| 0 <= j < self.map@.len() && pairs_view(self.map@)[j].0 == name@;
                            assert(self.map@[j].0@ != name@);
                        }
                    }
                }
                None
            },
        }
    }

    /// Gives `name` the next slot, the number of names the table holds, with
    /// the byte range `position`; a name already there takes the new entry.
    pub fn set(&mut self, name: &str, position: (usize, usize)) -> (r: usize)
        requires
            distinct_keys(pairs_view(old(self).map@)),
        ensures
            r == old(self).map@.len(),
            pairs_view(final(self).map@) == map_insert(
                pairs_view(old(self).map@),
                name@,
                SlotSymbol { slot: r, start: position.0, end: position.1 },
            ),
            distinct_keys(pairs_view(final(self).map@)),
    {
        let id = self.map.len();
        map_insert_exec(&mut self.map, name.to_owned(), SlotSymbol { slot: id, start: position.0, end: position.1 });
        id
    }
}

impl Context {
    /// The context of a program: one program scope.
    pub fn new() -> (r: Context)
        ensures
            r@.len() == 1,
            r@[0] == (SScopeT { kind: ScopeKind::Program, slot_index: 0, names: Seq::empty() }),
            context_wf(r@),
    {
        let mut stack: Vec<TranslatorScope> = Vec::new();
        stack.push(TranslatorScope { kind: ScopeKind::Program, slot_index: 0, symbol_table: SymbolTable { map: Vec::new() } });
        let r = Context { stack };
        proof {
            assert(pairs_view(r.stack@[0].symbol_table.map@) =~= Seq::<(Seq<char>, SlotSymbol)>::empty());
        }
        r
    }

    /// The slot, depth and definition range of `name`: from the innermost
    /// scope outward, the first scope whose table holds the name; after a
    /// call scope the lookup goes on from the scope that it names.
    pub fn get(&self, name: &str) -> (r: Option<VariableRef>)
        requires
            context_wf(self@),
        ensures
            match resolve(self@, name@) {
                Some(v) => r matches Some(x) && x@ == v,
                None => r is None,
            },
    {
        if self.stack.len() == 0 {
            return None;
        }
        let n = self.stack.len();
        let mut p: usize = n - 1;
        let mut depth: usize = 0;
        loop
            invariant
                n == self@.len(),
                context_wf(self@),
                p < self@.len(),
                depth < self@.len() - p,
                resolve(self@, name@) == resolve_from(self@, name@, p as int, depth as nat),
            decreases p,
        {
            let scope = &self.stack[p];
            proof {
                assert(self@[p as int] == scope@);
                assert(distinct_keys(self@[p as int].names));
            }
            match scope.symbol_table.get(name) {
                Some(s) => {
                    return Some(VariableRef { name: None, slot: s.slot, depth, start: s.start, end: s.end });
                },
                None => {},
            }
            let next = match scope.kind {
                ScopeKind::Call(idx) => idx,
                _ => {
                    if p == 0 {
                        proof {
                            assert(resolve_from(self@, name@, -1, depth as nat + 1) is None);
                        }
                        return None;
                    }
                    p - 1
                },
            };
            proof {
                assert(next_scope(self@, p as int) == next as int);
            }
            p = next;
            depth = depth + 1;
        }
    }

    /// Defines `name` at the byte range `position` in the innermost scope,
    /// in the slot numbered by the size of its table, and returns a
    /// reference to it at depth 0.
    pub fn set_with_position(&mut self, name: &str, position: (usize, usize)) -> (r: VariableRef)
        requires
            context_wf(old(self)@),
            old(self)@.len() > 0,
        ensures
            context_wf(final(self)@),
            final(self)@ == defined_in(old(self)@, name@, position.0, position.1),
            r@ == (SVarRef {
                name: Some(name@),
                slot: old(self)@.last().names.len() as usize,
                depth: 0,
                start: position.0,
                end: position.1,
            }),
    {
        let last = self.stack.len() - 1;
        let mut scope = self.stack.remove(last);
        proof {
            assert(old(self)@[last as int] == scope@);
        }
        let id = scope.symbol_table.set(name, position);
        let ghost s = scope@;
        self.stack.push(scope);
        proof {
            assert(self@ =~= defined_in(old(self)@, name@, position.0, position.1)) by {
                assert forall|i: int| 0 <= i < self@.len() implies self@[i] == defined_in(old(self)@, name@, position.0, position.1)[i] by {
                    if i < last {
                        assert(self.stack@[i] == old(self).stack@[i]);
                    }
                }
            }
            assert forall|p: int| 0 <= p < self@.len() implies distinct_keys(#[trigger] self@[p].names) by {
                if p < last {
                    assert(self.stack@[p] == old(self).stack@[p]);
                }
            }
            assert forall|p: int| 0 <= p < self@.len() implies (#[trigger] self@[p].kind matches ScopeKind::Call(idx) ==> idx < p) by {
                if p < last {
                    assert(self.stack@[p] == old(self).stack@[p]);
                }
            }
        }
        VariableRef { name: Some(name.to_owned()), slot: id, depth: 0, start: position.0, end: position.1 }
    }

    /// Defines `name` without a source range.
    pub fn set(&mut self, name: &str) -> (r: VariableRef)
        requires
            context_wf(old(self)@),
            old(self)@.len() > 0,
        ensures
            context_wf(final(self)@),
            final(self)@ == defined_in(old(self)@, name@, 0, 0),
            r@ == (SVarRef { name: Some(name@), slot: old(self)@.last().names.len() as usize, depth: 0, start: 0, end: 0 }),
    {
        self.set_with_position(name, (0, 0))
    }

    /// Opens a scope of kind `kind` with an empty table.
    pub fn enter_scope(&mut self, kind: ScopeKind)
        requires
            context_wf(old(self)@),
            kind matches ScopeKind::Call(idx) ==> idx < old(self)@.len(),
        ensures
            context_wf(final(self)@),
            final(self)@ == old(self)@.push(SScopeT { kind, slot_index: 0, names: Seq::empty() }),
    {
        self.stack.push(TranslatorScope { kind, slot_index: 0, symbol_table: SymbolTable { map: Vec::new() } });
        proof {
            assert(pairs_view(self.stack@.last().symbol_table.map@) =~= Seq::<(Seq<char>, SlotSymbol)>::empty());
            assert(self@ =~= old(self)@.push(SScopeT { kind, slot_index: 0, names: Seq::empty() }));
        }
    }

    /// Closes the innermost scope, if there is one.
    pub fn exit_scope(&mut self)
        requires
            context_wf(old(self)@),
        ensures
            context_wf(final(self)@),
            final(self)@ == if old(self)@.len() > 0 { old(self)@.drop_last() } else { old(self)@ },
    {
        self.stack.pop();
        proof {
            if old(self)@.len() > 0 {
                assert(self@ =~= old(self)@.drop_last());
            }
        }
    }
}

/// A name just defined in the innermost scope resolves to that scope, at
/// depth 0, in the slot it was given.
pub proof fn law_defined_name_resolves(c: Seq<SScopeT>, name: Seq<char>, start: usize, end: usize)
    requires
        context_wf(c),
        c.len() > 0,
    ensures
        ({
            let d = defined_in(c, name, start, end);
            resolve(d, name) == Some(SVarRef { name: None, slot: c.last().names.len() as usize, depth: 0, start, end })
        }),
{
    let d = defined_in(c, name, start, end);
    let top = c.last();
    let s = SlotSymbol { slot: top.names.len() as usize, start, end };
    let m = map_insert(top.names, name, s);
    assert(d[d.len() - 1].names == m);
    crate::entries::lemma_map_insert_distinct(top.names, name, s);
    if crate::entries::has_key(top.names, name) {
        let i = choose|i: int| 0 <= i < top.names.len() && top.names[i].0 == name;
        assert(m[i] == (name, s));
        lemma_lookup_at(m, i);
    } else {
        assert(m[top.names.len() as int] == (name, s));
        lemma_lookup_at(m, top.names.len() as int);
    }
}


// ---------------------------------------------------------------------
// Translation of the syntax tree: names become slots.

/// How a translation ends: with a value, with an error, or where the
/// translator panics.
pub enum TrOut<T> {
    Done(T),
    Fail(STrErr),
    Panic,
}

/// The view of a translator error.
pub enum STrErr {
    UnknownVariable(Seq<char>),
    Todo(Seq<char>),
}

/// An expression whose names are resolved.
pub struct SIRExpr {
    pub kind: SIRKind,
    pub start: nat,
    pub end: nat,
}

/// The kinds of expressions whose names are resolved. An operation on two
/// literals is kept as such for the stage that computes on values.
pub enum SIRKind {
    Literal(SValue),
    Object(Seq<(Seq<char>, SExpr)>),
    Variable(SVarRef),
    Array(Seq<SIRExpr>),
    Function(Box<SIRFunction>),
    Unary(Box<SIRExpr>, TokenKind),
    Member(Box<SIRExpr>, Box<SIRExpr>),
    Binary(Box<SIRExpr>, TokenKind, Box<SIRExpr>),
    Constant(SValue, TokenKind, SValue),
    Relational(Box<SIRExpr>, TokenKind, Box<SIRExpr>),
    Logical(Box<SIRExpr>, TokenKind, Box<SIRExpr>),
    Equality(Box<SIRExpr>, TokenKind, Box<SIRExpr>),
    Call(Box<SIRExpr>, Seq<SIRExpr>),
    CallUntranslated(Box<SExpr>, Seq<SIRExpr>),
    Assignment(Box<SIRExpr>, TokenKind, Box<SIRExpr>),
}

/// A function whose names are resolved: the slot of its name, those of its
/// parameters, and its body.
pub struct SIRFunction {
    pub var_ref: SVarRef,
    pub arguments: Seq<SVarRef>,
    pub statements: Seq<SIRStmt>,
}

/// A statement whose names are resolved.
pub struct SIRStmt {
    pub kind: SIRStmtKind,
    pub start: nat,
    pub end: nat,
}

/// A method of a class whose names are resolved.
pub struct SIRMethod {
    pub name: Seq<char>,
    pub arguments: Seq<SVarRef>,
    pub statements: Seq<SIRStmt>,
    pub start: nat,
    pub end: nat,
}

/// The kinds of statements whose names are resolved; a statement that has
/// no names to resolve is kept as it is.
pub enum SIRStmtKind {
    Expression(SIRExpr),
    If(SIRExpr, Seq<SIRStmt>, nat, nat, Option<Box<SIRStmt>>),
    Function(SIRFunction),
    Block(Seq<SIRStmt>, nat, nat),
    For(SVarRef, Option<SIRExpr>, Option<SIRExpr>, Seq<SIRStmt>),
    While(SIRExpr, Seq<SIRStmt>),
    Return(SIRExpr),
    Import(Seq<SVarRef>, SIdent),
    Export(Box<SIRStmt>),
    Class(SVarRef, Seq<SIRMethod>, Seq<SStmt>),
    Definition(SVarRef, SIRExpr),
    Unchanged(SStmtKind),
}

/// Defining `name` without a source range: the reference and the context after.
pub open spec fn tr_set(c: Seq<SScopeT>, name: Seq<char>) -> (SVarRef, Seq<SScopeT>) {
    (
        SVarRef { name: Some(name), slot: c.last().names.len() as usize, depth: 0, start: 0, end: 0 },
        defined_in(c, name, 0, 0),
    )
}

/// The context with a scope of kind `k` opened.
pub open spec fn tr_enter(c: Seq<SScopeT>, k: ScopeKind) -> Seq<SScopeT> {
    c.push(SScopeT { kind: k, slot_index: 0, names: Seq::empty() })
}

/// The context with its innermost scope closed.
pub open spec fn tr_exit(c: Seq<SScopeT>) -> Seq<SScopeT> {
    if c.len() > 0 { c.drop_last() } else { c }
}

/// The innermost object of a chain of member accesses.
pub open spec fn innermost(e: SExpr) -> SExpr
    decreases e,
{
    match e.kind {
        SExprKind::Member(object, _) => innermost(*object),
        _ => e,
    }
}

/// The names of the first `n` parameters, defined in order.
pub open spec fn tr_params(c: Seq<SScopeT>, args: Seq<SArgument>, n: int) -> (Seq<SVarRef>, Seq<SScopeT>)
    decreases n,
{
    if n <= 0 {
        (Seq::empty(), c)
    } else {
        let (refs, c1) = tr_params(c, args, n - 1);
        let (r, c2) = tr_set(c1, args[n - 1].variable.value);
        (refs.push(r), c2)
    }
}

/// The names of the first `n` imported names, defined in order.
pub open spec fn tr_idents(c: Seq<SScopeT>, ids: Seq<SIdent>, n: int) -> (Seq<SVarRef>, Seq<SScopeT>)
    decreases n,
{
    if n <= 0 {
        (Seq::empty(), c)
    } else {
        let (refs, c1) = tr_idents(c, ids, n - 1);
        let (r, c2) = tr_set(c1, ids[n - 1].value);
        (refs.push(r), c2)
    }
}

/// A function named `name` with parameters `args` and body `body`: its name
/// is defined where it stands and again inside its own scope, then its
/// parameters, then its body is translated; the scope is closed again.
pub open spec fn tr_function(c: Seq<SScopeT>, name: Seq<char>, args: Seq<SArgument>, body: Seq<SStmt>) -> (TrOut<SIRFunction>, Seq<SScopeT>)
    decreases body, 1int,
{
    if c.len() == 0 {
        (TrOut::Panic, c)
    } else {
        let (var_ref, c1) = tr_set(c, name);
        let c2 = tr_set(tr_enter(c1, ScopeKind::Function), name).1;
        let (refs, c3) = tr_params(c2, args, args.len() as int);
        match tr_stmts(c3, body) {
            (TrOut::Done(ss), c4) => (TrOut::Done(SIRFunction { var_ref, arguments: refs, statements: ss }), tr_exit(c4)),
            (TrOut::Fail(e), c4) => (TrOut::Fail(e), c4),
            (TrOut::Panic, c4) => (TrOut::Panic, c4),
        }
    }
}

/// Statements, in order, each in the context the one before left.
pub open spec fn tr_stmts(c: Seq<SScopeT>, ss: Seq<SStmt>) -> (TrOut<Seq<SIRStmt>>, Seq<SScopeT>)
    decreases ss, 0int,
{
    if ss.len() == 0 {
        (TrOut::Done(Seq::empty()), c)
    } else {
        match tr_stmts(c, ss.drop_last()) {
            (TrOut::Done(done), c1) => match tr_stmt(c1, ss.last().kind, ss.last().start, ss.last().end) {
                (TrOut::Done(s), c2) => (TrOut::Done(done.push(s)), c2),
                (TrOut::Fail(e), c2) => (TrOut::Fail(e), c2),
                (TrOut::Panic, c2) => (TrOut::Panic, c2),
            },
            other => other,
        }
    }
}


/// Whether a callee that cannot be translated is kept as it was written, to
/// be loaded by name when the program runs: a name, a literal, or a member
/// access on such callees. Any other callee that cannot be translated is not
/// kept, and its error is reported.
pub open spec fn keepable(e: SExpr) -> bool
    decreases e,
{
    match e.kind {
        SExprKind::Literal(SLiteralKind::Literal, _) => true,
        SExprKind::Literal(SLiteralKind::Variable, _) => true,
        SExprKind::Member(l, r) => keepable(*l) && keepable(*r),
        _ => false,
    }
}

/// Whether a translated expression is a plain literal.
pub open spec fn ir_literal(e: SIRExpr) -> bool {
    e.kind is Literal
}

/// Whether an operator is one of the arithmetic ones.
pub open spec fn arithmetic(op: TokenKind) -> bool {
    op == TokenKind::Plus || op == TokenKind::Minus || op == TokenKind::Asterisk || op == TokenKind::Slash
        || op == TokenKind::Percent
}

/// The message of the error for an assignment to something other than a
/// name or a property of one.
pub open spec fn assignment_message() -> Seq<char> {
    "Cannot access property on type other than a variable"@
}

/// An expression translated in context `c`: names resolved to slots, the
/// functions it holds translated, and the context after.
pub open spec fn tr_expr(c: Seq<SScopeT>, e: SExpr) -> (TrOut<SIRExpr>, Seq<SScopeT>)
    decreases e, 0int,
{
    match e.kind {
        SExprKind::Assignment(l, op, r) => if !(innermost(*l).kind matches SExprKind::Literal(_, SValue::String(_))) {
            (TrOut::Fail(STrErr::Todo(assignment_message())), c)
        } else {
            match tr_expr(c, *l) {
                (TrOut::Done(a), c1) => match tr_expr(c1, *r) {
                    (TrOut::Done(b), c2) => (TrOut::Done(SIRExpr { kind: SIRKind::Assignment(Box::new(a), op, Box::new(b)), start: e.start, end: e.end }), c2),
                    (TrOut::Fail(x), c2) => (TrOut::Fail(x), c2),
                    (TrOut::Panic, c2) => (TrOut::Panic, c2),
                },
                (TrOut::Fail(x), c1) => (TrOut::Fail(x), c1),
                (TrOut::Panic, c1) => (TrOut::Panic, c1),
            }
        },
        SExprKind::Member(o, p) => match tr_expr(c, *o) {
            (TrOut::Done(a), c1) => match tr_expr(c1, *p) {
                (TrOut::Done(b), c2) => (TrOut::Done(SIRExpr { kind: SIRKind::Member(Box::new(a), Box::new(b)), start: e.start, end: e.end }), c2),
                (TrOut::Fail(x), c2) => (TrOut::Fail(x), c2),
                (TrOut::Panic, c2) => (TrOut::Panic, c2),
            },
            (TrOut::Fail(x), c1) => (TrOut::Fail(x), c1),
            (TrOut::Panic, c1) => (TrOut::Panic, c1),
        },
        SExprKind::Literal(SLiteralKind::Variable, v) => match v {
            SValue::String(name) => match resolve(c, name) {
                Some(r) => (TrOut::Done(SIRExpr { kind: SIRKind::Variable(r), start: e.start, end: e.end }), c),
                None => (TrOut::Fail(STrErr::UnknownVariable(name)), c),
            },
            _ => (TrOut::Panic, c),
        },
        SExprKind::Literal(SLiteralKind::Function(k), _) => match *k {
            SStmtKind::Function(name, args, block, _) => match tr_function(c, name.value, args, block.statements) {
                (TrOut::Done(f), c1) => (TrOut::Done(SIRExpr { kind: SIRKind::Function(Box::new(f)), start: e.start, end: e.end }), c1),
                (TrOut::Fail(x), c1) => (TrOut::Fail(x), c1),
                (TrOut::Panic, c1) => (TrOut::Panic, c1),
            },
            _ => (TrOut::Panic, c),
        },
        SExprKind::Literal(SLiteralKind::Array(values), _) => match tr_exprs(c, values) {
            (TrOut::Done(vs), c1) => (TrOut::Done(SIRExpr { kind: SIRKind::Array(vs), start: e.start, end: e.end }), c1),
            (_, c1) => (TrOut::Panic, c1),
        },
        SExprKind::Literal(SLiteralKind::Object(entries), _) => (TrOut::Done(SIRExpr { kind: SIRKind::Object(entries), start: e.start, end: e.end }), c),
        SExprKind::Literal(SLiteralKind::Literal, v) => (TrOut::Done(SIRExpr { kind: SIRKind::Literal(v), start: e.start, end: e.end }), c),
        SExprKind::Binary(l, op, r) => match tr_expr(c, *l) {
            (TrOut::Done(a), c1) => match tr_expr(c1, *r) {
                (TrOut::Done(b), c2) => if ir_literal(a) && ir_literal(b) {
                    if arithmetic(op) {
                        (TrOut::Done(SIRExpr { kind: SIRKind::Constant(a.kind->Literal_0, op, b.kind->Literal_0), start: a.start, end: b.end }), c2)
                    } else {
                        (TrOut::Panic, c2)
                    }
                } else {
                    (TrOut::Done(SIRExpr { kind: SIRKind::Binary(Box::new(a), op, Box::new(b)), start: e.start, end: e.end }), c2)
                },
                (TrOut::Fail(x), c2) => (TrOut::Fail(x), c2),
                (TrOut::Panic, c2) => (TrOut::Panic, c2),
            },
            (TrOut::Fail(x), c1) => (TrOut::Fail(x), c1),
            (TrOut::Panic, c1) => (TrOut::Panic, c1),
        },
        SExprKind::Logical(l, op, r) => match tr_expr(c, *l) {
            (TrOut::Done(a), c1) => match tr_expr(c1, *r) {
                (TrOut::Done(b), c2) => (TrOut::Done(SIRExpr { kind: SIRKind::Logical(Box::new(a), op, Box::new(b)), start: e.start, end: e.end }), c2),
                (TrOut::Fail(x), c2) => (TrOut::Fail(x), c2),
                (TrOut::Panic, c2) => (TrOut::Panic, c2),
            },
            (TrOut::Fail(x), c1) => (TrOut::Fail(x), c1),
            (TrOut::Panic, c1) => (TrOut::Panic, c1),
        },
        SExprKind::Equality(l, op, r) => match tr_expr(c, *l) {
            (TrOut::Done(a), c1) => match tr_expr(c1, *r) {
                (TrOut::Done(b), c2) => (TrOut::Done(SIRExpr { kind: SIRKind::Equality(Box::new(a), op, Box::new(b)), start: e.start, end: e.end }), c2),
                (TrOut::Fail(x), c2) => (TrOut::Fail(x), c2),
                (TrOut::Panic, c2) => (TrOut::Panic, c2),
            },
            (TrOut::Fail(x), c1) => (TrOut::Fail(x), c1),
            (TrOut::Panic, c1) => (TrOut::Panic, c1),
        },
        SExprKind::Relational(l, op, r) => match tr_expr(c, *l) {
            (TrOut::Done(a), c1) => match tr_expr(c1, *r) {
                (TrOut::Done(b), c2) => (TrOut::Done(SIRExpr { kind: SIRKind::Relational(Box::new(a), op, Box::new(b)), start: e.start, end: e.end }), c2),
                (TrOut::Fail(x), c2) => (TrOut::Fail(x), c2),
                (TrOut::Panic, c2) => (TrOut::Panic, c2),
            },
            (TrOut::Fail(x), c1) => (TrOut::Fail(x), c1),
            (TrOut::Panic, c1) => (TrOut::Panic, c1),
        },
        SExprKind::Unary(l, op) => match tr_expr(c, *l) {
            (TrOut::Done(a), c1) => (TrOut::Done(SIRExpr { kind: SIRKind::Unary(Box::new(a), op), start: e.start, end: e.end }), c1),
            (TrOut::Fail(x), c1) => (TrOut::Fail(x), c1),
            (TrOut::Panic, c1) => (TrOut::Panic, c1),
        },
        SExprKind::Call(callee, args) => match tr_expr(c, *callee) {
            (TrOut::Done(a), c1) => match tr_exprs(c1, args) {
                (TrOut::Done(bs), c2) => (TrOut::Done(SIRExpr { kind: SIRKind::Call(Box::new(a), bs), start: e.start, end: e.end }), c2),
                (TrOut::Fail(x), c2) => (TrOut::Fail(x), c2),
                (TrOut::Panic, c2) => (TrOut::Panic, c2),
            },
            (TrOut::Fail(y), c1) => if keepable(*callee) {
                match tr_exprs(c1, args) {
                    (TrOut::Done(bs), c2) => (TrOut::Done(SIRExpr { kind: SIRKind::CallUntranslated(callee, bs), start: e.start, end: e.end }), c2),
                    (TrOut::Fail(x), c2) => (TrOut::Fail(x), c2),
                    (TrOut::Panic, c2) => (TrOut::Panic, c2),
                }
            } else {
                (TrOut::Fail(y), c1)
            },
            (TrOut::Panic, c1) => (TrOut::Panic, c1),
        },
    }
}

/// Expressions, in order, each in the context the one before left.
pub open spec fn tr_exprs(c: Seq<SScopeT>, es: Seq<SExpr>) -> (TrOut<Seq<SIRExpr>>, Seq<SScopeT>)
    decreases es, 0int,
{
    if es.len() == 0 {
        (TrOut::Done(Seq::empty()), c)
    } else {
        match tr_exprs(c, es.drop_last()) {
            (TrOut::Done(done), c1) => match tr_expr(c1, es.last()) {
                (TrOut::Done(x), c2) => (TrOut::Done(done.push(x)), c2),
                (TrOut::Fail(x), c2) => (TrOut::Fail(x), c2),
                (TrOut::Panic, c2) => (TrOut::Panic, c2),
            },
            other => other,
        }
    }
}

/// The methods of a class named `class`, in order: each opens a scope in
/// which its own name is defined (for a constructor, `0` and `self`), then
/// its parameters, then its body is translated.
pub open spec fn tr_methods(c: Seq<SScopeT>, class: Seq<char>, ms: Seq<SStmt>) -> (TrOut<Seq<SIRMethod>>, Seq<SScopeT>)
    decreases ms, 0int,
{
    if ms.len() == 0 {
        (TrOut::Done(Seq::empty()), c)
    } else {
        match tr_methods(c, class, ms.drop_last()) {
            (TrOut::Done(done), c1) => {
                let m = ms.last();
                match m.kind {
                    SStmtKind::Function(name, args, block, _) => {
                        let c2 = tr_enter(c1, ScopeKind::Function);
                        let c3 = if name.value == class {
                            tr_set(tr_set(c2, "0"@).1, "self"@).1
                        } else {
                            tr_set(c2, name.value).1
                        };
                        let (refs, c4) = tr_params(c3, args, args.len() as int);
                        match tr_stmts(c4, block.statements) {
                            (TrOut::Done(ss), c5) => (
                                TrOut::Done(done.push(SIRMethod { name: name.value, arguments: refs, statements: ss, start: m.start, end: m.end })),
                                tr_exit(c5),
                            ),
                            (TrOut::Fail(x), c5) => (TrOut::Fail(x), c5),
                            (TrOut::Panic, c5) => (TrOut::Panic, c5),
                        }
                    },
                    _ => (TrOut::Panic, c1),
                }
            },
            other => other,
        }
    }
}

/// A statement of kind `kind` spanning `start..end` translated in context
/// `c`, and the context after.
pub open spec fn tr_stmt(c: Seq<SScopeT>, kind: SStmtKind, start: nat, end: nat) -> (TrOut<SIRStmt>, Seq<SScopeT>)
    decreases kind, 0int,
{
    let done = |k: SIRStmtKind| SIRStmt { kind: k, start, end };
    match kind {
        SStmtKind::Expression(e) => match tr_expr(c, e) {
            (TrOut::Done(x), c1) => (TrOut::Done(done(SIRStmtKind::Expression(x))), c1),
            (TrOut::Fail(x), c1) => (TrOut::Fail(x), c1),
            (TrOut::Panic, c1) => (TrOut::Panic, c1),
        },
        SStmtKind::If(cond, block, alternate) => match tr_expr(c, cond) {
            (TrOut::Done(x), c1) => match tr_stmts(tr_enter(c1, ScopeKind::Conditional), block.statements) {
                (TrOut::Done(ss), c2) => match alternate {
                    Some(a) => match tr_stmt(tr_exit(c2), a.kind, a.start, a.end) {
                        (TrOut::Done(y), c3) => (TrOut::Done(done(SIRStmtKind::If(x, ss, block.start, block.end, Some(Box::new(y))))), c3),
                        (TrOut::Fail(z), c3) => (TrOut::Fail(z), c3),
                        (TrOut::Panic, c3) => (TrOut::Panic, c3),
                    },
                    None => (TrOut::Done(done(SIRStmtKind::If(x, ss, block.start, block.end, None))), tr_exit(c2)),
                },
                (TrOut::Fail(z), c2) => (TrOut::Fail(z), c2),
                (TrOut::Panic, c2) => (TrOut::Panic, c2),
            },
            (TrOut::Fail(z), c1) => (TrOut::Fail(z), c1),
            (TrOut::Panic, c1) => (TrOut::Panic, c1),
        },
        SStmtKind::Function(name, args, block, _) => match tr_function(c, name.value, args, block.statements) {
            (TrOut::Done(f), c1) => (TrOut::Done(done(SIRStmtKind::Function(f))), c1),
            (TrOut::Fail(z), c1) => (TrOut::Fail(z), c1),
            (TrOut::Panic, c1) => (TrOut::Panic, c1),
        },
        SStmtKind::Block(block) => match tr_stmts(tr_enter(c, ScopeKind::Block), block.statements) {
            (TrOut::Done(ss), c1) => (TrOut::Done(done(SIRStmtKind::Block(ss, block.start, block.end))), tr_exit(c1)),
            (TrOut::Fail(z), c1) => (TrOut::Fail(z), c1),
            (TrOut::Panic, c1) => (TrOut::Panic, c1),
        },
        SStmtKind::For(variable, SIterable::Range(left, right), statements) => {
            let (ol, c1) = match left {
                Some(l) => match tr_expr(c, l) {
                    (TrOut::Done(x), c1) => (TrOut::Done(Some(x)), c1),
                    (TrOut::Fail(z), c1) => (TrOut::Fail(z), c1),
                    (TrOut::Panic, c1) => (TrOut::Panic, c1),
                },
                None => (TrOut::Done(None), c),
            };
            match ol {
                TrOut::Done(lx) => {
                    let (or, c2) = match right {
                        Some(r) => match tr_expr(c1, r) {
                            (TrOut::Done(x), c2) => (TrOut::Done(Some(x)), c2),
                            (TrOut::Fail(z), c2) => (TrOut::Fail(z), c2),
                            (TrOut::Panic, c2) => (TrOut::Panic, c2),
                        },
                        None => (TrOut::Done(None), c1),
                    };
                    match or {
                        TrOut::Done(rx) => {
                            let c3 = tr_enter(c2, ScopeKind::Loop);
                            let (v, c4) = tr_set(c3, variable.value);
                            match tr_stmts(c4, statements) {
                                (TrOut::Done(ss), c5) => (TrOut::Done(done(SIRStmtKind::For(v, lx, rx, ss))), tr_exit(c5)),
                                (TrOut::Fail(z), c5) => (TrOut::Fail(z), c5),
                                (TrOut::Panic, c5) => (TrOut::Panic, c5),
                            }
                        },
                        TrOut::Fail(z) => (TrOut::Fail(z), c2),
                        TrOut::Panic => (TrOut::Panic, c2),
                    }
                },
                TrOut::Fail(z) => (TrOut::Fail(z), c1),
                TrOut::Panic => (TrOut::Panic, c1),
            }
        },
        SStmtKind::While(cond, statements) => match tr_expr(tr_enter(c, ScopeKind::Loop), cond) {
            (TrOut::Done(x), c1) => match tr_stmts(c1, statements) {
                (TrOut::Done(ss), c2) => (TrOut::Done(done(SIRStmtKind::While(x, ss))), tr_exit(c2)),
                (TrOut::Fail(z), c2) => (TrOut::Fail(z), c2),
                (TrOut::Panic, c2) => (TrOut::Panic, c2),
            },
            (TrOut::Fail(z), c1) => (TrOut::Fail(z), c1),
            (TrOut::Panic, c1) => (TrOut::Panic, c1),
        },
        SStmtKind::Return(e) => match tr_expr(c, e) {
            (TrOut::Done(x), c1) => (TrOut::Done(done(SIRStmtKind::Return(x))), c1),
            (TrOut::Fail(z), c1) => (TrOut::Fail(z), c1),
            (TrOut::Panic, c1) => (TrOut::Panic, c1),
        },
        SStmtKind::Import(specifiers, source) => if c.len() == 0 && specifiers.len() > 0 {
            (TrOut::Panic, c)
        } else {
            let (refs, c1) = tr_idents(c, specifiers, specifiers.len() as int);
            (TrOut::Done(done(SIRStmtKind::Import(refs, source))), c1)
        },
        SStmtKind::Export(declaration) => match tr_stmt(c, declaration.kind, declaration.start, declaration.end) {
            (TrOut::Done(x), c1) => (TrOut::Done(done(SIRStmtKind::Export(Box::new(x)))), c1),
            (TrOut::Fail(z), c1) => (TrOut::Fail(z), c1),
            (TrOut::Panic, c1) => (TrOut::Panic, c1),
        },
        SStmtKind::Class(variable, methods, fields, _, _) => if c.len() == 0 {
            (TrOut::Panic, c)
        } else {
            let (v, c1) = tr_set(c, variable.value);
            match tr_methods(c1, variable.value, methods) {
                (TrOut::Done(ms), c2) => (TrOut::Done(done(SIRStmtKind::Class(v, ms, fields))), c2),
                (TrOut::Fail(z), c2) => (TrOut::Fail(z), c2),
                (TrOut::Panic, c2) => (TrOut::Panic, c2),
            }
        },
        SStmtKind::VariableDefinition(SDescriptor::Identifier(id), e, _) => if c.len() == 0 {
            (TrOut::Panic, c)
        } else {
            let (v, c1) = tr_set(c, id.value);
            match tr_expr(c1, e) {
                (TrOut::Done(x), c2) => (TrOut::Done(done(SIRStmtKind::Definition(v, x))), c2),
                (TrOut::Fail(z), c2) => (TrOut::Fail(z), c2),
                (TrOut::Panic, c2) => (TrOut::Panic, c2),
            }
        },
        _ => (TrOut::Done(done(SIRStmtKind::Unchanged(kind))), c),
    }
}


/// An expression whose names are resolved.
#[derive(Debug)]
pub struct IRExpression {
    pub kind: IRExpressionKind,
    pub start: usize,
    pub end: usize,
}

/// The kinds of expressions whose names are resolved.
#[derive(Debug)]
pub enum IRExpressionKind {
    Literal(ValueHolder),
    Object(ExpressionMap),
    Variable(VariableRef),
    Array(Vec<IRExpression>),
    Function(Box<IRFunction>),
    Unary(Box<IRExpression>, TokenKind),
    Member(Box<IRExpression>, Box<IRExpression>),
    Binary(Box<IRExpression>, TokenKind, Box<IRExpression>),
    /// An arithmetic operation on two literals, for the stage that computes on values.
    Constant(ValueHolder, TokenKind, ValueHolder),
    Relational(Box<IRExpression>, TokenKind, Box<IRExpression>),
    Logical(Box<IRExpression>, TokenKind, Box<IRExpression>),
    Equality(Box<IRExpression>, TokenKind, Box<IRExpression>),
    Call(Box<IRExpression>, Vec<IRExpression>),
    /// A call whose callee could not be translated, kept as it was written.
    CallUntranslated(Box<Expression>, Vec<IRExpression>),
    Assignment(Box<IRExpression>, TokenKind, Box<IRExpression>),
}

/// A function whose names are resolved.
#[derive(Debug)]
pub struct IRFunction {
    pub var_ref: VariableRef,
    pub arguments: Vec<VariableRef>,
    pub statements: Vec<IRStatement>,
}

/// A method of a class whose names are resolved.
#[derive(Debug)]
pub struct IRMethod {
    pub name: String,
    pub arguments: Vec<VariableRef>,
    pub statements: Vec<IRStatement>,
    pub start: usize,
    pub end: usize,
}

/// A statement whose names are resolved.
#[derive(Debug)]
pub struct IRStatement {
    pub kind: IRStatementKind,
    pub start: usize,
    pub end: usize,
}

/// The kinds of statements whose names are resolved.
#[derive(Debug)]
pub enum IRStatementKind {
    Expression(IRExpression),
    If(IRExpression, Vec<IRStatement>, usize, usize, Option<Box<IRStatement>>),
    Function(IRFunction),
    Block(Vec<IRStatement>, usize, usize),
    For(VariableRef, Option<IRExpression>, Option<IRExpression>, Vec<IRStatement>),
    While(IRExpression, Vec<IRStatement>),
    Return(IRExpression),
    Import(Vec<VariableRef>, StringLiteral),
    Export(Box<IRStatement>),
    Class(VariableRef, Vec<IRMethod>, Vec<Statement>),
    Definition(VariableRef, IRExpression),
    Unchanged(StatementKind),
}

/// The views of resolved names.
pub open spec fn refs_view(v: Seq<VariableRef>) -> Seq<SVarRef> {
    v.map_values(|r: VariableRef| r@)
}

impl IRExpression {
    /// The mathematical value of this expression.
    pub open spec fn model(&self) -> SIRExpr
        decreases self,
    {
        SIRExpr { kind: self.kind.model(), start: self.start as nat, end: self.end as nat }
    }
}

impl IRExpressionKind {
    /// The mathematical value of this kind.
    pub open spec fn model(&self) -> SIRKind
        decreases self,
    {
        match self {
            IRExpressionKind::Literal(v) => SIRKind::Literal(v@),
            IRExpressionKind::Object(m) => SIRKind::Object(expression_entries(*m)),
            IRExpressionKind::Variable(r) => SIRKind::Variable(r@),
            IRExpressionKind::Array(vs) => SIRKind::Array(
                Seq::new(vs@.len(), |i: int| if 0 <= i < vs@.len() { vs@[i].model() } else { dummy_ir() }),
            ),
            IRExpressionKind::Function(f) => SIRKind::Function(Box::new((**f).model())),
            IRExpressionKind::Unary(l, op) => SIRKind::Unary(Box::new((**l).model()), *op),
            IRExpressionKind::Member(l, r) => SIRKind::Member(Box::new((**l).model()), Box::new((**r).model())),
            IRExpressionKind::Binary(l, op, r) => SIRKind::Binary(Box::new((**l).model()), *op, Box::new((**r).model())),
            IRExpressionKind::Constant(a, op, b) => SIRKind::Constant(a@, *op, b@),
            IRExpressionKind::Relational(l, op, r) => SIRKind::Relational(Box::new((**l).model()), *op, Box::new((**r).model())),
            IRExpressionKind::Logical(l, op, r) => SIRKind::Logical(Box::new((**l).model()), *op, Box::new((**r).model())),
            IRExpressionKind::Equality(l, op, r) => SIRKind::Equality(Box::new((**l).model()), *op, Box::new((**r).model())),
            IRExpressionKind::Call(f, args) => SIRKind::Call(
                Box::new((**f).model()),
                Seq::new(args@.len(), |i: int| if 0 <= i < args@.len() { args@[i].model() } else { dummy_ir() }),
            ),
            IRExpressionKind::CallUntranslated(f, args) => SIRKind::CallUntranslated(
                Box::new((**f)@),
                Seq::new(args@.len(), |i: int| if 0 <= i < args@.len() { args@[i].model() } else { dummy_ir() }),
            ),
            IRExpressionKind::Assignment(l, op, r) => SIRKind::Assignment(Box::new((**l).model()), *op, Box::new((**r).model())),
        }
    }
}

/// Placeholder outside the index range of a sequence.
pub open spec fn dummy_ir() -> SIRExpr {
    SIRExpr { kind: SIRKind::Literal(SValue::Void), start: 0, end: 0 }
}

/// Placeholder outside the index range of a sequence.
pub open spec fn dummy_ir_stmt() -> SIRStmt {
    SIRStmt { kind: SIRStmtKind::Unchanged(SStmtKind::Break), start: 0, end: 0 }
}

impl IRFunction {
    /// The mathematical value of this function.
    pub open spec fn model(&self) -> SIRFunction
        decreases self,
    {
        SIRFunction {
            var_ref: self.var_ref@,
            arguments: refs_view(self.arguments@),
            statements: Seq::new(
                self.statements@.len(),
                |i: int| if 0 <= i < self.statements@.len() { self.statements@[i].model() } else { dummy_ir_stmt() },
            ),
        }
    }
}

impl IRMethod {
    /// The mathematical value of this method.
    pub open spec fn model(&self) -> SIRMethod
        decreases self,
    {
        SIRMethod {
            name: self.name@,
            arguments: refs_view(self.arguments@),
            statements: Seq::new(
                self.statements@.len(),
                |i: int| if 0 <= i < self.statements@.len() { self.statements@[i].model() } else { dummy_ir_stmt() },
            ),
            start: self.start as nat,
            end: self.end as nat,
        }
    }
}

impl IRStatement {
    /// The mathematical value of this statement.
    pub open spec fn model(&self) -> SIRStmt
        decreases self,
    {
        SIRStmt { kind: self.kind.model(), start: self.start as nat, end: self.end as nat }
    }
}

/// The views of resolved statements.
pub open spec fn ir_stmts_view(v: Seq<IRStatement>) -> Seq<SIRStmt> {
    Seq::new(v.len(), |i: int| v[i].model())
}

/// The views of resolved expressions.
pub open spec fn ir_exprs_view(v: Seq<IRExpression>) -> Seq<SIRExpr> {
    Seq::new(v.len(), |i: int| v[i].model())
}

/// The views of resolved methods.
pub open spec fn ir_methods_view(v: Seq<IRMethod>) -> Seq<SIRMethod> {
    Seq::new(v.len(), |i: int| v[i].model())
}

impl IRStatementKind {
    /// The mathematical value of this kind.
    pub open spec fn model(&self) -> SIRStmtKind
        decreases self,
    {
        match self {
            IRStatementKind::Expression(e) => SIRStmtKind::Expression(e.model()),
            IRStatementKind::If(c, ss, s, e, alt) => SIRStmtKind::If(
                c.model(),
                Seq::new(ss@.len(), |i: int| if 0 <= i < ss@.len() { ss@[i].model() } else { dummy_ir_stmt() }),
                *s as nat,
                *e as nat,
                match alt {
                    Some(a) => Some(Box::new((**a).model())),
                    None => None,
                },
            ),
            IRStatementKind::Function(f) => SIRStmtKind::Function(f.model()),
            IRStatementKind::Block(ss, s, e) => SIRStmtKind::Block(
                Seq::new(ss@.len(), |i: int| if 0 <= i < ss@.len() { ss@[i].model() } else { dummy_ir_stmt() }),
                *s as nat,
                *e as nat,
            ),
            IRStatementKind::For(v, l, r, ss) => SIRStmtKind::For(
                v@,
                match l {
                    Some(x) => Some(x.model()),
                    None => None,
                },
                match r {
                    Some(x) => Some(x.model()),
                    None => None,
                },
                Seq::new(ss@.len(), |i: int| if 0 <= i < ss@.len() { ss@[i].model() } else { dummy_ir_stmt() }),
            ),
            IRStatementKind::While(c, ss) => SIRStmtKind::While(
                c.model(),
                Seq::new(ss@.len(), |i: int| if 0 <= i < ss@.len() { ss@[i].model() } else { dummy_ir_stmt() }),
            ),
            IRStatementKind::Return(e) => SIRStmtKind::Return(e.model()),
            IRStatementKind::Import(rs, src) => SIRStmtKind::Import(refs_view(rs@), src@),
            IRStatementKind::Export(d) => SIRStmtKind::Export(Box::new((**d).model())),
            IRStatementKind::Class(v, ms, fs) => SIRStmtKind::Class(
                v@,
                Seq::new(ms@.len(), |i: int| if 0 <= i < ms@.len() { ms@[i].model() } else {
                    SIRMethod { name: Seq::empty(), arguments: Seq::empty(), statements: Seq::empty(), start: 0, end: 0 }
                }),
                stmts_view(fs@),
            ),
            IRStatementKind::Definition(v, e) => SIRStmtKind::Definition(v@, e.model()),
            IRStatementKind::Unchanged(k) => SIRStmtKind::Unchanged(k@),
        }
    }
}

// ---------------------------------------------------------------------
// The translation itself.

/// The view of a translator error.
pub open spec fn err_view(e: TranslatorError) -> STrErr {
    match e {
        TranslatorError::UnknownVariable(s) => STrErr::UnknownVariable(s@),
        TranslatorError::TODO(s) => STrErr::Todo(s@),
    }
}

/// Whether `r` is the outcome `o` of translating an expression.
pub open spec fn expr_result(r: Result<IRExpression, TranslatorError>, o: TrOut<SIRExpr>) -> bool {
    match o {
        TrOut::Done(v) => r matches Ok(x) && x.model() == v,
        TrOut::Fail(f) => r matches Err(x) && err_view(x) == f,
        TrOut::Panic => false,
    }
}

/// Whether `r` is the outcome `o` of translating expressions.
pub open spec fn exprs_result(r: Result<Vec<IRExpression>, TranslatorError>, o: TrOut<Seq<SIRExpr>>) -> bool {
    match o {
        TrOut::Done(v) => r matches Ok(x) && ir_exprs_view(x@) == v,
        TrOut::Fail(f) => r matches Err(x) && err_view(x) == f,
        TrOut::Panic => false,
    }
}

/// Whether `r` is the outcome `o` of translating a statement.
pub open spec fn stmt_result(r: Result<IRStatement, TranslatorError>, o: TrOut<SIRStmt>) -> bool {
    match o {
        TrOut::Done(v) => r matches Ok(x) && x.model() == v,
        TrOut::Fail(f) => r matches Err(x) && err_view(x) == f,
        TrOut::Panic => false,
    }
}

/// Whether `r` is the outcome `o` of translating statements.
pub open spec fn stmts_result(r: Result<Vec<IRStatement>, TranslatorError>, o: TrOut<Seq<SIRStmt>>) -> bool {
    match o {
        TrOut::Done(v) => r matches Ok(x) && ir_stmts_view(x@) == v,
        TrOut::Fail(f) => r matches Err(x) && err_view(x) == f,
        TrOut::Panic => false,
    }
}

/// Whether `r` is the outcome `o` of translating a function.
pub open spec fn function_result(r: Result<IRFunction, TranslatorError>, o: TrOut<SIRFunction>) -> bool {
    match o {
        TrOut::Done(v) => r matches Ok(x) && x.model() == v,
        TrOut::Fail(f) => r matches Err(x) && err_view(x) == f,
        TrOut::Panic => false,
    }
}

/// Whether `r` is the outcome `o` of translating methods.
pub open spec fn methods_result(r: Result<Vec<IRMethod>, TranslatorError>, o: TrOut<Seq<SIRMethod>>) -> bool {
    match o {
        TrOut::Done(v) => r matches Ok(x) && ir_methods_view(x@) == v,
        TrOut::Fail(f) => r matches Err(x) && err_view(x) == f,
        TrOut::Panic => false,
    }
}

/// The views of the parameters of a function.
pub open spec fn args_view(v: Seq<Argument<Identifier, ()>>) -> Seq<SArgument> {
    v.map_values(|a: Argument<Identifier, ()>| a@)
}

/// The views of names.
pub open spec fn idents_view(v: Seq<Identifier>) -> Seq<SIdent> {
    v.map_values(|i: Identifier| i@)
}

/// Once the translation of a prefix of expressions ends without a value,
/// the translation of the whole ends the same way.
proof fn lemma_exprs_stop(c: Seq<SScopeT>, es: Seq<SExpr>, k: int)
    requires
        0 <= k <= es.len(),
        !(tr_exprs(c, es.take(k)).0 is Done),
    ensures
        tr_exprs(c, es) == tr_exprs(c, es.take(k)),
    decreases es.len() - k,
{
    if k < es.len() {
        assert(es.take(k + 1).drop_last() =~= es.take(k));
        lemma_exprs_stop(c, es, k + 1);
    } else {
        assert(es.take(k) =~= es);
    }
}

/// Once the translation of a prefix of statements ends without a value,
/// the translation of the whole ends the same way.
proof fn lemma_stmts_stop(c: Seq<SScopeT>, ss: Seq<SStmt>, k: int)
    requires
        0 <= k <= ss.len(),
        !(tr_stmts(c, ss.take(k)).0 is Done),
    ensures
        tr_stmts(c, ss) == tr_stmts(c, ss.take(k)),
    decreases ss.len() - k,
{
    if k < ss.len() {
        assert(ss.take(k + 1).drop_last() =~= ss.take(k));
        lemma_stmts_stop(c, ss, k + 1);
    } else {
        assert(ss.take(k) =~= ss);
    }
}

/// Once the translation of a prefix of methods ends without a value, the
/// translation of all of them ends the same way.
proof fn lemma_methods_stop(c: Seq<SScopeT>, class: Seq<char>, ms: Seq<SStmt>, k: int)
    requires
        0 <= k <= ms.len(),
        !(tr_methods(c, class, ms.take(k)).0 is Done),
    ensures
        tr_methods(c, class, ms) == tr_methods(c, class, ms.take(k)),
    decreases ms.len() - k,
{
    if k < ms.len() {
        assert(ms.take(k + 1).drop_last() =~= ms.take(k));
        lemma_methods_stop(c, class, ms, k + 1);
    } else {
        assert(ms.take(k) =~= ms);
    }
}

/// Whether the innermost object of `e` is a name or a string.
fn assignable(e: &Expression) -> (r: bool)
    ensures
        r == (innermost(e@).kind matches SExprKind::Literal(_, SValue::String(_))),
    decreases e@,
{
    match &e.kind {
        ExpressionKind::Member { object, .. } => {
            proof {
                assert(decreases_to!(e@ => e@.kind));
                assert(decreases_to!(e@.kind => *e@.kind->Member_0));
            }
            assignable(object)
        },
        ExpressionKind::Literal { value, .. } => match value {
            ValueHolder::String(_) => true,
            _ => false,
        },
        _ => false,
    }
}

/// A copy of a literal value.
fn copy_value(v: &ValueHolder) -> (r: ValueHolder)
    ensures
        r@ == v@,
{
    match v {
        ValueHolder::String(s) => ValueHolder::String(s.clone()),
        ValueHolder::Number(s) => ValueHolder::Number(s.clone()),
        ValueHolder::Bool(b) => ValueHolder::Bool(*b),
        ValueHolder::Void => ValueHolder::Void,
    }
}

/// A copy of a callee that is kept when it cannot be translated, if it is
/// one.
fn copy_callee(e: &Expression) -> (r: Option<Expression>)
    ensures
        match r {
            Some(x) => keepable(e@) && x@ == e@,
            None => !keepable(e@),
        },
    decreases e@,
{
    match &e.kind {
        ExpressionKind::Literal { literal_kind, value } => {
            proof {
                assert(e@.kind == SExprKind::Literal(literal_kind@, value@));
            }
            match literal_kind {
                LiteralExpressionKind::Literal => {
                    let r = Expression { kind: ExpressionKind::Literal { literal_kind: LiteralExpressionKind::Literal, value: copy_value(value) }, start: e.start, end: e.end };
                    proof {
                        assert(r@.kind == e@.kind);
                    }
                    Some(r)
                },
                LiteralExpressionKind::Variable => {
                    let r = Expression { kind: ExpressionKind::Literal { literal_kind: LiteralExpressionKind::Variable, value: copy_value(value) }, start: e.start, end: e.end };
                    proof {
                        assert(r@.kind == e@.kind);
                    }
                    Some(r)
                },
                _ => None,
            }
        },
        ExpressionKind::Member { object, property } => {
            proof {
                assert(decreases_to!(e@ => e@.kind));
                assert(decreases_to!(e@.kind => *e@.kind->Member_0));
                assert(decreases_to!(e@.kind => *e@.kind->Member_1));
                if keepable(e@) {
                    assert(keepable((**object)@) && keepable((**property)@));
                }
            }
            match copy_callee(object) {
                Some(o) => match copy_callee(property) {
                    Some(p) => {
                        let r = Expression { kind: ExpressionKind::Member { object: Box::new(o), property: Box::new(p) }, start: e.start, end: e.end };
                        proof {
                            if keepable(e@) {
                                assert(keepable((**object)@) && keepable((**property)@));
                                assert(r@.kind == e@.kind);
                            }
                        }
                        Some(r)
                    },
                    None => None,
                },
                None => None,
            }
        },
        _ => None,
    }
}

/// Whether `op` is one of the arithmetic operators.
fn is_arithmetic(op: &TokenKind) -> (r: bool)
    ensures
        r == arithmetic(*op),
{
    match op {
        TokenKind::Plus => true,
        TokenKind::Minus => true,
        TokenKind::Asterisk => true,
        TokenKind::Slash => true,
        TokenKind::Percent => true,
        _ => false,
    }
}

/// Defines the parameters `args` in order, in the innermost scope.
fn set_params(args: &Vec<Argument<Identifier, ()>>, context: &mut Context) -> (r: Vec<VariableRef>)
    requires
        context_wf(old(context)@),
        old(context)@.len() > 0,
    ensures
        context_wf(final(context)@),
        (refs_view(r@), final(context)@) == tr_params(old(context)@, args_view(args@), args@.len() as int),
{
    let ghost c0 = context@;
    let ghost sargs = args_view(args@);
    let mut out: Vec<VariableRef> = Vec::new();
    let mut i: usize = 0;
    proof {
        assert(refs_view(out@) =~= Seq::<SVarRef>::empty());
    }
    while i < args.len()
        invariant
            i <= args@.len(),
            sargs == args_view(args@),
            context_wf(context@),
            context@.len() == c0.len(),
            c0.len() > 0,
            (refs_view(out@), context@) == tr_params(c0, sargs, i as int),
        decreases args.len() - i,
    {
        let ghost before = out@;
        let r = context.set(args[i].variable.value.as_str());
        out.push(r);
        proof {
            assert(sargs[i as int].variable.value == args@[i as int].variable.value@);
            assert(refs_view(out@) =~= refs_view(before).push(r@));
        }
        i += 1;
    }
    out
}

/// Defines the names `ids` in order, in the innermost scope.
fn set_idents(ids: &Vec<Identifier>, context: &mut Context) -> (r: Vec<VariableRef>)
    requires
        context_wf(old(context)@),
        old(context)@.len() > 0,
    ensures
        context_wf(final(context)@),
        (refs_view(r@), final(context)@) == tr_idents(old(context)@, idents_view(ids@), ids@.len() as int),
{
    let ghost c0 = context@;
    let ghost sids = idents_view(ids@);
    let mut out: Vec<VariableRef> = Vec::new();
    let mut i: usize = 0;
    proof {
        assert(refs_view(out@) =~= Seq::<SVarRef>::empty());
    }
    while i < ids.len()
        invariant
            i <= ids@.len(),
            sids == idents_view(ids@),
            context_wf(context@),
            context@.len() == c0.len(),
            c0.len() > 0,
            (refs_view(out@), context@) == tr_idents(c0, sids, i as int),
        decreases ids.len() - i,
    {
        let ghost before = out@;
        let r = context.set(ids[i].value.as_str());
        out.push(r);
        proof {
            assert(sids[i as int].value == ids@[i as int].value@);
            assert(refs_view(out@) =~= refs_view(before).push(r@));
        }
        i += 1;
    }
    out
}

/// Translates an expression in `context`: names become slots, functions
/// are translated with their own scopes, and an arithmetic operation on two
/// literals is kept as a constant operation.
fn tr_expression(e: Expression, context: &mut Context) -> (r: Result<IRExpression, TranslatorError>)
    requires
        context_wf(old(context)@),
        !(tr_expr(old(context)@, e@).0 is Panic),
    ensures
        context_wf(final(context)@),
        final(context)@ == tr_expr(old(context)@, e@).1,
        expr_result(r, tr_expr(old(context)@, e@).0),
    decreases e@, 1int,
{
    match &e.kind {
        ExpressionKind::Literal { .. } => tr_literal(e, context),
        ExpressionKind::Call { .. } => tr_call(e, context),
        ExpressionKind::Assignment { .. } => tr_assignment(e, context),
        ExpressionKind::Binary { .. } => tr_binary(e, context),
        _ => tr_operation(e, context),
    }
}

/// Translates a literal: a name is resolved, a function is translated, the
/// elements of an array are translated; other literals stay as they are.
fn tr_literal(e: Expression, context: &mut Context) -> (r: Result<IRExpression, TranslatorError>)
    requires
        context_wf(old(context)@),
        !(tr_expr(old(context)@, e@).0 is Panic),
        e@.kind is Literal,
    ensures
        context_wf(final(context)@),
        final(context)@ == tr_expr(old(context)@, e@).1,
        expr_result(r, tr_expr(old(context)@, e@).0),
    decreases e@, 0int,
{
    let ghost ev = e@;
    let start = e.start;
    let end = e.end;
    proof {
        assert(decreases_to!(ev => ev.kind));
    }
    match e.kind {
        ExpressionKind::Literal { literal_kind, value } => {
          proof {
              assert(ev.kind == SExprKind::Literal(literal_kind@, value@));
          }
          match literal_kind {
            LiteralExpressionKind::Variable => match value {
                ValueHolder::String(name) => match context.get(name.as_str()) {
                    Some(v) => Ok(IRExpression { kind: IRExpressionKind::Variable(v), start, end }),
                    None => Err(TranslatorError::UnknownVariable(name)),
                },
                _ => {
                    proof {
                        assert(false);
                    }
                    Err(TranslatorError::TODO(String::new()))
                },
            },
            LiteralExpressionKind::Function(k) => match *k {
                StatementKind::Function { variable, arguments, block, return_type_ref, return_ty } => {
                    let ghost lk = ev.kind->Literal_0;
                    let ghost sk = *lk->Function_0;
                    proof {
                        assert(sk == (StatementKind::Function { variable, arguments, block, return_type_ref, return_ty })@);
                        assert(decreases_to!(ev.kind => lk));
                        assert(decreases_to!(lk => sk));
                        assert(decreases_to!(sk => sk->Function_2));
                        assert(decreases_to!(sk->Function_2 => sk->Function_2.statements));
                        assert(stmts_view(block.statements@) =~= sk->Function_2.statements);
                        assert(args_view(arguments@) == sk->Function_1);
                    }
                    match tr_function_exec(variable.value, arguments, block.statements, context) {
                        Ok(f) => Ok(IRExpression { kind: IRExpressionKind::Function(Box::new(f)), start, end }),
                        Err(x) => Err(x),
                    }
                },
                _ => {
                    proof {
                        assert(false);
                    }
                    Err(TranslatorError::TODO(String::new()))
                },
            },
            LiteralExpressionKind::Array(values) => {
                let ghost lk = ev.kind->Literal_0;
                proof {
                    assert(decreases_to!(ev.kind => lk));
                    assert(decreases_to!(lk => lk->Array_0));
                    assert(exprs_view(values@) =~= lk->Array_0);
                }
                match tr_expressions(values, context) {
                    Ok(vs) => {
                        let r = IRExpression { kind: IRExpressionKind::Array(vs), start, end };
                        proof {
                            assert(r.model().kind->Array_0 =~= ir_exprs_view(vs@));
                        }
                        Ok(r)
                    },
                    Err(_) => {
                        proof {
                            assert(false);
                        }
                        Err(TranslatorError::TODO(String::new()))
                    },
                }
            },
            LiteralExpressionKind::Object(entries) => Ok(IRExpression { kind: IRExpressionKind::Object(entries), start, end }),
            LiteralExpressionKind::Literal => Ok(IRExpression { kind: IRExpressionKind::Literal(value), start, end }),
          }
        },
        _ => {
            proof {
                assert(false);
            }
            Err(TranslatorError::TODO(String::new()))
        },
    }
}

/// Translates a call: a callee that cannot be translated is kept as it was
/// written where it can be, and the arguments are translated.
fn tr_call(e: Expression, context: &mut Context) -> (r: Result<IRExpression, TranslatorError>)
    requires
        context_wf(old(context)@),
        !(tr_expr(old(context)@, e@).0 is Panic),
        e@.kind is Call,
    ensures
        context_wf(final(context)@),
        final(context)@ == tr_expr(old(context)@, e@).1,
        expr_result(r, tr_expr(old(context)@, e@).0),
    decreases e@, 0int,
{
    let ghost ev = e@;
    let start = e.start;
    let end = e.end;
    proof {
        assert(decreases_to!(ev => ev.kind));
    }
    match e.kind {
        ExpressionKind::Call { callee, arguments } => {
            proof {
                assert(decreases_to!(ev.kind => *ev.kind->Call_0));
                assert(decreases_to!(ev.kind => ev.kind->Call_1));
                assert(exprs_view(arguments@) =~= ev.kind->Call_1);
            }
            let kept = copy_callee(&callee);
            match tr_expression(*callee, context) {
                Ok(a) => match tr_expressions(arguments, context) {
                    Ok(bs) => {
                        let r = IRExpression { kind: IRExpressionKind::Call(Box::new(a), bs), start, end };
                        proof {
                            assert(r.model().kind->Call_1 =~= ir_exprs_view(bs@));
                        }
                        Ok(r)
                    },
                    Err(x) => Err(x),
                },
                Err(x) => match kept {
                    Some(original) => match tr_expressions(arguments, context) {
                        Ok(bs) => {
                            let r = IRExpression { kind: IRExpressionKind::CallUntranslated(Box::new(original), bs), start, end };
                            proof {
                                assert(r.model().kind->CallUntranslated_1 =~= ir_exprs_view(bs@));
                            }
                            Ok(r)
                        },
                        Err(y) => Err(y),
                    },
                    None => Err(x),
                },
            }
        },
        _ => {
            proof {
                assert(false);
            }
            Err(TranslatorError::TODO(String::new()))
        },
    }
}

/// Translates an assignment to a name or to a property of one.
fn tr_assignment(e: Expression, context: &mut Context) -> (r: Result<IRExpression, TranslatorError>)
    requires
        context_wf(old(context)@),
        !(tr_expr(old(context)@, e@).0 is Panic),
        e@.kind is Assignment,
    ensures
        context_wf(final(context)@),
        final(context)@ == tr_expr(old(context)@, e@).1,
        expr_result(r, tr_expr(old(context)@, e@).0),
    decreases e@, 0int,
{
    let ghost ev = e@;
    let start = e.start;
    let end = e.end;
    proof {
        assert(decreases_to!(ev => ev.kind));
    }
    match e.kind {
        ExpressionKind::Assignment { left, operator, right } => {
            proof {
                assert(decreases_to!(ev.kind => *ev.kind->Assignment_0));
                assert(decreases_to!(ev.kind => *ev.kind->Assignment_2));
            }
            if !assignable(&left) {
                return Err(TranslatorError::TODO("Cannot access property on type other than a variable".to_owned()));
            }
            match tr_expression(*left, context) {
                Ok(a) => match tr_expression(*right, context) {
                    Ok(b) => Ok(IRExpression { kind: IRExpressionKind::Assignment(Box::new(a), operator, Box::new(b)), start, end }),
                    Err(x) => Err(x),
                },
                Err(x) => Err(x),
            }
        },
        _ => {
            proof {
                assert(false);
            }
            Err(TranslatorError::TODO(String::new()))
        },
    }
}

/// Translates an arithmetic operation; on two literals it stays a constant
/// operation.
fn tr_binary(e: Expression, context: &mut Context) -> (r: Result<IRExpression, TranslatorError>)
    requires
        context_wf(old(context)@),
        !(tr_expr(old(context)@, e@).0 is Panic),
        e@.kind is Binary,
    ensures
        context_wf(final(context)@),
        final(context)@ == tr_expr(old(context)@, e@).1,
        expr_result(r, tr_expr(old(context)@, e@).0),
    decreases e@, 0int,
{
    let ghost ev = e@;
    let start = e.start;
    let end = e.end;
    proof {
        assert(decreases_to!(ev => ev.kind));
    }
    match e.kind {
        ExpressionKind::Binary { left, operator, right } => {
            proof {
                assert(decreases_to!(ev.kind => *ev.kind->Binary_0));
                assert(decreases_to!(ev.kind => *ev.kind->Binary_2));
            }
            match tr_expression(*left, context) {
                Ok(a) => match tr_expression(*right, context) {
                    Ok(b) => {
                        let a_literal = matches!(a.kind, IRExpressionKind::Literal(_));
                        let b_literal = matches!(b.kind, IRExpressionKind::Literal(_));
                        if a_literal && b_literal {
                            if is_arithmetic(&operator) {
                                let s = a.start;
                                let t = b.end;
                                match (a.kind, b.kind) {
                                    (IRExpressionKind::Literal(x), IRExpressionKind::Literal(y)) => Ok(
                                        IRExpression { kind: IRExpressionKind::Constant(x, operator, y), start: s, end: t },
                                    ),
                                    _ => {
                                        proof {
                                            assert(false);
                                        }
                                        Err(TranslatorError::TODO(String::new()))
                                    },
                                }
                            } else {
                                proof {
                                    assert(false);
                                }
                                Err(TranslatorError::TODO(String::new()))
                            }
                        } else {
                            Ok(IRExpression { kind: IRExpressionKind::Binary(Box::new(a), operator, Box::new(b)), start, end })
                        }
                    },
                    Err(x) => Err(x),
                },
                Err(x) => Err(x),
            }
        },
        _ => {
            proof {
                assert(false);
            }
            Err(TranslatorError::TODO(String::new()))
        },
    }
}

/// Translates a member access or a unary, logical, equality or relational
/// operation.
fn tr_operation(e: Expression, context: &mut Context) -> (r: Result<IRExpression, TranslatorError>)
    requires
        context_wf(old(context)@),
        !(tr_expr(old(context)@, e@).0 is Panic),
        e@.kind is Member || e@.kind is Logical || e@.kind is Equality || e@.kind is Relational || e@.kind is Unary,
    ensures
        context_wf(final(context)@),
        final(context)@ == tr_expr(old(context)@, e@).1,
        expr_result(r, tr_expr(old(context)@, e@).0),
    decreases e@, 0int,
{
    let ghost ev = e@;
    let start = e.start;
    let end = e.end;
    proof {
        assert(decreases_to!(ev => ev.kind));
    }
    match e.kind {
        ExpressionKind::Member { object, property } => {
            proof {
                assert(decreases_to!(ev.kind => *ev.kind->Member_0));
                assert(decreases_to!(ev.kind => *ev.kind->Member_1));
            }
            match tr_expression(*object, context) {
                Ok(a) => match tr_expression(*property, context) {
                    Ok(b) => Ok(IRExpression { kind: IRExpressionKind::Member(Box::new(a), Box::new(b)), start, end }),
                    Err(x) => Err(x),
                },
                Err(x) => Err(x),
            }
        },
        ExpressionKind::Logical { left, operator, right } => {
            proof {
                assert(decreases_to!(ev.kind => *ev.kind->Logical_0));
                assert(decreases_to!(ev.kind => *ev.kind->Logical_2));
            }
            match tr_expression(*left, context) {
                Ok(a) => match tr_expression(*right, context) {
                    Ok(b) => Ok(IRExpression { kind: IRExpressionKind::Logical(Box::new(a), operator, Box::new(b)), start, end }),
                    Err(x) => Err(x),
                },
                Err(x) => Err(x),
            }
        },
        ExpressionKind::Equality { left, operator, right } => {
            proof {
                assert(decreases_to!(ev.kind => *ev.kind->Equality_0));
                assert(decreases_to!(ev.kind => *ev.kind->Equality_2));
            }
            match tr_expression(*left, context) {
                Ok(a) => match tr_expression(*right, context) {
                    Ok(b) => Ok(IRExpression { kind: IRExpressionKind::Equality(Box::new(a), operator, Box::new(b)), start, end }),
                    Err(x) => Err(x),
                },
                Err(x) => Err(x),
            }
        },
        ExpressionKind::Relational { left, operator, right } => {
            proof {
                assert(decreases_to!(ev.kind => *ev.kind->Relational_0));
                assert(decreases_to!(ev.kind => *ev.kind->Relational_2));
            }
            match tr_expression(*left, context) {
                Ok(a) => match tr_expression(*right, context) {
                    Ok(b) => Ok(IRExpression { kind: IRExpressionKind::Relational(Box::new(a), operator, Box::new(b)), start, end }),
                    Err(x) => Err(x),
                },
                Err(x) => Err(x),
            }
        },
        ExpressionKind::Unary { left, operator } => {
            proof {
                assert(decreases_to!(ev.kind => *ev.kind->Unary_0));
            }
            match tr_expression(*left, context) {
                Ok(a) => Ok(IRExpression { kind: IRExpressionKind::Unary(Box::new(a), operator), start, end }),
                Err(x) => Err(x),
            }
        },
        _ => {
            proof {
                assert(false);
            }
            Err(TranslatorError::TODO(String::new()))
        },
    }
}

/// Translates expressions in order, each in the context the one before left.
fn tr_expressions(es: Vec<Expression>, context: &mut Context) -> (r: Result<Vec<IRExpression>, TranslatorError>)
    requires
        context_wf(old(context)@),
        !(tr_exprs(old(context)@, exprs_view(es@)).0 is Panic),
    ensures
        context_wf(final(context)@),
        final(context)@ == tr_exprs(old(context)@, exprs_view(es@)).1,
        exprs_result(r, tr_exprs(old(context)@, exprs_view(es@)).0),
    decreases exprs_view(es@), 0int,
{
    let ghost all = exprs_view(es@);
    let ghost c0 = context@;
    let mut rest = es;
    let mut out: Vec<IRExpression> = Vec::new();
    let n = rest.len();
    let mut i: usize = 0;
    proof {
        assert(all.take(0) =~= Seq::<SExpr>::empty());
        assert(ir_exprs_view(out@) =~= Seq::<SIRExpr>::empty());
    }
    while i < n
        invariant
            n == all.len(),
            i <= n,
            rest@.len() == n - i,
            forall|j: int| 0 <= j < n - i ==> (#[trigger] rest@[j])@ == all[i + j],
            context_wf(context@),
            all == exprs_view(es@),
            c0 == old(context)@,
            tr_exprs(c0, all.take(i as int)) == (TrOut::Done(ir_exprs_view(out@)), context@),
            !(tr_exprs(c0, all).0 is Panic),
        decreases n - i,
    {
        let ghost before = out@;
        let ghost c1 = context@;
        let x = rest.remove(0);
        proof {
            assert(x@ == all[i as int]);
            assert(all.take(i as int + 1).drop_last() =~= all.take(i as int));
            assert(all.take(i as int + 1).last() == all[i as int]);
            if tr_expr(c1, all[i as int]).0 is Panic {
                lemma_exprs_stop(c0, all, i as int + 1);
            }
            assert(decreases_to!(all => all[i as int]));
        }
        match tr_expression(x, context) {
            Ok(y) => {
                let ghost ym = y.model();
                out.push(y);
                proof {
                    assert(ir_exprs_view(out@) =~= ir_exprs_view(before).push(ym));
                }
            },
            Err(z) => {
                proof {
                    lemma_exprs_stop(c0, all, i as int + 1);
                }
                return Err(z);
            },
        }
        i += 1;
    }
    proof {
        assert(all.take(n as int) =~= all);
    }
    Ok(out)
}

/// Translates a function named `name`: its name is defined where it
/// stands and again in its own scope, then its parameters, then its body.
fn tr_function_exec(
    name: String,
    arguments: Vec<Argument<Identifier, ()>>,
    body: Vec<Statement>,
    context: &mut Context,
) -> (r: Result<IRFunction, TranslatorError>)
    requires
        context_wf(old(context)@),
        !(tr_function(old(context)@, name@, args_view(arguments@), stmts_view(body@)).0 is Panic),
    ensures
        context_wf(final(context)@),
        final(context)@ == tr_function(old(context)@, name@, args_view(arguments@), stmts_view(body@)).1,
        function_result(r, tr_function(old(context)@, name@, args_view(arguments@), stmts_view(body@)).0),
    decreases stmts_view(body@), 1int,
{
    if context.stack.len() == 0 {
        proof {
            assert(false);
        }
        return Err(TranslatorError::TODO(String::new()));
    }
    let var_ref = context.set(name.as_str());
    context.enter_scope(ScopeKind::Function);
    let _ = context.set(name.as_str());
    let refs = set_params(&arguments, context);
    match tr_statements(body, context) {
        Ok(ss) => {
            context.exit_scope();
            let r = IRFunction { var_ref, arguments: refs, statements: ss };
            proof {
                assert(r.model().statements =~= ir_stmts_view(ss@));
            }
            Ok(r)
        },
        Err(x) => Err(x),
    }
}

/// Translates statements in order, each in the context the one before left.
fn tr_statements(ss: Vec<Statement>, context: &mut Context) -> (r: Result<Vec<IRStatement>, TranslatorError>)
    requires
        context_wf(old(context)@),
        !(tr_stmts(old(context)@, stmts_view(ss@)).0 is Panic),
    ensures
        context_wf(final(context)@),
        final(context)@ == tr_stmts(old(context)@, stmts_view(ss@)).1,
        stmts_result(r, tr_stmts(old(context)@, stmts_view(ss@)).0),
    decreases stmts_view(ss@), 0int,
{
    let ghost all = stmts_view(ss@);
    let ghost c0 = context@;
    let mut rest = ss;
    let mut out: Vec<IRStatement> = Vec::new();
    let n = rest.len();
    let mut i: usize = 0;
    proof {
        assert(all.take(0) =~= Seq::<SStmt>::empty());
        assert(ir_stmts_view(out@) =~= Seq::<SIRStmt>::empty());
    }
    while i < n
        invariant
            n == all.len(),
            i <= n,
            rest@.len() == n - i,
            forall|j: int| 0 <= j < n - i ==> (#[trigger] rest@[j])@ == all[i + j],
            context_wf(context@),
            all == stmts_view(ss@),
            c0 == old(context)@,
            tr_stmts(c0, all.take(i as int)) == (TrOut::Done(ir_stmts_view(out@)), context@),
            !(tr_stmts(c0, all).0 is Panic),
        decreases n - i,
    {
        let ghost before = out@;
        let ghost c1 = context@;
        let x = rest.remove(0);
        proof {
            assert(x@ == all[i as int]);
            assert(all.take(i as int + 1).drop_last() =~= all.take(i as int));
            assert(all.take(i as int + 1).last() == all[i as int]);
            if tr_stmt(c1, all[i as int].kind, all[i as int].start, all[i as int].end).0 is Panic {
                lemma_stmts_stop(c0, all, i as int + 1);
            }
            assert(decreases_to!(all => all[i as int]));
            assert(decreases_to!(all[i as int] => all[i as int].kind));
        }
        let Statement { kind, start, end } = x;
        proof {
            assert(kind@ == all[i as int].kind);
        }
        match tr_statement(kind, start, end, context) {
            Ok(y) => {
                let ghost ym = y.model();
                out.push(y);
                proof {
                    assert(ir_stmts_view(out@) =~= ir_stmts_view(before).push(ym));
                }
            },
            Err(z) => {
                proof {
                    lemma_stmts_stop(c0, all, i as int + 1);
                }
                return Err(z);
            },
        }
        i += 1;
    }
    proof {
        assert(all.take(n as int) =~= all);
    }
    Ok(out)
}

/// Translates a statement of kind `kind` spanning `start..end`.
fn tr_statement(kind: StatementKind, start: usize, end: usize, context: &mut Context) -> (r: Result<IRStatement, TranslatorError>)
    requires
        context_wf(old(context)@),
        !(tr_stmt(old(context)@, kind@, start as nat, end as nat).0 is Panic),
    ensures
        context_wf(final(context)@),
        final(context)@ == tr_stmt(old(context)@, kind@, start as nat, end as nat).1,
        stmt_result(r, tr_stmt(old(context)@, kind@, start as nat, end as nat).0),
    decreases kind@, 0int,
{
    let ghost kv = kind@;
    match kind {
        StatementKind::Expression { expression } => {
            proof {
                assert(decreases_to!(kv => kv->Expression_0));
            }
            match tr_expression(expression, context) {
                Ok(x) => Ok(IRStatement { kind: IRStatementKind::Expression(x), start, end }),
                Err(z) => Err(z),
            }
        },
        StatementKind::If { condition, block, alternate } => {
            proof {
                assert(decreases_to!(kv => kv->If_0));
                assert(decreases_to!(kv => kv->If_1));
                assert(decreases_to!(kv->If_1 => kv->If_1.statements));
                assert(stmts_view(block.statements@) =~= kv->If_1.statements);
            }
            let Block { statements, start: bs, end: be } = block;
            match tr_expression(condition, context) {
                Ok(x) => {
                    context.enter_scope(ScopeKind::Conditional);
                    match tr_statements(statements, context) {
                        Ok(ss) => {
                            context.exit_scope();
                            match alternate {
                                Some(a) => {
                                    proof {
                                        assert(decreases_to!(kv => kv->If_2));
                                        assert(decreases_to!(kv->If_2 => kv->If_2->Some_0));
                                        assert(decreases_to!(kv->If_2->Some_0 => kv->If_2->Some_0.kind));
                                    }
                                    let Statement { kind: ak, start: a_start, end: a_end } = *a;
                                    match tr_statement(ak, a_start, a_end, context) {
                                        Ok(y) => {
                                            let r = IRStatement { kind: IRStatementKind::If(x, ss, bs, be, Some(Box::new(y))), start, end };
                                            proof {
                                                assert(r.model().kind->If_1 =~= ir_stmts_view(ss@));
                                            }
                                            Ok(r)
                                        },
                                        Err(z) => Err(z),
                                    }
                                },
                                None => {
                                    let r = IRStatement { kind: IRStatementKind::If(x, ss, bs, be, None), start, end };
                                    proof {
                                        assert(r.model().kind->If_1 =~= ir_stmts_view(ss@));
                                    }
                                    Ok(r)
                                },
                            }
                        },
                        Err(z) => Err(z),
                    }
                },
                Err(z) => Err(z),
            }
        },
        StatementKind::Function { variable, arguments, block, .. } => {
            proof {
                assert(decreases_to!(kv => kv->Function_2));
                assert(decreases_to!(kv->Function_2 => kv->Function_2.statements));
                assert(stmts_view(block.statements@) =~= kv->Function_2.statements);
            }
            match tr_function_exec(variable.value, arguments, block.statements, context) {
                Ok(f) => Ok(IRStatement { kind: IRStatementKind::Function(f), start, end }),
                Err(z) => Err(z),
            }
        },
        StatementKind::Block(block) => {
            proof {
                assert(decreases_to!(kv => kv->Block_0));
                assert(decreases_to!(kv->Block_0 => kv->Block_0.statements));
                assert(stmts_view(block.statements@) =~= kv->Block_0.statements);
            }
            let Block { statements, start: bs, end: be } = block;
            context.enter_scope(ScopeKind::Block);
            match tr_statements(statements, context) {
                Ok(ss) => {
                    context.exit_scope();
                    let r = IRStatement { kind: IRStatementKind::Block(ss, bs, be), start, end };
                    proof {
                        assert(r.model().kind->Block_0 =~= ir_stmts_view(ss@));
                    }
                    Ok(r)
                },
                Err(z) => Err(z),
            }
        },
        StatementKind::For { variable, iterable: Iterable::Range(left, right), statements } => {
            let ghost it = kv->For_1;
            proof {
                assert(decreases_to!(kv => it));
                assert(decreases_to!(kv => kv->For_2));
                assert(stmts_view(statements@) =~= kv->For_2);
            }
            let lx = match left {
                Some(l) => {
                    proof {
                        assert(decreases_to!(it => it->Range_0));
                        assert(decreases_to!(it->Range_0 => it->Range_0->Some_0));
                    }
                    match tr_expression(l, context) {
                        Ok(x) => Some(x),
                        Err(z) => {
                            return Err(z);
                        },
                    }
                },
                None => None,
            };
            let rx = match right {
                Some(rr) => {
                    proof {
                        assert(decreases_to!(it => it->Range_1));
                        assert(decreases_to!(it->Range_1 => it->Range_1->Some_0));
                    }
                    match tr_expression(rr, context) {
                        Ok(x) => Some(x),
                        Err(z) => {
                            return Err(z);
                        },
                    }
                },
                None => None,
            };
            context.enter_scope(ScopeKind::Loop);
            let v = context.set(variable.value.as_str());
            match tr_statements(statements, context) {
                Ok(ss) => {
                    context.exit_scope();
                    let r = IRStatement { kind: IRStatementKind::For(v, lx, rx, ss), start, end };
                    proof {
                        assert(r.model().kind->For_3 =~= ir_stmts_view(ss@));
                    }
                    Ok(r)
                },
                Err(z) => Err(z),
            }
        },
        StatementKind::While { condition, statements } => {
            proof {
                assert(decreases_to!(kv => kv->While_0));
                assert(decreases_to!(kv => kv->While_1));
                assert(stmts_view(statements@) =~= kv->While_1);
            }
            context.enter_scope(ScopeKind::Loop);
            match tr_expression(condition, context) {
                Ok(x) => match tr_statements(statements, context) {
                    Ok(ss) => {
                        context.exit_scope();
                        let r = IRStatement { kind: IRStatementKind::While(x, ss), start, end };
                        proof {
                            assert(r.model().kind->While_1 =~= ir_stmts_view(ss@));
                        }
                        Ok(r)
                    },
                    Err(z) => Err(z),
                },
                Err(z) => Err(z),
            }
        },
        StatementKind::Return { expression } => {
            proof {
                assert(decreases_to!(kv => kv->Return_0));
            }
            match tr_expression(expression, context) {
                Ok(x) => Ok(IRStatement { kind: IRStatementKind::Return(x), start, end }),
                Err(z) => Err(z),
            }
        },
        StatementKind::Import { specifiers, source } => {
            proof {
                assert(idents_view(specifiers@) == kv->Import_0);
            }
            if specifiers.len() == 0 {
                let refs: Vec<VariableRef> = Vec::new();
                proof {
                    assert(refs_view(refs@) =~= Seq::<SVarRef>::empty());
                }
                return Ok(IRStatement { kind: IRStatementKind::Import(refs, source), start, end });
            }
            if context.stack.len() == 0 {
                proof {
                    assert(false);
                }
                return Err(TranslatorError::TODO(String::new()));
            }
            let refs = set_idents(&specifiers, context);
            Ok(IRStatement { kind: IRStatementKind::Import(refs, source), start, end })
        },
        StatementKind::Export { declaration } => {
            proof {
                assert(decreases_to!(kv => kv->Export_0));
                assert(decreases_to!(kv->Export_0 => kv->Export_0.kind));
            }
            let Statement { kind: dk, start: d_start, end: d_end } = *declaration;
            match tr_statement(dk, d_start, d_end, context) {
                Ok(x) => Ok(IRStatement { kind: IRStatementKind::Export(Box::new(x)), start, end }),
                Err(z) => Err(z),
            }
        },
        StatementKind::Class { variable, methods, fields, .. } => {
            proof {
                assert(decreases_to!(kv => kv->Class_1));
                assert(stmts_view(methods@) =~= kv->Class_1);
            }
            if context.stack.len() == 0 {
                proof {
                    assert(false);
                }
                return Err(TranslatorError::TODO(String::new()));
            }
            let v = context.set(variable.value.as_str());
            match tr_methods_exec(&variable.value, methods, context) {
                Ok(ms) => {
                    let r = IRStatement { kind: IRStatementKind::Class(v, ms, fields), start, end };
                    proof {
                        assert(r.model().kind->Class_1 =~= ir_methods_view(ms@));
                        assert(r.model().kind->Class_2 =~= kv->Class_2);
                    }
                    Ok(r)
                },
                Err(z) => Err(z),
            }
        },
        StatementKind::VariableDefinition { descriptor: VariableDescriptor::Identifier(id), expression, .. } => {
            proof {
                assert(decreases_to!(kv => kv->VariableDefinition_1));
            }
            if context.stack.len() == 0 {
                proof {
                    assert(false);
                }
                return Err(TranslatorError::TODO(String::new()));
            }
            let v = context.set(id.value.as_str());
            match tr_expression(expression, context) {
                Ok(x) => Ok(IRStatement { kind: IRStatementKind::Definition(v, x), start, end }),
                Err(z) => Err(z),
            }
        },
        other => Ok(IRStatement { kind: IRStatementKind::Unchanged(other), start, end }),
    }
}

/// Translates the methods of the class named `class` in order.
fn tr_methods_exec(class: &String, ms: Vec<Statement>, context: &mut Context) -> (r: Result<Vec<IRMethod>, TranslatorError>)
    requires
        context_wf(old(context)@),
        !(tr_methods(old(context)@, class@, stmts_view(ms@)).0 is Panic),
    ensures
        context_wf(final(context)@),
        final(context)@ == tr_methods(old(context)@, class@, stmts_view(ms@)).1,
        methods_result(r, tr_methods(old(context)@, class@, stmts_view(ms@)).0),
    decreases stmts_view(ms@), 0int,
{
    let ghost all = stmts_view(ms@);
    let ghost c0 = context@;
    let mut rest = ms;
    let mut out: Vec<IRMethod> = Vec::new();
    let n = rest.len();
    let mut i: usize = 0;
    proof {
        assert(all.take(0) =~= Seq::<SStmt>::empty());
        assert(ir_methods_view(out@) =~= Seq::<SIRMethod>::empty());
    }
    while i < n
        invariant
            n == all.len(),
            i <= n,
            rest@.len() == n - i,
            forall|j: int| 0 <= j < n - i ==> (#[trigger] rest@[j])@ == all[i + j],
            context_wf(context@),
            all == stmts_view(ms@),
            c0 == old(context)@,
            tr_methods(c0, class@, all.take(i as int)) == (TrOut::Done(ir_methods_view(out@)), context@),
            !(tr_methods(c0, class@, all).0 is Panic),
        decreases n - i,
    {
        let ghost before = out@;
        let ghost c1 = context@;
        let m = rest.remove(0);
        proof {
            assert(m@ == all[i as int]);
            assert(all.take(i as int + 1).drop_last() =~= all.take(i as int));
            assert(all.take(i as int + 1).last() == all[i as int]);
            assert(decreases_to!(all => all[i as int]));
            assert(decreases_to!(all[i as int] => all[i as int].kind));
        }
        let Statement { kind: mk, start: m_start, end: m_end } = m;
        proof {
            assert(mk@ == all[i as int].kind);
        }
        match mk {
            StatementKind::Function { variable, arguments, block, .. } => {
                let ghost sk = all[i as int].kind;
                proof {
                    assert(decreases_to!(sk => sk->Function_2));
                    assert(decreases_to!(sk->Function_2 => sk->Function_2.statements));
                    assert(stmts_view(block.statements@) =~= sk->Function_2.statements);
                    assert(args_view(arguments@) == sk->Function_1);
                }
                context.enter_scope(ScopeKind::Function);
                if variable.value == *class {
                    let _ = context.set("0");
                    let _ = context.set("self");
                } else {
                    let _ = context.set(variable.value.as_str());
                }
                let refs = set_params(&arguments, context);
                proof {
                    if tr_stmts(context@, sk->Function_2.statements).0 is Panic {
                        lemma_methods_stop(c0, class@, all, i as int + 1);
                    }
                }
                match tr_statements(block.statements, context) {
                    Ok(ss) => {
                        context.exit_scope();
                        let item = IRMethod { name: variable.value, arguments: refs, statements: ss, start: m_start, end: m_end };
                        let ghost im = item.model();
                        proof {
                            assert(im.statements =~= ir_stmts_view(ss@));
                        }
                        out.push(item);
                        proof {
                            assert(ir_methods_view(out@) =~= ir_methods_view(before).push(im));
                        }
                    },
                    Err(z) => {
                        proof {
                            lemma_methods_stop(c0, class@, all, i as int + 1);
                        }
                        return Err(z);
                    },
                }
            },
            _ => {
                proof {
                    lemma_methods_stop(c0, class@, all, i as int + 1);
                    assert(false);
                }
                return Err(TranslatorError::TODO(String::new()));
            },
        }
        i += 1;
    }
    proof {
        assert(all.take(n as int) =~= all);
    }
    Ok(out)
}


/// Whether `e` reports the translator error `f`, with no place in the source.
pub open spec fn reported_error(e: LanguageError, f: STrErr) -> bool {
    &&& e.kind matches ErrorKind::Translator(t)
    &&& err_view(e.kind->Translator_0) == f
    &&& e.source is None
}

/// The context a program is translated in: one program scope.
pub open spec fn program_context() -> Seq<SScopeT> {
    seq![SScopeT { kind: ScopeKind::Program, slot_index: 0, names: Seq::empty() }]
}

/// Translates `expression` in `context`: every name becomes the slot it has
/// in the innermost scope that defines it, with the number of scopes passed
/// on the way; a function literal is translated with scopes of its own; an
/// arithmetic operation on two literals becomes a constant operation.
pub fn translate_expression(expression: Expression, context: &mut Context) -> (r: LanguageResult<IRExpression>)
    requires
        context_wf(old(context)@),
        !(tr_expr(old(context)@, expression@).0 is Panic),
    ensures
        context_wf(final(context)@),
        final(context)@ == tr_expr(old(context)@, expression@).1,
        match tr_expr(old(context)@, expression@).0 {
            TrOut::Done(v) => (r matches Ok(x) && x.model() == v),
            TrOut::Fail(f) => (r matches Err(e) && reported_error(e, f)),
            TrOut::Panic => false,
        },
{
    match tr_expression(expression, context) {
        Ok(x) => Ok(x),
        Err(t) => Err(LanguageError::from(ErrorKind::Translator(t))),
    }
}

/// Translates `statement` in `context`: names in it become slots, the names
/// it defines are defined in the innermost scope, and a block, a loop, a
/// branch or a function is translated in a scope of its own, closed again
/// after it.
pub fn translate_statement(statement: Statement, context: &mut Context) -> (r: LanguageResult<IRStatement>)
    requires
        context_wf(old(context)@),
        !(tr_stmt(old(context)@, statement@.kind, statement@.start, statement@.end).0 is Panic),
    ensures
        context_wf(final(context)@),
        final(context)@ == tr_stmt(old(context)@, statement@.kind, statement@.start, statement@.end).1,
        match tr_stmt(old(context)@, statement@.kind, statement@.start, statement@.end).0 {
            TrOut::Done(v) => (r matches Ok(x) && x.model() == v),
            TrOut::Fail(f) => (r matches Err(e) && reported_error(e, f)),
            TrOut::Panic => false,
        },
{
    let Statement { kind, start, end } = statement;
    match tr_statement(kind, start, end, context) {
        Ok(x) => Ok(x),
        Err(t) => Err(LanguageError::from(ErrorKind::Translator(t))),
    }
}

/// Translates a program, its statements in order, in a context of one
/// program scope.
pub fn translate(program: Program) -> (r: LanguageResult<Vec<IRStatement>>)
    requires
        !(tr_stmts(program_context(), program@).0 is Panic),
    ensures
        match tr_stmts(program_context(), program@).0 {
            TrOut::Done(v) => (r matches Ok(x) && ir_stmts_view(x@) == v),
            TrOut::Fail(f) => (r matches Err(e) && reported_error(e, f)),
            TrOut::Panic => false,
        },
{
    let mut context = Context::new();
    proof {
        assert(context@ =~= program_context());
    }
    match tr_statements(program.body, &mut context) {
        Ok(x) => Ok(x),
        Err(t) => Err(LanguageError::from(ErrorKind::Translator(t))),
    }
}


/// Translating statements `a` and then `b` in one go is translating `a`,
/// then translating `b` in the context that `a` left, when `a` translates.
pub proof fn law_statements_compose(c: Seq<SScopeT>, a: Seq<SStmt>, b: Seq<SStmt>)
    requires
        tr_stmts(c, a).0 is Done,
    ensures
        tr_stmts(c, a + b) == match tr_stmts(tr_stmts(c, a).1, b) {
            (TrOut::Done(y), c2) => (TrOut::Done(tr_stmts(c, a).0->Done_0 + y), c2),
            other => other,
        },
    decreases b.len(),
{
    let x = tr_stmts(c, a).0->Done_0;
    let c1 = tr_stmts(c, a).1;
    if b.len() == 0 {
        assert(a + b =~= a);
        assert(x + Seq::<SIRStmt>::empty() =~= x);
    } else {
        assert((a + b).drop_last() =~= a + b.drop_last());
        assert((a + b).last() == b.last());
        law_statements_compose(c, a, b.drop_last());
        match tr_stmts(c1, b.drop_last()) {
            (TrOut::Done(y), c2) => {
                match tr_stmt(c2, b.last().kind, b.last().start, b.last().end) {
                    (TrOut::Done(s), c3) => {
                        assert((x + y).push(s) =~= x + y.push(s));
                    },
                    _ => {},
                }
            },
            _ => {},
        }
    }
}


/// Defining parameters keeps the number of scopes.
proof fn lemma_params_len(c: Seq<SScopeT>, args: Seq<SArgument>, n: int)
    requires
        c.len() > 0 || n <= 0,
    ensures
        tr_params(c, args, n).1.len() == c.len(),
    decreases n,
{
    if n > 0 {
        lemma_params_len(c, args, n - 1);
    }
}

/// Defining imported names keeps the number of scopes.
proof fn lemma_idents_len(c: Seq<SScopeT>, ids: Seq<SIdent>, n: int)
    requires
        c.len() > 0 || n <= 0,
    ensures
        tr_idents(c, ids, n).1.len() == c.len(),
    decreases n,
{
    if n > 0 {
        lemma_idents_len(c, ids, n - 1);
    }
}

/// A callee that is kept when it cannot be translated leaves the context
/// as it was.
proof fn lemma_keepable_context(c: Seq<SScopeT>, e: SExpr)
    requires
        keepable(e),
    ensures
        tr_expr(c, e).1 == c,
    decreases e,
{
    match e.kind {
        SExprKind::Member(o, p) => {
            lemma_keepable_context(c, *o);
            lemma_keepable_context(c, *p);
        },
        _ => {},
    }
}

/// An expression that translates leaves as many scopes as it found.
proof fn lemma_expr_len(c: Seq<SScopeT>, e: SExpr)
    requires
        tr_expr(c, e).0 is Done,
    ensures
        tr_expr(c, e).1.len() == c.len(),
    decreases e, 0int,
{
    match e.kind {
        SExprKind::Assignment(l, _, r) => {
            lemma_expr_len(c, *l);
            lemma_expr_len(tr_expr(c, *l).1, *r);
        },
        SExprKind::Member(l, r) => {
            lemma_expr_len(c, *l);
            lemma_expr_len(tr_expr(c, *l).1, *r);
        },
        SExprKind::Binary(l, _, r) => {
            lemma_expr_len(c, *l);
            lemma_expr_len(tr_expr(c, *l).1, *r);
        },
        SExprKind::Logical(l, _, r) => {
            lemma_expr_len(c, *l);
            lemma_expr_len(tr_expr(c, *l).1, *r);
        },
        SExprKind::Equality(l, _, r) => {
            lemma_expr_len(c, *l);
            lemma_expr_len(tr_expr(c, *l).1, *r);
        },
        SExprKind::Relational(l, _, r) => {
            lemma_expr_len(c, *l);
            lemma_expr_len(tr_expr(c, *l).1, *r);
        },
        SExprKind::Unary(l, _) => {
            lemma_expr_len(c, *l);
        },
        SExprKind::Call(callee, args) => {
            if tr_expr(c, *callee).0 is Done {
                lemma_expr_len(c, *callee);
            } else {
                lemma_keepable_context(c, *callee);
            }
            lemma_exprs_len(tr_expr(c, *callee).1, args);
        },
        SExprKind::Literal(SLiteralKind::Function(k), _) => {
            match *k {
                SStmtKind::Function(name, args, block, _) => {
                    lemma_function_len(c, name.value, args, block.statements);
                },
                _ => {},
            }
        },
        SExprKind::Literal(SLiteralKind::Array(values), _) => {
            lemma_exprs_len(c, values);
        },
        _ => {},
    }
}

/// Expressions that translate leave as many scopes as they found.
proof fn lemma_exprs_len(c: Seq<SScopeT>, es: Seq<SExpr>)
    requires
        tr_exprs(c, es).0 is Done,
    ensures
        tr_exprs(c, es).1.len() == c.len(),
    decreases es, 0int,
{
    if es.len() > 0 {
        lemma_exprs_len(c, es.drop_last());
        lemma_expr_len(tr_exprs(c, es.drop_last()).1, es.last());
    }
}

/// A function that translates closes the scope it opens.
proof fn lemma_function_len(c: Seq<SScopeT>, name: Seq<char>, args: Seq<SArgument>, body: Seq<SStmt>)
    requires
        tr_function(c, name, args, body).0 is Done,
    ensures
        tr_function(c, name, args, body).1.len() == c.len(),
    decreases body, 1int,
{
    let c1 = tr_set(c, name).1;
    let c2 = tr_set(tr_enter(c1, ScopeKind::Function), name).1;
    lemma_params_len(c2, args, args.len() as int);
    let c3 = tr_params(c2, args, args.len() as int).1;
    lemma_stmts_len(c3, body);
}

/// Statements that translate leave as many scopes as they found.
proof fn lemma_stmts_len(c: Seq<SScopeT>, ss: Seq<SStmt>)
    requires
        tr_stmts(c, ss).0 is Done,
    ensures
        tr_stmts(c, ss).1.len() == c.len(),
    decreases ss, 0int,
{
    if ss.len() > 0 {
        lemma_stmts_len(c, ss.drop_last());
        lemma_stmt_len(tr_stmts(c, ss.drop_last()).1, ss.last().kind, ss.last().start, ss.last().end);
    }
}

/// Methods that translate leave as many scopes as they found.
proof fn lemma_methods_len(c: Seq<SScopeT>, class: Seq<char>, ms: Seq<SStmt>)
    requires
        tr_methods(c, class, ms).0 is Done,
    ensures
        tr_methods(c, class, ms).1.len() == c.len(),
    decreases ms, 0int,
{
    if ms.len() > 0 {
        lemma_methods_len(c, class, ms.drop_last());
        let c1 = tr_methods(c, class, ms.drop_last()).1;
        match ms.last().kind {
            SStmtKind::Function(name, args, block, _) => {
                let c2 = tr_enter(c1, ScopeKind::Function);
                let c3 = if name.value == class {
                    tr_set(tr_set(c2, "0"@).1, "self"@).1
                } else {
                    tr_set(c2, name.value).1
                };
                lemma_params_len(c3, args, args.len() as int);
                lemma_stmts_len(tr_params(c3, args, args.len() as int).1, block.statements);
            },
            _ => {},
        }
    }
}

/// A statement that translates leaves as many scopes as it found.
proof fn lemma_stmt_len(c: Seq<SScopeT>, kind: SStmtKind, start: nat, end: nat)
    requires
        tr_stmt(c, kind, start, end).0 is Done,
    ensures
        tr_stmt(c, kind, start, end).1.len() == c.len(),
    decreases kind, 0int,
{
    match kind {
        SStmtKind::Expression(e) => {
            lemma_expr_len(c, e);
        },
        SStmtKind::If(cond, block, alternate) => {
            lemma_expr_len(c, cond);
            let c1 = tr_enter(tr_expr(c, cond).1, ScopeKind::Conditional);
            lemma_stmts_len(c1, block.statements);
            match alternate {
                Some(a) => {
                    lemma_stmt_len(tr_exit(tr_stmts(c1, block.statements).1), a.kind, a.start, a.end);
                },
                None => {},
            }
        },
        SStmtKind::Function(name, args, block, _) => {
            lemma_function_len(c, name.value, args, block.statements);
        },
        SStmtKind::Block(block) => {
            lemma_stmts_len(tr_enter(c, ScopeKind::Block), block.statements);
        },
        SStmtKind::For(variable, SIterable::Range(left, right), statements) => {
            let c1 = match left {
                Some(l) => {
                    lemma_expr_len(c, l);
                    tr_expr(c, l).1
                },
                None => c,
            };
            let c2 = match right {
                Some(r) => {
                    lemma_expr_len(c1, r);
                    tr_expr(c1, r).1
                },
                None => c1,
            };
            let c4 = tr_set(tr_enter(c2, ScopeKind::Loop), variable.value).1;
            lemma_stmts_len(c4, statements);
        },
        SStmtKind::While(cond, statements) => {
            let c1 = tr_enter(c, ScopeKind::Loop);
            lemma_expr_len(c1, cond);
            lemma_stmts_len(tr_expr(c1, cond).1, statements);
        },
        SStmtKind::Return(e) => {
            lemma_expr_len(c, e);
        },
        SStmtKind::Import(specifiers, _) => {
            lemma_idents_len(c, specifiers, specifiers.len() as int);
        },
        SStmtKind::Export(declaration) => {
            lemma_stmt_len(c, declaration.kind, declaration.start, declaration.end);
        },
        SStmtKind::Class(variable, methods, _, _, _) => {
            lemma_methods_len(tr_set(c, variable.value).1, variable.value, methods);
        },
        SStmtKind::VariableDefinition(SDescriptor::Identifier(id), e, _) => {
            lemma_expr_len(tr_set(c, id.value).1, e);
        },
        _ => {},
    }
}

/// A statement that translates closes every scope it opens: the context
/// after it has as many scopes as the context before.
pub proof fn law_statement_closes_its_scopes(c: Seq<SScopeT>, statement: SStmt)
    requires
        tr_stmt(c, statement.kind, statement.start, statement.end).0 is Done,
    ensures
        tr_stmt(c, statement.kind, statement.start, statement.end).1.len() == c.len(),
{
    lemma_stmt_len(c, statement.kind, statement.start, statement.end);
}


/// An arithmetic operation on two literals becomes a constant operation on
/// the left literal and then the right one, in the order of the source,
/// spanning from the left operand's start to the right operand's end; the
/// context is left as it was.
pub proof fn law_constant_keeps_operand_order(c: Seq<SScopeT>, l: SExpr, op: TokenKind, r: SExpr, start: nat, end: nat, x: SValue, y: SValue)
    requires
        l.kind == SExprKind::Literal(SLiteralKind::Literal, x),
        r.kind == SExprKind::Literal(SLiteralKind::Literal, y),
        op == TokenKind::Plus || op == TokenKind::Minus || op == TokenKind::Asterisk || op == TokenKind::Slash
            || op == TokenKind::Percent,
    ensures
        tr_expr(c, SExpr { kind: SExprKind::Binary(Box::new(l), op, Box::new(r)), start, end }) == (
            TrOut::Done(SIRExpr { kind: SIRKind::Constant(x, op, y), start: l.start, end: r.end }),
            c,
        ),
{
    assert(tr_expr(c, l) == (TrOut::Done(SIRExpr { kind: SIRKind::Literal(x), start: l.start, end: l.end }), c));
    assert(tr_expr(c, r) == (TrOut::Done(SIRExpr { kind: SIRKind::Literal(y), start: r.start, end: r.end }), c));
}


/// An arithmetic operation whose operands do not both translate to literals
/// keeps its operands in place: the left one translated first, in the
/// context given, the right one after it, in the context the left one left.
pub proof fn law_binary_keeps_operands_in_place(c: Seq<SScopeT>, l: SExpr, op: TokenKind, r: SExpr, start: nat, end: nat)
    requires
        tr_expr(c, l).0 is Done,
        tr_expr(tr_expr(c, l).1, r).0 is Done,
        !(tr_expr(c, l).0->Done_0.kind is Literal && tr_expr(tr_expr(c, l).1, r).0->Done_0.kind is Literal),
    ensures
        ({
            let (a, c1) = tr_expr(c, l);
            let (b, c2) = tr_expr(c1, r);
            tr_expr(c, SExpr { kind: SExprKind::Binary(Box::new(l), op, Box::new(r)), start, end }) == (
                TrOut::Done(SIRExpr { kind: SIRKind::Binary(Box::new(a->Done_0), op, Box::new(b->Done_0)), start, end }),
                c2,
            )
        }),
{
}

/// The depth of a resolved name, one more.
pub open spec fn deeper(r: Option<SVarRef>) -> Option<SVarRef> {
    match r {
        Some(v) => Some(SVarRef { depth: (v.depth + 1) as usize, ..v }),
        None => None,
    }
}

proof fn lemma_resolve_below(c: Seq<SScopeT>, x: SScopeT, name: Seq<char>, p: int, d: nat)
    requires
        0 <= p < c.len(),
        context_wf(c),
        d + p + 2 < usize::MAX,
    ensures
        resolve_from(c.push(x), name, p, d + 1) == deeper(resolve_from(c, name, p, d)),
    decreases p + 1,
{
    let c2 = c.push(x);
    assert(c2[p] == c[p]);
    if lookup(c[p].names, name) is None && next_scope(c, p) < p {
        if next_scope(c, p) >= 0 {
            lemma_resolve_below(c, x, name, next_scope(c, p), d + 1);
        }
    }
}

/// A name found from a context is found, one scope deeper, from inside a
/// new scope that is not a call scope and does not define it: opening a
/// block, a loop, a branch or a function adds one to the depth of every
/// name from outside it.
pub proof fn law_entering_scope_deepens_names(c: Seq<SScopeT>, k: ScopeKind, name: Seq<char>)
    requires
        context_wf(c),
        c.len() > 0,
        !(k is Call),
        c.len() + 1 < usize::MAX,
    ensures
        resolve(tr_enter(c, k), name) == deeper(resolve(c, name)),
{
    let c2 = tr_enter(c, k);
    assert(c2 == c.push(SScopeT { kind: k, slot_index: 0, names: Seq::empty() }));
    assert(!crate::entries::has_key(c2[c.len() as int].names, name));
    assert(lookup(c2[c.len() as int].names, name) is None);
    assert(next_scope(c2, c.len() as int) == c.len() - 1);
    lemma_resolve_below(c, SScopeT { kind: k, slot_index: 0, names: Seq::empty() }, name, c.len() - 1, 0);
}


/// A name translates to the slot and depth of the innermost scope that
/// defines it, counting the scopes passed on the way out; a name that no
/// scope defines is an error that names it. The context is left as it was.
pub proof fn law_name_resolution(c: Seq<SScopeT>, name: Seq<char>, start: nat, end: nat, p: int, s: SlotSymbol)
    requires
        context_wf(c),
        c.len() > 0,
        0 <= p < c.len(),
        lookup(c[p].names, name) == Some(s),
        forall|q: int| p < q < c.len() ==> lookup(#[trigger] c[q].names, name) is None && !(c[q].kind is Call),
    ensures
        tr_expr(c, SExpr { kind: SExprKind::Literal(SLiteralKind::Variable, SValue::String(name)), start, end }) == (
            TrOut::Done(SIRExpr {
                kind: SIRKind::Variable(SVarRef { name: None, slot: s.slot, depth: (c.len() - 1 - p) as usize, start: s.start, end: s.end }),
                start,
                end,
            }),
            c,
        ),
{
    lemma_resolve_outward(c, name, c.len() - 1, 0, p, s);
}

proof fn lemma_resolve_outward(c: Seq<SScopeT>, name: Seq<char>, q: int, d: nat, p: int, s: SlotSymbol)
    requires
        0 <= p <= q < c.len(),
        d == c.len() - 1 - q,
        lookup(c[p].names, name) == Some(s),
        forall|k: int| p < k < c.len() ==> lookup(#[trigger] c[k].names, name) is None && !(c[k].kind is Call),
    ensures
        resolve_from(c, name, q, d) == Some(SVarRef { name: None, slot: s.slot, depth: (c.len() - 1 - p) as usize, start: s.start, end: s.end }),
    decreases q,
{
    if q > p {
        assert(lookup(c[q].names, name) is None && !(c[q].kind is Call));
        assert(next_scope(c, q) == q - 1);
        lemma_resolve_outward(c, name, q - 1, d + 1, p, s);
    }
}

/// A name that no scope on the way out defines is an error naming it.
pub proof fn law_unknown_name_error(c: Seq<SScopeT>, name: Seq<char>, start: nat, end: nat)
    requires
        resolve(c, name) is None,
    ensures
        tr_expr(c, SExpr { kind: SExprKind::Literal(SLiteralKind::Variable, SValue::String(name)), start, end }) == (
            TrOut::<SIRExpr>::Fail(STrErr::UnknownVariable(name)),
            c,
        ),
{
}

} // verus!
