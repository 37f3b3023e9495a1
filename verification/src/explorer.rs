//! Walking a syntax tree. A visitor sees every statement it reaches, then
//! the parts of the statement in a fixed order, and a scope is opened around
//! each function body, conditional block and class body. What the walk does
//! to a visitor is stated over the visitor's view by the spec functions
//! `walk_stmt` and `walk_expr`, which fold the visitor's own transitions
//! along the same order.
use vstd::prelude::*;
use crate::analysis::ScopeId;
use crate::ast::{expression_entries, Argument, Block, Expression, ExpressionKind, Identifier, Iterable, LiteralExpressionKind, Program, SArgument, SBlock, SExpr, SExprKind, SIterable, SLiteralKind, SStmt, SStmtKind, Statement, StatementKind, stmts_view};
use crate::errors::Span;

verus! {

/// What walks a syntax tree, and how each event changes its view.
pub trait Visitor: View + Sized {
    /// Whether the visitor can take the next event.
    spec fn ready(v: Self::V) -> bool;

    /// Whether `parent` can be made the current scope again.
    spec fn can_exit(v: Self::V, parent: ScopeId) -> bool;

    /// Whether `b` is `a` after some events (a scope, once open, stays known).
    spec fn grows(a: Self::V, b: Self::V) -> bool;

    /// The view after the visitor has seen an expression.
    spec fn after_expression(v: Self::V, e: SExpr) -> Self::V;

    /// The view after the visitor has seen a statement (before its parts).
    spec fn after_statement(v: Self::V, s: SStmt) -> Self::V;

    /// The view after the visitor has seen a parameter of a function.
    spec fn after_argument(v: Self::V, a: SArgument) -> Self::V;

    /// The view after a scope covering `span` was opened.
    spec fn after_enter(v: Self::V, span: Span) -> Self::V;

    /// The scope that `enter_scope` returns: the one to go back to.
    spec fn entered(v: Self::V, span: Span) -> ScopeId;

    /// The view after `parent` was made the current scope again.
    spec fn after_exit(v: Self::V, parent: ScopeId) -> Self::V;

    proof fn lemma_grows_refl(a: Self::V)
        ensures
            Self::grows(a, a),
    ;

    proof fn lemma_grows_trans(a: Self::V, b: Self::V, c: Self::V)
        requires
            Self::grows(a, b),
            Self::grows(b, c),
        ensures
            Self::grows(a, c),
    ;

    proof fn lemma_can_exit_grows(a: Self::V, b: Self::V, parent: ScopeId)
        requires
            Self::can_exit(a, parent),
            Self::grows(a, b),
        ensures
            Self::can_exit(b, parent),
    ;

    fn visit_expression(&mut self, expression: &Expression)
        requires
            Self::ready(old(self)@),
        ensures
            Self::ready(final(self)@),
            final(self)@ == Self::after_expression(old(self)@, expression@),
            Self::grows(old(self)@, final(self)@),
    ;

    fn visit_statement(&mut self, kind: &StatementKind, start: usize, end: usize)
        requires
            Self::ready(old(self)@),
        ensures
            Self::ready(final(self)@),
            final(self)@ == Self::after_statement(old(self)@, SStmt { kind: kind@, start: start as nat, end: end as nat }),
            Self::grows(old(self)@, final(self)@),
    ;

    fn visit_argument(&mut self, argument: &Argument<Identifier, ()>)
        requires
            Self::ready(old(self)@),
        ensures
            Self::ready(final(self)@),
            final(self)@ == Self::after_argument(old(self)@, argument@),
            Self::grows(old(self)@, final(self)@),
    ;

    fn enter_scope(&mut self, span: Span) -> (r: ScopeId)
        requires
            Self::ready(old(self)@),
        ensures
            Self::ready(final(self)@),
            final(self)@ == Self::after_enter(old(self)@, span),
            r == Self::entered(old(self)@, span),
            Self::grows(old(self)@, final(self)@),
            Self::can_exit(final(self)@, r),
    ;

    fn exit_scope(&mut self, parent: ScopeId)
        requires
            Self::ready(old(self)@),
            Self::can_exit(old(self)@, parent),
        ensures
            Self::ready(final(self)@),
            final(self)@ == Self::after_exit(old(self)@, parent),
            Self::grows(old(self)@, final(self)@),
    ;
}

// ---------------------------------------------------------------------
// The order of the walk.

/// The span of a block.
pub open spec fn block_span(b: SBlock) -> Span {
    Span { start: b.start as usize, end: b.end as usize }
}

/// The parameters of a function, in order.
pub open spec fn walk_args<V: Visitor>(v: V::V, args: Seq<SArgument>) -> V::V
    decreases args.len(),
{
    if args.len() == 0 {
        v
    } else {
        V::after_argument(walk_args::<V>(v, args.drop_last()), args.last())
    }
}

/// A statement: the statement itself, then its parts.
pub open spec fn walk_stmt<V: Visitor>(v: V::V, s: SStmt) -> V::V {
    walk_kind::<V>(v, s.kind, s.start, s.end)
}

/// The statement of kind `kind` spanning `start..end`.
pub open spec fn walk_kind<V: Visitor>(v: V::V, kind: SStmtKind, start: nat, end: nat) -> V::V
    decreases kind,
{
    let v1 = V::after_statement(v, SStmt { kind, start, end });
    match kind {
        SStmtKind::Function(_, args, block, _) => {
            let span = block_span(block);
            let parent = V::entered(v1, span);
            let v2 = walk_stmts::<V>(walk_args::<V>(V::after_enter(v1, span), args), block.statements);
            V::after_exit(v2, parent)
        },
        SStmtKind::If(condition, block, alternate) => {
            let span = block_span(block);
            let p1 = V::entered(v1, span);
            let v2 = V::after_exit(walk_stmts::<V>(V::after_enter(v1, span), block.statements), p1);
            match alternate {
                Some(a) => {
                    let p2 = V::entered(v2, span);
                    let v3 = V::after_exit(walk_kind::<V>(V::after_enter(v2, span), a.kind, a.start, a.end), p2);
                    walk_expr::<V>(v3, condition)
                },
                None => walk_expr::<V>(v2, condition),
            }
        },
        SStmtKind::Block(block) => walk_stmts::<V>(v1, block.statements),
        SStmtKind::While(_, statements) => walk_stmts::<V>(v1, statements),
        SStmtKind::For(_, iterable, statements) => {
            let v2 = match iterable {
                SIterable::Range(left, right) => {
                    let v3 = match left {
                        Some(l) => walk_expr::<V>(v1, l),
                        None => v1,
                    };
                    match right {
                        Some(r) => walk_expr::<V>(v3, r),
                        None => v3,
                    }
                },
                SIterable::Array(e) => walk_expr::<V>(v1, e),
            };
            walk_stmts::<V>(v2, statements)
        },
        SStmtKind::Class(_, methods, fields, body_start, body_end) => {
            let span = Span { start: body_start as usize, end: body_end as usize };
            let parent = V::entered(v1, span);
            let v2 = walk_stmts::<V>(walk_stmts::<V>(V::after_enter(v1, span), methods), fields);
            V::after_exit(v2, parent)
        },
        SStmtKind::Export(declaration) => walk_kind::<V>(v1, declaration.kind, declaration.start, declaration.end),
        SStmtKind::Return(e) => walk_expr::<V>(v1, e),
        SStmtKind::Expression(e) => walk_expr::<V>(v1, e),
        SStmtKind::VariableDefinition(_, e, _) => walk_expr::<V>(v1, e),
        _ => v1,
    }
}

/// Statements, in order.
pub open spec fn walk_stmts<V: Visitor>(v: V::V, ss: Seq<SStmt>) -> V::V
    decreases ss,
{
    if ss.len() == 0 {
        v
    } else {
        walk_kind::<V>(walk_stmts::<V>(v, ss.drop_last()), ss.last().kind, ss.last().start, ss.last().end)
    }
}

/// An expression: the expression itself, then its parts.
pub open spec fn walk_expr<V: Visitor>(v: V::V, e: SExpr) -> V::V
    decreases e,
{
    let v1 = V::after_expression(v, e);
    match e.kind {
        SExprKind::Binary(l, _, r) => walk_expr::<V>(walk_expr::<V>(v1, *l), *r),
        SExprKind::Equality(l, _, r) => walk_expr::<V>(walk_expr::<V>(v1, *l), *r),
        SExprKind::Logical(l, _, r) => walk_expr::<V>(walk_expr::<V>(v1, *l), *r),
        SExprKind::Relational(l, _, r) => walk_expr::<V>(walk_expr::<V>(v1, *l), *r),
        SExprKind::Assignment(l, _, r) => walk_expr::<V>(walk_expr::<V>(v1, *l), *r),
        SExprKind::Unary(l, _) => walk_expr::<V>(v1, *l),
        SExprKind::Call(callee, arguments) => walk_exprs::<V>(walk_expr::<V>(v1, *callee), arguments),
        SExprKind::Member(object, property) => walk_expr::<V>(walk_expr::<V>(v1, *object), *property),
        SExprKind::Literal(SLiteralKind::Function(kind), _) => walk_kind::<V>(v1, *kind, 0, 0),
        SExprKind::Literal(SLiteralKind::Array(values), _) => walk_exprs::<V>(v1, values),
        SExprKind::Literal(SLiteralKind::Object(entries), _) => walk_entries::<V>(v1, entries),
        _ => v1,
    }
}

/// Expressions, in order.
pub open spec fn walk_exprs<V: Visitor>(v: V::V, es: Seq<SExpr>) -> V::V
    decreases es,
{
    if es.len() == 0 {
        v
    } else {
        walk_expr::<V>(walk_exprs::<V>(v, es.drop_last()), es.last())
    }
}

/// The values of object entries, in order.
pub open spec fn walk_entries<V: Visitor>(v: V::V, es: Seq<(Seq<char>, SExpr)>) -> V::V
    decreases es,
{
    if es.len() == 0 {
        v
    } else {
        walk_expr::<V>(walk_entries::<V>(v, es.drop_last()), es.last().1)
    }
}

// ---------------------------------------------------------------------
// The walk.

/// Walks statements in order.
fn walk_statements<V: Visitor>(visitor: &mut V, statements: &Vec<Statement>)
    requires
        V::ready(old(visitor)@),
    ensures
        V::ready(final(visitor)@),
        final(visitor)@ == walk_stmts::<V>(old(visitor)@, stmts_view(statements@)),
        V::grows(old(visitor)@, final(visitor)@),
    decreases stmts_view(statements@),
{
    let ghost v0 = visitor@;
    let ghost ss = stmts_view(statements@);
    proof {
        V::lemma_grows_refl(v0);
        assert(ss.take(0) =~= Seq::<SStmt>::empty());
    }
    let mut i: usize = 0;
    while i < statements.len()
        invariant
            i <= statements@.len(),
            ss == stmts_view(statements@),
            V::ready(visitor@),
            visitor@ == walk_stmts::<V>(v0, ss.take(i as int)),
            V::grows(v0, visitor@),
        decreases statements.len() - i,
    {
        let statement = &statements[i];
        let ghost before = visitor@;
        proof {
            assert(ss[i as int] == statement@);
            assert(decreases_to!(ss => ss[i as int]));
            assert(decreases_to!(ss[i as int] => ss[i as int].kind));
        }
        walk_statement_kind(visitor, &statement.kind, statement.start, statement.end);
        proof {
            assert(ss.take(i as int + 1).drop_last() =~= ss.take(i as int));
            assert(ss.take(i as int + 1).last() == statement@);
            V::lemma_grows_trans(v0, before, visitor@);
        }
        i += 1;
    }
    proof {
        assert(ss.take(i as int) =~= ss);
    }
}

/// Walks the statements of a block.
pub fn walk_block<V: Visitor>(visitor: &mut V, block: &Block)
    requires
        V::ready(old(visitor)@),
    ensures
        V::ready(final(visitor)@),
        final(visitor)@ == walk_stmts::<V>(old(visitor)@, block@.statements),
        V::grows(old(visitor)@, final(visitor)@),
{
    proof {
        assert(block@.statements =~= stmts_view(block.statements@));
    }
    walk_statements(visitor, &block.statements);
}

/// `walk_statement`: visits a statement, then walks its parts.
pub fn walk_statement<V: Visitor>(visitor: &mut V, statement: &Statement)
    requires
        V::ready(old(visitor)@),
    ensures
        V::ready(final(visitor)@),
        final(visitor)@ == walk_stmt::<V>(old(visitor)@, statement@),
        V::grows(old(visitor)@, final(visitor)@),
{
    walk_statement_kind(visitor, &statement.kind, statement.start, statement.end);
}

/// Visits the statement of kind `kind` spanning `start..end`, then walks
/// its parts.
fn walk_statement_kind<V: Visitor>(visitor: &mut V, kind: &StatementKind, start: usize, end: usize)
    requires
        V::ready(old(visitor)@),
    ensures
        V::ready(final(visitor)@),
        final(visitor)@ == walk_kind::<V>(old(visitor)@, kind@, start as nat, end as nat),
        V::grows(old(visitor)@, final(visitor)@),
    decreases kind@,
{
    let ghost v0 = visitor@;
    visitor.visit_statement(kind, start, end);
    let ghost v1 = visitor@;
    match kind {
        StatementKind::Function { arguments, block, .. } => {
            let span = block.get_span();
            let parent = visitor.enter_scope(span);
            let ghost v2 = visitor@;
            let mut i: usize = 0;
            proof {
                V::lemma_grows_refl(v2);
                assert(kind@->Function_1.take(0) =~= Seq::<SArgument>::empty());
            }
            while i < arguments.len()
                invariant
                    i <= arguments@.len(),
                    V::ready(visitor@),
                    kind@->Function_1 == arguments@.map_values(|a: Argument<Identifier, ()>| a@),
                    visitor@ == walk_args::<V>(v2, kind@->Function_1.take(i as int)),
                    V::grows(v2, visitor@),
                decreases arguments.len() - i,
            {
                let ghost before = visitor@;
                visitor.visit_argument(&arguments[i]);
                proof {
                    assert(kind@->Function_1.take(i as int + 1).drop_last() =~= kind@->Function_1.take(i as int));
                    V::lemma_grows_trans(v2, before, visitor@);
                }
                i += 1;
            }
            proof {
                assert(kind@->Function_1.take(i as int) =~= kind@->Function_1);
                assert(kind@->Function_2.statements =~= stmts_view(block.statements@));
                assert(decreases_to!(kind@ => stmts_view(block.statements@)));
            }
            let ghost v3 = visitor@;
            walk_statements(visitor, &block.statements);
            proof {
                V::lemma_grows_trans(v2, v3, visitor@);
                V::lemma_can_exit_grows(v2, visitor@, parent);
            }
            let ghost v4 = visitor@;
            visitor.exit_scope(parent);
            proof {
                V::lemma_grows_trans(v0, v1, v2);
                V::lemma_grows_trans(v0, v2, v4);
                V::lemma_grows_trans(v0, v4, visitor@);
            }
        },
        StatementKind::If { condition, block, alternate } => {
            let span = block.get_span();
            let p1 = visitor.enter_scope(span);
            let ghost v2 = visitor@;
            proof {
                assert(kind@->If_0 == condition@);
                assert(decreases_to!(kind@ => kind@->If_0));
                assert(kind@->If_1.statements =~= stmts_view(block.statements@));
                assert(decreases_to!(kind@ => stmts_view(block.statements@)));
            }
            walk_statements(visitor, &block.statements);
            proof {
                V::lemma_can_exit_grows(v2, visitor@, p1);
            }
            let ghost v3 = visitor@;
            visitor.exit_scope(p1);
            let ghost v4 = visitor@;
            proof {
                V::lemma_grows_trans(v0, v1, v2);
                V::lemma_grows_trans(v0, v2, v3);
                V::lemma_grows_trans(v0, v3, v4);
            }
            match alternate {
                Some(a) => {
                    let p2 = visitor.enter_scope(span);
                    let ghost v5 = visitor@;
                    proof {
                        assert(kind@->If_2 == Some(Box::new((**a)@)));
                        assert(decreases_to!(kind@ => kind@->If_2));
                        assert(decreases_to!(kind@->If_2 => kind@->If_2->Some_0));
                        assert(decreases_to!(kind@->If_2->Some_0 => kind@->If_2->Some_0.kind));
                    }
                    walk_statement_kind(visitor, &a.kind, a.start, a.end);
                    proof {
                        V::lemma_can_exit_grows(v5, visitor@, p2);
                    }
                    let ghost v6 = visitor@;
                    visitor.exit_scope(p2);
                    let ghost v7 = visitor@;
                    walk_expression(visitor, condition);
                    proof {
                        V::lemma_grows_trans(v0, v4, v5);
                        V::lemma_grows_trans(v0, v5, v6);
                        V::lemma_grows_trans(v0, v6, v7);
                        V::lemma_grows_trans(v0, v7, visitor@);
                    }
                },
                None => {
                    walk_expression(visitor, condition);
                    proof {
                        V::lemma_grows_trans(v0, v4, visitor@);
                    }
                },
            }
        },
        StatementKind::Block(block) => {
            proof {
                assert(kind@->Block_0.statements =~= stmts_view(block.statements@));
                assert(decreases_to!(kind@ => stmts_view(block.statements@)));
            }
            walk_statements(visitor, &block.statements);
            proof {
                V::lemma_grows_trans(v0, v1, visitor@);
            }
        },
        StatementKind::While { statements, .. } => {
            proof {
                assert(kind@->While_1 =~= stmts_view(statements@));
            }
            walk_statements(visitor, statements);
            proof {
                V::lemma_grows_trans(v0, v1, visitor@);
            }
        },
        StatementKind::For { iterable, statements, .. } => {
            proof {
                assert(kind@->For_1 == iterable@);
                assert(decreases_to!(kind@ => kind@->For_1));
            }
            match iterable {
                Iterable::Range(left, right) => {
                    if let Some(l) = left {
                        let ghost b = visitor@;
                        proof {
                            assert(kind@->For_1->Range_0 == Some(l@));
                            assert(decreases_to!(kind@->For_1 => kind@->For_1->Range_0));
                            assert(decreases_to!(kind@->For_1->Range_0 => kind@->For_1->Range_0->Some_0));
                        }
                        walk_expression(visitor, l);
                        proof {
                            V::lemma_grows_trans(v0, b, visitor@);
                        }
                    }
                    if let Some(r) = right {
                        let ghost b = visitor@;
                        proof {
                            assert(kind@->For_1->Range_1 == Some(r@));
                            assert(decreases_to!(kind@->For_1 => kind@->For_1->Range_1));
                            assert(decreases_to!(kind@->For_1->Range_1 => kind@->For_1->Range_1->Some_0));
                        }
                        walk_expression(visitor, r);
                        proof {
                            V::lemma_grows_trans(v0, b, visitor@);
                        }
                    }
                },
                Iterable::Array(e) => {
                    proof {
                        assert(decreases_to!(kind@->For_1 => kind@->For_1->Array_0));
                    }
                    walk_expression(visitor, e);
                    proof {
                        V::lemma_grows_trans(v0, v1, visitor@);
                    }
                },
            }
            proof {
                assert(kind@->For_2 =~= stmts_view(statements@));
                assert(decreases_to!(kind@ => kind@->For_2));
            }
            let ghost b = visitor@;
            walk_statements(visitor, statements);
            proof {
                V::lemma_grows_trans(v0, b, visitor@);
            }
        },
        StatementKind::Class { methods, fields, body_start, body_end, .. } => {
            let span = Span { start: *body_start, end: *body_end };
            let parent = visitor.enter_scope(span);
            let ghost v2 = visitor@;
            proof {
                assert(kind@->Class_1 =~= stmts_view(methods@));
                assert(kind@->Class_2 =~= stmts_view(fields@));
            }
            walk_statements(visitor, methods);
            let ghost v3 = visitor@;
            walk_statements(visitor, fields);
            proof {
                V::lemma_grows_trans(v2, v3, visitor@);
                V::lemma_can_exit_grows(v2, visitor@, parent);
            }
            let ghost v4 = visitor@;
            visitor.exit_scope(parent);
            proof {
                V::lemma_grows_trans(v0, v1, v2);
                V::lemma_grows_trans(v0, v2, v4);
                V::lemma_grows_trans(v0, v4, visitor@);
            }
        },
        StatementKind::Export { declaration } => {
            proof {
                assert(kind@->Export_0 == Box::new((**declaration)@));
                assert(decreases_to!(kind@ => kind@->Export_0));
                assert(decreases_to!(kind@->Export_0 => kind@->Export_0.kind));
            }
            walk_statement_kind(visitor, &declaration.kind, declaration.start, declaration.end);
            proof {
                V::lemma_grows_trans(v0, v1, visitor@);
            }
        },
        StatementKind::Return { expression } => {
            proof {
                assert(decreases_to!(kind@ => kind@->Return_0));
            }
            walk_expression(visitor, expression);
            proof {
                V::lemma_grows_trans(v0, v1, visitor@);
            }
        },
        StatementKind::Expression { expression } => {
            proof {
                assert(decreases_to!(kind@ => kind@->Expression_0));
            }
            walk_expression(visitor, expression);
            proof {
                V::lemma_grows_trans(v0, v1, visitor@);
            }
        },
        StatementKind::VariableDefinition { expression, .. } => {
            proof {
                assert(decreases_to!(kind@ => kind@->VariableDefinition_1));
            }
            walk_expression(visitor, expression);
            proof {
                V::lemma_grows_trans(v0, v1, visitor@);
            }
        },
        _ => {},
    }
}

/// `walk_expression`: visits an expression, then walks its parts.
pub fn walk_expression<V: Visitor>(visitor: &mut V, expression: &Expression)
    requires
        V::ready(old(visitor)@),
    ensures
        V::ready(final(visitor)@),
        final(visitor)@ == walk_expr::<V>(old(visitor)@, expression@),
        V::grows(old(visitor)@, final(visitor)@),
    decreases expression@,
{
    let ghost v0 = visitor@;
    visitor.visit_expression(expression);
    let ghost v1 = visitor@;
    match &expression.kind {
        ExpressionKind::Binary { left, right, .. } => {
            proof {
                assert(decreases_to!(expression@ => expression@.kind));
                assert(decreases_to!(expression@.kind => *expression@.kind->Binary_0));
                assert(decreases_to!(expression@.kind => *expression@.kind->Binary_2));
            }
            walk_expression(visitor, left);
            let ghost v2 = visitor@;
            walk_expression(visitor, right);
            proof {
                V::lemma_grows_trans(v0, v1, v2);
                V::lemma_grows_trans(v0, v2, visitor@);
            }
        },
        ExpressionKind::Equality { left, right, .. } => {
            proof {
                assert(decreases_to!(expression@ => expression@.kind));
                assert(decreases_to!(expression@.kind => *expression@.kind->Equality_0));
                assert(decreases_to!(expression@.kind => *expression@.kind->Equality_2));
            }
            walk_expression(visitor, left);
            let ghost v2 = visitor@;
            walk_expression(visitor, right);
            proof {
                V::lemma_grows_trans(v0, v1, v2);
                V::lemma_grows_trans(v0, v2, visitor@);
            }
        },
        ExpressionKind::Logical { left, right, .. } => {
            proof {
                assert(decreases_to!(expression@ => expression@.kind));
                assert(decreases_to!(expression@.kind => *expression@.kind->Logical_0));
                assert(decreases_to!(expression@.kind => *expression@.kind->Logical_2));
            }
            walk_expression(visitor, left);
            let ghost v2 = visitor@;
            walk_expression(visitor, right);
            proof {
                V::lemma_grows_trans(v0, v1, v2);
                V::lemma_grows_trans(v0, v2, visitor@);
            }
        },
        ExpressionKind::Relational { left, right, .. } => {
            proof {
                assert(decreases_to!(expression@ => expression@.kind));
                assert(decreases_to!(expression@.kind => *expression@.kind->Relational_0));
                assert(decreases_to!(expression@.kind => *expression@.kind->Relational_2));
            }
            walk_expression(visitor, left);
            let ghost v2 = visitor@;
            walk_expression(visitor, right);
            proof {
                V::lemma_grows_trans(v0, v1, v2);
                V::lemma_grows_trans(v0, v2, visitor@);
            }
        },
        ExpressionKind::Assignment { left, right, .. } => {
            proof {
                assert(decreases_to!(expression@ => expression@.kind));
                assert(decreases_to!(expression@.kind => *expression@.kind->Assignment_0));
                assert(decreases_to!(expression@.kind => *expression@.kind->Assignment_2));
            }
            walk_expression(visitor, left);
            let ghost v2 = visitor@;
            walk_expression(visitor, right);
            proof {
                V::lemma_grows_trans(v0, v1, v2);
                V::lemma_grows_trans(v0, v2, visitor@);
            }
        },
        ExpressionKind::Unary { left, .. } => {
            proof {
                assert(decreases_to!(expression@ => expression@.kind));
                assert(decreases_to!(expression@.kind => *expression@.kind->Unary_0));
            }
            walk_expression(visitor, left);
            proof {
                V::lemma_grows_trans(v0, v1, visitor@);
            }
        },
        ExpressionKind::Member { object, property } => {
            proof {
                assert(decreases_to!(expression@ => expression@.kind));
                assert(decreases_to!(expression@.kind => *expression@.kind->Member_0));
                assert(decreases_to!(expression@.kind => *expression@.kind->Member_1));
            }
            walk_expression(visitor, object);
            let ghost v2 = visitor@;
            walk_expression(visitor, property);
            proof {
                V::lemma_grows_trans(v0, v1, v2);
                V::lemma_grows_trans(v0, v2, visitor@);
            }
        },
        ExpressionKind::Call { callee, arguments } => {
            proof {
                assert(decreases_to!(expression@ => expression@.kind));
                assert(decreases_to!(expression@.kind => *expression@.kind->Call_0));
            }
            walk_expression(visitor, callee);
            let ghost v2 = visitor@;
            let ghost es = expression@.kind->Call_1;
            proof {
                V::lemma_grows_trans(v0, v1, v2);
                assert(es.take(0) =~= Seq::<SExpr>::empty());
                assert(decreases_to!(expression@.kind => expression@.kind->Call_1));
            }
            let mut i: usize = 0;
            while i < arguments.len()
                invariant
                    i <= arguments@.len(),
                    decreases_to!(expression@ => es),
                    es.len() == arguments@.len(),
                    forall|j: int| 0 <= j < es.len() ==> es[j] == (#[trigger] arguments@[j])@,
                    V::ready(visitor@),
                    visitor@ == walk_exprs::<V>(v2, es.take(i as int)),
                    V::grows(v0, visitor@),
                decreases arguments.len() - i,
            {
                let ghost before = visitor@;
                proof {
                    assert(es[i as int] == arguments@[i as int]@);
                    assert(decreases_to!(es => es[i as int]));
                }
                walk_expression(visitor, &arguments[i]);
                proof {
                    assert(es.take(i as int + 1).drop_last() =~= es.take(i as int));
                    V::lemma_grows_trans(v0, before, visitor@);
                }
                i += 1;
            }
            proof {
                assert(es.take(i as int) =~= es);
            }
        },
        ExpressionKind::Literal { literal_kind, value } => {
            proof {
                assert(expression@.kind == SExprKind::Literal(literal_kind@, value@));
                assert(decreases_to!(expression@ => expression@.kind));
                assert(decreases_to!(expression@.kind => expression@.kind->Literal_0));
            }
            match literal_kind {
                LiteralExpressionKind::Function(kind) => {
                    proof {
                        assert(literal_kind@ == SLiteralKind::Function(Box::new((**kind)@)));
                        assert(decreases_to!(expression@.kind->Literal_0 => expression@.kind->Literal_0->Function_0));
                    }
                    walk_statement_kind(visitor, kind, 0, 0);
                    proof {
                        V::lemma_grows_trans(v0, v1, visitor@);
                    }
                },
                LiteralExpressionKind::Array(values) => {
                    let ghost es = expression@.kind->Literal_0->Array_0;
                    proof {
                        assert(literal_kind@ is Array);
                        assert(es.len() == values@.len());
                        assert(forall|j: int| 0 <= j < es.len() ==> es[j] == (#[trigger] values@[j])@);
                        assert(decreases_to!(expression@.kind->Literal_0 => es));
                        V::lemma_grows_refl(v1);
                        assert(es.take(0) =~= Seq::<SExpr>::empty());
                    }
                    let mut i: usize = 0;
                    while i < values.len()
                        invariant
                            i <= values@.len(),
                            decreases_to!(expression@ => es),
                            es.len() == values@.len(),
                            forall|j: int| 0 <= j < es.len() ==> es[j] == (#[trigger] values@[j])@,
                            V::ready(visitor@),
                            visitor@ == walk_exprs::<V>(v1, es.take(i as int)),
                            V::grows(v0, visitor@),
                        decreases values.len() - i,
                    {
                        let ghost before = visitor@;
                        proof {
                            assert(es[i as int] == values@[i as int]@);
                            assert(decreases_to!(es => es[i as int]));
                        }
                        walk_expression(visitor, &values[i]);
                        proof {
                            assert(es.take(i as int + 1).drop_last() =~= es.take(i as int));
                            V::lemma_grows_trans(v0, before, visitor@);
                        }
                        i += 1;
                    }
                    proof {
                        assert(es.take(i as int) =~= es);
                    }
                },
                LiteralExpressionKind::Object(map) => {
                    let entries = map.entries();
                    let ghost es = expression@.kind->Literal_0->Object_0;
                    proof {
                        assert(es == expression_entries(*map));
                        assert(decreases_to!(expression@.kind->Literal_0 => es));
                        assert forall|j: int| 0 <= j < es.len() implies es[j].1 == (#[trigger] entries@[j]).1@ by {
                            assert(expression_entries(*map)[j].0 == entries@[j].0@);
                        }
                        V::lemma_grows_refl(v1);
                        assert(es.take(0) =~= Seq::<(Seq<char>, SExpr)>::empty());
                    }
                    let mut i: usize = 0;
                    while i < entries.len()
                        invariant
                            i <= entries@.len(),
                            decreases_to!(expression@ => es),
                            es.len() == entries@.len(),
                            forall|j: int| 0 <= j < es.len() ==> es[j].1 == (#[trigger] entries@[j]).1@,
                            V::ready(visitor@),
                            visitor@ == walk_entries::<V>(v1, es.take(i as int)),
                            V::grows(v0, visitor@),
                        decreases entries.len() - i,
                    {
                        let ghost before = visitor@;
                        let value = entries[i].1;
                        proof {
                            assert(es[i as int].1 == value@);
                            assert(decreases_to!(es => es[i as int]));
                            assert(decreases_to!(es[i as int] => es[i as int].1));
                        }
                        walk_expression(visitor, value);
                        proof {
                            assert(es.take(i as int + 1).drop_last() =~= es.take(i as int));
                            V::lemma_grows_trans(v0, before, visitor@);
                        }
                        i += 1;
                    }
                    proof {
                        assert(es.take(i as int) =~= es);
                    }
                },
                _ => {},
            }
        },
    }
}

/// `visit_program`: walks the statements of a program in order.
pub fn visit_program<V: Visitor>(program: &Program, visitor: &mut V)
    requires
        V::ready(old(visitor)@),
    ensures
        V::ready(final(visitor)@),
        final(visitor)@ == walk_stmts::<V>(old(visitor)@, program@),
        V::grows(old(visitor)@, final(visitor)@),
{
    walk_statements(visitor, &program.body);
}

// ---------------------------------------------------------------------
// Laws.

/// Walking two runs of statements one after the other is walking them
/// together: a program can be walked in parts.
pub proof fn law_walk_concat<V: Visitor>(v: V::V, a: Seq<SStmt>, b: Seq<SStmt>)
    ensures
        walk_stmts::<V>(v, a + b) == walk_stmts::<V>(walk_stmts::<V>(v, a), b),
    decreases b.len(),
{
    if b.len() == 0 {
        assert(a + b =~= a);
    } else {
        law_walk_concat::<V>(v, a, b.drop_last());
        assert((a + b).drop_last() =~= a + b.drop_last());
        assert((a + b).last() == b.last());
    }
}

} // verus!
