//! The syntax tree that the parser builds, and its mathematical view.
use vstd::prelude::*;
use crate::errors::Span;
use crate::entries::{distinct_keys, map_insert};
use crate::lexer::{KeywordKind, TokenKind};
use indexmap::IndexMap;

verus! {

/// A name in the source, with its byte range.
#[derive(Debug)]
pub struct Identifier {
    pub value: String,
    pub start: usize,
    pub end: usize,
}

/// A string literal in the source (its text without the quotes), with the
/// byte range of the whole literal.
#[derive(Debug)]
pub struct StringLiteral {
    pub value: String,
    pub start: usize,
    pub end: usize,
}

/// A type annotation.
#[derive(Debug)]
pub enum TypeRef {
    Named(Identifier),
    Array { type_ref: Box<TypeRef>, span: Span },
    /// The entries of an object type, in the order of their first
    /// occurrence; a repeated key keeps its place and takes the later type.
    Object { entries: TypeRefMap, span: Span },
}

/// A parameter of a function: its name, its annotation, and its type in
/// the form of the stage (nothing in the syntax tree).
#[derive(Debug)]
pub struct Argument<T, TypeFormat> {
    pub variable: T,
    pub type_ref: Option<TypeRef>,
    pub ty: TypeFormat,
}

/// What a `for` loop runs over.
#[derive(Debug)]
pub enum Iterable {
    Range(Option<Expression>, Option<Expression>),
    Array(Expression),
}

/// What a `let` binds.
#[derive(Debug)]
pub enum VariableDescriptor {
    Identifier(Identifier),
    Object(Vec<VariableDescriptor>),
}

/// The visibility of a class field.
#[derive(Debug, Clone, Copy, PartialEq, Eq, Structural)]
pub enum Visibility {
    Public,
    Protected,
    Private,
}

/// The value a literal carries. A number is kept as the text of its token.
#[derive(Debug)]
pub enum ValueHolder {
    String(String),
    Number(String),
    Bool(bool),
    Void,
}

/// The kinds of literal expressions.
#[derive(Debug)]
pub enum LiteralExpressionKind {
    Literal,
    Variable,
    /// Object entries in the order of first occurrence of their keys.
    Object(ExpressionMap),
    Array(Vec<Expression>),
    Function(Box<StatementKind>),
}

/// An expression with its byte range.
#[derive(Debug)]
pub struct Expression {
    pub kind: ExpressionKind,
    pub start: usize,
    pub end: usize,
}

/// The kinds of expressions.
#[derive(Debug)]
pub enum ExpressionKind {
    Literal { literal_kind: LiteralExpressionKind, value: ValueHolder },
    Unary { left: Box<Expression>, operator: TokenKind },
    Member { object: Box<Expression>, property: Box<Expression> },
    Binary { left: Box<Expression>, operator: TokenKind, right: Box<Expression> },
    Relational { left: Box<Expression>, operator: TokenKind, right: Box<Expression> },
    Logical { left: Box<Expression>, operator: TokenKind, right: Box<Expression> },
    Equality { left: Box<Expression>, operator: TokenKind, right: Box<Expression> },
    Call { callee: Box<Expression>, arguments: Vec<Expression> },
    Assignment { left: Box<Expression>, operator: TokenKind, right: Box<Expression> },
}

/// A braced block of statements with the byte range between its braces.
#[derive(Debug)]
pub struct Block {
    pub statements: Vec<Statement>,
    pub start: usize,
    pub end: usize,
}

/// A statement with its byte range.
#[derive(Debug)]
pub struct Statement {
    pub kind: StatementKind,
    pub start: usize,
    pub end: usize,
}

/// The kinds of statements.
#[derive(Debug)]
pub enum StatementKind {
    Expression { expression: Expression },
    If { condition: Expression, block: Block, alternate: Option<Box<Statement>> },
    For { variable: Identifier, iterable: Iterable, statements: Vec<Statement> },
    Function {
        variable: Identifier,
        arguments: Vec<Argument<Identifier, ()>>,
        block: Block,
        return_type_ref: Option<TypeRef>,
        return_ty: (),
    },
    While { condition: Expression, statements: Vec<Statement> },
    Return { expression: Expression },
    Break,
    Continue,
    Block(Block),
    Import { specifiers: Vec<Identifier>, source: StringLiteral },
    Export { declaration: Box<Statement> },
    Class {
        variable: Identifier,
        methods: Vec<Statement>,
        fields: Vec<Statement>,
        body_start: usize,
        body_end: usize,
    },
    Field { visibility: Visibility, name: String, value: Expression },
    VariableDefinition {
        descriptor: VariableDescriptor,
        expression: Expression,
        type_ref: Option<TypeRef>,
        ty: (),
    },
}

/// A whole program.
#[derive(Debug)]
pub struct Program {
    pub body: Vec<Statement>,
}

impl ExpressionKind {
    pub fn into_expression(self, start: usize, end: usize) -> (r: Expression)
        ensures
            r == (Expression { kind: self, start, end }),
    {
        Expression { kind: self, start, end }
    }
}

impl StatementKind {
    pub fn into_statement(self, start: usize, end: usize) -> (r: Statement)
        ensures
            r == (Statement { kind: self, start, end }),
    {
        Statement { kind: self, start, end }
    }
}

impl Block {
    pub fn get_span(&self) -> (r: Span)
        ensures
            r == (Span { start: self.start, end: self.end }),
    {
        Span { start: self.start, end: self.end }
    }
}

impl TypeRef {
    pub fn get_span(&self) -> (r: Span)
        ensures
            r == self.span_of(),
    {
        match self {
            TypeRef::Named(ident) => Span { start: ident.start, end: ident.end },
            TypeRef::Array { span, .. } => *span,
            TypeRef::Object { span, .. } => *span,
        }
    }

    pub open spec fn span_of(&self) -> Span {
        match self {
            TypeRef::Named(ident) => Span { start: ident.start, end: ident.end },
            TypeRef::Array { span, .. } => *span,
            TypeRef::Object { span, .. } => *span,
        }
    }
}

impl Visibility {
    /// The visibility that a visibility keyword stands for.
    pub fn from(kind: &TokenKind) -> (r: Visibility)
        requires
            visibility_of(*kind) is Some,
        ensures
            Some(r) == visibility_of(*kind),
    {
        match kind {
            TokenKind::Keyword(KeywordKind::Public) => Visibility::Public,
            TokenKind::Keyword(KeywordKind::Protected) => Visibility::Protected,
            _ => Visibility::Private,
        }
    }
}

/// The visibility a token kind stands for, if it is a visibility keyword.
pub open spec fn visibility_of(kind: TokenKind) -> Option<Visibility> {
    match kind {
        TokenKind::Keyword(KeywordKind::Public) => Some(Visibility::Public),
        TokenKind::Keyword(KeywordKind::Protected) => Some(Visibility::Protected),
        TokenKind::Keyword(KeywordKind::Private) => Some(Visibility::Private),
        _ => None,
    }
}

// ---------------------------------------------------------------------
// The mathematical view of the syntax tree.

#[verifier::ext_equal]
pub struct SIdent {
    pub value: Seq<char>,
    pub start: nat,
    pub end: nat,
}

#[verifier::ext_equal]
pub enum STypeRef {
    Named(SIdent),
    Array(Box<STypeRef>, Span),
    Object(Seq<(Seq<char>, STypeRef)>, Span),
}

#[verifier::ext_equal]
pub struct SArgument {
    pub variable: SIdent,
    pub type_ref: Option<STypeRef>,
}

#[verifier::ext_equal]
pub enum SIterable {
    Range(Option<SExpr>, Option<SExpr>),
    Array(SExpr),
}

#[verifier::ext_equal]
pub enum SValue {
    String(Seq<char>),
    Number(Seq<char>),
    Bool(bool),
    Void,
}

#[verifier::ext_equal]
pub enum SLiteralKind {
    Literal,
    Variable,
    Object(Seq<(Seq<char>, SExpr)>),
    Array(Seq<SExpr>),
    Function(Box<SStmtKind>),
}

#[verifier::ext_equal]
pub struct SExpr {
    pub kind: SExprKind,
    pub start: nat,
    pub end: nat,
}

#[verifier::ext_equal]
pub enum SExprKind {
    Literal(SLiteralKind, SValue),
    Unary(Box<SExpr>, TokenKind),
    Member(Box<SExpr>, Box<SExpr>),
    Binary(Box<SExpr>, TokenKind, Box<SExpr>),
    Relational(Box<SExpr>, TokenKind, Box<SExpr>),
    Logical(Box<SExpr>, TokenKind, Box<SExpr>),
    Equality(Box<SExpr>, TokenKind, Box<SExpr>),
    Call(Box<SExpr>, Seq<SExpr>),
    Assignment(Box<SExpr>, TokenKind, Box<SExpr>),
}

#[verifier::ext_equal]
pub struct SBlock {
    pub statements: Seq<SStmt>,
    pub start: nat,
    pub end: nat,
}

#[verifier::ext_equal]
pub struct SStmt {
    pub kind: SStmtKind,
    pub start: nat,
    pub end: nat,
}

#[verifier::ext_equal]
pub enum SDescriptor {
    Identifier(SIdent),
    Object(Seq<SDescriptor>),
}

#[verifier::ext_equal]
pub enum SStmtKind {
    Expression(SExpr),
    If(SExpr, SBlock, Option<Box<SStmt>>),
    For(SIdent, SIterable, Seq<SStmt>),
    Function(SIdent, Seq<SArgument>, SBlock, Option<STypeRef>),
    While(SExpr, Seq<SStmt>),
    Return(SExpr),
    Break,
    Continue,
    Block(SBlock),
    Import(Seq<SIdent>, SIdent),
    Export(Box<SStmt>),
    Class(SIdent, Seq<SStmt>, Seq<SStmt>, nat, nat),
    Field(Visibility, Seq<char>, SExpr),
    VariableDefinition(SDescriptor, SExpr, Option<STypeRef>),
}

impl View for Identifier {
    type V = SIdent;

    open spec fn view(&self) -> SIdent {
        SIdent { value: self.value@, start: self.start as nat, end: self.end as nat }
    }
}

impl View for StringLiteral {
    type V = SIdent;

    open spec fn view(&self) -> SIdent {
        SIdent { value: self.value@, start: self.start as nat, end: self.end as nat }
    }
}

impl TypeRef {
    /// The mathematical value of this node.
    pub open spec fn model(&self) -> STypeRef
        decreases self,
    {
        match self {
            TypeRef::Named(i) => STypeRef::Named(i@),
            TypeRef::Array { type_ref, span } => STypeRef::Array(Box::new((**type_ref).model()), *span),
            TypeRef::Object { entries, span } => STypeRef::Object(type_ref_entries(*entries), *span),
        }
    }
}

impl View for Argument<Identifier, ()> {
    type V = SArgument;

    open spec fn view(&self) -> SArgument {
        SArgument {
            variable: self.variable@,
            type_ref: match &self.type_ref {
                Some(t) => Some(t.model()),
                None => None,
            },
        }
    }
}

impl View for ValueHolder {
    type V = SValue;

    open spec fn view(&self) -> SValue {
        match self {
            ValueHolder::String(s) => SValue::String(s@),
            ValueHolder::Number(s) => SValue::Number(s@),
            ValueHolder::Bool(b) => SValue::Bool(*b),
            ValueHolder::Void => SValue::Void,
        }
    }
}

/// Placeholder that the views use outside the index range of a sequence.
pub open spec fn dummy_expr() -> SExpr {
    SExpr { kind: SExprKind::Literal(SLiteralKind::Literal, SValue::Void), start: 0, end: 0 }
}

pub open spec fn dummy_stmt() -> SStmt {
    SStmt { kind: SStmtKind::Break, start: 0, end: 0 }
}

impl Expression {
    /// The mathematical value of this node.
    pub open spec fn model(&self) -> SExpr
        decreases self,
    {
        SExpr { kind: self.kind.model(), start: self.start as nat, end: self.end as nat }
    }
}

impl ExpressionKind {
    /// The mathematical value of this node.
    pub open spec fn model(&self) -> SExprKind
        decreases self,
    {
        match self {
            ExpressionKind::Literal { literal_kind, value } => SExprKind::Literal(literal_kind.model(), value@),
            ExpressionKind::Unary { left, operator } => SExprKind::Unary(Box::new((**left).model()), *operator),
            ExpressionKind::Member { object, property } => SExprKind::Member(
                Box::new((**object).model()),
                Box::new((**property).model()),
            ),
            ExpressionKind::Binary { left, operator, right } => SExprKind::Binary(
                Box::new((**left).model()),
                *operator,
                Box::new((**right).model()),
            ),
            ExpressionKind::Relational { left, operator, right } => SExprKind::Relational(
                Box::new((**left).model()),
                *operator,
                Box::new((**right).model()),
            ),
            ExpressionKind::Logical { left, operator, right } => SExprKind::Logical(
                Box::new((**left).model()),
                *operator,
                Box::new((**right).model()),
            ),
            ExpressionKind::Equality { left, operator, right } => SExprKind::Equality(
                Box::new((**left).model()),
                *operator,
                Box::new((**right).model()),
            ),
            ExpressionKind::Call { callee, arguments } => SExprKind::Call(
                Box::new((**callee).model()),
                Seq::new(
                    arguments@.len(),
                    |i: int| if 0 <= i < arguments@.len() { arguments@[i].model() } else { dummy_expr() },
                ),
            ),
            ExpressionKind::Assignment { left, operator, right } => SExprKind::Assignment(
                Box::new((**left).model()),
                *operator,
                Box::new((**right).model()),
            ),
        }
    }
}

impl LiteralExpressionKind {
    /// The mathematical value of this node.
    pub open spec fn model(&self) -> SLiteralKind
        decreases self,
    {
        match self {
            LiteralExpressionKind::Literal => SLiteralKind::Literal,
            LiteralExpressionKind::Variable => SLiteralKind::Variable,
            LiteralExpressionKind::Object(entries) => SLiteralKind::Object(expression_entries(*entries)),
            LiteralExpressionKind::Array(values) => SLiteralKind::Array(
                Seq::new(
                    values@.len(),
                    |i: int| if 0 <= i < values@.len() { values@[i].model() } else { dummy_expr() },
                ),
            ),
            LiteralExpressionKind::Function(kind) => SLiteralKind::Function(Box::new((**kind).model())),
        }
    }
}

impl Iterable {
    /// The mathematical value of this node.
    pub open spec fn model(&self) -> SIterable
        decreases self,
    {
        match self {
            Iterable::Range(a, b) => SIterable::Range(
                match a {
                    Some(e) => Some(e.model()),
                    None => None,
                },
                match b {
                    Some(e) => Some(e.model()),
                    None => None,
                },
            ),
            Iterable::Array(e) => SIterable::Array(e.model()),
        }
    }
}

impl VariableDescriptor {
    /// The mathematical value of this node.
    pub open spec fn model(&self) -> SDescriptor
        decreases self,
    {
        match self {
            VariableDescriptor::Identifier(i) => SDescriptor::Identifier(i@),
            VariableDescriptor::Object(ds) => SDescriptor::Object(
                Seq::new(
                    ds@.len(),
                    |i: int|
                        if 0 <= i < ds@.len() {
                            ds@[i].model()
                        } else {
                            SDescriptor::Object(Seq::empty())
                        },
                ),
            ),
        }
    }
}

impl Block {
    /// The mathematical value of this node.
    pub open spec fn model(&self) -> SBlock
        decreases self,
    {
        SBlock {
            statements: Seq::new(
                self.statements@.len(),
                |i: int| if 0 <= i < self.statements@.len() { self.statements@[i].model() } else { dummy_stmt() },
            ),
            start: self.start as nat,
            end: self.end as nat,
        }
    }
}

impl Statement {
    /// The mathematical value of this node.
    pub open spec fn model(&self) -> SStmt
        decreases self,
    {
        SStmt { kind: self.kind.model(), start: self.start as nat, end: self.end as nat }
    }
}

/// The views of a sequence of statements.
pub open spec fn stmts_view(v: Seq<Statement>) -> Seq<SStmt> {
    Seq::new(v.len(), |i: int| v[i]@)
}

/// The views of a sequence of expressions.
pub open spec fn exprs_view(v: Seq<Expression>) -> Seq<SExpr> {
    Seq::new(v.len(), |i: int| v[i]@)
}

impl StatementKind {
    /// The mathematical value of this node.
    pub open spec fn model(&self) -> SStmtKind
        decreases self,
    {
        match self {
            StatementKind::Expression { expression } => SStmtKind::Expression(expression.model()),
            StatementKind::If { condition, block, alternate } => SStmtKind::If(
                condition.model(),
                block.model(),
                match alternate {
                    Some(a) => Some(Box::new((**a).model())),
                    None => None,
                },
            ),
            StatementKind::For { variable, iterable, statements } => SStmtKind::For(
                variable@,
                iterable.model(),
                Seq::new(
                    statements@.len(),
                    |i: int| if 0 <= i < statements@.len() { statements@[i].model() } else { dummy_stmt() },
                ),
            ),
            StatementKind::Function { variable, arguments, block, return_type_ref, .. } => SStmtKind::Function(
                variable@,
                arguments@.map_values(|a: Argument<Identifier, ()>| a@),
                block.model(),
                match return_type_ref {
                    Some(t) => Some(t.model()),
                    None => None,
                },
            ),
            StatementKind::While { condition, statements } => SStmtKind::While(
                condition.model(),
                Seq::new(
                    statements@.len(),
                    |i: int| if 0 <= i < statements@.len() { statements@[i].model() } else { dummy_stmt() },
                ),
            ),
            StatementKind::Return { expression } => SStmtKind::Return(expression.model()),
            StatementKind::Break => SStmtKind::Break,
            StatementKind::Continue => SStmtKind::Continue,
            StatementKind::Block(block) => SStmtKind::Block(block.model()),
            StatementKind::Import { specifiers, source } => SStmtKind::Import(
                specifiers@.map_values(|i: Identifier| i@),
                source@,
            ),
            StatementKind::Export { declaration } => SStmtKind::Export(Box::new((**declaration).model())),
            StatementKind::Class { variable, methods, fields, body_start, body_end } => SStmtKind::Class(
                variable@,
                Seq::new(
                    methods@.len(),
                    |i: int| if 0 <= i < methods@.len() { methods@[i].model() } else { dummy_stmt() },
                ),
                Seq::new(
                    fields@.len(),
                    |i: int| if 0 <= i < fields@.len() { fields@[i].model() } else { dummy_stmt() },
                ),
                *body_start as nat,
                *body_end as nat,
            ),
            StatementKind::Field { visibility, name, value } => SStmtKind::Field(*visibility, name@, value.model()),
            StatementKind::VariableDefinition { descriptor, expression, type_ref, .. } => SStmtKind::VariableDefinition(
                descriptor.model(),
                expression.model(),
                match type_ref {
                    Some(t) => Some(t.model()),
                    None => None,
                },
            ),
        }
    }
}

impl View for TypeRef {
    type V = STypeRef;

    open spec fn view(&self) -> STypeRef {
        self.model()
    }
}

impl View for Expression {
    type V = SExpr;

    open spec fn view(&self) -> SExpr {
        self.model()
    }
}

impl View for ExpressionKind {
    type V = SExprKind;

    open spec fn view(&self) -> SExprKind {
        self.model()
    }
}

impl View for LiteralExpressionKind {
    type V = SLiteralKind;

    open spec fn view(&self) -> SLiteralKind {
        self.model()
    }
}

impl View for Iterable {
    type V = SIterable;

    open spec fn view(&self) -> SIterable {
        self.model()
    }
}

impl View for VariableDescriptor {
    type V = SDescriptor;

    open spec fn view(&self) -> SDescriptor {
        self.model()
    }
}

impl View for Block {
    type V = SBlock;

    open spec fn view(&self) -> SBlock {
        self.model()
    }
}

impl View for Statement {
    type V = SStmt;

    open spec fn view(&self) -> SStmt {
        self.model()
    }
}

impl View for StatementKind {
    type V = SStmtKind;

    open spec fn view(&self) -> SStmtKind {
        self.model()
    }
}

impl View for Program {
    type V = Seq<SStmt>;

    open spec fn view(&self) -> Seq<SStmt> {
        stmts_view(self.body@)
    }
}

// ---------------------------------------------------------------------
// Maps with insertion order, kept in `IndexMap`s.

/// The entries of an object literal by key, in the order in which their keys
/// were first inserted.
#[verifier::external_body]
#[derive(Debug)]
pub struct ExpressionMap {
    map: IndexMap<String, Expression>,
}

/// The entries of an object type by key, in the order in which their keys
/// were first inserted.
#[verifier::external_body]
#[derive(Debug)]
pub struct TypeRefMap {
    map: IndexMap<String, TypeRef>,
}

/// An entry of an `ExpressionMap`.
pub type ExpressionEntry<'a> = (&'a String, &'a Expression);

/// An entry of a `TypeRefMap`.
pub type TypeRefEntry<'a> = (&'a String, &'a TypeRef);

/// What an `ExpressionMap` holds: its keys and the views of their values, in order.
pub uninterp spec fn expression_entries(m: ExpressionMap) -> Seq<(Seq<char>, SExpr)>;

/// What a `TypeRefMap` holds: its keys and the views of their values, in order.
pub uninterp spec fn type_ref_entries(m: TypeRefMap) -> Seq<(Seq<char>, STypeRef)>;

impl ExpressionMap {
    /// `IndexMap::new`: an empty map.
    #[verifier::external_body]
    pub(crate) fn new() -> (r: ExpressionMap)
        ensures
            expression_entries(r) == Seq::<(Seq<char>, SExpr)>::empty(),
    {
        ExpressionMap { map: IndexMap::new() }
    }

    /// `IndexMap::insert`: a key already present keeps its place and takes
    /// the new value; a new key goes last; no key is held twice.
    #[verifier::external_body]
    pub(crate) fn insert(&mut self, key: String, value: Expression)
        ensures
            expression_entries(*final(self)) == map_insert(expression_entries(*old(self)), key@, value@),
            distinct_keys(expression_entries(*final(self))),
    {
        self.map.insert(key, value);
    }

    /// `IndexMap::len`: the number of entries.
    #[verifier::external_body]
    pub(crate) fn len(&self) -> (r: usize)
        ensures
            r == expression_entries(*self).len(),
    {
        self.map.len()
    }

    /// `IndexMap::get_index`: the entry at position `index`, if there is one.
    #[verifier::external_body]
    pub(crate) fn get_index(&self, index: usize) -> (r: Option<ExpressionEntry<'_>>)
        ensures
            index < expression_entries(*self).len() ==> r is Some,
            index < expression_entries(*self).len() ==> r->Some_0.0@ == expression_entries(*self)[index as int].0,
            index < expression_entries(*self).len() ==> r->Some_0.1@ == expression_entries(*self)[index as int].1,
            index >= expression_entries(*self).len() ==> r is None,
    {
        self.map.get_index(index)
    }
}

impl ExpressionMap {
    /// The entries, in order.
    pub fn entries(&self) -> (r: Vec<ExpressionEntry<'_>>)
        ensures
            r@.len() == expression_entries(*self).len(),
            forall|i: int| 0 <= i < r@.len() ==> r@[i].0@ == #[trigger] expression_entries(*self)[i].0
                && r@[i].1@ == expression_entries(*self)[i].1,
    {
        let mut r: Vec<ExpressionEntry<'_>> = Vec::new();
        let n = self.len();
        let mut i: usize = 0;
        while i < n
            invariant
                i <= n,
                n == expression_entries(*self).len(),
                r@.len() == i,
                forall|j: int| 0 <= j < i ==> r@[j].0@ == #[trigger] expression_entries(*self)[j].0
                    && r@[j].1@ == expression_entries(*self)[j].1,
            decreases n - i,
        {
            if let Some(e) = self.get_index(i) {
                r.push(e);
            }
            i += 1;
        }
        r
    }
}

impl TypeRefMap {
    /// The entries, in order.
    pub fn entries(&self) -> (r: Vec<TypeRefEntry<'_>>)
        ensures
            r@.len() == type_ref_entries(*self).len(),
            forall|i: int| 0 <= i < r@.len() ==> r@[i].0@ == #[trigger] type_ref_entries(*self)[i].0
                && r@[i].1@ == type_ref_entries(*self)[i].1,
    {
        let mut r: Vec<TypeRefEntry<'_>> = Vec::new();
        let n = self.len();
        let mut i: usize = 0;
        while i < n
            invariant
                i <= n,
                n == type_ref_entries(*self).len(),
                r@.len() == i,
                forall|j: int| 0 <= j < i ==> r@[j].0@ == #[trigger] type_ref_entries(*self)[j].0
                    && r@[j].1@ == type_ref_entries(*self)[j].1,
            decreases n - i,
        {
            if let Some(e) = self.get_index(i) {
                r.push(e);
            }
            i += 1;
        }
        r
    }
}

impl TypeRefMap {
    /// `IndexMap::new`: an empty map.
    #[verifier::external_body]
    pub(crate) fn new() -> (r: TypeRefMap)
        ensures
            type_ref_entries(r) == Seq::<(Seq<char>, STypeRef)>::empty(),
    {
        TypeRefMap { map: IndexMap::new() }
    }

    /// `IndexMap::insert`: a key already present keeps its place and takes
    /// the new value; a new key goes last; no key is held twice.
    #[verifier::external_body]
    pub(crate) fn insert(&mut self, key: String, value: TypeRef)
        ensures
            type_ref_entries(*final(self)) == map_insert(type_ref_entries(*old(self)), key@, value@),
            distinct_keys(type_ref_entries(*final(self))),
    {
        self.map.insert(key, value);
    }

    /// `IndexMap::len`: the number of entries.
    #[verifier::external_body]
    pub(crate) fn len(&self) -> (r: usize)
        ensures
            r == type_ref_entries(*self).len(),
    {
        self.map.len()
    }

    /// `IndexMap::get_index`: the entry at position `index`, if there is one.
    #[verifier::external_body]
    pub(crate) fn get_index(&self, index: usize) -> (r: Option<TypeRefEntry<'_>>)
        ensures
            index < type_ref_entries(*self).len() ==> r is Some,
            index < type_ref_entries(*self).len() ==> r->Some_0.0@ == type_ref_entries(*self)[index as int].0,
            index < type_ref_entries(*self).len() ==> r->Some_0.1@ == type_ref_entries(*self)[index as int].1,
            index >= type_ref_entries(*self).len() ==> r is None,
    {
        self.map.get_index(index)
    }
}

} // verus!
