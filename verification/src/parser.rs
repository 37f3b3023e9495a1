//! The parser: builds the syntax tree of a program out of its tokens.
//!
//! Statements are parsed by recursive descent and expressions by precedence
//! climbing. What each parsing function does is stated by a spec function
//! of the same name with the prefix `sp_`, over the views of the tokens; the
//! executable functions are proved to agree with them.
use vstd::prelude::*;
use crate::ast::{Argument, Block, Expression, ExpressionKind, Identifier, Iterable, LiteralExpressionKind, Program, SArgument, SBlock, SDescriptor, SExpr, SExprKind, SIdent, SIterable, SLiteralKind, SStmt, SStmtKind, STypeRef, SValue, Statement, StatementKind, StringLiteral, TypeRef, ValueHolder, VariableDescriptor, Visibility, ExpressionMap, TypeRefMap, expression_entries, exprs_view, stmts_view, type_ref_entries, visibility_of};
use crate::errors::{ErrorKind, LanguageError, LanguageResult, ParserError, Span};
use crate::lexer::{KeywordKind, SpecToken, SpecTokenKind, Token, TokenKind, tokens_view};
use crate::entries::{distinct_keys, lemma_map_insert_distinct, map_insert};
use crate::text::{decimal, is_float_literal, is_float_text, usize_to_string};
use vstd::string::StringExecFns;

verus! {

/// The state of the parser: the tokens and the index of the next one.
/// In strict mode malformed member accesses are errors; otherwise (for
/// editors) they are completed with a placeholder property.
pub struct Parser {
    pub cursor: usize,
    pub tokens: Vec<Token>,
    pub strict: bool,
}

// ---------------------------------------------------------------------
// Outcomes.

/// The view of the kind of an error: the parser errors, and any other.
pub enum SErrKind {
    UnexpectedToken(Seq<char>),
    UnexpectedEnd,
    InvalidUsage(Seq<char>),
    InvalidType(Seq<char>),
    Other,
}

/// The view of an error: its kind and the byte range it points at.
pub struct SErr {
    pub kind: SErrKind,
    pub span: Option<(nat, nat)>,
}

/// What a parsing function yields: a value and the index of the next token,
/// an error, or a panic (of an `unwrap` or of an index out of range).
pub enum PRes<T> {
    Done(T, int),
    Fail(SErr),
    Panic,
}

/// Failure of an internal parsing function: a language error or a point at
/// which the parser panics.
#[derive(Debug)]
pub enum Fault {
    Error(LanguageError),
    Panic,
}

/// The view of a parser error.
pub open spec fn err_view(e: LanguageError) -> SErr {
    SErr {
        kind: match e.kind {
            ErrorKind::Parser(ParserError::UnexpectedToken(m)) => SErrKind::UnexpectedToken(m@),
            ErrorKind::Parser(ParserError::InvalidUsage(m)) => SErrKind::InvalidUsage(m@),
            ErrorKind::Parser(ParserError::InvalidType(m)) => SErrKind::InvalidType(m@),
            ErrorKind::Parser(ParserError::UnexpectedEndOfInput) => SErrKind::UnexpectedEnd,
            _ => SErrKind::Other,
        },
        span: match e.source {
            Some(s) => Some((s.start as nat, s.end as nat)),
            None => None,
        },
    }
}

// ---------------------------------------------------------------------
// Tokens.

pub open spec fn at_kind(ts: Seq<SpecToken>, i: int, k: TokenKind) -> bool {
    0 <= i < ts.len() && ts[i].kind == SpecTokenKind::Other(k)
}

pub open spec fn at_ident(ts: Seq<SpecToken>, i: int) -> bool {
    0 <= i < ts.len() && ts[i].kind is Identifier
}

pub open spec fn at_string(ts: Seq<SpecToken>, i: int) -> bool {
    0 <= i < ts.len() && ts[i].kind is StringLiteral
}

pub open spec fn at_number(ts: Seq<SpecToken>, i: int) -> bool {
    0 <= i < ts.len() && ts[i].kind is NumericLiteral
}

pub open spec fn at_bool(ts: Seq<SpecToken>, i: int) -> bool {
    0 <= i < ts.len() && ts[i].kind matches SpecTokenKind::Other(TokenKind::BooleanLiteral { .. })
}

pub open spec fn at_keyword(ts: Seq<SpecToken>, i: int, kw: KeywordKind) -> bool {
    at_kind(ts, i, TokenKind::Keyword(kw))
}

/// The token kind behind the view of a kind without text.
pub open spec fn other_kind(k: SpecTokenKind) -> TokenKind {
    match k {
        SpecTokenKind::Other(o) => o,
        _ => TokenKind::Plus,
    }
}

/// The value of a boolean literal token.
pub open spec fn bool_value(k: SpecTokenKind) -> bool {
    match k {
        SpecTokenKind::Other(TokenKind::BooleanLiteral { value }) => value,
        _ => false,
    }
}

/// Whether the token at `i` is a visibility keyword.
pub open spec fn at_visibility(ts: Seq<SpecToken>, i: int) -> bool {
    0 <= i < ts.len() && (ts[i].kind is Other) && visibility_of(other_kind(ts[i].kind)) is Some
}

/// The text of an identifier or string token.
pub open spec fn token_text(t: SpecToken) -> Seq<char> {
    match t.kind {
        SpecTokenKind::Identifier(v) => v,
        SpecTokenKind::NumericLiteral(v) => v,
        SpecTokenKind::StringLiteral(v) => v,
        _ => Seq::empty(),
    }
}

pub open spec fn ident_of(t: SpecToken) -> SIdent {
    SIdent { value: token_text(t), start: t.start, end: t.end }
}

/// The message for an unexpected token at index `cursor`.
pub open spec fn unexpected_message(cursor: nat) -> Seq<char> {
    "unexpected token at index "@ + decimal(cursor)
}

/// The error at the current position: the unexpected token, or, past the
/// last token, an unexpected end located at the last byte of the previous one.
pub open spec fn sp_error<T>(ts: Seq<SpecToken>, cur: int) -> PRes<T> {
    if 0 <= cur < ts.len() {
        PRes::Fail(SErr { kind: SErrKind::UnexpectedToken(unexpected_message(cur as nat)), span: Some((ts[cur].start, ts[cur].end)) })
    } else if cur < 1 || cur - 1 >= ts.len() || ts[cur - 1].end < 1 {
        PRes::Panic
    } else {
        PRes::Fail(SErr { kind: SErrKind::UnexpectedEnd, span: Some(((ts[cur - 1].end - 1) as nat, ts[cur - 1].end)) })
    }
}

/// Whether a nested call moved the cursor forward within the tokens.
pub open spec fn moved(ts: Seq<SpecToken>, cur: int, c: int) -> bool {
    cur < c <= ts.len()
}

/// The end of the last token, or `d` when there is none.
pub open spec fn last_end_or(ts: Seq<SpecToken>, d: nat) -> nat {
    if ts.len() > 0 { ts.last().end } else { d }
}

// ---------------------------------------------------------------------
// Types.

/// `type_ref` (at a token that starts a type): a name or an object type,
/// followed by any number of `[]`.
pub open spec fn sp_type_ref(ts: Seq<SpecToken>, cur: int) -> PRes<STypeRef>
    decreases ts.len() - cur, 3int,
{
    if cur < 0 || cur > ts.len() {
        PRes::Panic
    } else if at_ident(ts, cur) {
        sp_type_suffix(ts, cur + 1, STypeRef::Named(ident_of(ts[cur])), ts[cur].start)
    } else if at_kind(ts, cur, TokenKind::OpeningBracket) {
        match sp_type_entries(ts, cur + 1, Seq::empty(), false) {
            PRes::Done(entries, c) => if !moved(ts, cur, c) {
                PRes::Panic
            } else {
                sp_type_suffix(
                    ts,
                    c,
                    STypeRef::Object(entries, Span { start: ts[cur].start as usize, end: ts[c - 1].end as usize }),
                    ts[cur].start,
                )
            },
            PRes::Fail(e) => PRes::Fail(e),
            PRes::Panic => PRes::Panic,
        }
    } else {
        PRes::Panic
    }
}

/// The `[]` suffixes of a type that starts at byte `start`.
pub open spec fn sp_type_suffix(ts: Seq<SpecToken>, cur: int, t: STypeRef, start: nat) -> PRes<STypeRef>
    decreases ts.len() - cur, 1int,
{
    if cur < 0 || cur > ts.len() {
        PRes::Panic
    } else if at_kind(ts, cur, TokenKind::OpeningSquareBracket) {
        if at_kind(ts, cur + 1, TokenKind::ClosingSquareBracket) {
            sp_type_suffix(ts, cur + 2, STypeRef::Array(Box::new(t), Span { start: start as usize, end: ts[cur + 1].end as usize }), start)
        } else {
            sp_error(ts, cur + 1)
        }
    } else {
        PRes::Done(t, cur)
    }
}

/// The entries of an object type, from just after its `{`.
pub open spec fn sp_type_entries(
    ts: Seq<SpecToken>,
    cur: int,
    acc: Seq<(Seq<char>, STypeRef)>,
    should_end: bool,
) -> PRes<Seq<(Seq<char>, STypeRef)>>
    decreases ts.len() - cur, 2int,
{
    if cur < 0 || cur > ts.len() {
        PRes::Panic
    } else if at_kind(ts, cur, TokenKind::ClosingBracket) {
        PRes::Done(acc, cur + 1)
    } else if should_end {
        sp_error(ts, cur)
    } else if !at_ident(ts, cur) {
        sp_error(ts, cur)
    } else if !at_kind(ts, cur + 1, TokenKind::Colon) {
        sp_error(ts, cur + 1)
    } else {
        match sp_type_ref(ts, cur + 2) {
            PRes::Done(t, c) => if !moved(ts, cur, c) {
                PRes::Panic
            } else {
                let acc2 = map_insert(acc, token_text(ts[cur]), t);
                if at_kind(ts, c, TokenKind::Comma) {
                    sp_type_entries(ts, c + 1, acc2, false)
                } else {
                    sp_type_entries(ts, c, acc2, true)
                }
            },
            PRes::Fail(e) => PRes::Fail(e),
            PRes::Panic => PRes::Panic,
        }
    }
}

// ---------------------------------------------------------------------
// Expressions.

/// The binding powers of an infix operator.
pub open spec fn binding_power(op: TokenKind) -> Option<(u8, u8)> {
    match op {
        TokenKind::Assign | TokenKind::PlusEqual | TokenKind::MinusEqual | TokenKind::AsteriskEqual
        | TokenKind::SlashEqual | TokenKind::PercentEqual => Some((0, 1)),
        TokenKind::And | TokenKind::Or => Some((0, 1)),
        TokenKind::EQ | TokenKind::NE => Some((1, 2)),
        TokenKind::GT | TokenKind::GTE | TokenKind::LT | TokenKind::LTE => Some((3, 4)),
        TokenKind::Plus | TokenKind::Minus => Some((5, 6)),
        TokenKind::Asterisk | TokenKind::Slash => Some((7, 8)),
        _ => None,
    }
}

/// The expression that an infix operator builds.
pub open spec fn combine(op: TokenKind, left: SExpr, right: SExpr) -> SExprKind {
    match op {
        TokenKind::And | TokenKind::Or => SExprKind::Logical(Box::new(left), op, Box::new(right)),
        TokenKind::EQ | TokenKind::NE => SExprKind::Equality(Box::new(left), op, Box::new(right)),
        TokenKind::GT | TokenKind::GTE | TokenKind::LT | TokenKind::LTE => SExprKind::Relational(Box::new(left), op, Box::new(right)),
        TokenKind::Plus | TokenKind::Minus | TokenKind::Asterisk | TokenKind::Slash => SExprKind::Binary(Box::new(left), op, Box::new(right)),
        _ => SExprKind::Assignment(Box::new(left), op, Box::new(right)),
    }
}

/// A literal expression.
pub open spec fn lit(kind: SLiteralKind, value: SValue, start: nat, end: nat) -> SExpr {
    SExpr { kind: SExprKind::Literal(kind, value), start, end }
}

/// The placeholder property of an unfinished member access in lax mode.
pub open spec fn lax_text() -> Seq<char> {
    "<lax>"@
}

/// The name given to an anonymous function spanning `start..end`.
pub open spec fn lambda_name(start: nat, end: nat) -> Seq<char> {
    "<lambda:"@ + decimal(start) + "-"@ + decimal(end) + ">"@
}

/// `parse_expression`: an expression whose operators bind at least as
/// tightly as `min_bp`.
pub open spec fn sp_expression(ts: Seq<SpecToken>, cur: int, min_bp: u8, strict: bool) -> PRes<SExpr>
    decreases ts.len() - cur, 10int,
{
    if cur < 0 || cur > ts.len() {
        PRes::Panic
    } else {
        match sp_prefix(ts, cur, strict) {
            PRes::Done(lhs, c) => if !moved(ts, cur, c) {
                PRes::Panic
            } else {
                sp_infix(ts, c, lhs, lhs.start, min_bp, strict)
            },
            PRes::Fail(e) => PRes::Fail(e),
            PRes::Panic => PRes::Panic,
        }
    }
}

/// The operand that starts an expression.
pub open spec fn sp_prefix(ts: Seq<SpecToken>, cur: int, strict: bool) -> PRes<SExpr>
    decreases ts.len() - cur, 9int,
{
    if cur < 0 || cur > ts.len() {
        PRes::Panic
    } else if cur == ts.len() {
        PRes::Fail(SErr { kind: SErrKind::UnexpectedEnd, span: Some((last_end_or(ts, 0), last_end_or(ts, 0))) })
    } else {
        let t = ts[cur];
        if at_kind(ts, cur, TokenKind::Minus) || at_kind(ts, cur, TokenKind::Bang) {
            match sp_expression(ts, cur + 1, 0, strict) {
                PRes::Done(e, c) => PRes::Done(SExpr { kind: SExprKind::Unary(Box::new(e), other_kind(t.kind)), start: t.start, end: e.end }, c),
                PRes::Fail(e) => PRes::Fail(e),
                PRes::Panic => PRes::Panic,
            }
        } else if at_kind(ts, cur, TokenKind::OpeningParenthesis) {
            match sp_lambda(ts, cur, strict) {
                PRes::Done(st, c) => PRes::Done(lit(SLiteralKind::Function(Box::new(st.kind)), SValue::Void, st.start, st.end), c),
                PRes::Panic => PRes::Panic,
                PRes::Fail(_) => match sp_expression(ts, cur + 1, 0, strict) {
                    PRes::Done(e, c) => if at_kind(ts, c, TokenKind::ClosingParenthesis) {
                        PRes::Done(e, c + 1)
                    } else {
                        sp_error(ts, c)
                    },
                    PRes::Fail(e) => PRes::Fail(e),
                    PRes::Panic => PRes::Panic,
                },
            }
        } else if at_string(ts, cur) {
            PRes::Done(lit(SLiteralKind::Literal, SValue::String(token_text(t)), t.start, t.end), cur + 1)
        } else if at_number(ts, cur) {
            // the text of the number is parsed as a float, and a text that
            // is none makes the parser panic
            if !is_float_literal(token_text(t)) {
                PRes::Panic
            } else {
                PRes::Done(lit(SLiteralKind::Literal, SValue::Number(token_text(t)), t.start, t.end), cur + 1)
            }
        } else if at_bool(ts, cur) {
            PRes::Done(lit(SLiteralKind::Literal, SValue::Bool(bool_value(t.kind)), t.start, t.end), cur + 1)
        } else if at_ident(ts, cur) {
            PRes::Done(lit(SLiteralKind::Variable, SValue::String(token_text(t)), t.start, t.end), cur + 1)
        } else if at_kind(ts, cur, TokenKind::OpeningSquareBracket) {
            match sp_expr_list(ts, cur + 1, Seq::empty(), false, TokenKind::ClosingSquareBracket, strict) {
                PRes::Done(items, c) => if !moved(ts, cur, c) {
                    PRes::Panic
                } else {
                    PRes::Done(lit(SLiteralKind::Array(items), SValue::Void, t.start, ts[c - 1].end), c)
                },
                PRes::Fail(e) => PRes::Fail(e),
                PRes::Panic => PRes::Panic,
            }
        } else if at_kind(ts, cur, TokenKind::OpeningBracket) {
            match sp_object_entries(ts, cur + 1, Seq::empty(), false, strict) {
                PRes::Done(entries, c) => if !moved(ts, cur, c) {
                    PRes::Panic
                } else {
                    PRes::Done(lit(SLiteralKind::Object(entries), SValue::Void, t.start, ts[c - 1].end), c)
                },
                PRes::Fail(e) => PRes::Fail(e),
                PRes::Panic => PRes::Panic,
            }
        } else {
            sp_error(ts, cur)
        }
    }
}

/// The items of a comma-separated list of expressions, from just after its
/// opening token up to and including `close`.
pub open spec fn sp_expr_list(
    ts: Seq<SpecToken>,
    cur: int,
    acc: Seq<SExpr>,
    should_end: bool,
    close: TokenKind,
    strict: bool,
) -> PRes<Seq<SExpr>>
    decreases ts.len() - cur, 12int,
{
    if cur < 0 || cur > ts.len() {
        PRes::Panic
    } else if at_kind(ts, cur, close) {
        PRes::Done(acc, cur + 1)
    } else if should_end {
        sp_error(ts, cur)
    } else {
        match sp_expression(ts, cur, 0, strict) {
            PRes::Done(e, c) => if !moved(ts, cur, c) {
                PRes::Panic
            } else if at_kind(ts, c, TokenKind::Comma) {
                sp_expr_list(ts, c + 1, acc.push(e), false, close, strict)
            } else {
                sp_expr_list(ts, c, acc.push(e), true, close, strict)
            },
            PRes::Fail(e) => PRes::Fail(e),
            PRes::Panic => PRes::Panic,
        }
    }
}

/// The entries of an object literal, from just after its `{`.
pub open spec fn sp_object_entries(
    ts: Seq<SpecToken>,
    cur: int,
    acc: Seq<(Seq<char>, SExpr)>,
    should_end: bool,
    strict: bool,
) -> PRes<Seq<(Seq<char>, SExpr)>>
    decreases ts.len() - cur, 4int,
{
    if cur < 0 || cur > ts.len() {
        PRes::Panic
    } else if at_kind(ts, cur, TokenKind::ClosingBracket) {
        PRes::Done(acc, cur + 1)
    } else if should_end {
        sp_error(ts, cur)
    } else if !at_string(ts, cur) {
        sp_error(ts, cur)
    } else if !at_kind(ts, cur + 1, TokenKind::Colon) {
        sp_error(ts, cur + 1)
    } else {
        match sp_expression(ts, cur + 2, 0, strict) {
            PRes::Done(e, c) => if !moved(ts, cur, c) {
                PRes::Panic
            } else {
                let acc2 = map_insert(acc, token_text(ts[cur]), e);
                if at_kind(ts, c, TokenKind::Comma) {
                    sp_object_entries(ts, c + 1, acc2, false, strict)
                } else {
                    sp_object_entries(ts, c, acc2, true, strict)
                }
            },
            PRes::Fail(e) => PRes::Fail(e),
            PRes::Panic => PRes::Panic,
        }
    }
}

/// The infix part of an expression: calls, member accesses and binary
/// operators applied to `lhs`, which started at byte `start`.
pub open spec fn sp_infix(ts: Seq<SpecToken>, cur: int, lhs: SExpr, start: nat, min_bp: u8, strict: bool) -> PRes<SExpr>
    decreases ts.len() - cur, 11int,
{
    if cur < 0 || cur > ts.len() {
        PRes::Panic
    } else if at_kind(ts, cur, TokenKind::OpeningParenthesis) {
        if 9 < min_bp {
            PRes::Done(lhs, cur)
        } else {
            match sp_expr_list(ts, cur + 1, Seq::empty(), false, TokenKind::ClosingParenthesis, strict) {
                PRes::Done(args, c) => if !moved(ts, cur, c) {
                    PRes::Panic
                } else {
                    sp_infix(ts, c, SExpr { kind: SExprKind::Call(Box::new(lhs), args), start, end: ts[c - 1].end }, start, min_bp, strict)
                },
                PRes::Fail(e) => PRes::Fail(e),
                PRes::Panic => PRes::Panic,
            }
        }
    } else if at_kind(ts, cur, TokenKind::Period) || at_kind(ts, cur, TokenKind::OpeningSquareBracket) {
        let bracket = at_kind(ts, cur, TokenKind::OpeningSquareBracket);
        let sep = ts[cur];
        if 9 < min_bp {
            PRes::Done(lhs, cur)
        } else if cur + 1 >= ts.len() {
            if strict {
                PRes::Fail(SErr { kind: SErrKind::UnexpectedEnd, span: Some((lhs.start, last_end_or(ts, lhs.start))) })
            } else {
                let rhs = lit(SLiteralKind::Literal, SValue::String(lax_text()), sep.end, sep.end);
                PRes::Done(SExpr { kind: SExprKind::Member(Box::new(lhs), Box::new(rhs)), start: lhs.start, end: sep.end }, cur + 1)
            }
        } else {
            let token = ts[cur + 1];
            if bracket {
                match sp_expression(ts, cur + 1, 0, strict) {
                    PRes::Done(p, c) => if !moved(ts, cur, c) {
                        PRes::Panic
                    } else if at_kind(ts, c, TokenKind::ClosingSquareBracket) {
                        sp_infix(
                            ts,
                            c + 1,
                            SExpr { kind: SExprKind::Member(Box::new(lhs), Box::new(p)), start: token.start, end: token.end },
                            start,
                            min_bp,
                            strict,
                        )
                    } else {
                        sp_error(ts, c)
                    },
                    PRes::Fail(e) => PRes::Fail(e),
                    PRes::Panic => PRes::Panic,
                }
            } else if !(token.kind is Identifier) {
                if strict {
                    PRes::Fail(SErr { kind: SErrKind::UnexpectedToken("identifier after '.'"@), span: Some((token.start, token.end)) })
                } else {
                    let rhs = lit(SLiteralKind::Literal, SValue::String(lax_text()), sep.end, token.start);
                    PRes::Done(SExpr { kind: SExprKind::Member(Box::new(lhs), Box::new(rhs)), start: lhs.start, end: token.start }, cur + 1)
                }
            } else {
                let pstart = if strict { token.start } else { sep.end };
                let p = lit(SLiteralKind::Literal, SValue::String(token_text(token)), pstart, token.end);
                sp_infix(
                    ts,
                    cur + 2,
                    SExpr { kind: SExprKind::Member(Box::new(lhs), Box::new(p)), start: token.start, end: token.end },
                    start,
                    min_bp,
                    strict,
                )
            }
        }
    } else if cur == ts.len() {
        PRes::Done(lhs, cur)
    } else {
        match ts[cur].kind {
            SpecTokenKind::Other(op) => match binding_power(op) {
                Some((l_bp, r_bp)) => if l_bp < min_bp {
                    PRes::Done(lhs, cur)
                } else {
                    match sp_expression(ts, cur + 1, r_bp, strict) {
                        PRes::Done(rhs, c) => if !moved(ts, cur, c) {
                            PRes::Panic
                        } else {
                            sp_infix(ts, c, SExpr { kind: combine(op, lhs, rhs), start, end: rhs.end }, start, min_bp, strict)
                        },
                        PRes::Fail(e) => PRes::Fail(e),
                        PRes::Panic => PRes::Panic,
                    }
                },
                None => PRes::Done(lhs, cur),
            },
            _ => PRes::Done(lhs, cur),
        }
    }
}

// ---------------------------------------------------------------------
// Functions, blocks and statements.

/// The byte range of a type annotation.
pub open spec fn stype_span(t: STypeRef) -> (nat, nat) {
    match t {
        STypeRef::Named(i) => (i.start, i.end),
        STypeRef::Array(_, s) => (s.start as nat, s.end as nat),
        STypeRef::Object(_, s) => (s.start as nat, s.end as nat),
    }
}

/// An anonymous function `(args) => body` or `(args): type => body`.
pub open spec fn sp_lambda(ts: Seq<SpecToken>, cur: int, strict: bool) -> PRes<SStmt>
    decreases ts.len() - cur, 8int,
{
    if cur < 0 || cur > ts.len() {
        PRes::Panic
    } else if !at_kind(ts, cur, TokenKind::OpeningParenthesis) {
        sp_error(ts, cur)
    } else {
        match sp_arguments(ts, cur + 1, Seq::empty(), false) {
            PRes::Done(args, c1) => if !moved(ts, cur, c1) {
                PRes::Panic
            } else {
                match sp_return_type(ts, c1) {
                    PRes::Done(rt, c2) => if !(c1 <= c2 <= ts.len()) {
                        PRes::Panic
                    } else if !at_kind(ts, c2, TokenKind::Arrow) {
                        sp_error(ts, c2)
                    } else {
                        let start = ts[cur].start;
                        let body = if at_kind(ts, c2 + 1, TokenKind::OpeningBracket) {
                            sp_block(ts, c2 + 1, strict)
                        } else {
                            match sp_expression(ts, c2 + 1, 0, strict) {
                                PRes::Done(e, c3) => PRes::Done(
                                    SBlock {
                                        statements: seq![SStmt { kind: SStmtKind::Return(e), start: e.start, end: e.end }],
                                        start: e.start,
                                        end: e.end,
                                    },
                                    c3,
                                ),
                                PRes::Fail(e) => PRes::Fail(e),
                                PRes::Panic => PRes::Panic,
                            }
                        };
                        match body {
                            PRes::Done(b, c3) => PRes::Done(
                                SStmt {
                                    kind: SStmtKind::Function(
                                        SIdent { value: lambda_name(start, b.end), start: 0, end: 0 },
                                        args,
                                        b,
                                        rt,
                                    ),
                                    start,
                                    end: b.end,
                                },
                                c3,
                            ),
                            PRes::Fail(e) => PRes::Fail(e),
                            PRes::Panic => PRes::Panic,
                        }
                    },
                    PRes::Fail(e) => PRes::Fail(e),
                    PRes::Panic => PRes::Panic,
                }
            },
            PRes::Fail(e) => PRes::Fail(e),
            PRes::Panic => PRes::Panic,
        }
    }
}

/// An optional `: type` annotation.
pub open spec fn sp_return_type(ts: Seq<SpecToken>, cur: int) -> PRes<Option<STypeRef>> {
    if at_kind(ts, cur, TokenKind::Colon) {
        match sp_type_ref(ts, cur + 1) {
            PRes::Done(t, c) => PRes::Done(Some(t), c),
            PRes::Fail(e) => PRes::Fail(e),
            PRes::Panic => PRes::Panic,
        }
    } else {
        PRes::Done(None, cur)
    }
}

/// The parameters of a function, from just after its `(`.
pub open spec fn sp_arguments(ts: Seq<SpecToken>, cur: int, acc: Seq<SArgument>, should_end: bool) -> PRes<Seq<SArgument>>
    decreases ts.len() - cur,
{
    if cur < 0 || cur > ts.len() {
        PRes::Panic
    } else if at_kind(ts, cur, TokenKind::ClosingParenthesis) {
        PRes::Done(acc, cur + 1)
    } else if should_end {
        sp_error(ts, cur)
    } else if !at_ident(ts, cur) {
        sp_error(ts, cur)
    } else {
        match sp_return_type(ts, cur + 1) {
            PRes::Done(t, c) => if !moved(ts, cur, c) {
                PRes::Panic
            } else {
                let arg = SArgument { variable: ident_of(ts[cur]), type_ref: t };
                if at_kind(ts, c, TokenKind::Comma) {
                    sp_arguments(ts, c + 1, acc.push(arg), false)
                } else {
                    sp_arguments(ts, c, acc.push(arg), true)
                }
            },
            PRes::Fail(e) => PRes::Fail(e),
            PRes::Panic => PRes::Panic,
        }
    }
}

/// The names of a destructuring pattern, from just after its `{`.
pub open spec fn sp_names(ts: Seq<SpecToken>, cur: int, acc: Seq<SIdent>, should_end: bool) -> PRes<Seq<SIdent>>
    decreases ts.len() - cur,
{
    if cur < 0 || cur > ts.len() {
        PRes::Panic
    } else if at_kind(ts, cur, TokenKind::ClosingBracket) {
        PRes::Done(acc, cur + 1)
    } else if should_end {
        sp_error(ts, cur)
    } else if !at_ident(ts, cur) {
        sp_error(ts, cur)
    } else if at_kind(ts, cur + 1, TokenKind::Comma) {
        sp_names(ts, cur + 2, acc.push(ident_of(ts[cur])), false)
    } else {
        sp_names(ts, cur + 1, acc.push(ident_of(ts[cur])), true)
    }
}

/// `expect_block`: `{ statements }`. The block starts where its `{` ends; an
/// empty block ends where its `}` starts, another one where its `}` ends.
pub open spec fn sp_block(ts: Seq<SpecToken>, cur: int, strict: bool) -> PRes<SBlock>
    decreases ts.len() - cur, 18int,
{
    if cur < 0 || cur > ts.len() {
        PRes::Panic
    } else if !at_kind(ts, cur, TokenKind::OpeningBracket) {
        sp_error(ts, cur)
    } else if at_kind(ts, cur + 1, TokenKind::ClosingBracket) {
        PRes::Done(SBlock { statements: Seq::empty(), start: ts[cur].end, end: ts[cur + 1].start }, cur + 2)
    } else {
        match sp_block_items(ts, cur + 1, Seq::empty(), strict) {
            PRes::Done(items, c) => if !moved(ts, cur, c) {
                PRes::Panic
            } else {
                PRes::Done(SBlock { statements: items, start: ts[cur].end, end: ts[c - 1].end }, c)
            },
            PRes::Fail(e) => PRes::Fail(e),
            PRes::Panic => PRes::Panic,
        }
    }
}

/// The statements of a non-empty block, up to and including its `}`.
pub open spec fn sp_block_items(ts: Seq<SpecToken>, cur: int, acc: Seq<SStmt>, strict: bool) -> PRes<Seq<SStmt>>
    decreases ts.len() - cur, 31int,
{
    if cur < 0 || cur > ts.len() {
        PRes::Panic
    } else {
        match sp_statement(ts, cur, strict) {
            PRes::Done(None, _) => if at_kind(ts, cur, TokenKind::ClosingBracket) {
                PRes::Done(acc, cur + 1)
            } else {
                sp_error(ts, cur)
            },
            PRes::Done(Some(st), c) => if !moved(ts, cur, c) {
                PRes::Panic
            } else if at_kind(ts, c, TokenKind::ClosingBracket) {
                PRes::Done(acc.push(st), c + 1)
            } else {
                sp_block_items(ts, c, acc.push(st), strict)
            },
            PRes::Fail(e) => PRes::Fail(e),
            PRes::Panic => PRes::Panic,
        }
    }
}

/// `match_statement`: the next statement, or nothing at the end of the tokens.
pub open spec fn sp_statement(ts: Seq<SpecToken>, cur: int, strict: bool) -> PRes<Option<SStmt>>
    decreases ts.len() - cur, 30int,
{
    if cur < 0 || cur > ts.len() {
        PRes::Panic
    } else if cur == ts.len() {
        PRes::Done(None, cur)
    } else {
        let t = ts[cur];
        let r = if at_keyword(ts, cur, KeywordKind::Import) {
            sp_import(ts, cur)
        } else if at_keyword(ts, cur, KeywordKind::Fn) {
            sp_function(ts, cur, strict)
        } else if at_keyword(ts, cur, KeywordKind::If) {
            sp_if(ts, cur, strict)
        } else if at_keyword(ts, cur, KeywordKind::Let) {
            sp_let(ts, cur, strict)
        } else if at_keyword(ts, cur, KeywordKind::Export) {
            sp_export(ts, cur, strict)
        } else if at_keyword(ts, cur, KeywordKind::For) {
            sp_for(ts, cur, strict)
        } else if at_keyword(ts, cur, KeywordKind::While) {
            sp_while(ts, cur, strict)
        } else if at_keyword(ts, cur, KeywordKind::Break) {
            PRes::Done(SStmt { kind: SStmtKind::Break, start: t.start, end: t.end }, cur + 1)
        } else if at_keyword(ts, cur, KeywordKind::Return) {
            match sp_expression(ts, cur + 1, 0, strict) {
                PRes::Done(e, c) => PRes::Done(SStmt { kind: SStmtKind::Return(e), start: t.start, end: e.end }, c),
                PRes::Fail(e) => PRes::Fail(e),
                PRes::Panic => PRes::Panic,
            }
        } else if at_keyword(ts, cur, KeywordKind::Class) {
            sp_class(ts, cur, strict)
        } else {
            match sp_expression(ts, cur, 0, strict) {
                PRes::Done(e, c) => if !moved(ts, cur, c) {
                    PRes::Panic
                } else {
                    PRes::Done(SStmt { kind: SStmtKind::Expression(e), start: t.start, end: ts[c - 1].end }, c)
                },
                PRes::Fail(e) => PRes::Fail(e),
                PRes::Panic => PRes::Panic,
            }
        };
        match r {
            PRes::Done(st, c) => PRes::Done(Some(st), c),
            PRes::Fail(e) => PRes::Fail(e),
            PRes::Panic => PRes::Panic,
        }
    }
}

/// `import { names } from "source"`.
pub open spec fn sp_import(ts: Seq<SpecToken>, cur: int) -> PRes<SStmt>
    decreases ts.len() - cur, 25int,
{
    if cur < 0 || cur >= ts.len() {
        PRes::Panic
    } else if !at_kind(ts, cur + 1, TokenKind::OpeningBracket) {
        sp_error(ts, cur + 1)
    } else {
        match sp_names(ts, cur + 2, Seq::empty(), false) {
            PRes::Done(names, c) => if !(cur + 2 < c <= ts.len()) {
                PRes::Panic
            } else if !at_keyword(ts, c, KeywordKind::From) {
                sp_error(ts, c)
            } else if !at_string(ts, c + 1) {
                sp_error(ts, c + 1)
            } else {
                PRes::Done(
                    SStmt { kind: SStmtKind::Import(names, ident_of(ts[c + 1])), start: ts[cur].start, end: ts[c + 1].end },
                    c + 2,
                )
            },
            PRes::Fail(e) => PRes::Fail(e),
            PRes::Panic => PRes::Panic,
        }
    }
}

/// `name(args) [: type] { body }`: a method, or the rest of a function.
pub open spec fn sp_method(ts: Seq<SpecToken>, cur: int, strict: bool) -> PRes<SStmt>
    decreases ts.len() - cur, 19int,
{
    if cur < 0 || cur > ts.len() {
        PRes::Panic
    } else if !at_ident(ts, cur) {
        sp_error(ts, cur)
    } else if !at_kind(ts, cur + 1, TokenKind::OpeningParenthesis) {
        sp_error(ts, cur + 1)
    } else {
        match sp_arguments(ts, cur + 2, Seq::empty(), false) {
            PRes::Done(args, c1) => if !moved(ts, cur, c1) {
                PRes::Panic
            } else {
                match sp_return_type(ts, c1) {
                    PRes::Done(rt, c2) => if !(c1 <= c2 <= ts.len()) {
                        PRes::Panic
                    } else {
                        match sp_block(ts, c2, strict) {
                            PRes::Done(b, c3) => PRes::Done(
                                SStmt {
                                    kind: SStmtKind::Function(ident_of(ts[cur]), args, b, rt),
                                    start: ts[cur].start,
                                    end: b.end,
                                },
                                c3,
                            ),
                            PRes::Fail(e) => PRes::Fail(e),
                            PRes::Panic => PRes::Panic,
                        }
                    },
                    PRes::Fail(e) => PRes::Fail(e),
                    PRes::Panic => PRes::Panic,
                }
            },
            PRes::Fail(e) => PRes::Fail(e),
            PRes::Panic => PRes::Panic,
        }
    }
}

/// `fn name(args) [: type] { body }`.
pub open spec fn sp_function(ts: Seq<SpecToken>, cur: int, strict: bool) -> PRes<SStmt>
    decreases ts.len() - cur, 20int,
{
    if cur < 0 || cur >= ts.len() {
        PRes::Panic
    } else {
        match sp_method(ts, cur + 1, strict) {
            PRes::Done(m, c) => PRes::Done(SStmt { kind: m.kind, start: ts[cur].start, end: m.end }, c),
            PRes::Fail(e) => PRes::Fail(e),
            PRes::Panic => PRes::Panic,
        }
    }
}

/// `if condition { ... } [else if ... | else { ... }]`.
pub open spec fn sp_if(ts: Seq<SpecToken>, cur: int, strict: bool) -> PRes<SStmt>
    decreases ts.len() - cur, 25int,
{
    if cur < 0 || cur >= ts.len() {
        PRes::Panic
    } else {
        match sp_expression(ts, cur + 1, 0, strict) {
            PRes::Done(cond, c1) => if !moved(ts, cur, c1) {
                PRes::Panic
            } else {
                match sp_block(ts, c1, strict) {
                    PRes::Done(b, c2) => if !moved(ts, cur, c2) {
                        PRes::Panic
                    } else if !at_keyword(ts, c2, KeywordKind::Else) {
                        // the failed attempt to take `else` still builds its error
                        if sp_error::<()>(ts, c2) is Panic {
                            PRes::Panic
                        } else {
                            PRes::Done(SStmt { kind: SStmtKind::If(cond, b, None), start: ts[cur].start, end: ts[c2 - 1].end }, c2)
                        }
                    } else {
                        let alt = if at_keyword(ts, c2 + 1, KeywordKind::If) {
                            sp_if(ts, c2 + 1, strict)
                        } else {
                            match sp_block(ts, c2 + 1, strict) {
                                PRes::Done(eb, c3) => PRes::Done(SStmt { kind: SStmtKind::Block(eb), start: eb.start, end: eb.end }, c3),
                                PRes::Fail(e) => PRes::Fail(e),
                                PRes::Panic => PRes::Panic,
                            }
                        };
                        match alt {
                            PRes::Done(a, c3) => if !moved(ts, cur, c3) {
                                PRes::Panic
                            } else {
                                PRes::Done(
                                    SStmt { kind: SStmtKind::If(cond, b, Some(Box::new(a))), start: ts[cur].start, end: ts[c3 - 1].end },
                                    c3,
                                )
                            },
                            PRes::Fail(e) => PRes::Fail(e),
                            PRes::Panic => PRes::Panic,
                        }
                    },
                    PRes::Fail(e) => PRes::Fail(e),
                    PRes::Panic => PRes::Panic,
                }
            },
            PRes::Fail(e) => PRes::Fail(e),
            PRes::Panic => PRes::Panic,
        }
    }
}

/// `let name [: type] = expression`.
pub open spec fn sp_let(ts: Seq<SpecToken>, cur: int, strict: bool) -> PRes<SStmt>
    decreases ts.len() - cur, 25int,
{
    if cur < 0 || cur >= ts.len() {
        PRes::Panic
    } else if !at_ident(ts, cur + 1) {
        sp_error(ts, cur + 1)
    } else {
        match sp_return_type(ts, cur + 2) {
            PRes::Done(t, c1) => if !(cur + 2 <= c1 <= ts.len()) {
                PRes::Panic
            } else if !at_kind(ts, c1, TokenKind::Assign) {
                sp_error(ts, c1)
            } else {
                match sp_expression(ts, c1 + 1, 0, strict) {
                    PRes::Done(e, c2) => PRes::Done(
                        SStmt {
                            kind: SStmtKind::VariableDefinition(SDescriptor::Identifier(ident_of(ts[cur + 1])), e, t),
                            start: ts[cur].start,
                            end: e.end,
                        },
                        c2,
                    ),
                    PRes::Fail(e) => PRes::Fail(e),
                    PRes::Panic => PRes::Panic,
                }
            },
            PRes::Fail(e) => PRes::Fail(e),
            PRes::Panic => PRes::Panic,
        }
    }
}

/// `export declaration`.
pub open spec fn sp_export(ts: Seq<SpecToken>, cur: int, strict: bool) -> PRes<SStmt>
    decreases ts.len() - cur, 25int,
{
    if cur < 0 || cur >= ts.len() {
        PRes::Panic
    } else {
        match sp_statement(ts, cur + 1, strict) {
            PRes::Done(None, _) => PRes::Fail(SErr { kind: SErrKind::UnexpectedEnd, span: None }),
            PRes::Done(Some(st), c) => PRes::Done(SStmt { kind: SStmtKind::Export(Box::new(st)), start: ts[cur].start, end: st.end }, c),
            PRes::Fail(e) => PRes::Fail(e),
            PRes::Panic => PRes::Panic,
        }
    }
}

/// Whether the token at `i` may begin the left side of a `for` range.
pub open spec fn starts_left_operand_at(ts: Seq<SpecToken>, i: int) -> bool {
    at_number(ts, i) || at_ident(ts, i) || at_kind(ts, i, TokenKind::OpeningParenthesis) || at_kind(ts, i, TokenKind::OpeningSquareBracket)
}

/// Whether the token at `i` may begin the right side of a `for` range.
pub open spec fn starts_right_operand_at(ts: Seq<SpecToken>, i: int) -> bool {
    at_number(ts, i) || at_ident(ts, i) || at_kind(ts, i, TokenKind::OpeningParenthesis)
}

/// The message for a range without bounds.
pub open spec fn range_message() -> Seq<char> {
    "Both sides of a range expression cannot be None"@
}

/// `for name in [left]..[right] { ... }` or `for name in array { ... }`.
pub open spec fn sp_for(ts: Seq<SpecToken>, cur: int, strict: bool) -> PRes<SStmt>
    decreases ts.len() - cur, 25int,
{
    if cur < 0 || cur >= ts.len() {
        PRes::Panic
    } else if !at_ident(ts, cur + 1) {
        sp_error(ts, cur + 1)
    } else if !at_keyword(ts, cur + 2, KeywordKind::In) {
        sp_error(ts, cur + 2)
    } else {
        let left = if starts_left_operand_at(ts, cur + 3) {
            match sp_expression(ts, cur + 3, 0, strict) {
                PRes::Done(e, c) => PRes::Done(Some(e), c),
                PRes::Fail(e) => PRes::Fail(e),
                PRes::Panic => PRes::Panic,
            }
        } else {
            PRes::Done(None, cur + 3)
        };
        match left {
            PRes::Done(l, c1) => if !(cur + 3 <= c1 <= ts.len()) {
                PRes::Panic
            } else {
                let iterable = if at_kind(ts, c1, TokenKind::Range) {
                    let right = if starts_right_operand_at(ts, c1 + 1) {
                        match sp_expression(ts, c1 + 1, 0, strict) {
                            PRes::Done(e, c) => PRes::Done(Some(e), c),
                            PRes::Fail(e) => PRes::Fail(e),
                            PRes::Panic => PRes::Panic,
                        }
                    } else {
                        PRes::Done(None, c1 + 1)
                    };
                    match right {
                        PRes::Done(r, c2) => if l is None && r is None {
                            PRes::Fail(SErr { kind: SErrKind::InvalidUsage(range_message()), span: Some((ts[c1].start, ts[c1].end)) })
                        } else {
                            PRes::Done(SIterable::Range(l, r), c2)
                        },
                        PRes::Fail(e) => PRes::Fail(e),
                        PRes::Panic => PRes::Panic,
                    }
                } else {
                    match l {
                        Some(e) => PRes::Done(SIterable::Array(e), c1),
                        None => sp_error(ts, c1),
                    }
                };
                match iterable {
                    PRes::Done(it, c2) => if !moved(ts, cur, c2) {
                        PRes::Panic
                    } else {
                        match sp_block(ts, c2, strict) {
                            PRes::Done(b, c3) => PRes::Done(
                                SStmt { kind: SStmtKind::For(ident_of(ts[cur + 1]), it, b.statements), start: ts[cur].start, end: b.end },
                                c3,
                            ),
                            PRes::Fail(e) => PRes::Fail(e),
                            PRes::Panic => PRes::Panic,
                        }
                    },
                    PRes::Fail(e) => PRes::Fail(e),
                    PRes::Panic => PRes::Panic,
                }
            },
            PRes::Fail(e) => PRes::Fail(e),
            PRes::Panic => PRes::Panic,
        }
    }
}

/// `while condition { ... }`.
pub open spec fn sp_while(ts: Seq<SpecToken>, cur: int, strict: bool) -> PRes<SStmt>
    decreases ts.len() - cur, 25int,
{
    if cur < 0 || cur >= ts.len() {
        PRes::Panic
    } else {
        match sp_expression(ts, cur + 1, 0, strict) {
            PRes::Done(cond, c1) => if !moved(ts, cur, c1) {
                PRes::Panic
            } else {
                match sp_block(ts, c1, strict) {
                    PRes::Done(b, c2) => PRes::Done(
                        SStmt { kind: SStmtKind::While(cond, b.statements), start: ts[cur].start, end: b.end },
                        c2,
                    ),
                    PRes::Fail(e) => PRes::Fail(e),
                    PRes::Panic => PRes::Panic,
                }
            },
            PRes::Fail(e) => PRes::Fail(e),
            PRes::Panic => PRes::Panic,
        }
    }
}

/// The message for a constructor with a return type.
pub open spec fn constructor_message() -> Seq<char> {
    "Constructor cannot have a return type annotation"@
}

/// `class Name { members }`.
pub open spec fn sp_class(ts: Seq<SpecToken>, cur: int, strict: bool) -> PRes<SStmt>
    decreases ts.len() - cur, 25int,
{
    if cur < 0 || cur >= ts.len() {
        PRes::Panic
    } else if !at_ident(ts, cur + 1) {
        sp_error(ts, cur + 1)
    } else if !at_kind(ts, cur + 2, TokenKind::OpeningBracket) {
        sp_error(ts, cur + 2)
    } else {
        match sp_members(ts, cur + 3, Seq::empty(), Seq::empty(), strict) {
            PRes::Done((methods, fields, body_end), c) => if !moved(ts, cur, c) {
                PRes::Panic
            } else {
                PRes::Done(
                    SStmt {
                        kind: SStmtKind::Class(ident_of(ts[cur + 1]), methods, fields, ts[cur + 2].end, body_end),
                        start: ts[cur].start,
                        end: ts[c - 1].end,
                    },
                    c,
                )
            },
            PRes::Fail(e) => PRes::Fail(e),
            PRes::Panic => PRes::Panic,
        }
    }
}

/// The members of a class body up to and including its `}`: functions,
/// methods (named like the class: constructors, which take no return type)
/// and fields with a visibility; together with where the `}` starts.
pub open spec fn sp_members(
    ts: Seq<SpecToken>,
    cur: int,
    methods: Seq<SStmt>,
    fields: Seq<SStmt>,
    strict: bool,
) -> PRes<(Seq<SStmt>, Seq<SStmt>, nat)>
    decreases ts.len() - cur, 24int,
{
    if cur < 0 || cur > ts.len() {
        PRes::Panic
    } else if at_kind(ts, cur, TokenKind::ClosingBracket) {
        PRes::Done((methods, fields, ts[cur].start), cur + 1)
    } else if at_keyword(ts, cur, KeywordKind::Fn) {
        match sp_function(ts, cur, strict) {
            PRes::Done(m, c) => if !moved(ts, cur, c) {
                PRes::Panic
            } else {
                sp_members(ts, c, methods.push(m), fields, strict)
            },
            PRes::Fail(e) => PRes::Fail(e),
            PRes::Panic => PRes::Panic,
        }
    } else if at_ident(ts, cur) {
        match sp_method(ts, cur, strict) {
            PRes::Done(m, c) => if !moved(ts, cur, c) {
                PRes::Panic
            } else {
                match m.kind {
                    SStmtKind::Function(_, _, _, Some(rt)) => PRes::Fail(
                        SErr { kind: SErrKind::InvalidUsage(constructor_message()), span: Some(stype_span(rt)) },
                    ),
                    _ => sp_members(ts, c, methods.push(m), fields, strict),
                }
            },
            PRes::Fail(e) => PRes::Fail(e),
            PRes::Panic => PRes::Panic,
        }
    } else if !at_visibility(ts, cur) {
        sp_error(ts, cur)
    } else if !at_ident(ts, cur + 1) {
        sp_error(ts, cur + 1)
    } else if !at_kind(ts, cur + 2, TokenKind::Assign) {
        sp_error(ts, cur + 2)
    } else {
        match sp_expression(ts, cur + 3, 0, strict) {
            PRes::Done(e, c) => if !moved(ts, cur, c) {
                PRes::Panic
            } else {
                let vis = visibility_of(other_kind(ts[cur].kind))->0;
                let field = SStmt { kind: SStmtKind::Field(vis, token_text(ts[cur + 1]), e), start: ts[cur].start, end: e.end };
                sp_members(ts, c, methods, fields.push(field), strict)
            },
            PRes::Fail(e) => PRes::Fail(e),
            PRes::Panic => PRes::Panic,
        }
    }
}

/// The statements of a whole program.
pub open spec fn sp_program(ts: Seq<SpecToken>, cur: int, acc: Seq<SStmt>, strict: bool) -> PRes<Seq<SStmt>>
    decreases ts.len() - cur,
{
    if cur < 0 || cur > ts.len() {
        PRes::Panic
    } else {
        match sp_statement(ts, cur, strict) {
            PRes::Done(None, c) => PRes::Done(acc, c),
            PRes::Done(Some(st), c) => if !moved(ts, cur, c) {
                PRes::Panic
            } else {
                sp_program(ts, c, acc.push(st), strict)
            },
            PRes::Fail(e) => PRes::Fail(e),
            PRes::Panic => PRes::Panic,
        }
    }
}

/// The outcome of parsing `ts` in strict (or lax) mode.
pub open spec fn spec_parse(ts: Seq<SpecToken>, strict: bool) -> PRes<Seq<SStmt>> {
    sp_program(ts, 0, Seq::empty(), strict)
}

// ---------------------------------------------------------------------
// The executable parser.

/// The index of the variant of a token kind.
pub open spec fn kind_tag(k: TokenKind) -> u8 {
    match k {
        TokenKind::Keyword(_) => 0,
        TokenKind::Identifier { .. } => 1,
        TokenKind::NumericLiteral { .. } => 2,
        TokenKind::BooleanLiteral { .. } => 3,
        TokenKind::StringLiteral { .. } => 4,
        TokenKind::Plus => 5,
        TokenKind::Minus => 6,
        TokenKind::Asterisk => 7,
        TokenKind::Slash => 8,
        TokenKind::Percent => 9,
        TokenKind::Assign => 10,
        TokenKind::PlusEqual => 11,
        TokenKind::MinusEqual => 12,
        TokenKind::AsteriskEqual => 13,
        TokenKind::SlashEqual => 14,
        TokenKind::PercentEqual => 15,
        TokenKind::EQ => 16,
        TokenKind::NE => 17,
        TokenKind::GT => 18,
        TokenKind::GTE => 19,
        TokenKind::LT => 20,
        TokenKind::LTE => 21,
        TokenKind::OpeningParenthesis => 22,
        TokenKind::ClosingParenthesis => 23,
        TokenKind::OpeningBracket => 24,
        TokenKind::ClosingBracket => 25,
        TokenKind::OpeningSquareBracket => 26,
        TokenKind::ClosingSquareBracket => 27,
        TokenKind::Comma => 28,
        TokenKind::Range => 29,
        TokenKind::And => 30,
        TokenKind::Or => 31,
        TokenKind::Period => 32,
        TokenKind::Colon => 33,
        TokenKind::Arrow => 34,
        TokenKind::Bang => 35,
    }
}

fn token_tag(k: &TokenKind) -> (r: u8)
    ensures
        r == kind_tag(*k),
{
    match k {
        TokenKind::Keyword(_) => 0,
        TokenKind::Identifier { .. } => 1,
        TokenKind::NumericLiteral { .. } => 2,
        TokenKind::BooleanLiteral { .. } => 3,
        TokenKind::StringLiteral { .. } => 4,
        TokenKind::Plus => 5,
        TokenKind::Minus => 6,
        TokenKind::Asterisk => 7,
        TokenKind::Slash => 8,
        TokenKind::Percent => 9,
        TokenKind::Assign => 10,
        TokenKind::PlusEqual => 11,
        TokenKind::MinusEqual => 12,
        TokenKind::AsteriskEqual => 13,
        TokenKind::SlashEqual => 14,
        TokenKind::PercentEqual => 15,
        TokenKind::EQ => 16,
        TokenKind::NE => 17,
        TokenKind::GT => 18,
        TokenKind::GTE => 19,
        TokenKind::LT => 20,
        TokenKind::LTE => 21,
        TokenKind::OpeningParenthesis => 22,
        TokenKind::ClosingParenthesis => 23,
        TokenKind::OpeningBracket => 24,
        TokenKind::ClosingBracket => 25,
        TokenKind::OpeningSquareBracket => 26,
        TokenKind::ClosingSquareBracket => 27,
        TokenKind::Comma => 28,
        TokenKind::Range => 29,
        TokenKind::And => 30,
        TokenKind::Or => 31,
        TokenKind::Period => 32,
        TokenKind::Colon => 33,
        TokenKind::Arrow => 34,
        TokenKind::Bang => 35,
    }
}

/// Whether a token kind carries no text.
pub open spec fn textless(k: TokenKind) -> bool {
    !(k is Identifier || k is NumericLiteral || k is StringLiteral)
}

/// Whether token `t` has the kind `k`, which carries no text.
fn is_kind(t: &Token, k: &TokenKind) -> (r: bool)
    requires
        textless(*k),
    ensures
        r == (t.kind@ == SpecTokenKind::Other(*k)),
{
    let a = token_tag(&t.kind);
    let b = token_tag(k);
    if a != b {
        return false;
    }
    match (&t.kind, k) {
        (TokenKind::Keyword(x), TokenKind::Keyword(y)) => *x == *y,
        (TokenKind::BooleanLiteral { value: x }, TokenKind::BooleanLiteral { value: y }) => *x == *y,
        _ => true,
    }
}

/// The views of the tokens of a parser.
pub open spec fn pts(p: Parser) -> Seq<SpecToken> {
    tokens_view(p.tokens@)
}

/// The parser after a call has the same tokens and mode and a valid cursor.
pub open spec fn kept(a: Parser, b: Parser) -> bool {
    &&& b.tokens@ == a.tokens@
    &&& b.strict == a.strict
    &&& b.cursor <= b.tokens@.len()
}

/// Whether an internal result agrees with a spec outcome whose value views as `v`.
pub open spec fn agrees<T, V>(r: Result<T, Fault>, s: PRes<V>, view: spec_fn(T) -> V, c: int) -> bool {
    match s {
        PRes::Done(v, c2) => r is Ok && view(r->Ok_0) == v && c == c2,
        PRes::Fail(e) => r matches Err(Fault::Error(le)) && err_view(le) == e,
        PRes::Panic => r matches Err(Fault::Panic),
    }
}

pub open spec fn agrees_type(r: Result<TypeRef, Fault>, s: PRes<STypeRef>, c: int) -> bool {
    match s {
        PRes::Done(v, c2) => r is Ok && r->Ok_0@ == v && c == c2,
        PRes::Fail(e) => r matches Err(Fault::Error(le)) && err_view(le) == e,
        PRes::Panic => r matches Err(Fault::Panic),
    }
}

/// The message `unexpected token at index {cursor}`.
fn unexpected_token_message(cursor: usize) -> (r: String)
    ensures
        r@ == unexpected_message(cursor as nat),
{
    let mut r = "unexpected token at index ".to_owned();
    let n = usize_to_string(cursor);
    r.append(n.as_str());
    r
}

/// The name `<lambda:{start}-{end}>` of an anonymous function.
fn lambda_name_string(start: usize, end: usize) -> (r: String)
    ensures
        r@ == lambda_name(start as nat, end as nat),
{
    let mut r = "<lambda:".to_owned();
    let a = usize_to_string(start);
    r.append(a.as_str());
    r.append("-");
    let b = usize_to_string(end);
    r.append(b.as_str());
    r.append(">");
    r
}

impl Parser {
    /// A parser at the first of `tokens`.
    pub fn new(tokens: Vec<Token>, strict: bool) -> (r: Parser)
        ensures
            r.cursor == 0,
            r.tokens == tokens,
            r.strict == strict,
    {
        Parser { cursor: 0, tokens, strict }
    }

    /// The token at the cursor, if any.
    pub fn peek(&self) -> (r: Option<&Token>)
        ensures
            self.cursor < self.tokens@.len() ==> r == Some(&self.tokens@[self.cursor as int]),
            self.cursor >= self.tokens@.len() ==> r is None,
    {
        if self.cursor < self.tokens.len() {
            Some(&self.tokens[self.cursor])
        } else {
            None
        }
    }

    /// Moves the cursor to the next token.
    pub fn advance(&mut self)
        requires
            old(self).cursor < usize::MAX,
        ensures
            final(self).cursor == old(self).cursor + 1,
            final(self).tokens == old(self).tokens,
            final(self).strict == old(self).strict,
    {
        self.cursor = self.cursor + 1;
    }

    /// Moves the cursor past the token it is on.
    fn skip(&mut self)
        requires
            old(self).cursor < old(self).tokens@.len(),
        ensures
            final(self).cursor == old(self).cursor + 1,
            final(self).tokens == old(self).tokens,
            final(self).strict == old(self).strict,
    {
        proof {
            assert(self.cursor < self.tokens.len());
        }
        self.advance();
    }

    /// The error at the cursor (see `sp_error`).
    fn error<T>(&self) -> (r: Result<T, Fault>)
        requires
            self.cursor <= self.tokens@.len(),
        ensures
            agrees(r, sp_error::<()>(pts(*self), self.cursor as int), |x: T| (), self.cursor as int),
            r is Err,
    {
        let ghost ts = pts(*self);
        if self.cursor < self.tokens.len() {
            let t = &self.tokens[self.cursor];
            let msg = unexpected_token_message(self.cursor);
            Err(Fault::Error(LanguageError::with_source(ErrorKind::Parser(ParserError::UnexpectedToken(msg)), t.start, t.end)))
        } else if self.cursor == 0 {
            Err(Fault::Panic)
        } else {
            let prev = &self.tokens[self.cursor - 1];
            if prev.end == 0 {
                Err(Fault::Panic)
            } else {
                Err(Fault::Error(LanguageError::with_source(ErrorKind::Parser(ParserError::UnexpectedEndOfInput), prev.end - 1, prev.end)))
            }
        }
    }

    /// The error that a public call returns at the cursor.
    fn error_result<T>(&self) -> (r: LanguageResult<T>)
        requires
            self.cursor <= self.tokens@.len(),
            !(sp_error::<()>(pts(*self), self.cursor as int) is Panic),
        ensures
            r matches Err(e) && PRes::<()>::Fail(err_view(e)) == sp_error::<()>(pts(*self), self.cursor as int),
    {
        match self.error::<T>() {
            Err(Fault::Error(e)) => Err(e),
            _ => {
                proof {
                    assert(false);
                }
                Err(LanguageError::from(ErrorKind::Parser(ParserError::UnexpectedEndOfInput)))
            },
        }
    }

    /// Takes the token at the cursor if `predicate` holds of it; otherwise
    /// the error at the cursor.
    pub fn consume<F: Fn(&Token) -> bool>(&mut self, predicate: F) -> (r: LanguageResult<Token>)
        requires
            old(self).cursor <= old(self).tokens@.len(),
            forall|t: &Token| predicate.requires((t,)),
            !(sp_error::<()>(pts(*old(self)), old(self).cursor as int) is Panic),
        ensures
            final(self).tokens == old(self).tokens,
            final(self).strict == old(self).strict,
            r is Ok ==> old(self).cursor < old(self).tokens@.len() && final(self).cursor == old(self).cursor + 1
                && r->Ok_0 == old(self).tokens@[old(self).cursor as int]
                && predicate.ensures((&old(self).tokens@[old(self).cursor as int],), true),
            r is Err ==> final(self).cursor == old(self).cursor
                && (old(self).cursor < old(self).tokens@.len() ==> predicate.ensures((&old(self).tokens@[old(self).cursor as int],), false))
                && PRes::<()>::Fail(err_view(r->Err_0)) == sp_error::<()>(pts(*old(self)), old(self).cursor as int),
    {
        let c = self.cursor;
        if c < self.tokens.len() {
            let t = self.tokens[c].clone();
            if predicate(&t) {
                self.cursor = c + 1;
                return Ok(t);
            }
        }
        self.error_result()
    }
}

proof fn lemma_tokens_view_index(ts: Seq<Token>, i: int)
    requires
        0 <= i < ts.len(),
    ensures
        tokens_view(ts)[i] == ts[i]@,
        tokens_view(ts).len() == ts.len(),
{
}

/// Takes a token of the text-free kind `k`, or fails with the error at the cursor.
fn expect_kind(p: &mut Parser, k: &TokenKind) -> (r: Result<Token, Fault>)
    requires
        old(p).cursor <= old(p).tokens@.len(),
        textless(*k),
    ensures
        kept(*old(p), *final(p)),
        at_kind(pts(*old(p)), old(p).cursor as int, *k) ==> r is Ok && r->Ok_0 == old(p).tokens@[old(p).cursor as int]
            && final(p).cursor == old(p).cursor + 1,
        !at_kind(pts(*old(p)), old(p).cursor as int, *k) ==> final(p).cursor == old(p).cursor
            && agrees(r, sp_error::<()>(pts(*old(p)), old(p).cursor as int), |x: Token| (), old(p).cursor as int)
            && r is Err,
{
    if p.cursor < p.tokens.len() {
        proof {
            lemma_tokens_view_index(p.tokens@, p.cursor as int);
        }
        if is_kind(&p.tokens[p.cursor], k) {
            let t = p.tokens[p.cursor].clone();
            p.cursor = p.cursor + 1;
            return Ok(t);
        }
    }
    p.error()
}

/// Takes an identifier token as an `Identifier`, or fails with the error at the cursor.
fn expect_identifier(p: &mut Parser) -> (r: Result<Identifier, Fault>)
    requires
        old(p).cursor <= old(p).tokens@.len(),
    ensures
        kept(*old(p), *final(p)),
        at_ident(pts(*old(p)), old(p).cursor as int) ==> r is Ok && r->Ok_0@ == ident_of(pts(*old(p))[old(p).cursor as int])
            && final(p).cursor == old(p).cursor + 1,
        !at_ident(pts(*old(p)), old(p).cursor as int) ==> final(p).cursor == old(p).cursor
            && agrees(r, sp_error::<()>(pts(*old(p)), old(p).cursor as int), |x: Identifier| (), old(p).cursor as int)
            && r is Err,
{
    if p.cursor < p.tokens.len() {
        proof {
            lemma_tokens_view_index(p.tokens@, p.cursor as int);
        }
        let t = &p.tokens[p.cursor];
        if let TokenKind::Identifier { value } = &t.kind {
            let id = Identifier { value: value.clone(), start: t.start, end: t.end };
            p.cursor = p.cursor + 1;
            return Ok(id);
        }
    }
    p.error()
}

/// Takes a string token as a `StringLiteral`, or fails with the error at the cursor.
fn expect_string(p: &mut Parser) -> (r: Result<StringLiteral, Fault>)
    requires
        old(p).cursor <= old(p).tokens@.len(),
    ensures
        kept(*old(p), *final(p)),
        at_string(pts(*old(p)), old(p).cursor as int) ==> r is Ok && r->Ok_0@ == ident_of(pts(*old(p))[old(p).cursor as int])
            && final(p).cursor == old(p).cursor + 1,
        !at_string(pts(*old(p)), old(p).cursor as int) ==> final(p).cursor == old(p).cursor
            && agrees(r, sp_error::<()>(pts(*old(p)), old(p).cursor as int), |x: StringLiteral| (), old(p).cursor as int)
            && r is Err,
{
    if p.cursor < p.tokens.len() {
        proof {
            lemma_tokens_view_index(p.tokens@, p.cursor as int);
        }
        let t = &p.tokens[p.cursor];
        if let TokenKind::StringLiteral { value } = &t.kind {
            let s = StringLiteral { value: value.clone(), start: t.start, end: t.end };
            p.cursor = p.cursor + 1;
            return Ok(s);
        }
    }
    p.error()
}

/// Whether the token at the cursor has the text-free kind `k`.
fn peek_is(p: &Parser, k: &TokenKind) -> (r: bool)
    requires
        textless(*k),
    ensures
        r == at_kind(pts(*p), p.cursor as int, *k),
{
    if p.cursor < p.tokens.len() {
        proof {
            lemma_tokens_view_index(p.tokens@, p.cursor as int);
        }
        is_kind(&p.tokens[p.cursor], k)
    } else {
        false
    }
}

/// Whether the token at the cursor is an identifier.
fn peek_ident(p: &Parser) -> (r: bool)
    ensures
        r == at_ident(pts(*p), p.cursor as int),
{
    if p.cursor < p.tokens.len() {
        proof {
            lemma_tokens_view_index(p.tokens@, p.cursor as int);
        }
        match &p.tokens[p.cursor].kind {
            TokenKind::Identifier { .. } => true,
            _ => false,
        }
    } else {
        false
    }
}

// ---------------------------------------------------------------------
// Types.

pub open spec fn agrees_entries_t(r: Result<TypeRefMap, Fault>, s: PRes<Seq<(Seq<char>, STypeRef)>>, c: int) -> bool {
    match s {
        PRes::Done(v, c2) => r is Ok && type_ref_entries(r->Ok_0) == v && distinct_keys(v) && c == c2,
        PRes::Fail(e) => r matches Err(Fault::Error(le)) && err_view(le) == e,
        PRes::Panic => r matches Err(Fault::Panic),
    }
}

/// `match_type_ref`.
fn type_ref(p: &mut Parser) -> (r: Result<TypeRef, Fault>)
    requires
        old(p).cursor <= old(p).tokens@.len(),
    ensures
        kept(*old(p), *final(p)),
        r is Ok ==> old(p).cursor < final(p).cursor,
        agrees_type(r, sp_type_ref(pts(*old(p)), old(p).cursor as int), final(p).cursor as int),
    decreases old(p).tokens@.len() - old(p).cursor, 3int,
{
    let ghost ts = pts(*p);
    let ghost cur = p.cursor as int;
    if peek_ident(p) {
        proof {
            lemma_tokens_view_index(p.tokens@, cur);
        }
        let start = p.tokens[p.cursor].start;
        let id = expect_identifier(p)?;
        type_suffix(p, TypeRef::Named(id), start)
    } else if peek_is(p, &TokenKind::OpeningBracket) {
        proof {
            lemma_tokens_view_index(p.tokens@, cur);
        }
        let start = p.tokens[p.cursor].start;
        p.skip();
        let entries = type_entries(p)?;
        proof {
            lemma_tokens_view_index(p.tokens@, p.cursor - 1);
        }
        let end = p.tokens[p.cursor - 1].end;
        let t = TypeRef::Object { entries, span: Span { start, end } };
        type_suffix(p, t, start)
    } else {
        Err(Fault::Panic)
    }
}

/// The entries of an object type, from just after its `{`.
fn type_entries(p: &mut Parser) -> (r: Result<TypeRefMap, Fault>)
    requires
        old(p).cursor <= old(p).tokens@.len(),
    ensures
        kept(*old(p), *final(p)),
        r is Ok ==> old(p).cursor < final(p).cursor,
        agrees_entries_t(r, sp_type_entries(pts(*old(p)), old(p).cursor as int, Seq::empty(), false), final(p).cursor as int),
    decreases old(p).tokens@.len() - old(p).cursor, 2int,
{
    let ghost ts = pts(*p);
    let ghost c0 = p.cursor as int;
    let mut entries = TypeRefMap::new();
    let mut should_end = false;
    loop
        invariant
            kept(*old(p), *p),
            pts(*p) == ts,
            ts == pts(*old(p)),
            c0 == old(p).cursor,
            c0 <= p.cursor,
            distinct_keys(type_ref_entries(entries)),
            sp_type_entries(ts, c0, Seq::empty(), false) == sp_type_entries(ts, p.cursor as int, type_ref_entries(entries), should_end),
            ts.len() == p.tokens@.len(),
        decreases p.tokens@.len() - p.cursor,
    {
        let ghost c = p.cursor as int;
        if peek_is(p, &TokenKind::ClosingBracket) {
            p.skip();
            return Ok(entries);
        } else if should_end {
            return p.error();
        }
        let id = expect_identifier(p)?;
        expect_kind(p, &TokenKind::Colon)?;
        let t = type_ref(p)?;
        proof {
            lemma_map_insert_distinct(type_ref_entries(entries), id.value@, t@);
        }
        entries.insert(id.value, t);
        if peek_is(p, &TokenKind::Comma) {
            p.skip();
            should_end = false;
        } else {
            should_end = true;
        }
    }
}

/// The `[]` suffixes of a type.
fn type_suffix(p: &mut Parser, t_in: TypeRef, start: usize) -> (r: Result<TypeRef, Fault>)
    requires
        old(p).cursor <= old(p).tokens@.len(),
    ensures
        kept(*old(p), *final(p)),
        r is Ok ==> old(p).cursor <= final(p).cursor,
        agrees_type(r, sp_type_suffix(pts(*old(p)), old(p).cursor as int, t_in@, start as nat), final(p).cursor as int),
    decreases old(p).tokens@.len() - old(p).cursor, 1int,
{
    let ghost ts = pts(*p);
    let ghost t0 = t_in@;
    let mut t = t_in;
    loop
        invariant
            kept(*old(p), *p),
            pts(*p) == ts,
            ts == pts(*old(p)),
            t0 == t_in@,
            old(p).cursor <= p.cursor,
            sp_type_suffix(ts, old(p).cursor as int, t0, start as nat) == sp_type_suffix(ts, p.cursor as int, t@, start as nat),
        decreases p.tokens@.len() - p.cursor,
    {
        if !peek_is(p, &TokenKind::OpeningSquareBracket) {
            return Ok(t);
        }
        p.skip();
        let close = expect_kind(p, &TokenKind::ClosingSquareBracket)?;
        proof {
            lemma_tokens_view_index(p.tokens@, p.cursor - 1);
        }
        t = TypeRef::Array { type_ref: Box::new(t), span: Span { start, end: close.end } };
    }
}

// ---------------------------------------------------------------------
// Expressions.

/// Whether an internal result agrees with a spec outcome, by the view of its value.
pub open spec fn agrees_v<T: View>(r: Result<T, Fault>, s: PRes<T::V>, c: int) -> bool {
    match s {
        PRes::Done(v, c2) => r is Ok && r->Ok_0@ == v && c == c2,
        PRes::Fail(e) => r matches Err(Fault::Error(le)) && err_view(le) == e,
        PRes::Panic => r matches Err(Fault::Panic),
    }
}

pub open spec fn agrees_exprs(r: Result<Vec<Expression>, Fault>, s: PRes<Seq<SExpr>>, c: int) -> bool {
    match s {
        PRes::Done(v, c2) => r is Ok && exprs_view(r->Ok_0@) == v && c == c2,
        PRes::Fail(e) => r matches Err(Fault::Error(le)) && err_view(le) == e,
        PRes::Panic => r matches Err(Fault::Panic),
    }
}

pub open spec fn agrees_entries_e(r: Result<ExpressionMap, Fault>, s: PRes<Seq<(Seq<char>, SExpr)>>, c: int) -> bool {
    match s {
        PRes::Done(v, c2) => r is Ok && expression_entries(r->Ok_0) == v && distinct_keys(v) && c == c2,
        PRes::Fail(e) => r matches Err(Fault::Error(le)) && err_view(le) == e,
        PRes::Panic => r matches Err(Fault::Panic),
    }
}

/// The start of token `i`.
fn start_at(p: &Parser, i: usize) -> (r: usize)
    requires
        i < p.tokens@.len(),
    ensures
        r == pts(*p)[i as int].start,
        pts(*p).len() == p.tokens@.len(),
{
    proof {
        lemma_tokens_view_index(p.tokens@, i as int);
    }
    p.tokens[i].start
}

/// The end of token `i`.
fn end_at(p: &Parser, i: usize) -> (r: usize)
    requires
        i < p.tokens@.len(),
    ensures
        r == pts(*p)[i as int].end,
        pts(*p).len() == p.tokens@.len(),
{
    proof {
        lemma_tokens_view_index(p.tokens@, i as int);
    }
    p.tokens[i].end
}

/// The binding powers of an infix operator: `None` for a token that is no
/// infix operator.
pub fn infix_binding_power(operator: &TokenKind) -> (r: Option<(u8, u8)>)
    ensures
        r == binding_power(*operator),
{
    match operator {
        TokenKind::Assign | TokenKind::PlusEqual | TokenKind::MinusEqual | TokenKind::AsteriskEqual
        | TokenKind::SlashEqual | TokenKind::PercentEqual => Some((0, 1)),
        TokenKind::And | TokenKind::Or => Some((0, 1)),
        TokenKind::EQ | TokenKind::NE => Some((1, 2)),
        TokenKind::GT | TokenKind::GTE | TokenKind::LT | TokenKind::LTE => Some((3, 4)),
        TokenKind::Plus | TokenKind::Minus => Some((5, 6)),
        TokenKind::Asterisk | TokenKind::Slash => Some((7, 8)),
        _ => None,
    }
}

/// The expression that an infix operator builds out of its operands.
fn make_expression_kind(operator: TokenKind, left: Box<Expression>, right: Box<Expression>) -> (r: ExpressionKind)
    requires
        binding_power(operator) is Some,
    ensures
        r@ == combine(operator, (*left)@, (*right)@),
{
    match operator {
        TokenKind::Assign | TokenKind::PlusEqual | TokenKind::MinusEqual | TokenKind::AsteriskEqual
        | TokenKind::SlashEqual | TokenKind::PercentEqual => ExpressionKind::Assignment { left, operator, right },
        TokenKind::And | TokenKind::Or => ExpressionKind::Logical { left, operator, right },
        TokenKind::EQ | TokenKind::NE => ExpressionKind::Equality { left, operator, right },
        TokenKind::GT | TokenKind::GTE | TokenKind::LT | TokenKind::LTE => ExpressionKind::Relational { left, operator, right },
        _ => ExpressionKind::Binary { left, operator, right },
    }
}

/// A literal expression.
fn literal(literal_kind: LiteralExpressionKind, value: ValueHolder, start: usize, end: usize) -> (r: Expression)
    ensures
        r@ == lit(literal_kind.model(), value@, start as nat, end as nat),
{
    ExpressionKind::Literal { literal_kind, value }.into_expression(start, end)
}

/// The placeholder text of an unfinished member access.
fn lax_string() -> (r: String)
    ensures
        r@ == lax_text(),
{
    "<lax>".to_owned()
}

/// `parse_prefix`: the operand that starts an expression.
fn parse_prefix(p: &mut Parser) -> (r: Result<Expression, Fault>)
    requires
        old(p).cursor <= old(p).tokens@.len(),
    ensures
        kept(*old(p), *final(p)),
        r is Ok ==> old(p).cursor < final(p).cursor,
        agrees_v(r, sp_prefix(pts(*old(p)), old(p).cursor as int, old(p).strict), final(p).cursor as int),
    decreases old(p).tokens@.len() - old(p).cursor, 9int,
{
    let ghost ts = pts(*p);
    let ghost cur = p.cursor as int;
    proof {
        assert(ts.len() == p.tokens@.len());
    }
    if p.cursor >= p.tokens.len() {
        let e = if p.tokens.len() > 0 {
            end_at(p, p.tokens.len() - 1)
        } else {
            0
        };
        return Err(Fault::Error(LanguageError::with_source(ErrorKind::Parser(ParserError::UnexpectedEndOfInput), e, e)));
    }
    let tstart = start_at(p, p.cursor);
    let tend = end_at(p, p.cursor);
    proof {
        lemma_tokens_view_index(p.tokens@, cur);
    }
    let minus = peek_is(p, &TokenKind::Minus);
    if minus || peek_is(p, &TokenKind::Bang) {
        let op = if minus { TokenKind::Minus } else { TokenKind::Bang };
        p.skip();
        let left = expression_from(p, 0)?;
        let end = left.end;
        return Ok(ExpressionKind::Unary { left: Box::new(left), operator: op }.into_expression(tstart, end));
    }
    if peek_is(p, &TokenKind::OpeningParenthesis) {
        let checkpoint = p.cursor;
        match expect_lambda(p) {
            Ok(st) => {
                let start = st.start;
                let end = st.end;
                return Ok(literal(LiteralExpressionKind::Function(Box::new(st.kind)), ValueHolder::Void, start, end));
            },
            Err(Fault::Panic) => {
                return Err(Fault::Panic);
            },
            Err(Fault::Error(_)) => {},
        }
        p.cursor = checkpoint;
        p.skip();
        let e = expression_from(p, 0)?;
        expect_kind(p, &TokenKind::ClosingParenthesis)?;
        return Ok(e);
    }
    let value = match &p.tokens[p.cursor].kind {
        TokenKind::StringLiteral { value } => Some((LiteralExpressionKind::Literal, ValueHolder::String(value.clone()))),
        TokenKind::NumericLiteral { value } => {
            if !is_float_text(value) {
                return Err(Fault::Panic);
            }
            Some((LiteralExpressionKind::Literal, ValueHolder::Number(value.clone())))
        },
        TokenKind::BooleanLiteral { value } => Some((LiteralExpressionKind::Literal, ValueHolder::Bool(*value))),
        TokenKind::Identifier { value } => Some((LiteralExpressionKind::Variable, ValueHolder::String(value.clone()))),
        _ => None,
    };
    if let Some((kind, value)) = value {
        p.skip();
        return Ok(literal(kind, value, tstart, tend));
    }
    if peek_is(p, &TokenKind::OpeningSquareBracket) {
        p.skip();
        let items = expr_list(p, &TokenKind::ClosingSquareBracket)?;
        let end = end_at(p, p.cursor - 1);
        let ghost iv = exprs_view(items@);
        let kind = LiteralExpressionKind::Array(items);
        proof {
            assert(kind.model()->Array_0 =~= iv);
        }
        return Ok(literal(kind, ValueHolder::Void, tstart, end));
    }
    if peek_is(p, &TokenKind::OpeningBracket) {
        p.skip();
        let entries = object_entries(p)?;
        let end = end_at(p, p.cursor - 1);
        let kind = LiteralExpressionKind::Object(entries);
        return Ok(literal(kind, ValueHolder::Void, tstart, end));
    }
    p.error()
}

/// The items of a comma-separated list of expressions, from just after its
/// opening token up to and including `close`.
fn expr_list(p: &mut Parser, close: &TokenKind) -> (r: Result<Vec<Expression>, Fault>)
    requires
        old(p).cursor <= old(p).tokens@.len(),
        textless(*close),
    ensures
        kept(*old(p), *final(p)),
        r is Ok ==> old(p).cursor < final(p).cursor,
        agrees_exprs(r, sp_expr_list(pts(*old(p)), old(p).cursor as int, Seq::empty(), false, *close, old(p).strict), final(p).cursor as int),
    decreases old(p).tokens@.len() - old(p).cursor, 12int,
{
    let ghost ts = pts(*p);
    let ghost c0 = p.cursor as int;
    let ghost strict = p.strict;
    let mut items: Vec<Expression> = Vec::new();
    let mut should_end = false;
    proof {
        assert(exprs_view(items@) =~= Seq::<SExpr>::empty());
    }
    loop
        invariant
            kept(*old(p), *p),
            pts(*p) == ts,
            ts == pts(*old(p)),
            strict == p.strict,
            c0 == old(p).cursor,
            c0 <= p.cursor,
            textless(*close),
            sp_expr_list(ts, c0, Seq::empty(), false, *close, strict) == sp_expr_list(ts, p.cursor as int, exprs_view(items@), should_end, *close, strict),
        decreases p.tokens@.len() - p.cursor,
    {
        if peek_is(p, close) {
            p.skip();
            return Ok(items);
        } else if should_end {
            return p.error();
        }
        let e = expression_from(p, 0)?;
        let ghost ev = e@;
        let ghost before = exprs_view(items@);
        items.push(e);
        proof {
            assert(exprs_view(items@) =~= before.push(ev));
        }
        if peek_is(p, &TokenKind::Comma) {
            p.skip();
            should_end = false;
        } else {
            should_end = true;
        }
    }
}

/// The entries of an object literal, from just after its `{`.
fn object_entries(p: &mut Parser) -> (r: Result<ExpressionMap, Fault>)
    requires
        old(p).cursor <= old(p).tokens@.len(),
    ensures
        kept(*old(p), *final(p)),
        r is Ok ==> old(p).cursor < final(p).cursor,
        agrees_entries_e(r, sp_object_entries(pts(*old(p)), old(p).cursor as int, Seq::empty(), false, old(p).strict), final(p).cursor as int),
    decreases old(p).tokens@.len() - old(p).cursor, 4int,
{
    let ghost ts = pts(*p);
    let ghost c0 = p.cursor as int;
    let ghost strict = p.strict;
    let mut entries = ExpressionMap::new();
    let mut should_end = false;
    loop
        invariant
            kept(*old(p), *p),
            pts(*p) == ts,
            ts == pts(*old(p)),
            strict == p.strict,
            c0 == old(p).cursor,
            c0 <= p.cursor,
            distinct_keys(expression_entries(entries)),
            sp_object_entries(ts, c0, Seq::empty(), false, strict) == sp_object_entries(ts, p.cursor as int, expression_entries(entries), should_end, strict),
        decreases p.tokens@.len() - p.cursor,
    {
        if peek_is(p, &TokenKind::ClosingBracket) {
            p.skip();
            return Ok(entries);
        } else if should_end {
            return p.error();
        }
        let key = expect_string(p)?;
        expect_kind(p, &TokenKind::Colon)?;
        let e = expression_from(p, 0)?;
        proof {
            lemma_map_insert_distinct(expression_entries(entries), key.value@, e@);
        }
        entries.insert(key.value, e);
        if peek_is(p, &TokenKind::Comma) {
            p.skip();
            should_end = false;
        } else {
            should_end = true;
        }
    }
}

/// An expression whose operators bind at least as tightly as `min_bp`.
fn expression_from(p: &mut Parser, min_bp: u8) -> (r: Result<Expression, Fault>)
    requires
        old(p).cursor <= old(p).tokens@.len(),
    ensures
        kept(*old(p), *final(p)),
        r is Ok ==> old(p).cursor < final(p).cursor,
        agrees_v(r, sp_expression(pts(*old(p)), old(p).cursor as int, min_bp, old(p).strict), final(p).cursor as int),
    decreases old(p).tokens@.len() - old(p).cursor, 10int,
{
    let ghost ts = pts(*p);
    let ghost c0 = p.cursor as int;
    let ghost strict = p.strict;
    let mut lhs = parse_prefix(p)?;
    let start = lhs.start;
    loop
        invariant
            kept(*old(p), *p),
            pts(*p) == ts,
            ts == pts(*old(p)),
            ts.len() == p.tokens@.len(),
            strict == p.strict,
            c0 == old(p).cursor,
            c0 < p.cursor,
            sp_expression(ts, c0, min_bp, strict) == sp_infix(ts, p.cursor as int, lhs@, start as nat, min_bp, strict),
        decreases p.tokens@.len() - p.cursor,
    {
        let ghost cur = p.cursor as int;
        if peek_is(p, &TokenKind::OpeningParenthesis) {
            if 9 < min_bp {
                return Ok(lhs);
            }
            p.skip();
            let arguments = expr_list(p, &TokenKind::ClosingParenthesis)?;
            let end = end_at(p, p.cursor - 1);
            let ghost av = exprs_view(arguments@);
            let ghost lv = lhs@;
            let kind = ExpressionKind::Call { callee: Box::new(lhs), arguments };
            proof {
                assert(kind@->Call_1 =~= av);
                assert(kind@ == SExprKind::Call(Box::new(lv), av));
            }
            lhs = kind.into_expression(start, end);
            continue;
        }
        let period = peek_is(p, &TokenKind::Period);
        let bracket = peek_is(p, &TokenKind::OpeningSquareBracket);
        if period || bracket {
            if 9 < min_bp {
                return Ok(lhs);
            }
            let sep_end = end_at(p, p.cursor);
            p.skip();
            if p.cursor >= p.tokens.len() {
                if p.strict {
                    let last = end_at(p, p.tokens.len() - 1);
                    return Err(Fault::Error(LanguageError::with_source(
                        ErrorKind::Parser(ParserError::UnexpectedEndOfInput),
                        lhs.start,
                        last,
                    )));
                }
                let rhs = literal(LiteralExpressionKind::Literal, ValueHolder::String(lax_string()), sep_end, sep_end);
                let s = lhs.start;
                return Ok(ExpressionKind::Member { object: Box::new(lhs), property: Box::new(rhs) }.into_expression(s, sep_end));
            }
            let tstart = start_at(p, p.cursor);
            let tend = end_at(p, p.cursor);
            proof {
                lemma_tokens_view_index(p.tokens@, p.cursor as int);
            }
            let property = if bracket {
                let e = expression_from(p, 0)?;
                expect_kind(p, &TokenKind::ClosingSquareBracket)?;
                e
            } else {
                let name = match &p.tokens[p.cursor].kind {
                    TokenKind::Identifier { value } => Some(value.clone()),
                    _ => None,
                };
                match name {
                    Some(name) => {
                        p.skip();
                        let pstart = if p.strict { tstart } else { sep_end };
                        literal(LiteralExpressionKind::Literal, ValueHolder::String(name), pstart, tend)
                    },
                    None => {
                        if p.strict {
                            return Err(Fault::Error(LanguageError::with_source(
                                ErrorKind::Parser(ParserError::UnexpectedToken(identifier_after_period())),
                                tstart,
                                tend,
                            )));
                        }
                        let rhs = literal(LiteralExpressionKind::Literal, ValueHolder::String(lax_string()), sep_end, tstart);
                        let s = lhs.start;
                        return Ok(ExpressionKind::Member { object: Box::new(lhs), property: Box::new(rhs) }.into_expression(s, tstart));
                    },
                }
            };
            lhs = ExpressionKind::Member { object: Box::new(lhs), property: Box::new(property) }.into_expression(tstart, tend);
            continue;
        }
        if p.cursor >= p.tokens.len() {
            return Ok(lhs);
        }
        proof {
            lemma_tokens_view_index(p.tokens@, p.cursor as int);
        }
        let bp = infix_binding_power(&p.tokens[p.cursor].kind);
        match bp {
            None => {
                return Ok(lhs);
            },
            Some((l_bp, r_bp)) => {
                if l_bp < min_bp {
                    return Ok(lhs);
                }
                let operator = p.tokens[p.cursor].kind.clone();
                p.skip();
                let rhs = expression_from(p, r_bp)?;
                let end = rhs.end;
                lhs = make_expression_kind(operator, Box::new(lhs), Box::new(rhs)).into_expression(start, end);
            },
        }
    }
}

/// The message for a member access without a name after `.`.
fn identifier_after_period() -> (r: String)
    ensures
        r@ == "identifier after '.'"@,
{
    "identifier after '.'".to_owned()
}


/// `parse_expression`: an expression whose operators bind at least as
/// tightly as `min_bp`, read from the cursor on. The parser must not be at
/// a number whose text is no float, where reading would panic.
pub fn parse_expression(parser: &mut Parser, min_bp: u8) -> (r: LanguageResult<Expression>)
    requires
        old(parser).cursor <= old(parser).tokens@.len(),
        !(sp_expression(pts(*old(parser)), old(parser).cursor as int, min_bp, old(parser).strict) is Panic),
    ensures
        final(parser).tokens@ == old(parser).tokens@,
        final(parser).strict == old(parser).strict,
        match sp_expression(pts(*old(parser)), old(parser).cursor as int, min_bp, old(parser).strict) {
            PRes::Done(e, c) => r matches Ok(x) && x@ == e && final(parser).cursor == c,
            PRes::Fail(err) => r matches Err(le) && err_view(le) == err,
            PRes::Panic => false,
        },
{
    match expression_from(parser, min_bp) {
        Ok(e) => Ok(e),
        Err(Fault::Error(e)) => Err(e),
        Err(Fault::Panic) => {
            proof {
                assert(false);
            }
            Err(LanguageError::from(ErrorKind::Parser(ParserError::UnexpectedEndOfInput)))
        },
    }
}
// ---------------------------------------------------------------------
// Functions, blocks and statements.

pub open spec fn args_view(v: Seq<Argument<Identifier, ()>>) -> Seq<SArgument> {
    v.map_values(|a: Argument<Identifier, ()>| a@)
}

pub open spec fn idents_view(v: Seq<Identifier>) -> Seq<SIdent> {
    v.map_values(|i: Identifier| i@)
}

pub open spec fn opt_type_view(t: Option<TypeRef>) -> Option<STypeRef> {
    match t {
        Some(x) => Some(x@),
        None => None,
    }
}

pub open spec fn opt_stmt_view(t: Option<Statement>) -> Option<SStmt> {
    match t {
        Some(x) => Some(x@),
        None => None,
    }
}

pub open spec fn agrees_args(r: Result<Vec<Argument<Identifier, ()>>, Fault>, s: PRes<Seq<SArgument>>, c: int) -> bool {
    match s {
        PRes::Done(v, c2) => r is Ok && args_view(r->Ok_0@) == v && c == c2,
        PRes::Fail(e) => r matches Err(Fault::Error(le)) && err_view(le) == e,
        PRes::Panic => r matches Err(Fault::Panic),
    }
}

pub open spec fn agrees_idents(r: Result<Vec<Identifier>, Fault>, s: PRes<Seq<SIdent>>, c: int) -> bool {
    match s {
        PRes::Done(v, c2) => r is Ok && idents_view(r->Ok_0@) == v && c == c2,
        PRes::Fail(e) => r matches Err(Fault::Error(le)) && err_view(le) == e,
        PRes::Panic => r matches Err(Fault::Panic),
    }
}

pub open spec fn agrees_opt_type(r: Result<Option<TypeRef>, Fault>, s: PRes<Option<STypeRef>>, c: int) -> bool {
    match s {
        PRes::Done(v, c2) => r is Ok && opt_type_view(r->Ok_0) == v && c == c2,
        PRes::Fail(e) => r matches Err(Fault::Error(le)) && err_view(le) == e,
        PRes::Panic => r matches Err(Fault::Panic),
    }
}

pub open spec fn agrees_opt_stmt(r: Result<Option<Statement>, Fault>, s: PRes<Option<SStmt>>, c: int) -> bool {
    match s {
        PRes::Done(v, c2) => r is Ok && opt_stmt_view(r->Ok_0) == v && c == c2,
        PRes::Fail(e) => r matches Err(Fault::Error(le)) && err_view(le) == e,
        PRes::Panic => r matches Err(Fault::Panic),
    }
}

pub open spec fn agrees_stmts(r: Result<Vec<Statement>, Fault>, s: PRes<Seq<SStmt>>, c: int) -> bool {
    match s {
        PRes::Done(v, c2) => r is Ok && stmts_view(r->Ok_0@) == v && c == c2,
        PRes::Fail(e) => r matches Err(Fault::Error(le)) && err_view(le) == e,
        PRes::Panic => r matches Err(Fault::Panic),
    }
}

pub open spec fn agrees_members(
    r: Result<(Vec<Statement>, Vec<Statement>, usize), Fault>,
    s: PRes<(Seq<SStmt>, Seq<SStmt>, nat)>,
    c: int,
) -> bool {
    match s {
        PRes::Done(v, c2) => r is Ok && stmts_view(r->Ok_0.0@) == v.0 && stmts_view(r->Ok_0.1@) == v.1
            && r->Ok_0.2 == v.2 && c == c2,
        PRes::Fail(e) => r matches Err(Fault::Error(le)) && err_view(le) == e,
        PRes::Panic => r matches Err(Fault::Panic),
    }
}

/// An optional `: type` annotation.
fn return_type(p: &mut Parser) -> (r: Result<Option<TypeRef>, Fault>)
    requires
        old(p).cursor <= old(p).tokens@.len(),
    ensures
        kept(*old(p), *final(p)),
        r is Ok ==> old(p).cursor <= final(p).cursor,
        agrees_opt_type(r, sp_return_type(pts(*old(p)), old(p).cursor as int), final(p).cursor as int),
{
    if peek_is(p, &TokenKind::Colon) {
        p.skip();
        let t = type_ref(p)?;
        Ok(Some(t))
    } else {
        Ok(None)
    }
}

/// `expect_arguments_definition`: the parameters of a function, from just after its `(`.
fn arguments(p: &mut Parser) -> (r: Result<Vec<Argument<Identifier, ()>>, Fault>)
    requires
        old(p).cursor <= old(p).tokens@.len(),
    ensures
        kept(*old(p), *final(p)),
        r is Ok ==> old(p).cursor < final(p).cursor,
        agrees_args(r, sp_arguments(pts(*old(p)), old(p).cursor as int, Seq::empty(), false), final(p).cursor as int),
{
    let ghost ts = pts(*p);
    let ghost c0 = p.cursor as int;
    let mut args: Vec<Argument<Identifier, ()>> = Vec::new();
    let mut should_end = false;
    proof {
        assert(args_view(args@) =~= Seq::<SArgument>::empty());
    }
    loop
        invariant
            kept(*old(p), *p),
            pts(*p) == ts,
            ts == pts(*old(p)),
            c0 == old(p).cursor,
            c0 <= p.cursor,
            sp_arguments(ts, c0, Seq::empty(), false) == sp_arguments(ts, p.cursor as int, args_view(args@), should_end),
        decreases p.tokens@.len() - p.cursor,
    {
        if peek_is(p, &TokenKind::ClosingParenthesis) {
            p.skip();
            return Ok(args);
        } else if should_end {
            return p.error();
        }
        let variable = expect_identifier(p)?;
        let type_ref = return_type(p)?;
        let a = Argument { variable, type_ref, ty: () };
        let ghost before = args_view(args@);
        let ghost av = a@;
        args.push(a);
        proof {
            assert(args_view(args@) =~= before.push(av));
        }
        if peek_is(p, &TokenKind::Comma) {
            p.skip();
            should_end = false;
        } else {
            should_end = true;
        }
    }
}

/// `expect_destructuring_pattern`: the names of a pattern, from just after its `{`.
fn names(p: &mut Parser) -> (r: Result<Vec<Identifier>, Fault>)
    requires
        old(p).cursor <= old(p).tokens@.len(),
    ensures
        kept(*old(p), *final(p)),
        r is Ok ==> old(p).cursor < final(p).cursor,
        agrees_idents(r, sp_names(pts(*old(p)), old(p).cursor as int, Seq::empty(), false), final(p).cursor as int),
{
    let ghost ts = pts(*p);
    let ghost c0 = p.cursor as int;
    let mut ids: Vec<Identifier> = Vec::new();
    let mut should_end = false;
    proof {
        assert(idents_view(ids@) =~= Seq::<SIdent>::empty());
    }
    loop
        invariant
            kept(*old(p), *p),
            pts(*p) == ts,
            ts == pts(*old(p)),
            c0 == old(p).cursor,
            c0 <= p.cursor,
            sp_names(ts, c0, Seq::empty(), false) == sp_names(ts, p.cursor as int, idents_view(ids@), should_end),
        decreases p.tokens@.len() - p.cursor,
    {
        if peek_is(p, &TokenKind::ClosingBracket) {
            p.skip();
            return Ok(ids);
        } else if should_end {
            return p.error();
        }
        let id = expect_identifier(p)?;
        let ghost before = idents_view(ids@);
        let ghost iv = id@;
        ids.push(id);
        proof {
            assert(idents_view(ids@) =~= before.push(iv));
        }
        if peek_is(p, &TokenKind::Comma) {
            p.skip();
            should_end = false;
        } else {
            should_end = true;
        }
    }
}

/// `expect_lambda`: an anonymous function `(args) [: type] => body`.
fn expect_lambda(p: &mut Parser) -> (r: Result<Statement, Fault>)
    requires
        old(p).cursor <= old(p).tokens@.len(),
    ensures
        kept(*old(p), *final(p)),
        r is Ok ==> old(p).cursor < final(p).cursor,
        agrees_v(r, sp_lambda(pts(*old(p)), old(p).cursor as int, old(p).strict), final(p).cursor as int),
    decreases old(p).tokens@.len() - old(p).cursor, 8int,
{
    let ghost ts = pts(*p);
    let start_cursor = p.cursor;
    expect_kind(p, &TokenKind::OpeningParenthesis)?;
    let arguments = arguments(p)?;
    let return_type_ref = return_type(p)?;
    let start = start_at(p, start_cursor);
    expect_kind(p, &TokenKind::Arrow)?;
    let block = if peek_is(p, &TokenKind::OpeningBracket) {
        expect_block(p)?
    } else {
        let expression = expression_from(p, 0)?;
        let s = expression.start;
        let e = expression.end;
        let ghost ev = expression@;
        let mut statements: Vec<Statement> = Vec::new();
        statements.push(StatementKind::Return { expression }.into_statement(s, e));
        let b = Block { statements, start: s, end: e };
        proof {
            assert(b@.statements =~= seq![SStmt { kind: SStmtKind::Return(ev), start: s as nat, end: e as nat }]);
        }
        b
    };
    let end = block.end;
    let name = lambda_name_string(start, end);
    let ghost av = args_view(arguments@);
    let ghost rv = opt_type_view(return_type_ref);
    let ghost bv = block@;
    let kind = StatementKind::Function {
        variable: Identifier { value: name, start: 0, end: 0 },
        arguments,
        block,
        return_type_ref,
        return_ty: (),
    };
    proof {
        assert(kind@->Function_1 =~= av);
        assert(kind@->Function_3 == rv);
    }
    Ok(kind.into_statement(start, end))
}

/// `expect_block`: `{ statements }`.
fn expect_block(p: &mut Parser) -> (r: Result<Block, Fault>)
    requires
        old(p).cursor <= old(p).tokens@.len(),
    ensures
        kept(*old(p), *final(p)),
        r is Ok ==> old(p).cursor < final(p).cursor,
        agrees_v(r, sp_block(pts(*old(p)), old(p).cursor as int, old(p).strict), final(p).cursor as int),
    decreases old(p).tokens@.len() - old(p).cursor, 18int,
{
    let ghost ts = pts(*p);
    let open = expect_kind(p, &TokenKind::OpeningBracket)?;
    let start = open.end;
    if peek_is(p, &TokenKind::ClosingBracket) {
        let end = start_at(p, p.cursor);
        p.skip();
        let b = Block { statements: Vec::new(), start, end };
        proof {
            assert(b@.statements =~= Seq::<SStmt>::empty());
        }
        return Ok(b);
    }
    let statements = block_items(p)?;
    let end = end_at(p, p.cursor - 1);
    let ghost sv = stmts_view(statements@);
    let b = Block { statements, start, end };
    proof {
        assert(b@.statements =~= sv);
    }
    Ok(b)
}

/// The statements of a non-empty block, up to and including its `}`.
fn block_items(p: &mut Parser) -> (r: Result<Vec<Statement>, Fault>)
    requires
        old(p).cursor <= old(p).tokens@.len(),
    ensures
        kept(*old(p), *final(p)),
        r is Ok ==> old(p).cursor < final(p).cursor,
        agrees_stmts(r, sp_block_items(pts(*old(p)), old(p).cursor as int, Seq::empty(), old(p).strict), final(p).cursor as int),
    decreases old(p).tokens@.len() - old(p).cursor, 31int,
{
    let ghost ts = pts(*p);
    let ghost c0 = p.cursor as int;
    let ghost strict = p.strict;
    let mut items: Vec<Statement> = Vec::new();
    proof {
        assert(stmts_view(items@) =~= Seq::<SStmt>::empty());
    }
    loop
        invariant
            kept(*old(p), *p),
            pts(*p) == ts,
            ts == pts(*old(p)),
            strict == p.strict,
            c0 == old(p).cursor,
            c0 <= p.cursor,
            sp_block_items(ts, c0, Seq::empty(), strict) == sp_block_items(ts, p.cursor as int, stmts_view(items@), strict),
        decreases p.tokens@.len() - p.cursor,
    {
        match match_statement(p)? {
            None => {
                expect_kind(p, &TokenKind::ClosingBracket)?;
                return Ok(items);
            },
            Some(st) => {
                let ghost before = stmts_view(items@);
                let ghost sv = st@;
                items.push(st);
                proof {
                    assert(stmts_view(items@) =~= before.push(sv));
                }
                if peek_is(p, &TokenKind::ClosingBracket) {
                    p.skip();
                    return Ok(items);
                }
            },
        }
    }
}

/// `match_statement`: the next statement, or `None` at the end of the tokens.
fn match_statement(p: &mut Parser) -> (r: Result<Option<Statement>, Fault>)
    requires
        old(p).cursor <= old(p).tokens@.len(),
    ensures
        kept(*old(p), *final(p)),
        r matches Ok(Some(_)) ==> old(p).cursor < final(p).cursor,
        r matches Ok(None) ==> old(p).cursor == final(p).cursor,
        agrees_opt_stmt(r, sp_statement(pts(*old(p)), old(p).cursor as int, old(p).strict), final(p).cursor as int),
    decreases old(p).tokens@.len() - old(p).cursor, 30int,
{
    let ghost ts = pts(*p);
    if p.cursor >= p.tokens.len() {
        return Ok(None);
    }
    let start = start_at(p, p.cursor);
    let end = end_at(p, p.cursor);
    if peek_is(p, &TokenKind::Keyword(KeywordKind::Import)) {
        Ok(Some(match_import(p)?))
    } else if peek_is(p, &TokenKind::Keyword(KeywordKind::Fn)) {
        Ok(Some(match_function(p)?))
    } else if peek_is(p, &TokenKind::Keyword(KeywordKind::If)) {
        Ok(Some(match_if(p)?))
    } else if peek_is(p, &TokenKind::Keyword(KeywordKind::Let)) {
        Ok(Some(match_let(p)?))
    } else if peek_is(p, &TokenKind::Keyword(KeywordKind::Export)) {
        Ok(Some(match_export(p)?))
    } else if peek_is(p, &TokenKind::Keyword(KeywordKind::For)) {
        Ok(Some(match_for(p)?))
    } else if peek_is(p, &TokenKind::Keyword(KeywordKind::While)) {
        Ok(Some(match_while(p)?))
    } else if peek_is(p, &TokenKind::Keyword(KeywordKind::Break)) {
        p.skip();
        Ok(Some(StatementKind::Break.into_statement(start, end)))
    } else if peek_is(p, &TokenKind::Keyword(KeywordKind::Return)) {
        p.skip();
        let expression = expression_from(p, 0)?;
        let e = expression.end;
        Ok(Some(StatementKind::Return { expression }.into_statement(start, e)))
    } else if peek_is(p, &TokenKind::Keyword(KeywordKind::Class)) {
        Ok(Some(match_class(p)?))
    } else {
        let expression = expression_from(p, 0)?;
        let e = end_at(p, p.cursor - 1);
        Ok(Some(StatementKind::Expression { expression }.into_statement(start, e)))
    }
}

/// `match_import`: `import { names } from "source"`.
fn match_import(p: &mut Parser) -> (r: Result<Statement, Fault>)
    requires
        old(p).cursor < old(p).tokens@.len(),
    ensures
        kept(*old(p), *final(p)),
        r is Ok ==> old(p).cursor < final(p).cursor,
        agrees_v(r, sp_import(pts(*old(p)), old(p).cursor as int), final(p).cursor as int),
{
    let start = start_at(p, p.cursor);
    p.skip();
    expect_kind(p, &TokenKind::OpeningBracket)?;
    let specifiers = names(p)?;
    expect_kind(p, &TokenKind::Keyword(KeywordKind::From))?;
    let source = expect_string(p)?;
    let end = end_at(p, p.cursor - 1);
    let ghost iv = idents_view(specifiers@);
    let kind = StatementKind::Import { specifiers, source };
    proof {
        assert(kind@->Import_0 =~= iv);
    }
    Ok(kind.into_statement(start, end))
}

/// `match_method`: `name(args) [: type] { body }`.
fn match_method(p: &mut Parser) -> (r: Result<Statement, Fault>)
    requires
        old(p).cursor <= old(p).tokens@.len(),
    ensures
        kept(*old(p), *final(p)),
        r is Ok ==> old(p).cursor < final(p).cursor,
        r is Ok ==> r->Ok_0.kind is Function,
        agrees_v(r, sp_method(pts(*old(p)), old(p).cursor as int, old(p).strict), final(p).cursor as int),
    decreases old(p).tokens@.len() - old(p).cursor, 19int,
{
    let name = expect_identifier(p)?;
    let start = name.start;
    expect_kind(p, &TokenKind::OpeningParenthesis)?;
    let arguments = arguments(p)?;
    let return_type_ref = return_type(p)?;
    let block = expect_block(p)?;
    let end = block.end;
    let ghost av = args_view(arguments@);
    let ghost rv = opt_type_view(return_type_ref);
    let kind = StatementKind::Function { variable: name, arguments, block, return_type_ref, return_ty: () };
    proof {
        assert(kind@->Function_1 =~= av);
        assert(kind@->Function_3 == rv);
    }
    Ok(kind.into_statement(start, end))
}

/// `match_function`: `fn name(args) [: type] { body }`.
fn match_function(p: &mut Parser) -> (r: Result<Statement, Fault>)
    requires
        old(p).cursor < old(p).tokens@.len(),
    ensures
        kept(*old(p), *final(p)),
        r is Ok ==> old(p).cursor < final(p).cursor,
        r is Ok ==> r->Ok_0.kind is Function,
        agrees_v(r, sp_function(pts(*old(p)), old(p).cursor as int, old(p).strict), final(p).cursor as int),
    decreases old(p).tokens@.len() - old(p).cursor, 20int,
{
    let start = start_at(p, p.cursor);
    p.skip();
    let mut method = match_method(p)?;
    method.start = start;
    Ok(method)
}

/// `match_if`: `if condition { ... }` with an optional `else` part.
#[verifier::spinoff_prover]
#[verifier::rlimit(40)]
fn match_if(p: &mut Parser) -> (r: Result<Statement, Fault>)
    requires
        old(p).cursor < old(p).tokens@.len(),
    ensures
        kept(*old(p), *final(p)),
        r is Ok ==> old(p).cursor < final(p).cursor,
        agrees_v(r, sp_if(pts(*old(p)), old(p).cursor as int, old(p).strict), final(p).cursor as int),
    decreases old(p).tokens@.len() - old(p).cursor, 25int,
{
    let ghost ts = pts(*p);
    let ghost cur = p.cursor as int;
    let ghost strict = p.strict;
    let start = start_at(p, p.cursor);
    p.skip();
    let condition = expression_from(p, 0)?;
    let ghost c1 = p.cursor as int;
    let block = expect_block(p)?;
    let ghost c2 = p.cursor as int;
    let ghost cv = condition@;
    let ghost bv = block@;
    proof {
        assert(sp_expression(ts, cur + 1, 0, strict) == PRes::Done(cv, c1));
        assert(sp_block(ts, c1, strict) == PRes::Done(bv, c2));
    }
    let mut alternate: Option<Box<Statement>> = None;
    let ghost mut av: Option<Box<SStmt>> = None;
    if peek_is(p, &TokenKind::Keyword(KeywordKind::Else)) {
        p.skip();
        if peek_is(p, &TokenKind::Keyword(KeywordKind::If)) {
            let a = match_if(p)?;
            proof {
                av = Some(Box::new(a@));
                assert(sp_if(ts, c2 + 1, strict) == PRes::Done(a@, p.cursor as int));
            }
            alternate = Some(Box::new(a));
        } else {
            let b = expect_block(p)?;
            let s = b.start;
            let e = b.end;
            proof {
                assert(sp_block(ts, c2 + 1, strict) == PRes::Done(b@, p.cursor as int));
            }
            let a = StatementKind::Block(b).into_statement(s, e);
            proof {
                av = Some(Box::new(a@));
            }
            alternate = Some(Box::new(a));
        }
    } else {
        // a failed attempt to take `else` still builds its error
        match p.error::<()>() {
            Err(Fault::Panic) => {
                return Err(Fault::Panic);
            },
            _ => {},
        }
    }
    let end = end_at(p, p.cursor - 1);
    let st = StatementKind::If { condition, block, alternate }.into_statement(start, end);
    proof {
        assert(st@ == SStmt { kind: SStmtKind::If(cv, bv, av), start: start as nat, end: end as nat });
        assert(sp_if(ts, cur, strict) == PRes::Done(st@, p.cursor as int));
    }
    Ok(st)
}

/// `match_let`: `let name [: type] = expression`.
#[verifier::spinoff_prover]
#[verifier::rlimit(60)]
fn match_let(p: &mut Parser) -> (r: Result<Statement, Fault>)
    requires
        old(p).cursor < old(p).tokens@.len(),
    ensures
        kept(*old(p), *final(p)),
        r is Ok ==> old(p).cursor < final(p).cursor,
        agrees_v(r, sp_let(pts(*old(p)), old(p).cursor as int, old(p).strict), final(p).cursor as int),
    decreases old(p).tokens@.len() - old(p).cursor, 25int,
{
    let start = start_at(p, p.cursor);
    p.skip();
    let id = expect_identifier(p)?;
    let type_ref = return_type(p)?;
    expect_kind(p, &TokenKind::Assign)?;
    let expression = expression_from(p, 0)?;
    let end = expression.end;
    let ghost tv = opt_type_view(type_ref);
    let ghost ev = expression@;
    let ghost iv = id@;
    let kind = StatementKind::VariableDefinition { descriptor: VariableDescriptor::Identifier(id), expression, type_ref, ty: () };
    proof {
        assert(kind@->VariableDefinition_2 == tv);
        assert(kind@ == SStmtKind::VariableDefinition(SDescriptor::Identifier(iv), ev, tv));
    }
    Ok(kind.into_statement(start, end))
}

/// `match_export`: `export declaration`.
fn match_export(p: &mut Parser) -> (r: Result<Statement, Fault>)
    requires
        old(p).cursor < old(p).tokens@.len(),
    ensures
        kept(*old(p), *final(p)),
        r is Ok ==> old(p).cursor < final(p).cursor,
        agrees_v(r, sp_export(pts(*old(p)), old(p).cursor as int, old(p).strict), final(p).cursor as int),
    decreases old(p).tokens@.len() - old(p).cursor, 25int,
{
    let start = start_at(p, p.cursor);
    p.skip();
    match match_statement(p)? {
        None => Err(Fault::Error(LanguageError::from(ErrorKind::Parser(ParserError::UnexpectedEndOfInput)))),
        Some(statement) => {
            let end = statement.end;
            Ok(StatementKind::Export { declaration: Box::new(statement) }.into_statement(start, end))
        },
    }
}

/// Whether the token at the cursor may begin the left side of a `for` range.
fn starts_left_operand(p: &Parser) -> (r: bool)
    ensures
        r == starts_left_operand_at(pts(*p), p.cursor as int),
{
    if p.cursor < p.tokens.len() {
        proof {
            lemma_tokens_view_index(p.tokens@, p.cursor as int);
        }
        match &p.tokens[p.cursor].kind {
            TokenKind::NumericLiteral { .. } | TokenKind::Identifier { .. } | TokenKind::OpeningParenthesis
            | TokenKind::OpeningSquareBracket => true,
            _ => false,
        }
    } else {
        false
    }
}

/// Whether the token at the cursor may begin the right side of a `for` range.
fn starts_right_operand(p: &Parser) -> (r: bool)
    ensures
        r == starts_right_operand_at(pts(*p), p.cursor as int),
{
    if p.cursor < p.tokens.len() {
        proof {
            lemma_tokens_view_index(p.tokens@, p.cursor as int);
        }
        match &p.tokens[p.cursor].kind {
            TokenKind::NumericLiteral { .. } | TokenKind::Identifier { .. } | TokenKind::OpeningParenthesis => true,
            _ => false,
        }
    } else {
        false
    }
}

/// The message for a range without bounds.
fn range_message_string() -> (r: String)
    ensures
        r@ == range_message(),
{
    "Both sides of a range expression cannot be None".to_owned()
}

/// The message for a constructor with a return type.
fn constructor_message_string() -> (r: String)
    ensures
        r@ == constructor_message(),
{
    "Constructor cannot have a return type annotation".to_owned()
}

/// `match_for`: `for name in [left]..[right] { ... }` or `for name in array { ... }`.
#[verifier::spinoff_prover]
#[verifier::rlimit(60)]
fn match_for(p: &mut Parser) -> (r: Result<Statement, Fault>)
    requires
        old(p).cursor < old(p).tokens@.len(),
    ensures
        kept(*old(p), *final(p)),
        r is Ok ==> old(p).cursor < final(p).cursor,
        agrees_v(r, sp_for(pts(*old(p)), old(p).cursor as int, old(p).strict), final(p).cursor as int),
    decreases old(p).tokens@.len() - old(p).cursor, 25int,
{
    let ghost ts = pts(*p);
    let start = start_at(p, p.cursor);
    p.skip();
    let variable = expect_identifier(p)?;
    expect_kind(p, &TokenKind::Keyword(KeywordKind::In))?;
    let left = if starts_left_operand(p) {
        Some(expression_from(p, 0)?)
    } else {
        None
    };
    let iterable = if peek_is(p, &TokenKind::Range) {
        let range_start = start_at(p, p.cursor);
        let range_end = end_at(p, p.cursor);
        p.skip();
        let right = if starts_right_operand(p) {
            Some(expression_from(p, 0)?)
        } else {
            None
        };
        if left.is_none() && right.is_none() {
            return Err(Fault::Error(LanguageError::with_source(
                ErrorKind::Parser(ParserError::InvalidUsage(range_message_string())),
                range_start,
                range_end,
            )));
        }
        Iterable::Range(left, right)
    } else {
        match left {
            Some(expression) => Iterable::Array(expression),
            None => {
                return p.error();
            },
        }
    };
    let block = expect_block(p)?;
    let end = block.end;
    let ghost sv = block@.statements;
    let kind = StatementKind::For { variable, iterable, statements: block.statements };
    proof {
        assert(kind@->For_2 =~= sv);
    }
    Ok(kind.into_statement(start, end))
}

/// `match_while`: `while condition { ... }`.
fn match_while(p: &mut Parser) -> (r: Result<Statement, Fault>)
    requires
        old(p).cursor < old(p).tokens@.len(),
    ensures
        kept(*old(p), *final(p)),
        r is Ok ==> old(p).cursor < final(p).cursor,
        agrees_v(r, sp_while(pts(*old(p)), old(p).cursor as int, old(p).strict), final(p).cursor as int),
    decreases old(p).tokens@.len() - old(p).cursor, 25int,
{
    let start = start_at(p, p.cursor);
    p.skip();
    let condition = expression_from(p, 0)?;
    let block = expect_block(p)?;
    let end = block.end;
    let ghost sv = block@.statements;
    let kind = StatementKind::While { condition, statements: block.statements };
    proof {
        assert(kind@->While_1 =~= sv);
    }
    Ok(kind.into_statement(start, end))
}

/// `match_class`: `class Name { members }`.
fn match_class(p: &mut Parser) -> (r: Result<Statement, Fault>)
    requires
        old(p).cursor < old(p).tokens@.len(),
    ensures
        kept(*old(p), *final(p)),
        r is Ok ==> old(p).cursor < final(p).cursor,
        agrees_v(r, sp_class(pts(*old(p)), old(p).cursor as int, old(p).strict), final(p).cursor as int),
    decreases old(p).tokens@.len() - old(p).cursor, 25int,
{
    let start = start_at(p, p.cursor);
    p.skip();
    let name = expect_identifier(p)?;
    let open = expect_kind(p, &TokenKind::OpeningBracket)?;
    let body_start = open.end;
    let (methods, fields, body_end) = class_members(p)?;
    let end = end_at(p, p.cursor - 1);
    let ghost mv = stmts_view(methods@);
    let ghost fv = stmts_view(fields@);
    let kind = StatementKind::Class { variable: name, methods, fields, body_start, body_end };
    proof {
        assert(kind@->Class_1 =~= mv);
        assert(kind@->Class_2 =~= fv);
    }
    Ok(kind.into_statement(start, end))
}

/// The members of a class body up to and including its `}`, with where the
/// `}` starts.
#[verifier::spinoff_prover]
#[verifier::rlimit(60)]
fn class_members(p: &mut Parser) -> (r: Result<(Vec<Statement>, Vec<Statement>, usize), Fault>)
    requires
        old(p).cursor <= old(p).tokens@.len(),
    ensures
        kept(*old(p), *final(p)),
        r is Ok ==> old(p).cursor < final(p).cursor,
        agrees_members(r, sp_members(pts(*old(p)), old(p).cursor as int, Seq::empty(), Seq::empty(), old(p).strict), final(p).cursor as int),
    decreases old(p).tokens@.len() - old(p).cursor, 24int,
{
    let ghost ts = pts(*p);
    let ghost c0 = p.cursor as int;
    let ghost strict = p.strict;
    let mut methods: Vec<Statement> = Vec::new();
    let mut fields: Vec<Statement> = Vec::new();
    proof {
        assert(stmts_view(methods@) =~= Seq::<SStmt>::empty());
        assert(stmts_view(fields@) =~= Seq::<SStmt>::empty());
    }
    loop
        invariant
            kept(*old(p), *p),
            pts(*p) == ts,
            ts == pts(*old(p)),
            ts.len() == p.tokens@.len(),
            strict == p.strict,
            c0 == old(p).cursor,
            c0 <= p.cursor,
            sp_members(ts, c0, Seq::empty(), Seq::empty(), strict)
                == sp_members(ts, p.cursor as int, stmts_view(methods@), stmts_view(fields@), strict),
        decreases p.tokens@.len() - p.cursor,
    {
        if peek_is(p, &TokenKind::ClosingBracket) {
            let body_end = start_at(p, p.cursor);
            p.skip();
            return Ok((methods, fields, body_end));
        }
        if peek_is(p, &TokenKind::Keyword(KeywordKind::Fn)) {
            let m = match_function(p)?;
            let ghost before = stmts_view(methods@);
            let ghost mv = m@;
            methods.push(m);
            proof {
                assert(stmts_view(methods@) =~= before.push(mv));
            }
        } else if peek_ident(p) {
            let m = match_method(p)?;
            if let StatementKind::Function { return_type_ref: Some(rt), .. } = &m.kind {
                let span = rt.get_span();
                return Err(Fault::Error(LanguageError::with_source(
                    ErrorKind::Parser(ParserError::InvalidUsage(constructor_message_string())),
                    span.start,
                    span.end,
                )));
            }
            let ghost before = stmts_view(methods@);
            let ghost mv = m@;
            methods.push(m);
            proof {
                assert(stmts_view(methods@) =~= before.push(mv));
            }
        } else {
            if p.cursor >= p.tokens.len() {
                return p.error();
            }
            proof {
                lemma_tokens_view_index(p.tokens@, p.cursor as int);
            }
            let visibility = match &p.tokens[p.cursor].kind {
                TokenKind::Keyword(KeywordKind::Public) => Visibility::Public,
                TokenKind::Keyword(KeywordKind::Protected) => Visibility::Protected,
                TokenKind::Keyword(KeywordKind::Private) => Visibility::Private,
                _ => {
                    return p.error();
                },
            };
            let start = start_at(p, p.cursor);
            p.skip();
            let id = expect_identifier(p)?;
            expect_kind(p, &TokenKind::Assign)?;
            let value = expression_from(p, 0)?;
            let end = value.end;
            let field = StatementKind::Field { visibility, name: id.value, value }.into_statement(start, end);
            let ghost before = stmts_view(fields@);
            let ghost fv = field@;
            fields.push(field);
            proof {
                assert(stmts_view(fields@) =~= before.push(fv));
            }
        }
    }
}

/// The statements of a whole program.
fn program_statements(p: &mut Parser) -> (r: Result<Vec<Statement>, Fault>)
    requires
        old(p).cursor <= old(p).tokens@.len(),
    ensures
        kept(*old(p), *final(p)),
        agrees_stmts(r, sp_program(pts(*old(p)), old(p).cursor as int, Seq::empty(), old(p).strict), final(p).cursor as int),
{
    let ghost ts = pts(*p);
    let ghost c0 = p.cursor as int;
    let ghost strict = p.strict;
    let mut statements: Vec<Statement> = Vec::new();
    proof {
        assert(stmts_view(statements@) =~= Seq::<SStmt>::empty());
    }
    loop
        invariant
            kept(*old(p), *p),
            pts(*p) == ts,
            ts == pts(*old(p)),
            strict == p.strict,
            c0 == old(p).cursor,
            c0 <= p.cursor,
            sp_program(ts, c0, Seq::empty(), strict) == sp_program(ts, p.cursor as int, stmts_view(statements@), strict),
        decreases p.tokens@.len() - p.cursor,
    {
        match match_statement(p)? {
            None => {
                return Ok(statements);
            },
            Some(st) => {
                let ghost before = stmts_view(statements@);
                let ghost sv = st@;
                statements.push(st);
                proof {
                    assert(stmts_view(statements@) =~= before.push(sv));
                }
            },
        }
    }
}

/// Whether a public result agrees with the outcome of the spec parser.
pub open spec fn parse_matches(r: LanguageResult<Program>, s: PRes<Seq<SStmt>>) -> bool {
    match s {
        PRes::Done(v, _) => r is Ok && r->Ok_0@ == v,
        PRes::Fail(e) => r is Err && err_view(r->Err_0) == e,
        PRes::Panic => false,
    }
}

/// Parses the tokens of a program in the given mode; `None` where the
/// parser would panic.
pub fn try_parse(tokens: Vec<Token>, strict: bool) -> (r: Option<LanguageResult<Program>>)
    ensures
        r is None <==> spec_parse(tokens_view(tokens@), strict) is Panic,
        r matches Some(res) ==> parse_matches(res, spec_parse(tokens_view(tokens@), strict)),
{
    let mut parser = Parser::new(tokens, strict);
    match program_statements(&mut parser) {
        Ok(body) => Some(Ok(Program { body })),
        Err(Fault::Error(e)) => Some(Err(e)),
        Err(Fault::Panic) => None,
    }
}

/// Parses the tokens of a program strictly.
pub fn parse(tokens: Vec<Token>) -> (r: LanguageResult<Program>)
    requires
        !(spec_parse(tokens_view(tokens@), true) is Panic),
    ensures
        parse_matches(r, spec_parse(tokens_view(tokens@), true)),
{
    match try_parse(tokens, true) {
        Some(r) => r,
        None => {
            proof {
                assert(false);
            }
            Err(LanguageError::from(ErrorKind::Parser(ParserError::UnexpectedEndOfInput)))
        },
    }
}

/// Parses the tokens of a program for an editor: unfinished member accesses
/// are completed with a placeholder.
pub fn lax_parse(tokens: Vec<Token>) -> (r: LanguageResult<Program>)
    requires
        !(spec_parse(tokens_view(tokens@), false) is Panic),
    ensures
        parse_matches(r, spec_parse(tokens_view(tokens@), false)),
{
    match try_parse(tokens, false) {
        Some(r) => r,
        None => {
            proof {
                assert(false);
            }
            Err(LanguageError::from(ErrorKind::Parser(ParserError::UnexpectedEndOfInput)))
        },
    }
}

// ---------------------------------------------------------------------
// Laws.

proof fn lemma_program_consumes(ts: Seq<SpecToken>, cur: int, acc: Seq<SStmt>, strict: bool)
    ensures
        sp_program(ts, cur, acc, strict) matches PRes::Done(_, c) ==> c == ts.len(),
    decreases ts.len() - cur,
{
    if 0 <= cur <= ts.len() {
        match sp_statement(ts, cur, strict) {
            PRes::Done(Some(st), c) => {
                if moved(ts, cur, c) {
                    lemma_program_consumes(ts, c, acc.push(st), strict);
                }
            },
            _ => {},
        }
    }
}

/// A program that parses is made of all its tokens: parsing stops only at
/// the end of the tokens.
pub proof fn law_parse_consumes_all_tokens(ts: Seq<SpecToken>, strict: bool)
    ensures
        spec_parse(ts, strict) matches PRes::Done(_, c) ==> c == ts.len(),
{
    lemma_program_consumes(ts, 0, Seq::empty(), strict);
}

/// The literal expression of a numeric token.
pub open spec fn number_operand(t: SpecToken) -> SExpr {
    lit(SLiteralKind::Literal, SValue::Number(token_text(t)), t.start, t.end)
}

proof fn lemma_number_prefix(ts: Seq<SpecToken>, i: int, strict: bool)
    requires
        at_number(ts, i),
        is_float_literal(token_text(ts[i])),
    ensures
        sp_prefix(ts, i, strict) == PRes::Done(number_operand(ts[i]), i + 1),
{
    assert(!at_kind(ts, i, TokenKind::Minus) && !at_kind(ts, i, TokenKind::Bang));
    assert(!at_kind(ts, i, TokenKind::OpeningParenthesis));
    assert(!at_string(ts, i));
}

proof fn lemma_infix_stops(ts: Seq<SpecToken>, i: int, lhs: SExpr, start: nat, min_bp: u8, strict: bool)
    requires
        0 <= i < ts.len(),
        ts[i].kind matches SpecTokenKind::Other(op) && binding_power(op) matches Some((l, _)) && l < min_bp,
    ensures
        sp_infix(ts, i, lhs, start, min_bp, strict) == PRes::Done(lhs, i),
{
}

/// Two infix operators of the same binding powers, where the left power is
/// the smaller (as for every infix operator), nest to the left: `a op b op
/// c`, with numbers for operands, is `(a op b) op c`.
pub proof fn law_equal_operators_nest_left(ts: Seq<SpecToken>, op1: TokenKind, op2: TokenKind, strict: bool)
    requires
        ts.len() == 5,
        at_number(ts, 0),
        at_number(ts, 2),
        at_number(ts, 4),
        is_float_literal(token_text(ts[0])),
        is_float_literal(token_text(ts[2])),
        is_float_literal(token_text(ts[4])),
        ts[1].kind == SpecTokenKind::Other(op1),
        ts[3].kind == SpecTokenKind::Other(op2),
        binding_power(op1) is Some,
        binding_power(op1) == binding_power(op2),
    ensures
        ({
            let a = number_operand(ts[0]);
            let b = number_operand(ts[2]);
            let c = number_operand(ts[4]);
            let ab = SExpr { kind: combine(op1, a, b), start: a.start, end: b.end };
            sp_expression(ts, 0, 0, strict) == PRes::Done(SExpr { kind: combine(op2, ab, c), start: a.start, end: c.end }, 5)
        }),
{
    let a = number_operand(ts[0]);
    let b = number_operand(ts[2]);
    let c = number_operand(ts[4]);
    let ab = SExpr { kind: combine(op1, a, b), start: a.start, end: b.end };
    let abc = SExpr { kind: combine(op2, ab, c), start: a.start, end: c.end };
    let (l, r) = binding_power(op1)->0;
    assert(l < r);
    lemma_number_prefix(ts, 0, strict);
    lemma_number_prefix(ts, 2, strict);
    lemma_number_prefix(ts, 4, strict);
    assert(!at_kind(ts, 1, TokenKind::OpeningParenthesis) && !at_kind(ts, 1, TokenKind::Period)
        && !at_kind(ts, 1, TokenKind::OpeningSquareBracket));
    assert(!at_kind(ts, 3, TokenKind::OpeningParenthesis) && !at_kind(ts, 3, TokenKind::Period)
        && !at_kind(ts, 3, TokenKind::OpeningSquareBracket));
    lemma_infix_stops(ts, 3, b, b.start, r, strict);
    assert(sp_expression(ts, 2, r, strict) == PRes::Done(b, 3));
    assert(sp_infix(ts, 5, c, c.start, r, strict) == PRes::Done(c, 5));
    assert(sp_expression(ts, 4, r, strict) == PRes::Done(c, 5));
    assert(sp_infix(ts, 5, abc, a.start, 0, strict) == PRes::Done(abc, 5));
    assert(sp_infix(ts, 3, ab, a.start, 0, strict) == PRes::Done(abc, 5));
    assert(sp_infix(ts, 1, a, a.start, 0, strict) == PRes::Done(abc, 5));
}


/// The precedence levels of the infix operators, loosest first: assignments
/// and logical operators, equality, comparison, addition and subtraction,
/// multiplication and division.
pub open spec fn precedence_level(op: TokenKind) -> int {
    match op {
        TokenKind::Assign | TokenKind::PlusEqual | TokenKind::MinusEqual | TokenKind::AsteriskEqual
        | TokenKind::SlashEqual | TokenKind::PercentEqual | TokenKind::And | TokenKind::Or => 0,
        TokenKind::EQ | TokenKind::NE => 1,
        TokenKind::GT | TokenKind::GTE | TokenKind::LT | TokenKind::LTE => 2,
        TokenKind::Plus | TokenKind::Minus => 3,
        TokenKind::Asterisk | TokenKind::Slash => 4,
        _ => -1,
    }
}

/// Three numbers with two infix operators between them.
pub open spec fn three_operands(ts: Seq<SpecToken>, op1: TokenKind, op2: TokenKind) -> bool {
    &&& ts.len() == 5
    &&& at_number(ts, 0)
    &&& at_number(ts, 2)
    &&& at_number(ts, 4)
    &&& is_float_literal(token_text(ts[0]))
    &&& is_float_literal(token_text(ts[2]))
    &&& is_float_literal(token_text(ts[4]))
    &&& ts[1].kind == SpecTokenKind::Other(op1)
    &&& ts[3].kind == SpecTokenKind::Other(op2)
}

/// An operator of a higher level stands inside one of a lower level: `a lo
/// b hi c` is `a lo (b hi c)`, and `a hi b lo c` is `(a hi b) lo c`.
pub proof fn law_tighter_operator_nests_inside(ts: Seq<SpecToken>, lo: TokenKind, hi: TokenKind, strict: bool)
    requires
        0 <= precedence_level(lo) < precedence_level(hi),
    ensures
        three_operands(ts, lo, hi) ==> ({
            let a = number_operand(ts[0]);
            let b = number_operand(ts[2]);
            let c = number_operand(ts[4]);
            let bc = SExpr { kind: combine(hi, b, c), start: b.start, end: c.end };
            sp_expression(ts, 0, 0, strict) == PRes::Done(SExpr { kind: combine(lo, a, bc), start: a.start, end: c.end }, 5)
        }),
        three_operands(ts, hi, lo) ==> ({
            let a = number_operand(ts[0]);
            let b = number_operand(ts[2]);
            let c = number_operand(ts[4]);
            let ab = SExpr { kind: combine(hi, a, b), start: a.start, end: b.end };
            sp_expression(ts, 0, 0, strict) == PRes::Done(SExpr { kind: combine(lo, ab, c), start: a.start, end: c.end }, 5)
        }),
{
    if three_operands(ts, lo, hi) {
        lemma_nest_right(ts, lo, hi, strict);
    }
    if three_operands(ts, hi, lo) {
        lemma_nest_left(ts, hi, lo, strict);
    }
}

/// `a op1 b op2 c` where `op2` takes its left operand from `op1`'s right one.
proof fn lemma_nest_right(ts: Seq<SpecToken>, op1: TokenKind, op2: TokenKind, strict: bool)
    requires
        three_operands(ts, op1, op2),
        0 <= precedence_level(op1) < precedence_level(op2),
    ensures
        ({
            let a = number_operand(ts[0]);
            let b = number_operand(ts[2]);
            let c = number_operand(ts[4]);
            let bc = SExpr { kind: combine(op2, b, c), start: b.start, end: c.end };
            sp_expression(ts, 0, 0, strict) == PRes::Done(SExpr { kind: combine(op1, a, bc), start: a.start, end: c.end }, 5)
        }),
{
    let a = number_operand(ts[0]);
    let b = number_operand(ts[2]);
    let c = number_operand(ts[4]);
    let bc = SExpr { kind: combine(op2, b, c), start: b.start, end: c.end };
    let abc = SExpr { kind: combine(op1, a, bc), start: a.start, end: c.end };
    let (l1, r1) = binding_power(op1)->0;
    let (l2, r2) = binding_power(op2)->0;
    assert(l1 < r1 && l2 < r2 && r1 <= l2);
    lemma_number_prefix(ts, 0, strict);
    lemma_number_prefix(ts, 2, strict);
    lemma_number_prefix(ts, 4, strict);
    assert(!at_kind(ts, 1, TokenKind::OpeningParenthesis) && !at_kind(ts, 1, TokenKind::Period)
        && !at_kind(ts, 1, TokenKind::OpeningSquareBracket));
    assert(!at_kind(ts, 3, TokenKind::OpeningParenthesis) && !at_kind(ts, 3, TokenKind::Period)
        && !at_kind(ts, 3, TokenKind::OpeningSquareBracket));
    assert(sp_infix(ts, 5, c, c.start, r2, strict) == PRes::Done(c, 5));
    assert(sp_expression(ts, 4, r2, strict) == PRes::Done(c, 5));
    assert(sp_infix(ts, 5, bc, b.start, r1, strict) == PRes::Done(bc, 5));
    assert(sp_infix(ts, 3, b, b.start, r1, strict) == PRes::Done(bc, 5));
    assert(sp_expression(ts, 2, r1, strict) == PRes::Done(bc, 5));
    assert(sp_infix(ts, 5, abc, a.start, 0, strict) == PRes::Done(abc, 5));
    assert(sp_infix(ts, 1, a, a.start, 0, strict) == PRes::Done(abc, 5));
}

/// `a op1 b op2 c` where `op1` keeps its right operand from `op2`.
proof fn lemma_nest_left(ts: Seq<SpecToken>, op1: TokenKind, op2: TokenKind, strict: bool)
    requires
        three_operands(ts, op1, op2),
        0 <= precedence_level(op2) < precedence_level(op1),
    ensures
        ({
            let a = number_operand(ts[0]);
            let b = number_operand(ts[2]);
            let c = number_operand(ts[4]);
            let ab = SExpr { kind: combine(op1, a, b), start: a.start, end: b.end };
            sp_expression(ts, 0, 0, strict) == PRes::Done(SExpr { kind: combine(op2, ab, c), start: a.start, end: c.end }, 5)
        }),
{
    let a = number_operand(ts[0]);
    let b = number_operand(ts[2]);
    let c = number_operand(ts[4]);
    let ab = SExpr { kind: combine(op1, a, b), start: a.start, end: b.end };
    let abc = SExpr { kind: combine(op2, ab, c), start: a.start, end: c.end };
    let (l1, r1) = binding_power(op1)->0;
    let (l2, r2) = binding_power(op2)->0;
    assert(l1 < r1 && l2 < r2 && l2 < r1);
    lemma_number_prefix(ts, 0, strict);
    lemma_number_prefix(ts, 2, strict);
    lemma_number_prefix(ts, 4, strict);
    assert(!at_kind(ts, 1, TokenKind::OpeningParenthesis) && !at_kind(ts, 1, TokenKind::Period)
        && !at_kind(ts, 1, TokenKind::OpeningSquareBracket));
    assert(!at_kind(ts, 3, TokenKind::OpeningParenthesis) && !at_kind(ts, 3, TokenKind::Period)
        && !at_kind(ts, 3, TokenKind::OpeningSquareBracket));
    lemma_infix_stops(ts, 3, b, b.start, r1, strict);
    assert(sp_expression(ts, 2, r1, strict) == PRes::Done(b, 3));
    assert(sp_infix(ts, 5, c, c.start, r2, strict) == PRes::Done(c, 5));
    assert(sp_expression(ts, 4, r2, strict) == PRes::Done(c, 5));
    assert(sp_infix(ts, 5, abc, a.start, 0, strict) == PRes::Done(abc, 5));
    assert(sp_infix(ts, 3, ab, a.start, 0, strict) == PRes::Done(abc, 5));
    assert(sp_infix(ts, 1, a, a.start, 0, strict) == PRes::Done(abc, 5));
}

/// A comparison with a sum or difference on its right compares with the
/// whole sum: `a < b - c` is `a < (b - c)`, for every comparison and every
/// additive operator; and `a - b < c` is `(a - b) < c`.
pub proof fn law_additive_inside_comparison(ts: Seq<SpecToken>, rel: TokenKind, add: TokenKind, strict: bool)
    requires
        rel == TokenKind::LT || rel == TokenKind::LTE || rel == TokenKind::GT || rel == TokenKind::GTE,
        add == TokenKind::Plus || add == TokenKind::Minus,
    ensures
        three_operands(ts, rel, add) ==> ({
            let a = number_operand(ts[0]);
            let b = number_operand(ts[2]);
            let c = number_operand(ts[4]);
            let bc = SExpr { kind: SExprKind::Binary(Box::new(b), add, Box::new(c)), start: b.start, end: c.end };
            sp_expression(ts, 0, 0, strict) == PRes::Done(
                SExpr { kind: SExprKind::Relational(Box::new(a), rel, Box::new(bc)), start: a.start, end: c.end },
                5,
            )
        }),
        three_operands(ts, add, rel) ==> ({
            let a = number_operand(ts[0]);
            let b = number_operand(ts[2]);
            let c = number_operand(ts[4]);
            let ab = SExpr { kind: SExprKind::Binary(Box::new(a), add, Box::new(b)), start: a.start, end: b.end };
            sp_expression(ts, 0, 0, strict) == PRes::Done(
                SExpr { kind: SExprKind::Relational(Box::new(ab), rel, Box::new(c)), start: a.start, end: c.end },
                5,
            )
        }),
{
    law_tighter_operator_nests_inside(ts, rel, add, strict);
}

/// A product stands inside a sum: `a + b * c` is `a + (b * c)` and
/// `a * b - c` is `(a * b) - c`.
pub proof fn law_multiplicative_inside_additive(ts: Seq<SpecToken>, add: TokenKind, mul: TokenKind, strict: bool)
    requires
        add == TokenKind::Plus || add == TokenKind::Minus,
        mul == TokenKind::Asterisk || mul == TokenKind::Slash,
    ensures
        three_operands(ts, add, mul) ==> ({
            let a = number_operand(ts[0]);
            let b = number_operand(ts[2]);
            let c = number_operand(ts[4]);
            let bc = SExpr { kind: SExprKind::Binary(Box::new(b), mul, Box::new(c)), start: b.start, end: c.end };
            sp_expression(ts, 0, 0, strict) == PRes::Done(
                SExpr { kind: SExprKind::Binary(Box::new(a), add, Box::new(bc)), start: a.start, end: c.end },
                5,
            )
        }),
        three_operands(ts, mul, add) ==> ({
            let a = number_operand(ts[0]);
            let b = number_operand(ts[2]);
            let c = number_operand(ts[4]);
            let ab = SExpr { kind: SExprKind::Binary(Box::new(a), mul, Box::new(b)), start: a.start, end: b.end };
            sp_expression(ts, 0, 0, strict) == PRes::Done(
                SExpr { kind: SExprKind::Binary(Box::new(ab), add, Box::new(c)), start: a.start, end: c.end },
                5,
            )
        }),
{
    law_tighter_operator_nests_inside(ts, add, mul, strict);
}

/// A comparison stands inside an equality test: `a == b < c` is
/// `a == (b < c)` and `a < b != c` is `(a < b) != c`.
pub proof fn law_comparison_inside_equality(ts: Seq<SpecToken>, eq: TokenKind, rel: TokenKind, strict: bool)
    requires
        eq == TokenKind::EQ || eq == TokenKind::NE,
        rel == TokenKind::LT || rel == TokenKind::LTE || rel == TokenKind::GT || rel == TokenKind::GTE,
    ensures
        three_operands(ts, eq, rel) ==> ({
            let a = number_operand(ts[0]);
            let b = number_operand(ts[2]);
            let c = number_operand(ts[4]);
            let bc = SExpr { kind: SExprKind::Relational(Box::new(b), rel, Box::new(c)), start: b.start, end: c.end };
            sp_expression(ts, 0, 0, strict) == PRes::Done(
                SExpr { kind: SExprKind::Equality(Box::new(a), eq, Box::new(bc)), start: a.start, end: c.end },
                5,
            )
        }),
        three_operands(ts, rel, eq) ==> ({
            let a = number_operand(ts[0]);
            let b = number_operand(ts[2]);
            let c = number_operand(ts[4]);
            let ab = SExpr { kind: SExprKind::Relational(Box::new(a), rel, Box::new(b)), start: a.start, end: b.end };
            sp_expression(ts, 0, 0, strict) == PRes::Done(
                SExpr { kind: SExprKind::Equality(Box::new(ab), eq, Box::new(c)), start: a.start, end: c.end },
                5,
            )
        }),
{
    law_tighter_operator_nests_inside(ts, eq, rel, strict);
}

/// An equality test stands inside a logical operator: `a && b == c` is
/// `a && (b == c)` and `a != b || c` is `(a != b) || c`.
pub proof fn law_equality_inside_logical(ts: Seq<SpecToken>, lg: TokenKind, eq: TokenKind, strict: bool)
    requires
        lg == TokenKind::And || lg == TokenKind::Or,
        eq == TokenKind::EQ || eq == TokenKind::NE,
    ensures
        three_operands(ts, lg, eq) ==> ({
            let a = number_operand(ts[0]);
            let b = number_operand(ts[2]);
            let c = number_operand(ts[4]);
            let bc = SExpr { kind: SExprKind::Equality(Box::new(b), eq, Box::new(c)), start: b.start, end: c.end };
            sp_expression(ts, 0, 0, strict) == PRes::Done(
                SExpr { kind: SExprKind::Logical(Box::new(a), lg, Box::new(bc)), start: a.start, end: c.end },
                5,
            )
        }),
        three_operands(ts, eq, lg) ==> ({
            let a = number_operand(ts[0]);
            let b = number_operand(ts[2]);
            let c = number_operand(ts[4]);
            let ab = SExpr { kind: SExprKind::Equality(Box::new(a), eq, Box::new(b)), start: a.start, end: b.end };
            sp_expression(ts, 0, 0, strict) == PRes::Done(
                SExpr { kind: SExprKind::Logical(Box::new(ab), lg, Box::new(c)), start: a.start, end: c.end },
                5,
            )
        }),
{
    law_tighter_operator_nests_inside(ts, lg, eq, strict);
}

} // verus!
