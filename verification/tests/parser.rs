use nlf::ast::{Expression, ExpressionKind, Iterable, LiteralExpressionKind, Program, Statement, StatementKind, TypeRef, ValueHolder, VariableDescriptor, Visibility};
use nlf::errors::{ErrorKind, LanguageError, ParserError, Span};
use nlf::lexer::{lex, KeywordKind, TokenKind};
use nlf::parser::{infix_binding_power, lax_parse, parse, try_parse, Parser};

fn parse_text(text: &str) -> Result<Program, LanguageError> {
    parse(lex(text.to_string()).unwrap())
}

fn first(text: &str) -> Statement {
    let program = parse_text(text).unwrap();
    program.body.into_iter().next().unwrap()
}

fn expression_of(text: &str) -> Expression {
    match first(text).kind {
        StatementKind::Expression { expression } => expression,
        other => panic!("not an expression statement: {:?}", other),
    }
}

fn is_number(e: &Expression, text: &str) -> bool {
    matches!(&e.kind, ExpressionKind::Literal { literal_kind: LiteralExpressionKind::Literal, value: ValueHolder::Number(n) } if n == text)
}

fn is_variable(e: &Expression, name: &str) -> bool {
    matches!(&e.kind, ExpressionKind::Literal { literal_kind: LiteralExpressionKind::Variable, value: ValueHolder::String(n) } if n == name)
}

fn parser_message(e: &LanguageError) -> String {
    match &e.kind {
        ErrorKind::Parser(ParserError::UnexpectedToken(m)) => m.clone(),
        ErrorKind::Parser(ParserError::InvalidUsage(m)) => m.clone(),
        other => panic!("unexpected error kind {:?}", other),
    }
}

#[test]
fn multiplication_binds_tighter_than_addition() {
    let st = first("let x = 1 + 2 * 3");
    assert_eq!((st.start, st.end), (0, 17));
    let StatementKind::VariableDefinition { descriptor, expression, type_ref, .. } = st.kind else { panic!() };
    assert!(matches!(descriptor, VariableDescriptor::Identifier(ref i) if i.value == "x" && i.start == 4 && i.end == 5));
    assert!(type_ref.is_none());
    let ExpressionKind::Binary { left, operator, right } = expression.kind else { panic!() };
    assert_eq!(operator, TokenKind::Plus);
    assert!(is_number(&left, "1"));
    let ExpressionKind::Binary { left: l2, operator: op2, right: r2 } = right.kind else { panic!() };
    assert_eq!(op2, TokenKind::Asterisk);
    assert!(is_number(&l2, "2") && is_number(&r2, "3"));
    assert_eq!((expression.start, expression.end), (8, 17));
}

#[test]
fn subtraction_is_left_associative() {
    let e = expression_of("1 - 2 - 3");
    let ExpressionKind::Binary { left, right, .. } = e.kind else { panic!() };
    assert!(is_number(&right, "3"));
    assert!(matches!(left.kind, ExpressionKind::Binary { .. }));
}

#[test]
fn assignment_takes_an_equality() {
    let e = expression_of("a = b == c");
    let ExpressionKind::Assignment { left, operator, right } = e.kind else { panic!() };
    assert_eq!(operator, TokenKind::Assign);
    assert!(is_variable(&left, "a"));
    assert!(matches!(right.kind, ExpressionKind::Equality { operator: TokenKind::EQ, .. }));
}

#[test]
fn unary_minus_takes_the_whole_expression() {
    let e = expression_of("-a + b");
    let ExpressionKind::Unary { left, operator } = e.kind else { panic!() };
    assert_eq!(operator, TokenKind::Minus);
    assert!(matches!(left.kind, ExpressionKind::Binary { operator: TokenKind::Plus, .. }));
    assert_eq!((e.start, e.end), (0, 6));
}

#[test]
fn call_then_member() {
    let e = expression_of("f(1, 2).g");
    let ExpressionKind::Member { object, property } = e.kind else { panic!() };
    let ExpressionKind::Call { callee, arguments } = object.kind else { panic!() };
    assert!(is_variable(&callee, "f"));
    assert_eq!(arguments.len(), 2);
    assert!(matches!(&property.kind, ExpressionKind::Literal { value: ValueHolder::String(s), .. } if s == "g"));
    assert_eq!((object.start, object.end), (0, 7));
}

#[test]
fn member_takes_the_span_of_its_name() {
    let e = expression_of("a.b");
    assert_eq!((e.start, e.end), (2, 3));
}

#[test]
fn bracket_member() {
    let e = expression_of("a[1]");
    let ExpressionKind::Member { property, .. } = e.kind else { panic!() };
    assert!(is_number(&property, "1"));
}

#[test]
fn object_literal_keeps_first_place_and_last_value() {
    let e = expression_of("{\"a\": 1, \"b\": 2, \"a\": 3}");
    let ExpressionKind::Literal { literal_kind: LiteralExpressionKind::Object(map), .. } = e.kind else { panic!() };
    let entries = map.entries();
    assert_eq!(entries.len(), 2);
    assert_eq!(entries[0].0, "a");
    assert!(is_number(entries[0].1, "3"));
    assert_eq!(entries[1].0, "b");
    assert!(is_number(entries[1].1, "2"));
}

#[test]
fn array_literal() {
    let e = expression_of("[1, 2]");
    let ExpressionKind::Literal { literal_kind: LiteralExpressionKind::Array(items), .. } = e.kind else { panic!() };
    assert_eq!(items.len(), 2);
    assert_eq!((e.start, e.end), (0, 6));
}

#[test]
fn lambda_gets_a_name_from_its_span() {
    let st = first("let f = (a, b) => a + b");
    let StatementKind::VariableDefinition { expression, .. } = st.kind else { panic!() };
    assert_eq!((expression.start, expression.end), (8, 23));
    let ExpressionKind::Literal { literal_kind: LiteralExpressionKind::Function(kind), .. } = expression.kind else { panic!() };
    let StatementKind::Function { variable, arguments, block, .. } = *kind else { panic!() };
    assert_eq!(variable.value, "<lambda:8-23>");
    assert_eq!(arguments.len(), 2);
    assert_eq!(block.statements.len(), 1);
    assert!(matches!(block.statements[0].kind, StatementKind::Return { .. }));
}

#[test]
fn parenthesized_expression_is_no_lambda() {
    let e = expression_of("(1 + 2) * 3");
    let ExpressionKind::Binary { left, operator, .. } = e.kind else { panic!() };
    assert_eq!(operator, TokenKind::Asterisk);
    assert!(matches!(left.kind, ExpressionKind::Binary { operator: TokenKind::Plus, .. }));
}

#[test]
fn if_with_else_block() {
    let st = first("if a { b } else { c }");
    assert_eq!((st.start, st.end), (0, 21));
    let StatementKind::If { condition, block, alternate } = st.kind else { panic!() };
    assert!(is_variable(&condition, "a"));
    assert_eq!(block.statements.len(), 1);
    let alternate = alternate.unwrap();
    assert!(matches!(alternate.kind, StatementKind::Block(_)));
}

#[test]
fn else_if_chain() {
    let st = first("if a { } else if b { } else { }");
    let StatementKind::If { alternate, .. } = st.kind else { panic!() };
    assert!(matches!(alternate.unwrap().kind, StatementKind::If { alternate: Some(_), .. }));
}

#[test]
fn empty_block_spans_between_its_braces() {
    let st = first("fn f() { }");
    let StatementKind::Function { block, .. } = st.kind else { panic!() };
    assert_eq!(block.get_span(), Span { start: 8, end: 9 });
}

#[test]
fn for_over_a_range() {
    let st = first("for i in 0..10 { x }");
    let StatementKind::For { variable, iterable, statements } = st.kind else { panic!() };
    assert_eq!(variable.value, "i");
    assert!(matches!(iterable, Iterable::Range(Some(_), Some(_))));
    assert_eq!(statements.len(), 1);
}

#[test]
fn for_over_an_array() {
    let st = first("for i in xs { }");
    let StatementKind::For { iterable, .. } = st.kind else { panic!() };
    assert!(matches!(iterable, Iterable::Array(ref e) if is_variable(e, "xs")));
}

#[test]
fn range_without_bounds_is_an_error() {
    let e = parse_text("for i in .. { }").unwrap_err();
    assert_eq!(parser_message(&e), "Both sides of a range expression cannot be None");
    assert_eq!(e.source, Some(Span { start: 9, end: 11 }));
}

#[test]
fn while_loop() {
    let st = first("while a < 3 { a += 1 }");
    let StatementKind::While { condition, statements } = st.kind else { panic!() };
    assert!(matches!(condition.kind, ExpressionKind::Relational { operator: TokenKind::LT, .. }));
    assert!(matches!(statements[0].kind, StatementKind::Expression { ref expression } if matches!(expression.kind, ExpressionKind::Assignment { operator: TokenKind::PlusEqual, .. })));
}

#[test]
fn class_with_field_method_and_constructor() {
    let st = first("class A { public x = 1 fn m() { } A(v) { } }");
    let StatementKind::Class { variable, methods, fields, body_start, body_end } = st.kind else { panic!() };
    assert_eq!(variable.value, "A");
    assert_eq!(fields.len(), 1);
    assert!(matches!(&fields[0].kind, StatementKind::Field { visibility: Visibility::Public, name, .. } if name == "x"));
    assert_eq!(methods.len(), 2);
    assert_eq!((body_start, body_end), (9, 43));
}

#[test]
fn constructor_with_a_return_type_is_an_error() {
    let e = parse_text("class A { A(): number { } }").unwrap_err();
    assert_eq!(parser_message(&e), "Constructor cannot have a return type annotation");
    assert_eq!(e.source, Some(Span { start: 15, end: 21 }));
}

#[test]
fn import_statement() {
    let st = first("import { a, b } from \"lib\"");
    assert_eq!((st.start, st.end), (0, 26));
    let StatementKind::Import { specifiers, source } = st.kind else { panic!() };
    assert_eq!(specifiers.iter().map(|s| s.value.as_str()).collect::<Vec<_>>(), vec!["a", "b"]);
    assert_eq!(source.value, "lib");
}

#[test]
fn export_statement() {
    let st = first("export fn f() { }");
    let StatementKind::Export { declaration } = st.kind else { panic!() };
    assert!(matches!(declaration.kind, StatementKind::Function { .. }));
}

#[test]
fn typed_let_with_array_and_object_types() {
    let st = first("let x: { a: number }[] = y");
    let StatementKind::VariableDefinition { type_ref, .. } = st.kind else { panic!() };
    let TypeRef::Array { type_ref: inner, span } = type_ref.unwrap() else { panic!() };
    assert_eq!(span, Span { start: 7, end: 22 });
    let TypeRef::Object { entries, .. } = *inner else { panic!() };
    assert_eq!(entries.entries().len(), 1);
}

#[test]
fn unexpected_token_names_its_index() {
    let e = parse_text("let = 1").unwrap_err();
    assert_eq!(parser_message(&e), "unexpected token at index 1");
    assert_eq!(e.source, Some(Span { start: 4, end: 5 }));
}

#[test]
fn missing_expression_is_an_unexpected_end() {
    let e = parse_text("let x =").unwrap_err();
    assert!(matches!(e.kind, ErrorKind::Parser(ParserError::UnexpectedEndOfInput)));
    assert_eq!(e.source, Some(Span { start: 7, end: 7 }));
}

#[test]
fn strict_parse_refuses_an_unfinished_member() {
    let e = parse_text("a.").unwrap_err();
    assert!(matches!(e.kind, ErrorKind::Parser(ParserError::UnexpectedEndOfInput)));
    assert_eq!(e.source, Some(Span { start: 0, end: 2 }));
}

#[test]
fn lax_parse_completes_an_unfinished_member() {
    let program = lax_parse(lex("a.".to_string()).unwrap()).unwrap();
    let StatementKind::Expression { expression } = &program.body[0].kind else { panic!() };
    let ExpressionKind::Member { property, .. } = &expression.kind else { panic!() };
    assert!(matches!(&property.kind, ExpressionKind::Literal { value: ValueHolder::String(s), .. } if s == "<lax>"));
    assert_eq!((property.start, property.end), (2, 2));
}

#[test]
fn a_number_that_is_no_float_makes_the_parser_panic() {
    assert!(try_parse(lex("²".to_string()).unwrap(), true).is_none());
    assert!(try_parse(lex("2".to_string()).unwrap(), true).is_some());
}

#[test]
fn empty_program() {
    assert_eq!(parse(Vec::new()).unwrap().body.len(), 0);
}

#[test]
fn several_statements() {
    let program = parse_text("let a = 1 a = a + 1 return a").unwrap();
    assert_eq!(program.body.len(), 3);
    assert!(matches!(program.body[2].kind, StatementKind::Return { .. }));
}

#[test]
fn binding_powers() {
    assert_eq!(infix_binding_power(&TokenKind::Asterisk), Some((7, 8)));
    assert_eq!(infix_binding_power(&TokenKind::Assign), Some((0, 1)));
    assert_eq!(infix_binding_power(&TokenKind::Comma), None);
}

#[test]
fn parser_cursor_moves() {
    let mut p = Parser::new(lex("a b".to_string()).unwrap(), true);
    assert_eq!(p.peek().unwrap().start, 0);
    p.advance();
    assert_eq!(p.peek().unwrap().start, 2);
    let t = p.consume(|t| matches!(t.kind, TokenKind::Identifier { .. })).unwrap();
    assert_eq!(t.end, 3);
    assert!(p.peek().is_none());
}

#[test]
fn visibility_from_keyword() {
    assert_eq!(Visibility::from(&TokenKind::Keyword(KeywordKind::Private)), Visibility::Private);
}

#[test]
fn parse_expression_reads_one_expression_from_the_cursor() {
    let mut p = nlf::parser::Parser::new(lex("1 + 2 * 3".to_string()).unwrap(), true);
    let e = nlf::parser::parse_expression(&mut p, 0).unwrap();
    assert_eq!(p.cursor, 5);
    let ExpressionKind::Binary { left, right, .. } = &e.kind else { panic!("expected a sum") };
    assert!(is_number(left, "1"));
    assert!(matches!(right.kind, ExpressionKind::Binary { .. }));
}
