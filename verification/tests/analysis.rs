use nlf::analysis::{CompletionCandidate, CompletionResolver, Scope, ScopeId, Symbol, SymbolIndex, SymbolKind, TypedScopeBuilder};
use nlf::ast::{Argument, ExpressionKind, Identifier, Program, StatementKind};
use nlf::errors::Span;
use nlf::explorer::{visit_program, walk_statement, Visitor};
use nlf::lexer::lex;
use nlf::parser::parse;
use nlf::types::{Type, TypeArena, TypeId};

fn builder() -> TypedScopeBuilder {
    TypedScopeBuilder::new(TypeArena::<Type>::new())
}

#[test]
fn symbols_of_enclosing_scopes_are_visible() {
    let mut b = builder();
    b.define("g".to_string(), SymbolKind::Constant, Span { start: 0, end: 1 });
    let parent = b.enter_scope(Span { start: 10, end: 50 });
    assert_eq!(parent, ScopeId(0));
    b.define("x".to_string(), SymbolKind::Variable, Span { start: 12, end: 13 });
    let inner = b.current;
    b.exit_scope(parent);
    assert_eq!(b.current, ScopeId(0));
    let index = SymbolIndex::from(b);
    let names: Vec<&str> = index.visible_symbols(inner).iter().map(|s| s.name.as_str()).collect();
    assert_eq!(names, vec!["x", "g"]);
    let names: Vec<&str> = index.visible_symbols(ScopeId(0)).iter().map(|s| s.name.as_str()).collect();
    assert_eq!(names, vec!["g"]);
}

#[test]
fn innermost_scope_at_a_position() {
    let mut b = builder();
    let root = b.enter_scope(Span { start: 0, end: 100 });
    let outer = b.current;
    let _ = b.enter_scope(Span { start: 20, end: 30 });
    let inner = b.current;
    b.exit_scope(root);
    let index = SymbolIndex::from(b);
    assert_eq!(index.scope_at_position(25), inner);
    assert_eq!(index.scope_at_position(50), outer);
    assert_eq!(index.scope_at_position(500), ScopeId(0));
}

#[test]
fn definitions_skip_uses_of_variables() {
    let mut b = builder();
    b.define("a".to_string(), SymbolKind::Definition(TypeId(1)), Span { start: 0, end: 1 });
    let root = b.enter_scope(Span { start: 5, end: 40 });
    b.define("a".to_string(), SymbolKind::Variable, Span { start: 6, end: 7 });
    b.exit_scope(root);
    let index = SymbolIndex::from(b);
    let found = index.find_definition("a", 10).unwrap();
    assert_eq!(found.span, Span { start: 0, end: 1 });
    assert!(index.find_definition("b", 10).is_none());
}

#[test]
fn symbol_at_a_position() {
    let mut b = builder();
    b.define("outer".to_string(), SymbolKind::Method, Span { start: 0, end: 10 });
    b.define("inner".to_string(), SymbolKind::Method, Span { start: 3, end: 5 });
    let index = SymbolIndex::from(b);
    assert_eq!(index.symbol_at(4).unwrap().name, "inner");
    assert_eq!(index.symbol_at(8).unwrap().name, "outer");
    assert!(index.symbol_at(11).is_none());
}

#[test]
fn exports_are_found_by_name() {
    let b = builder();
    let index = SymbolIndex::from(b);
    assert!(index.find_export("f").is_none());
}

#[test]
fn expressions_define_variables_and_properties() {
    let program = parse(lex("a.b".to_string()).unwrap()).unwrap();
    let StatementKind::Expression { expression } = &program.body[0].kind else { panic!() };
    let mut b = builder();
    b.visit_expression(expression);
    let ExpressionKind::Member { object, .. } = &expression.kind else { panic!() };
    b.visit_expression(object);
    assert_eq!(b.symbols.len(), 2);
    assert_eq!(b.symbols[0].name, "b");
    assert!(matches!(b.symbols[0].kind, SymbolKind::Property(0)));
    assert_eq!(b.symbols[1].name, "a");
    assert!(matches!(b.symbols[1].kind, SymbolKind::Variable));
}

#[test]
fn arguments_are_definitions() {
    let mut b = builder();
    let a = Argument { variable: Identifier { value: "p".to_string(), start: 3, end: 4 }, type_ref: None, ty: TypeId(2) };
    b.visit_argument(&a);
    assert_eq!(b.symbols[0].name, "p");
    assert!(matches!(b.symbols[0].kind, SymbolKind::Definition(TypeId(2))));
    assert_eq!(b.scopes[0].symbols, vec![0]);
}

#[test]
fn completions_are_offered_after_a_period() {
    let program = parse(lex("obj.name".to_string()).unwrap()).unwrap();
    let StatementKind::Expression { expression } = &program.body[0].kind else { panic!() };
    let mut r = CompletionResolver::default();
    r.visit_expression(expression);
    assert_eq!(
        r.candidates,
        vec![CompletionCandidate { completion_span: Span { start: 4, end: 8 }, object_span: Span { start: 0, end: 3 } }]
    );
}

#[test]
fn a_walk_offers_completions_in_every_body() {
    let source = "fn f(a) { a.x if a { b.y } else { c.z } }\nlet v = [d.w, 1];\nfor i in e.u..3 { }";
    let program = parse(lex(source.to_string()).unwrap()).unwrap();
    let mut r = CompletionResolver::default();
    visit_program(&program, &mut r);
    let names: Vec<&str> = r.candidates.iter().map(|c| &source[c.completion_span.start..c.completion_span.end]).collect();
    let objects: Vec<&str> = r.candidates.iter().map(|c| &source[c.object_span.start..c.object_span.end]).collect();
    assert_eq!(names, vec!["x", "y", "z", "w", "u"]);
    assert_eq!(objects, vec!["a", "b", "c", "d", "e"]);
}

#[test]
fn a_walk_skips_the_condition_of_a_while_loop() {
    let source = "while a.b { c.d }";
    let program = parse(lex(source.to_string()).unwrap()).unwrap();
    let mut r = CompletionResolver::default();
    walk_statement(&mut r, &program.body[0]);
    assert_eq!(r.candidates.len(), 1);
    assert_eq!(&source[r.candidates[0].completion_span.start..r.candidates[0].completion_span.end], "d");
}

#[test]
fn walking_a_program_in_parts_is_walking_it_whole() {
    let first = parse(lex("a.x\nfn f() { b.y }".to_string()).unwrap()).unwrap();
    let second = parse(lex("c.z".to_string()).unwrap()).unwrap();
    let mut parts = CompletionResolver::default();
    visit_program(&first, &mut parts);
    visit_program(&second, &mut parts);
    let mut body = first.body;
    body.extend(second.body);
    let whole_program = Program { body };
    let mut whole = CompletionResolver::default();
    visit_program(&whole_program, &mut whole);
    assert_eq!(parts.candidates, whole.candidates);
    assert_eq!(whole.candidates.len(), 3);
}

#[test]
fn a_parent_that_comes_after_its_child_is_still_searched() {
    let index = SymbolIndex {
        scopes: vec![
            Scope { parent: Some(ScopeId(1)), children: vec![], symbols: vec![1], span: Some(Span { start: 10, end: 20 }) },
            Scope { parent: None, children: vec![ScopeId(0)], symbols: vec![0], span: None },
        ],
        symbols: vec![
            Symbol { name: "g".to_string(), kind: SymbolKind::Constant, span: Span { start: 0, end: 1 }, scope: ScopeId(1) },
            Symbol { name: "x".to_string(), kind: SymbolKind::Method, span: Span { start: 11, end: 12 }, scope: ScopeId(0) },
        ],
        exports: vec![],
        arena: TypeArena::new(),
    };
    assert_eq!(index.find_definition("g", 15).unwrap().name, "g");
    assert_eq!(index.find_definition("x", 15).unwrap().name, "x");
    assert!(index.find_definition("z", 15).is_none());
    let names: Vec<&str> = index.visible_symbols(ScopeId(0)).iter().map(|s| s.name.as_str()).collect();
    assert_eq!(names, vec!["x", "g"]);
}
