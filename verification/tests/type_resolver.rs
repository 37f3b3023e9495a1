use nlf::analysis::{Scope, ScopeId};
use nlf::errors::Span;
use nlf::explorer::visit_program;
use nlf::lexer::lex;
use nlf::parser::parse;
use nlf::type_resolver::{AllocatedTypeIdent, TypeCollector, TypeIdent};
use nlf::types::{TypeArena, TypeId};

fn empty_collector() -> TypeCollector {
    TypeCollector {
        arena: TypeArena::new(),
        types: vec![],
        current: ScopeId(0),
        scopes: vec![Scope { parent: None, children: vec![], symbols: vec![], span: None }],
    }
}

fn ident(name: &str, start: usize) -> TypeIdent {
    TypeIdent { name: name.to_string(), span: Span { start, end: start + name.len() } }
}

#[test]
fn walking_opens_a_scope_per_body() {
    let source = "fn f() { if a { } }";
    let program = parse(lex(source.to_string()).unwrap()).unwrap();
    let mut c = empty_collector();
    visit_program(&program, &mut c);
    assert_eq!(c.scopes.len(), 3);
    assert_eq!(c.scopes[1].parent, Some(ScopeId(0)));
    assert_eq!(c.scopes[2].parent, Some(ScopeId(1)));
    assert_eq!(c.scopes[1].children, vec![ScopeId(2)]);
    assert_eq!(c.current, ScopeId(0));
    assert!(c.types.is_empty());
    assert!(c.arena.types.is_empty());
}

#[test]
fn a_name_resolves_to_the_innermost_declaration() {
    let mut c = empty_collector();
    c.scopes.push(Scope { parent: Some(ScopeId(0)), children: vec![], symbols: vec![], span: Some(Span { start: 10, end: 20 }) });
    c.scopes[0].children.push(ScopeId(1));
    c.types.push(AllocatedTypeIdent { name: "T".to_string(), span: Span { start: 0, end: 1 }, id: TypeId(7) });
    c.scopes[0].symbols.push(0);
    c.types.push(AllocatedTypeIdent { name: "T".to_string(), span: Span { start: 11, end: 12 }, id: TypeId(8) });
    c.scopes[1].symbols.push(1);
    assert_eq!(c.scope_at_position(15), ScopeId(1));
    assert_eq!(c.scope_at_position(25), ScopeId(0));
    assert_eq!(c.find_definition(ident("T", 15)), Some(&TypeId(8)));
    assert_eq!(c.find_definition(ident("T", 25)), Some(&TypeId(7)));
    assert_eq!(c.find_definition(ident("U", 15)), None);
}
