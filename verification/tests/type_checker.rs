use nlf::analysis::ScopeId;
use nlf::errors::Span;
use nlf::explorer::visit_program;
use nlf::lexer::lex;
use nlf::parser::parse;
use nlf::type_checker::TypeCollector;
use std::path::PathBuf;

fn collect(source: &str) -> TypeCollector {
    let program = parse(lex(source.to_string()).unwrap()).unwrap();
    let mut collector = TypeCollector::new(PathBuf::from("main.nlf"));
    visit_program(&program, &mut collector);
    collector
}

#[test]
fn a_new_collector_has_only_the_global_scope() {
    let c = TypeCollector::new(PathBuf::from("a.nlf"));
    assert_eq!(c.scopes.len(), 1);
    assert!(c.scopes[0].parent.is_none());
    assert!(c.scopes[0].span.is_none());
    assert_eq!(c.current, ScopeId(0));
    assert!(c.types.is_empty());
    assert_eq!(c.path, PathBuf::from("a.nlf"));
}

#[test]
fn classes_and_imports_are_collected_in_order() {
    let c = collect("import { a, b } from \"lib\"\nclass A { }");
    let names: Vec<&str> = c.types.iter().map(|t| t.name.as_str()).collect();
    assert_eq!(names, vec!["a", "b", "A"]);
    assert_eq!(c.types[0].span, Span { start: 9, end: 10 });
    assert!(c.types.iter().all(|t| t.scope == ScopeId(0)));
    assert_eq!(c.scopes[0].symbols, vec![0, 1, 2]);
    assert_eq!(c.current, ScopeId(0));
}

#[test]
fn a_class_in_a_function_belongs_to_the_function_body() {
    let source = "fn f() { class B { } }\nclass C { }";
    let c = collect(source);
    assert_eq!(c.scopes.len(), 4);
    assert_eq!(c.scopes[1].parent, Some(ScopeId(0)));
    assert_eq!(c.scopes[2].parent, Some(ScopeId(1)));
    assert_eq!(c.scopes[0].children, vec![ScopeId(1), ScopeId(3)]);
    assert_eq!(c.types[0].name, "B");
    assert_eq!(c.types[0].scope, ScopeId(1));
    assert_eq!(c.types[1].name, "C");
    assert_eq!(c.types[1].scope, ScopeId(0));
    let inside = source.find("class B").unwrap();
    assert_eq!(c.scope_at_position(inside), ScopeId(1));
    assert_eq!(c.find_definition("B", inside).unwrap().name, "B");
    assert_eq!(c.find_definition("C", inside).unwrap().scope, ScopeId(0));
    assert!(c.find_definition("B", source.len()).is_none());
    assert!(c.find_definition("D", inside).is_none());
}

#[test]
fn an_exported_class_is_collected() {
    let c = collect("export class E { }");
    assert_eq!(c.types.len(), 1);
    assert_eq!(c.types[0].name, "E");
}
