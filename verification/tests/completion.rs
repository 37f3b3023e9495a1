use nlf::analysis::{CompletionCandidate, SymbolIndex, SymbolKind, TypedScopeBuilder};
use nlf::completion::{completion_items, member_plan, BuiltIn, CompletionItemKind, CompletionPlan, MemberPlan};
use nlf::errors::Span;
use nlf::types::{ClassType, FieldType, FunctionType, Type, TypeArena, TypeId};
use nlf::ast::Visibility;

fn span(start: usize, end: usize) -> Span {
    Span { start, end }
}

fn index_with_counter() -> SymbolIndex {
    let mut arena: TypeArena<Type> = TypeArena::new();
    let class = ClassType {
        name: "Counter".to_string(),
        methods: vec![
            ("Counter".to_string(), FunctionType { arguments: vec![], return_ty: TypeId(0) }),
            ("tick".to_string(), FunctionType { arguments: vec![], return_ty: TypeId(0) }),
        ],
        fields: vec![FieldType { name: "count".to_string(), visibility: Visibility::Public, ty: TypeId(0) }],
    };
    let instance = arena.alloc_type(Type::Instance { class: Box::new(class) });
    let text = arena.alloc_type(Type::String);
    let mut b = TypedScopeBuilder::new(arena);
    b.define("c".to_string(), SymbolKind::Definition(instance), span(0, 1));
    b.define("s".to_string(), SymbolKind::Definition(text), span(2, 3));
    b.define("_hidden".to_string(), SymbolKind::Definition(text), span(4, 5));
    b.define("main".to_string(), SymbolKind::Function(FunctionType { arguments: vec![], return_ty: TypeId(0) }), span(6, 10));
    b.define("lib".to_string(), SymbolKind::Import("./lib".to_string()), span(11, 14));
    b.define("c".to_string(), SymbolKind::Variable, span(20, 21));
    b.define("m".to_string(), SymbolKind::Method, span(30, 31));
    SymbolIndex::from(b)
}

#[test]
fn a_member_access_on_a_defined_variable_offers_its_members() {
    let index = index_with_counter();
    let candidates = vec![CompletionCandidate { completion_span: span(22, 23), object_span: span(20, 21) }];
    let plan = completion_items(&index, &candidates, 23);
    let CompletionPlan::Members(definition) = plan else { panic!("expected members") };
    assert_eq!(definition.name, "c");
    assert!(matches!(definition.kind, SymbolKind::Definition(TypeId(0))));
    let MemberPlan::Items(items) = member_plan(&index, definition) else { panic!("expected items") };
    let labels: Vec<(&str, CompletionItemKind)> = items.iter().map(|i| (i.label.as_str(), i.kind)).collect();
    assert_eq!(labels, vec![("tick", CompletionItemKind::Method), ("count", CompletionItemKind::Field)]);
    assert!(items.iter().all(|i| i.sort_text.is_none()));
}

#[test]
fn built_in_types_and_imports_are_left_to_the_caller() {
    let index = index_with_counter();
    assert!(matches!(member_plan(&index, &index.symbols[1]), MemberPlan::Prototype(BuiltIn::String)));
    match member_plan(&index, &index.symbols[4]) {
        MemberPlan::Import { name, source } => {
            assert_eq!(name, "lib");
            assert_eq!(source, "./lib");
        },
        _ => panic!("expected an import"),
    }
    let MemberPlan::Items(items) = member_plan(&index, &index.symbols[3]) else { panic!("expected items") };
    assert!(items.is_empty());
}

#[test]
fn elsewhere_the_visible_names_and_the_keywords_are_offered() {
    let index = index_with_counter();
    let candidates = vec![CompletionCandidate { completion_span: span(22, 23), object_span: span(20, 21) }];
    let CompletionPlan::Names { symbols, keywords } = completion_items(&index, &candidates, 40) else { panic!("expected names") };
    let names: Vec<(&str, CompletionItemKind, &str)> =
        symbols.iter().map(|i| (i.label.as_str(), i.kind, i.sort_text.as_deref().unwrap())).collect();
    assert_eq!(
        names,
        vec![
            ("c", CompletionItemKind::Variable, "0_c"),
            ("s", CompletionItemKind::Variable, "0_s"),
            ("main", CompletionItemKind::Function, "0_main"),
            ("lib", CompletionItemKind::Variable, "0_lib"),
        ]
    );
    assert!(keywords.iter().all(|k| k.kind == CompletionItemKind::Keyword));
    assert!(keywords.iter().any(|k| k.label == "fn" && k.sort_text.as_deref() == Some("2_fn")));
    assert!(keywords.iter().any(|k| k.label == "true"));
    assert!(!keywords.iter().any(|k| k.label == "("));
}

#[test]
fn a_candidate_whose_object_is_no_variable_offers_names() {
    let index = index_with_counter();
    let candidates = vec![CompletionCandidate { completion_span: span(32, 33), object_span: span(30, 31) }];
    assert!(matches!(completion_items(&index, &candidates, 32), CompletionPlan::Names { .. }));
}
