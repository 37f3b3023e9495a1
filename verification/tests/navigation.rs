use nlf::analysis::{SymbolIndex, SymbolKind, TypedScopeBuilder};
use nlf::errors::Span;
use nlf::ast::{Argument, Identifier, Visibility};
use nlf::navigation::{definition_target, hover_plan, DefinitionTarget, HoverPlan};
use nlf::types::{ClassType, FieldType, FunctionType, Type, TypeArena, TypeId};

fn index() -> SymbolIndex {
    let mut b = TypedScopeBuilder::new(TypeArena::<Type>::new());
    b.define("x".to_string(), SymbolKind::Definition(TypeId(0)), Span { start: 4, end: 5 });
    b.define("lib".to_string(), SymbolKind::Import("./lib".to_string()), Span { start: 10, end: 13 });
    b.define("x".to_string(), SymbolKind::Variable, Span { start: 20, end: 21 });
    b.define("lib".to_string(), SymbolKind::Variable, Span { start: 30, end: 33 });
    b.define("y".to_string(), SymbolKind::Variable, Span { start: 40, end: 41 });
    SymbolIndex::from(b)
}

#[test]
fn a_used_variable_leads_to_its_definition() {
    let index = index();
    match definition_target(&index, 20) {
        DefinitionTarget::Here(d) => {
            assert_eq!(d.name, "x");
            assert_eq!(d.span, Span { start: 4, end: 5 });
        },
        _ => panic!("expected a local definition"),
    }
}

#[test]
fn an_imported_name_leads_to_its_module() {
    let index = index();
    match definition_target(&index, 31) {
        DefinitionTarget::Import { name, source } => {
            assert_eq!(name, "lib");
            assert_eq!(source, "./lib");
        },
        _ => panic!("expected an import"),
    }
}

#[test]
fn nothing_is_found_off_a_use_or_for_an_undefined_name() {
    let index = index();
    assert!(matches!(definition_target(&index, 4), DefinitionTarget::Nothing));
    assert!(matches!(definition_target(&index, 40), DefinitionTarget::Nothing));
    assert!(matches!(definition_target(&index, 50), DefinitionTarget::Nothing));
}

fn typed_index() -> SymbolIndex {
    let mut arena: TypeArena<Type> = TypeArena::new();
    let number = arena.alloc_type(Type::Number);
    let text = arena.alloc_type(Type::String);
    let class = ClassType {
        name: "Point".to_string(),
        methods: vec![(
            "move".to_string(),
            FunctionType {
                arguments: vec![Argument { variable: Identifier { value: "dx".to_string(), start: 0, end: 0 }, type_ref: None, ty: number }],
                return_ty: text,
            },
        )],
        fields: vec![FieldType { name: "x".to_string(), visibility: Visibility::Public, ty: number }],
    };
    let point = arena.alloc_type(Type::Instance { class: Box::new(class) });
    let mut b = TypedScopeBuilder::new(arena);
    b.define("p".to_string(), SymbolKind::Definition(point), Span { start: 0, end: 1 });
    b.define(
        "f".to_string(),
        SymbolKind::Function(FunctionType {
            arguments: vec![
                Argument { variable: Identifier { value: "a".to_string(), start: 0, end: 0 }, type_ref: None, ty: number },
                Argument { variable: Identifier { value: "b".to_string(), start: 0, end: 0 }, type_ref: None, ty: text },
            ],
            return_ty: number,
        }),
        Span { start: 2, end: 3 },
    );
    b.define("p".to_string(), SymbolKind::Variable, Span { start: 10, end: 11 });
    b.define("move".to_string(), SymbolKind::Property(10), Span { start: 12, end: 16 });
    b.define("x".to_string(), SymbolKind::Property(10), Span { start: 18, end: 19 });
    b.define("f".to_string(), SymbolKind::Variable, Span { start: 20, end: 21 });
    b.define("print".to_string(), SymbolKind::Variable, Span { start: 30, end: 35 });
    SymbolIndex::from(b)
}

fn text(plan: HoverPlan) -> String {
    match plan {
        HoverPlan::Text(t) => t,
        other => panic!("expected a text, got {:?}", other),
    }
}

#[test]
fn hovering_shows_definitions_and_signatures() {
    let index = typed_index();
    assert_eq!(text(hover_plan(&index, &index.symbols[0], 0)), "let p: Point");
    assert_eq!(text(hover_plan(&index, &index.symbols[2], 10)), "let p: Point");
    assert_eq!(text(hover_plan(&index, &index.symbols[5], 20)), "fn f(a: number, b: string): number");
}

#[test]
fn hovering_a_property_shows_the_member() {
    let index = typed_index();
    assert_eq!(text(hover_plan(&index, &index.symbols[3], 13)), "Point.move(dx: number): string");
    assert_eq!(text(hover_plan(&index, &index.symbols[4], 18)), "public x: number");
}

#[test]
fn an_undefined_variable_is_left_to_the_caller() {
    let index = typed_index();
    match hover_plan(&index, &index.symbols[6], 30) {
        HoverPlan::Undefined(name) => assert_eq!(name, "print"),
        other => panic!("expected an undefined name, got {:?}", other),
    }
}
