use nlf::errors::{ErrorKind, LoaderError, RuntimeError};
use nlf::numbers::{get_digits, remove_numbers};
use nlf::resolvers::{ModuleKind, ModuleResolver, StaticModuleResolver};
use nlf::types::{ClassType, DefaultType, FunctionType, Type, TypeArena, TypeId};
use std::path::PathBuf;

#[test]
fn numbers_split_into_letters_and_digits() {
    assert_eq!(remove_numbers("u64"), "u");
    assert_eq!(get_digits("u64"), "64");
    assert_eq!(remove_numbers("i128x"), "ix");
    assert_eq!(get_digits("abc"), "");
    let s = "f32ab7";
    assert_eq!(remove_numbers(s).len() + get_digits(s).len(), s.len());
}

#[test]
fn arena_hands_out_indices_in_order() {
    let mut arena: TypeArena<Type> = TypeArena::new();
    let a = arena.alloc_type(Type::Bool);
    let b = arena.alloc_type(Type::Number);
    assert_eq!((a, b), (TypeId(0), TypeId(1)));
    assert!(matches!(arena.get(b), Type::Number));
}

#[test]
fn defaults_are_registered_in_order() {
    let mut arena: TypeArena<Type> = TypeArena::new();
    arena.alloc_type(Type::Any);
    arena.register_defaults();
    assert_eq!(arena.get_default(DefaultType::String), TypeId(1));
    assert_eq!(arena.get_default(DefaultType::Unknown), TypeId(5));
    assert!(matches!(arena.get(arena.get_default(DefaultType::Number)), Type::Number));
}

#[test]
fn static_resolver_reads_registered_modules() {
    let r = StaticModuleResolver { modules: vec![("lib".to_string(), "export fn f() { }".to_string())] };
    let source = r.resolve_source("lib", None).unwrap();
    assert_eq!(source.path, "lib");
    assert_eq!(source.kind, ModuleKind::Standard);
    assert_eq!(r.read(&source).unwrap(), "export fn f() { }");
    let missing = r.resolve_source("other", None).unwrap();
    let e = r.read(&missing).unwrap_err();
    assert!(matches!(e.kind, ErrorKind::Loader(LoaderError::TODO)));
    assert_eq!(r.resolve_path(PathBuf::from("a/b"), &PathBuf::from(".")).unwrap(), PathBuf::from("a/b"));
}

#[test]
fn default_types_are_read_from_their_names() {
    assert_eq!(DefaultType::from_str("string").unwrap(), DefaultType::String);
    assert_eq!(DefaultType::from_str("number").unwrap(), DefaultType::Number);
    assert_eq!(DefaultType::from_str("bool").unwrap(), DefaultType::Bool);
    assert_eq!(DefaultType::from_str("unknown").unwrap(), DefaultType::Unknown);
    assert_eq!(DefaultType::from_str("any").unwrap(), DefaultType::Any);
    let e = DefaultType::from_str("Number").unwrap_err();
    assert!(e.source.is_none());
    assert!(matches!(e.kind, ErrorKind::Runtime(RuntimeError::Custom(ref m)) if m == "Failed to convert str to DefaultType"));
}

#[test]
fn types_are_written_as_in_the_source() {
    assert_eq!(Type::String.to_string(), "string");
    assert_eq!(Type::Any.to_string(), "any");
    assert_eq!(Type::Unknown.to_string(), "unknown");
    assert_eq!(Type::Array(Box::new(Type::Array(Box::new(Type::Number)))).to_string(), "number[][]");
    let object = Type::Object(vec![
        ("a".to_string(), Type::String),
        ("b".to_string(), Type::Array(Box::new(Type::Bool))),
    ]);
    assert_eq!(object.to_string(), "{ a: string, b: bool[] }");
    assert_eq!(Type::Object(vec![]).to_string(), "{  }");
    let class = ClassType { name: "A".to_string(), methods: vec![], fields: vec![] };
    assert_eq!(Type::Class(Box::new(class)).to_string(), "class A");
    let class = ClassType { name: "B".to_string(), methods: vec![], fields: vec![] };
    assert_eq!(Type::Instance { class: Box::new(class) }.to_string(), "B");
    let function = FunctionType { arguments: vec![], return_ty: TypeId(0) };
    assert_eq!(Type::Function(Box::new(function)).to_string(), "(not implemened) => still not implemented");
}

#[test]
fn runtime_errors_show_their_kind_and_message() {
    assert_eq!(RuntimeError::Custom("x".to_string()).to_string(), "[CustomError] x");
    assert_eq!(RuntimeError::InvalidType("t".to_string()).to_string(), "[InvalidType] t");
    assert_eq!(RuntimeError::VariableNotFound("v".to_string()).to_string(), "[VariableNotFound] v");
    assert_eq!(RuntimeError::NoSuchProperty("p".to_string()).to_string(), "[NoSuchProperty] p");
    assert_eq!(RuntimeError::OperationNotSupported("o".to_string()).to_string(), "[OperationNotSupported] o");
}
