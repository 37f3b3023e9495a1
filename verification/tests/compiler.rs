use nlf::compiler::{Compiler, FunctionId, FunctionRef, Import, ImportKind, Op, UpvalueDescriptor, UpvalueSource, Value, values_equal};
use nlf::programs::run_imports_test_program;

fn jump_target(op: &Op) -> Option<usize> {
    match op {
        Op::Jump(t) | Op::JumpIfFalse(t) | Op::JumpIfTrue(t) => Some(*t),
        _ => None,
    }
}

#[test]
fn generated_labels_count_up() {
    let mut c = Compiler::new();
    assert_eq!(c.generate_label(), "0");
    assert_eq!(c.generate_label(), "1");
    assert_ne!(c.generate_label(), c.generate_label());
}

#[test]
fn jump_to_a_label_in_the_main_code_goes_where_it_was_placed() {
    let mut c = Compiler::new();
    c.emit(Op::Pop);
    c.label("top");
    c.emit(Op::Dup);
    c.jump("top");
    c.jump_if_false("end");
    c.label("end");
    c.emit(Op::Halt);
    let build = c.build();
    assert_eq!(build.operations.len(), 5);
    assert_eq!(jump_target(&build.operations[2]), Some(1));
    assert!(matches!(build.operations[2], Op::Jump(_)));
    assert!(matches!(build.operations[3], Op::JumpIfFalse(4)));
}

#[test]
fn labels_in_functions_move_with_the_function_code() {
    let mut c = Compiler::new();
    c.emit(Op::Halt);
    c.emit(Op::Halt);
    c.begin_function(vec![UpvalueDescriptor { source: UpvalueSource::Local, index: 0 }], 3);
    c.emit(Op::Pop);
    c.label("inner");
    c.jump_if_true("inner");
    let id = c.end_function();
    assert_eq!(id, 0);
    let build = c.build();
    assert_eq!(build.operations.len(), 4);
    assert!(matches!(build.operations[3], Op::JumpIfTrue(3)));
    assert_eq!(build.functions.len(), 1);
    assert_eq!(build.functions[0].code_offset, 2);
    assert_eq!(build.functions[0].local_count, 3);
    assert_eq!(build.functions[0].argument_count, 0);
    assert!(build.functions[0].module_id.is_none());
    assert_eq!(build.functions[0].upvalue_descriptors, vec![UpvalueDescriptor { source: UpvalueSource::Local, index: 0 }]);
}

#[test]
fn nested_functions_end_innermost_first() {
    let mut c = Compiler::new();
    c.begin_function(Vec::new(), 0);
    c.emit(Op::Add);
    c.begin_function(Vec::new(), 0);
    c.emit(Op::Sub);
    assert_eq!(c.end_function(), 1);
    c.emit(Op::Mul);
    assert_eq!(c.end_function(), 0);
    c.emit(Op::Halt);
    let build = c.build();
    assert!(matches!(build.operations[0], Op::Halt));
    assert!(matches!(build.operations[1], Op::Add));
    assert!(matches!(build.operations[2], Op::Mul));
    assert!(matches!(build.operations[3], Op::Sub));
    assert_eq!(build.functions[0].code_offset, 1);
    assert_eq!(build.functions[1].code_offset, 3);
}

#[test]
fn constants_are_interned() {
    let mut c = Compiler::new();
    let a = c.constant(Value::Int(7));
    let b = c.constant(Value::Float(1.5f64.to_bits()));
    let a2 = c.constant(Value::Int(7));
    assert_eq!((a, b, a2), (0, 1, 0));
    assert_eq!(c.consts.len(), 2);
}

#[test]
fn zero_floats_of_either_sign_are_one_constant() {
    let mut c = Compiler::new();
    let a = c.constant(Value::Float(0.0f64.to_bits()));
    let b = c.constant(Value::Float((-0.0f64).to_bits()));
    assert_eq!(a, b);
}

#[test]
fn a_nan_constant_is_never_found_again() {
    let mut c = Compiler::new();
    let a = c.constant(Value::Float(f64::NAN.to_bits()));
    let b = c.constant(Value::Float(f64::NAN.to_bits()));
    assert_ne!(a, b);
    assert!(!values_equal(&Value::Float(f64::NAN.to_bits()), &Value::Float(f64::NAN.to_bits())));
}

#[test]
fn values_of_different_variants_differ() {
    assert!(!values_equal(&Value::Int(1), &Value::Bool(true)));
    assert!(values_equal(&Value::Void, &Value::Void));
}

#[test]
fn strings_are_interned() {
    let mut c = Compiler::new();
    assert_eq!(c.pre_allocate_string("a".to_string()), 0);
    assert_eq!(c.pre_allocate_string("b".to_string()), 1);
    assert_eq!(c.pre_allocate_string("a".to_string()), 0);
    c.string_constant("b");
    let build = c.build();
    assert_eq!(build.strings, vec!["a".to_string(), "b".to_string()]);
    assert!(matches!(build.operations[0], Op::BuildString(1)));
}

#[test]
fn imports_are_numbered_in_order() {
    let mut c = Compiler::new();
    let first = c.register_import(Import { kind: ImportKind::Wildcard, source: "a".to_string() });
    let second = c.register_import(Import { kind: ImportKind::Specific(vec!["x".to_string()]), source: "b".to_string() });
    assert_eq!((first, second), (0, 1));
    assert_eq!(c.build().imports.len(), 2);
}

#[test]
fn a_relabelled_label_takes_its_last_place() {
    let mut c = Compiler::new();
    c.label("l");
    c.emit(Op::Pop);
    c.label("l");
    c.jump("l");
    let build = c.build();
    assert!(matches!(build.operations[1], Op::Jump(1)));
}

#[test]
fn closures_name_their_function() {
    let mut c = Compiler::new();
    c.emit(Op::MakeClosure(FunctionRef::Id(FunctionId(4))));
    let build = c.build();
    assert!(matches!(build.operations[0], Op::MakeClosure(FunctionRef::Id(FunctionId(4)))));
}

#[test]
fn imports_test_program_runs() {
    run_imports_test_program();
}
