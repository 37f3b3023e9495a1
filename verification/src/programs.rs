//! Small programs assembled by hand.
use vstd::prelude::*;
use crate::compiler::{Compiler, FunctionId, FunctionRef, ModuleData, Op, Value, code_len, final_labels, jump_label, lemma_open_function_none};

verus! {

/// Assembles a library module that exports a function adding its two
/// arguments, and a main module that imports it and calls it with 12 and 4.
pub fn run_imports_test_program() {
    let _lib = {
        let mut compiler = Compiler::new();
        compiler.begin_function(Vec::new(), 0);
        compiler.emit(Op::Load(1));
        compiler.emit(Op::Load(2));
        compiler.emit(Op::Add);
        compiler.emit(Op::Return);
        let function_id = compiler.end_function();
        proof {
            assert(compiler.functions@.len() == 1);
            assert(compiler.functions@[0].completed);
            lemma_open_function_none(compiler.functions@);
            assert(compiler.functions@[0].instructions@.len() == 4);
            assert(compiler.instructions@.len() == 0);
        }
        compiler.emit(Op::MakeClosure(FunctionRef::Id(FunctionId(function_id))));
        compiler.emit(Op::Store(0));
        proof {
            assert(compiler.instructions@.len() == 2);
            assert(compiler.functions@[0].instructions@.len() == 4);
            assert(code_len(compiler) == 6) by {
                reveal_with_fuel(crate::compiler::code_offset, 2);
            }
            assert(final_labels(compiler).len() == 0) by {
                reveal_with_fuel(crate::compiler::laid_out_labels, 2);
                reveal_with_fuel(crate::compiler::shift_all, 1);
            }
            assert forall|i: int| 0 <= i < compiler.instructions@.len() implies #[trigger] jump_label(compiler.instructions@[i]) is None by {}
            assert forall|k: int, i: int| 0 <= k < compiler.functions@.len() && 0 <= i < compiler.functions@[k].instructions@.len()
                implies #[trigger] jump_label(compiler.functions@[k].instructions@[i]) is None by {}
        }
        let build = compiler.build();
        let mut exports: Vec<(String, usize)> = Vec::new();
        exports.push(("add".to_owned(), 0));
        ModuleData {
            name: "lib".to_owned(),
            code: build.operations,
            constants: build.consts,
            strings: build.strings,
            exports,
            functions: build.functions,
            imports: Vec::new(),
        }
    };
    let _main = {
        let mut compiler = Compiler::new();
        let string_id = compiler.pre_allocate_string("lib".to_owned());
        compiler.emit(Op::Import(string_id));
        let a = compiler.constant(Value::Float(0x4028_0000_0000_0000));
        let b = compiler.constant(Value::Float(0x4010_0000_0000_0000));
        compiler.emit(Op::Const(a));
        compiler.emit(Op::Const(b));
        compiler.emit(Op::Call(2));
        proof {
            assert(code_len(compiler) == 4);
            assert(final_labels(compiler).len() == 0);
            assert forall|i: int| 0 <= i < compiler.instructions@.len() implies #[trigger] jump_label(compiler.instructions@[i]) is None by {}
        }
        let build = compiler.build();
        ModuleData {
            name: "lib".to_owned(),
            code: build.operations,
            constants: build.consts,
            strings: build.strings,
            exports: build.exports,
            functions: build.functions,
            imports: Vec::new(),
        }
    };
}

} // verus!
