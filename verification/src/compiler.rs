//! The bytecode assembler of the compiler. Operations go into the main code
//! or into the innermost unfinished function; labels are placed where code is
//! being emitted, constants and strings are interned, and `build` lays the
//! whole program out with every jump resolved to the position of its label.
use vstd::prelude::*;
use crate::entries::{distinct_keys, find_key, has_key, lemma_lookup_at, lemma_map_insert_distinct, lemma_map_insert_keeps, lookup, map_insert, map_insert_exec, pairs_view};
use crate::text::{decimal, lemma_decimal_injective, usize_to_string};

verus! {

/// The index of a function in the function table of a module.
#[derive(Debug, Clone, Copy, PartialEq, Eq, Structural)]
pub struct FunctionId(pub usize);

/// How a closure names the function it is made of.
#[derive(Debug)]
pub enum FunctionRef {
    Id(FunctionId),
    Name { module: String, name: String },
    Import(usize),
}

/// The operations of the virtual machine.
#[derive(Debug)]
pub enum Op {
    Const(usize),
    Pop,
    Store(usize),
    StoreCaptured(usize),
    Load(usize),
    StoreUpvalue(usize),
    LoadUpvalue(usize),
    Add,
    Sub,
    Mul,
    Div,
    Mod,
    Neg,
    EQ,
    NEQ,
    LT,
    LTE,
    GT,
    GTE,
    Not,
    Increment(usize),
    Length,
    Jump(usize),
    JumpIfFalse(usize),
    JumpIfTrue(usize),
    Call(usize),
    Return,
    MakeClosure(FunctionRef),
    BindSelf,
    BuildString(usize),
    BuildObject(usize),
    BuildArray(usize),
    BuildClass,
    ReadProperty,
    WriteProperty,
    Import(usize),
    LoadNative(usize),
    Dup,
    Halt,
}

impl Clone for FunctionRef {
    fn clone(&self) -> (r: Self)
        ensures
            r == *self,
    {
        match self {
            FunctionRef::Id(id) => FunctionRef::Id(*id),
            FunctionRef::Name { module, name } => FunctionRef::Name { module: module.clone(), name: name.clone() },
            FunctionRef::Import(i) => FunctionRef::Import(*i),
        }
    }
}

impl Clone for Op {
    fn clone(&self) -> (r: Self)
        ensures
            r == *self,
    {
        match self {
            Op::Const(x) => Op::Const(*x),
            Op::Pop => Op::Pop,
            Op::Store(x) => Op::Store(*x),
            Op::StoreCaptured(x) => Op::StoreCaptured(*x),
            Op::Load(x) => Op::Load(*x),
            Op::StoreUpvalue(x) => Op::StoreUpvalue(*x),
            Op::LoadUpvalue(x) => Op::LoadUpvalue(*x),
            Op::Add => Op::Add,
            Op::Sub => Op::Sub,
            Op::Mul => Op::Mul,
            Op::Div => Op::Div,
            Op::Mod => Op::Mod,
            Op::Neg => Op::Neg,
            Op::EQ => Op::EQ,
            Op::NEQ => Op::NEQ,
            Op::LT => Op::LT,
            Op::LTE => Op::LTE,
            Op::GT => Op::GT,
            Op::GTE => Op::GTE,
            Op::Not => Op::Not,
            Op::Increment(x) => Op::Increment(*x),
            Op::Length => Op::Length,
            Op::Jump(x) => Op::Jump(*x),
            Op::JumpIfFalse(x) => Op::JumpIfFalse(*x),
            Op::JumpIfTrue(x) => Op::JumpIfTrue(*x),
            Op::Call(x) => Op::Call(*x),
            Op::Return => Op::Return,
            Op::MakeClosure(f) => Op::MakeClosure(f.clone()),
            Op::BindSelf => Op::BindSelf,
            Op::BuildString(x) => Op::BuildString(*x),
            Op::BuildObject(x) => Op::BuildObject(*x),
            Op::BuildArray(x) => Op::BuildArray(*x),
            Op::BuildClass => Op::BuildClass,
            Op::ReadProperty => Op::ReadProperty,
            Op::WriteProperty => Op::WriteProperty,
            Op::Import(x) => Op::Import(*x),
            Op::LoadNative(x) => Op::LoadNative(*x),
            Op::Dup => Op::Dup,
            Op::Halt => Op::Halt,
        }
    }
}

/// A value of the virtual machine. A float is held as its IEEE 754 bit
/// pattern; the other variants that carry an index point into the heap.
#[derive(Debug, Clone, Copy)]
pub enum Value {
    String(usize),
    Float(u64),
    Int(u64),
    Bool(bool),
    Closure(usize),
    Native(usize),
    Object(usize),
    Array(usize),
    Class(usize),
    Void,
}

/// Whether the bit pattern of a float is a NaN.
pub open spec fn float_is_nan(bits: u64) -> bool {
    (bits >> 52u64) & 0x7ffu64 == 0x7ffu64 && bits & 0xf_ffff_ffff_ffffu64 != 0
}

/// Whether the bit pattern of a float is a zero, of either sign.
pub open spec fn float_is_zero(bits: u64) -> bool {
    bits & 0x7fff_ffff_ffff_ffffu64 == 0
}

/// IEEE 754 equality of two floats given by their bit patterns: a NaN equals
/// nothing, the two zeros are equal, and otherwise equal floats have equal bits.
pub open spec fn float_eq(a: u64, b: u64) -> bool {
    !float_is_nan(a) && !float_is_nan(b) && (a == b || (float_is_zero(a) && float_is_zero(b)))
}

/// Equality of values: the same variant with equal contents, floats by IEEE 754.
pub open spec fn value_eq(a: Value, b: Value) -> bool {
    match (a, b) {
        (Value::Float(x), Value::Float(y)) => float_eq(x, y),
        (Value::String(x), Value::String(y)) => x == y,
        (Value::Int(x), Value::Int(y)) => x == y,
        (Value::Bool(x), Value::Bool(y)) => x == y,
        (Value::Closure(x), Value::Closure(y)) => x == y,
        (Value::Native(x), Value::Native(y)) => x == y,
        (Value::Object(x), Value::Object(y)) => x == y,
        (Value::Array(x), Value::Array(y)) => x == y,
        (Value::Class(x), Value::Class(y)) => x == y,
        (Value::Void, Value::Void) => true,
        _ => false,
    }
}

/// Whether two values are equal (see `value_eq`).
pub fn values_equal(a: &Value, b: &Value) -> (r: bool)
    ensures
        r == value_eq(*a, *b),
{
    match (a, b) {
        (Value::Float(x), Value::Float(y)) => {
            let x = *x;
            let y = *y;
            let x_nan = (x >> 52u64) & 0x7ffu64 == 0x7ffu64 && x & 0xf_ffff_ffff_ffffu64 != 0;
            let y_nan = (y >> 52u64) & 0x7ffu64 == 0x7ffu64 && y & 0xf_ffff_ffff_ffffu64 != 0;
            let zeros = x & 0x7fff_ffff_ffff_ffffu64 == 0 && y & 0x7fff_ffff_ffff_ffffu64 == 0;
            !x_nan && !y_nan && (x == y || zeros)
        },
        (Value::String(x), Value::String(y)) => *x == *y,
        (Value::Int(x), Value::Int(y)) => *x == *y,
        (Value::Bool(x), Value::Bool(y)) => *x == *y,
        (Value::Closure(x), Value::Closure(y)) => *x == *y,
        (Value::Native(x), Value::Native(y)) => *x == *y,
        (Value::Object(x), Value::Object(y)) => *x == *y,
        (Value::Array(x), Value::Array(y)) => *x == *y,
        (Value::Class(x), Value::Class(y)) => *x == *y,
        (Value::Void, Value::Void) => true,
        _ => false,
    }
}

/// Where a closure finds a captured variable.
#[derive(Debug, Clone, Copy, PartialEq, Eq, Structural)]
pub enum UpvalueSource {
    Local,
    Upvalue,
}

/// A variable that a closure captures.
#[derive(Debug, Clone, Copy, PartialEq, Eq, Structural)]
pub struct UpvalueDescriptor {
    pub source: UpvalueSource,
    pub index: usize,
}

/// A function of a built module: where its code starts and what it needs.
#[derive(Debug)]
pub struct Function {
    pub module_id: Option<usize>,
    pub argument_count: usize,
    pub local_count: usize,
    pub code_offset: usize,
    pub upvalue_descriptors: Vec<UpvalueDescriptor>,
}

/// What an import statement takes from a module.
#[derive(Debug)]
pub enum ImportKind {
    Wildcard,
    Specific(Vec<String>),
}

/// An import of a module.
#[derive(Debug)]
pub struct Import {
    pub kind: ImportKind,
    pub source: String,
}

/// A jump whose target is a label not yet resolved.
#[derive(Debug)]
pub enum UnresolvedOp {
    Jump(String),
    JumpIfFalse(String),
    JumpIfTrue(String),
}

/// An emitted instruction: an operation, or a jump to a label.
#[derive(Debug)]
pub enum Instruction {
    Resolved(Op),
    Unresolved(UnresolvedOp),
}

/// A function under construction: its code, whether it is finished, and the
/// labels placed in it.
#[derive(Debug)]
pub struct AbstractFunction {
    pub instructions: Vec<Instruction>,
    pub completed: bool,
    pub upvalue_descriptors: Vec<UpvalueDescriptor>,
    pub labels: Vec<String>,
    pub argument_count: usize,
    pub local_count: usize,
}

/// The laid-out program of a module.
#[derive(Debug)]
pub struct CompilerBuild {
    pub operations: Vec<Op>,
    pub consts: Vec<Value>,
    pub functions: Vec<Function>,
    pub strings: Vec<String>,
    pub exports: Vec<(String, usize)>,
    pub imports: Vec<Import>,
}

/// A module ready to run: its code, constants, strings, functions, exports
/// and imports.
#[derive(Debug)]
pub struct ModuleData {
    pub name: String,
    pub code: Vec<Op>,
    pub constants: Vec<Value>,
    pub strings: Vec<String>,
    pub functions: Vec<Function>,
    pub exports: Vec<(String, usize)>,
    pub imports: Vec<Import>,
}

/// The state of the assembler. `labels` maps each label to its position in
/// the code it was placed in (the main code or a function).
#[derive(Debug)]
pub struct Compiler {
    pub labels: Vec<(String, usize)>,
    pub instructions: Vec<Instruction>,
    pub consts: Vec<Value>,
    pub functions: Vec<AbstractFunction>,
    pub label_id: usize,
    pub strings: Vec<String>,
    pub exports: Vec<(String, usize)>,
    pub imports: Vec<Import>,
}

// ---------------------------------------------------------------------
// The model.

/// The innermost unfinished function: the last one not completed.
pub open spec fn open_function(fs: Seq<AbstractFunction>) -> Option<int>
    decreases fs.len(),
{
    if fs.len() == 0 {
        None
    } else if !fs.last().completed {
        Some(fs.len() - 1)
    } else {
        open_function(fs.drop_last())
    }
}

pub proof fn lemma_open_function(fs: Seq<AbstractFunction>)
    ensures
        open_function(fs) matches Some(k) ==> 0 <= k < fs.len() && !fs[k].completed
            && forall|j: int| k < j < fs.len() ==> #[trigger] fs[j].completed,
        open_function(fs) is None ==> forall|j: int| 0 <= j < fs.len() ==> #[trigger] fs[j].completed,
    decreases fs.len(),
{
    if fs.len() > 0 && fs.last().completed {
        lemma_open_function(fs.drop_last());
        assert forall|j: int| 0 <= j < fs.len() - 1 implies fs[j] == fs.drop_last()[j] by {}
    }
}

/// The names of a sequence of strings.
pub open spec fn names_view(v: Seq<String>) -> Seq<Seq<char>> {
    v.map_values(|s: String| s@)
}

/// The strings are pairwise different.
pub open spec fn distinct_strings(v: Seq<String>) -> bool {
    forall|i: int, j: int| 0 <= i < j < v.len() ==> v[i]@ != v[j]@
}

impl Compiler {
    /// The labels and their positions.
    pub open spec fn label_map(&self) -> Seq<(Seq<char>, usize)> {
        pairs_view(self.labels@)
    }

    /// The invariant of the assembler: labels are bound once each, every label
    /// placed in a function is bound, and the interned strings are distinct.
    pub open spec fn wf(&self) -> bool {
        &&& distinct_keys(self.label_map())
        &&& forall|k: int, j: int|
            0 <= k < self.functions@.len() && 0 <= j < self.functions@[k].labels@.len()
                ==> has_key(self.label_map(), #[trigger] self.functions@[k].labels@[j]@)
        &&& distinct_strings(self.strings@)
    }
}

/// Function `k` is the innermost unfinished one when it is unfinished and
/// every later one is finished.
pub proof fn lemma_open_function_at(fs: Seq<AbstractFunction>, k: int)
    requires
        0 <= k < fs.len(),
        !fs[k].completed,
        forall|j: int| k < j < fs.len() ==> #[trigger] fs[j].completed,
    ensures
        open_function(fs) == Some(k),
    decreases fs.len(),
{
    if k < fs.len() - 1 {
        assert(fs.last().completed);
        assert forall|j: int| k < j < fs.len() - 1 implies #[trigger] fs.drop_last()[j].completed by {
            assert(fs.drop_last()[j] == fs[j]);
        }
        lemma_open_function_at(fs.drop_last(), k);
    }
}

/// With every function finished there is no innermost unfinished one.
pub proof fn lemma_open_function_none(fs: Seq<AbstractFunction>)
    requires
        forall|j: int| 0 <= j < fs.len() ==> #[trigger] fs[j].completed,
    ensures
        open_function(fs) is None,
    decreases fs.len(),
{
    if fs.len() > 0 {
        assert(fs.last().completed);
        assert forall|j: int| 0 <= j < fs.len() - 1 implies #[trigger] fs.drop_last()[j].completed by {
            assert(fs.drop_last()[j] == fs[j]);
        }
        lemma_open_function_none(fs.drop_last());
    }
}

/// The first constant equal to `v`, if any.
pub open spec fn find_const(consts: Seq<Value>, v: Value) -> Option<int> {
    if exists|i: int| 0 <= i < consts.len() && value_eq(v, consts[i]) {
        Some(choose|i: int| 0 <= i < consts.len() && value_eq(v, consts[i]) && forall|j: int| 0 <= j < i ==> !value_eq(v, consts[j]))
    } else {
        None
    }
}

/// The index of the string `s`, if it is interned.
pub open spec fn find_string(strings: Seq<String>, s: Seq<char>) -> Option<int> {
    if exists|i: int| 0 <= i < strings.len() && strings[i]@ == s {
        Some(choose|i: int| 0 <= i < strings.len() && strings[i]@ == s)
    } else {
        None
    }
}

/// `new` differs from `old` at most in its labels, code and functions.
pub open spec fn same_tables(old: Compiler, new: Compiler) -> bool {
    &&& new.consts == old.consts
    &&& new.strings == old.strings
    &&& new.label_id == old.label_id
    &&& new.exports == old.exports
    &&& new.imports == old.imports
}

/// Function `k` of `new` is that of `old` with other code or labels.
pub open spec fn same_function_but_code(old: AbstractFunction, new: AbstractFunction) -> bool {
    &&& new.completed == old.completed
    &&& new.upvalue_descriptors == old.upvalue_descriptors
    &&& new.argument_count == old.argument_count
    &&& new.local_count == old.local_count
}

/// `new` is `old` with the instruction `i` appended to the code being emitted:
/// that of the innermost unfinished function, or else the main code.
pub open spec fn emitted(old: Compiler, new: Compiler, i: Instruction) -> bool {
    &&& same_tables(old, new)
    &&& new.labels == old.labels
    &&& match open_function(old.functions@) {
        Some(k) => {
            &&& new.instructions == old.instructions
            &&& new.functions@.len() == old.functions@.len()
            &&& forall|j: int| 0 <= j < old.functions@.len() && j != k ==> new.functions@[j] == old.functions@[j]
            &&& new.functions@[k].instructions@ == old.functions@[k].instructions@.push(i)
            &&& new.functions@[k].labels == old.functions@[k].labels
            &&& same_function_but_code(old.functions@[k], new.functions@[k])
        },
        None => {
            &&& new.instructions@ == old.instructions@.push(i)
            &&& new.functions == old.functions
        },
    }
}

/// `new` is `old` with the label `name` placed at the end of the code being
/// emitted; a label placed in a function is also recorded in that function.
pub open spec fn labelled(old: Compiler, new: Compiler, name: Seq<char>) -> bool {
    &&& same_tables(old, new)
    &&& new.instructions == old.instructions
    &&& match open_function(old.functions@) {
        Some(k) => {
            &&& new.label_map() == map_insert(old.label_map(), name, old.functions@[k].instructions@.len() as usize)
            &&& new.functions@.len() == old.functions@.len()
            &&& forall|j: int| 0 <= j < old.functions@.len() && j != k ==> new.functions@[j] == old.functions@[j]
            &&& names_view(new.functions@[k].labels@) == names_view(old.functions@[k].labels@).push(name)
            &&& new.functions@[k].instructions == old.functions@[k].instructions
            &&& same_function_but_code(old.functions@[k], new.functions@[k])
        },
        None => {
            &&& new.label_map() == map_insert(old.label_map(), name, old.instructions@.len() as usize)
            &&& new.functions == old.functions
        },
    }
}

impl Compiler {
    /// An empty assembler.
    pub fn new() -> (r: Compiler)
        ensures
            r.wf(),
            r.labels@.len() == 0,
            r.instructions@.len() == 0,
            r.consts@.len() == 0,
            r.functions@.len() == 0,
            r.label_id == 0,
            r.strings@.len() == 0,
            r.exports@.len() == 0,
            r.imports@.len() == 0,
    {
        Compiler {
            labels: Vec::new(),
            instructions: Vec::new(),
            consts: Vec::new(),
            functions: Vec::new(),
            label_id: 0,
            strings: Vec::new(),
            exports: Vec::new(),
            imports: Vec::new(),
        }
    }

    /// The index of the innermost unfinished function, if any.
    fn open_function_index(&self) -> (r: Option<usize>)
        ensures
            r matches Some(k) ==> open_function(self.functions@) == Some(k as int),
            r is None ==> open_function(self.functions@) is None,
    {
        let mut i = self.functions.len();
        while i > 0
            invariant
                i <= self.functions@.len(),
                forall|j: int| i <= j < self.functions@.len() ==> #[trigger] self.functions@[j].completed,
            decreases i,
        {
            if !self.functions[i - 1].completed {
                proof {
                    lemma_open_function_at(self.functions@, i - 1);
                }
                return Some(i - 1);
            }
            i -= 1;
        }
        proof {
            lemma_open_function_none(self.functions@);
        }
        None
    }

    /// Places the label `name` at the end of the code being emitted.
    pub fn label(&mut self, name: &str)
        requires
            old(self).wf(),
        ensures
            final(self).wf(),
            labelled(*old(self), *final(self), name@),
    {
        let ghost old_map = self.label_map();
        match self.open_function_index() {
            Some(k) => {
                proof {
                    lemma_open_function(self.functions@);
                }
                let mut f = self.functions.remove(k);
                let position = f.instructions.len();
                let ghost old_names = names_view(f.labels@);
                f.labels.push(name.to_owned());
                proof {
                    assert(names_view(f.labels@) =~= old_names.push(name@));
                }
                self.functions.insert(k, f);
                map_insert_exec(&mut self.labels, name.to_owned(), position);
                proof {
                    assert forall|i: int| 0 <= i < old_map.len() implies has_key(self.label_map(), #[trigger] old_map[i].0) by {
                        lemma_map_insert_keeps(old_map, name@, position, old_map[i].0);
                    }
                    lemma_map_insert_keeps(old_map, name@, position, name@);
                    assert forall|kk: int, j: int|
                        0 <= kk < self.functions@.len() && 0 <= j < self.functions@[kk].labels@.len()
                            implies has_key(self.label_map(), #[trigger] self.functions@[kk].labels@[j]@) by {
                        if kk == k as int && j == self.functions@[kk].labels@.len() - 1 {
                            assert(names_view(self.functions@[kk].labels@)[j] == name@);
                        } else if kk == k as int {
                            assert(names_view(self.functions@[kk].labels@)[j] == old_names[j]);
                            lemma_map_insert_keeps(old_map, name@, position, self.functions@[kk].labels@[j]@);
                        } else {
                            lemma_map_insert_keeps(old_map, name@, position, self.functions@[kk].labels@[j]@);
                        }
                    }
                }
            },
            None => {
                let position = self.instructions.len();
                map_insert_exec(&mut self.labels, name.to_owned(), position);
                proof {
                    assert forall|kk: int, j: int|
                        0 <= kk < self.functions@.len() && 0 <= j < self.functions@[kk].labels@.len()
                            implies has_key(self.label_map(), #[trigger] self.functions@[kk].labels@[j]@) by {
                        lemma_map_insert_keeps(old_map, name@, position, self.functions@[kk].labels@[j]@);
                    }
                }
            },
        }
    }

    /// A fresh label name: the decimal form of a counter.
    pub fn generate_label(&mut self) -> (r: String)
        requires
            old(self).label_id < usize::MAX,
        ensures
            r@ == decimal(old(self).label_id as nat),
            final(self).label_id == old(self).label_id + 1,
            final(self).labels == old(self).labels,
            final(self).instructions == old(self).instructions,
            final(self).functions == old(self).functions,
            final(self).consts == old(self).consts,
            final(self).strings == old(self).strings,
            final(self).exports == old(self).exports,
            final(self).imports == old(self).imports,
    {
        let name = usize_to_string(self.label_id);
        self.label_id = self.label_id + 1;
        name
    }

    /// Appends `instruction` to the code being emitted.
    fn emit_instruction(&mut self, instruction: Instruction)
        requires
            old(self).wf(),
        ensures
            final(self).wf(),
            emitted(*old(self), *final(self), instruction),
    {
        match self.open_function_index() {
            Some(k) => {
                proof {
                    lemma_open_function(self.functions@);
                }
                let mut f = self.functions.remove(k);
                f.instructions.push(instruction);
                self.functions.insert(k, f);
                proof {
                    assert forall|kk: int, j: int|
                        0 <= kk < self.functions@.len() && 0 <= j < self.functions@[kk].labels@.len()
                            implies has_key(self.label_map(), #[trigger] self.functions@[kk].labels@[j]@) by {
                        assert(self.functions@[kk].labels == old(self).functions@[kk].labels);
                    }
                }
            },
            None => {
                self.instructions.push(instruction);
            },
        }
    }

    /// Emits the operation `op`.
    pub fn emit(&mut self, op: Op)
        requires
            old(self).wf(),
        ensures
            final(self).wf(),
            emitted(*old(self), *final(self), Instruction::Resolved(op)),
    {
        self.emit_instruction(Instruction::Resolved(op));
    }

    /// Emits a jump to the label `label`.
    pub fn jump(&mut self, label: &str)
        requires
            old(self).wf(),
        ensures
            final(self).wf(),
            exists|s: String| s@ == label@ && emitted(*old(self), *final(self), Instruction::Unresolved(UnresolvedOp::Jump(s))),
    {
        let s = label.to_owned();
        let ghost g = s;
        self.emit_instruction(Instruction::Unresolved(UnresolvedOp::Jump(s)));
        assert(g@ == label@ && emitted(*old(self), *self, Instruction::Unresolved(UnresolvedOp::Jump(g))));
    }

    /// Emits a jump to the label `label` taken when the popped value is false.
    pub fn jump_if_false(&mut self, label: &str)
        requires
            old(self).wf(),
        ensures
            final(self).wf(),
            exists|s: String| s@ == label@ && emitted(*old(self), *final(self), Instruction::Unresolved(UnresolvedOp::JumpIfFalse(s))),
    {
        let s = label.to_owned();
        let ghost g = s;
        self.emit_instruction(Instruction::Unresolved(UnresolvedOp::JumpIfFalse(s)));
        assert(g@ == label@ && emitted(*old(self), *self, Instruction::Unresolved(UnresolvedOp::JumpIfFalse(g))));
    }

    /// Emits a jump to the label `label` taken when the popped value is true.
    pub fn jump_if_true(&mut self, label: &str)
        requires
            old(self).wf(),
        ensures
            final(self).wf(),
            exists|s: String| s@ == label@ && emitted(*old(self), *final(self), Instruction::Unresolved(UnresolvedOp::JumpIfTrue(s))),
    {
        let s = label.to_owned();
        let ghost g = s;
        self.emit_instruction(Instruction::Unresolved(UnresolvedOp::JumpIfTrue(s)));
        assert(g@ == label@ && emitted(*old(self), *self, Instruction::Unresolved(UnresolvedOp::JumpIfTrue(g))));
    }

    /// Starts the function `f`: code is emitted into it until it is ended.
    pub fn begin_function_with(&mut self, f: AbstractFunction)
        requires
            old(self).wf(),
            forall|j: int| 0 <= j < f.labels@.len() ==> has_key(old(self).label_map(), #[trigger] f.labels@[j]@),
        ensures
            final(self).wf(),
            final(self).functions@ == old(self).functions@.push(f),
            final(self).labels == old(self).labels,
            final(self).instructions == old(self).instructions,
            same_tables(*old(self), *final(self)),
    {
        self.functions.push(f);
        proof {
            assert forall|kk: int, j: int|
                0 <= kk < self.functions@.len() && 0 <= j < self.functions@[kk].labels@.len()
                    implies has_key(self.label_map(), #[trigger] self.functions@[kk].labels@[j]@) by {
                if kk < old(self).functions@.len() {
                    assert(self.functions@[kk] == old(self).functions@[kk]);
                }
            }
        }
    }

    /// Starts a new, empty function with the given captured variables and
    /// number of locals.
    pub fn begin_function(&mut self, upvalue_descriptors: Vec<UpvalueDescriptor>, local_count: usize)
        requires
            old(self).wf(),
        ensures
            final(self).wf(),
            final(self).functions@.len() == old(self).functions@.len() + 1,
            forall|j: int| 0 <= j < old(self).functions@.len() ==> final(self).functions@[j] == old(self).functions@[j],
            final(self).functions@.last().instructions@.len() == 0,
            final(self).functions@.last().labels@.len() == 0,
            !final(self).functions@.last().completed,
            final(self).functions@.last().upvalue_descriptors == upvalue_descriptors,
            final(self).functions@.last().argument_count == 0,
            final(self).functions@.last().local_count == local_count,
            open_function(final(self).functions@) == Some(old(self).functions@.len() as int),
            final(self).labels == old(self).labels,
            final(self).instructions == old(self).instructions,
            same_tables(*old(self), *final(self)),
    {
        let f = AbstractFunction {
            instructions: Vec::new(),
            completed: false,
            upvalue_descriptors,
            labels: Vec::new(),
            argument_count: 0,
            local_count,
        };
        self.begin_function_with(f);
        proof {
            lemma_open_function_at(self.functions@, old(self).functions@.len() as int);
        }
    }

    /// Finishes the innermost unfinished function and returns its index.
    pub fn end_function(&mut self) -> (r: usize)
        requires
            old(self).wf(),
            open_function(old(self).functions@) is Some,
        ensures
            final(self).wf(),
            Some(r as int) == open_function(old(self).functions@),
            final(self).functions@.len() == old(self).functions@.len(),
            forall|j: int| 0 <= j < old(self).functions@.len() && j != r ==> final(self).functions@[j] == old(self).functions@[j],
            final(self).functions@[r as int].completed,
            final(self).functions@[r as int].instructions == old(self).functions@[r as int].instructions,
            final(self).functions@[r as int].labels == old(self).functions@[r as int].labels,
            final(self).functions@[r as int].upvalue_descriptors == old(self).functions@[r as int].upvalue_descriptors,
            final(self).functions@[r as int].argument_count == old(self).functions@[r as int].argument_count,
            final(self).functions@[r as int].local_count == old(self).functions@[r as int].local_count,
            final(self).labels == old(self).labels,
            final(self).instructions == old(self).instructions,
            same_tables(*old(self), *final(self)),
    {
        let k = match self.open_function_index() {
            Some(k) => k,
            None => {
                proof {
                    assert(false);
                }
                0
            },
        };
        proof {
            lemma_open_function(self.functions@);
        }
        let mut f = self.functions.remove(k);
        f.completed = true;
        self.functions.insert(k, f);
        proof {
            assert forall|kk: int, j: int|
                0 <= kk < self.functions@.len() && 0 <= j < self.functions@[kk].labels@.len()
                    implies has_key(self.label_map(), #[trigger] self.functions@[kk].labels@[j]@) by {
                assert(self.functions@[kk].labels == old(self).functions@[kk].labels);
            }
        }
        k
    }

    /// Records an import and returns its index.
    pub fn register_import(&mut self, import: Import) -> (r: usize)
        ensures
            r == old(self).imports@.len(),
            final(self).imports@ == old(self).imports@.push(import),
            final(self).labels == old(self).labels,
            final(self).instructions == old(self).instructions,
            final(self).functions == old(self).functions,
            final(self).consts == old(self).consts,
            final(self).strings == old(self).strings,
            final(self).label_id == old(self).label_id,
            final(self).exports == old(self).exports,
    {
        let id = self.imports.len();
        self.imports.push(import);
        id
    }

    /// Interns `string` and returns its index: the index it already has, or
    /// the next one.
    #[verifier::loop_isolation(false)]
    pub fn pre_allocate_string(&mut self, string: String) -> (r: usize)
        requires
            old(self).wf(),
        ensures
            final(self).wf(),
            match find_string(old(self).strings@, string@) {
                Some(i) => r == i && final(self).strings == old(self).strings,
                None => r == old(self).strings@.len() && final(self).strings@ == old(self).strings@.push(string),
            },
            r < final(self).strings@.len(),
            final(self).strings@[r as int]@ == string@,
            final(self).labels == old(self).labels,
            final(self).instructions == old(self).instructions,
            final(self).functions == old(self).functions,
            final(self).consts == old(self).consts,
            final(self).label_id == old(self).label_id,
            final(self).exports == old(self).exports,
            final(self).imports == old(self).imports,
    {
        let mut i: usize = 0;
        while i < self.strings.len()
            invariant
                i <= self.strings@.len(),
                forall|j: int| 0 <= j < i ==> self.strings@[j]@ != string@,
            decreases self.strings.len() - i,
        {
            if self.strings[i] == string {
                proof {
                    let w = choose|w: int| 0 <= w < self.strings@.len() && self.strings@[w]@ == string@;
                    assert(w == i);
                }
                return i;
            }
            i += 1;
        }
        let id = self.strings.len();
        self.strings.push(string);
        id
    }

    /// Emits an operation that builds the string `string`, interning it.
    pub fn string_constant(&mut self, string: &str)
        requires
            old(self).wf(),
        ensures
            final(self).wf(),
            exists|c: Compiler, i: usize|
                c.strings@.len() > i && c.strings@[i as int]@ == string@
                && final(self).strings == c.strings
                && emitted(c, *final(self), Instruction::Resolved(Op::BuildString(i))),
    {
        let string_id = self.pre_allocate_string(string.to_owned());
        let ghost c = *self;
        self.emit(Op::BuildString(string_id));
        assert(c.strings@.len() > string_id && c.strings@[string_id as int]@ == string@ && self.strings == c.strings
            && emitted(c, *self, Instruction::Resolved(Op::BuildString(string_id))));
    }

    /// The index of a constant equal to `value` (see `value_eq`): the first
    /// such one, or a new one.
    #[verifier::loop_isolation(false)]
    pub fn constant(&mut self, value: Value) -> (r: usize)
        ensures
            match find_const(old(self).consts@, value) {
                Some(i) => r == i && final(self).consts == old(self).consts,
                None => r == old(self).consts@.len() && final(self).consts@ == old(self).consts@.push(value),
            },
            final(self).labels == old(self).labels,
            final(self).instructions == old(self).instructions,
            final(self).functions == old(self).functions,
            final(self).strings == old(self).strings,
            final(self).label_id == old(self).label_id,
            final(self).exports == old(self).exports,
            final(self).imports == old(self).imports,
    {
        let mut i: usize = 0;
        while i < self.consts.len()
            invariant
                i <= self.consts@.len(),
                forall|j: int| 0 <= j < i ==> !value_eq(value, self.consts@[j]),
            decreases self.consts.len() - i,
        {
            if values_equal(&value, &self.consts[i]) {
                proof {
                    let w = choose|w: int| 0 <= w < self.consts@.len() && value_eq(value, self.consts@[w])
                        && forall|j: int| 0 <= j < w ==> !value_eq(value, self.consts@[j]);
                    assert(w == i);
                }
                return i;
            }
            i += 1;
        }
        self.consts.push(value);
        self.consts.len() - 1
    }
}

// ---------------------------------------------------------------------
// Laying the program out.

/// Where the code of function `k` starts in the laid-out program: after the
/// main code and the code of the functions before it.
pub open spec fn code_offset(c: Compiler, k: int) -> int
    decreases k,
{
    if k <= 0 {
        c.instructions@.len() as int
    } else {
        code_offset(c, k - 1) + c.functions@[k - 1].instructions@.len()
    }
}

/// The length of the laid-out program.
pub open spec fn code_len(c: Compiler) -> int {
    code_offset(c, c.functions@.len() as int)
}

/// Label positions as integers.
pub open spec fn label_positions(m: Seq<(Seq<char>, usize)>) -> Seq<(Seq<char>, int)> {
    Seq::new(m.len(), |i: int| (m[i].0, m[i].1 as int))
}

/// `m` with the position of label `name` moved on by `d`.
pub open spec fn shift(m: Seq<(Seq<char>, int)>, name: Seq<char>, d: int) -> Seq<(Seq<char>, int)> {
    Seq::new(m.len(), |i: int| if m[i].0 == name { (m[i].0, m[i].1 + d) } else { m[i] })
}

/// `m` with the position of each of `names` moved on by `d`, once per occurrence.
pub open spec fn shift_all(m: Seq<(Seq<char>, int)>, names: Seq<Seq<char>>, d: int) -> Seq<(Seq<char>, int)>
    decreases names.len(),
{
    if names.len() == 0 {
        m
    } else {
        shift(shift_all(m, names.drop_last(), d), names.last(), d)
    }
}

/// The label positions once the labels of the first `k` functions are moved
/// to where their function's code is laid out.
pub open spec fn laid_out_labels(c: Compiler, k: int) -> Seq<(Seq<char>, int)>
    decreases k,
{
    if k <= 0 {
        label_positions(c.label_map())
    } else {
        shift_all(laid_out_labels(c, k - 1), names_view(c.functions@[k - 1].labels@), code_offset(c, k - 1))
    }
}

/// The label positions in the laid-out program.
pub open spec fn final_labels(c: Compiler) -> Seq<(Seq<char>, int)> {
    laid_out_labels(c, c.functions@.len() as int)
}

/// The position a jump to `name` goes to.
pub open spec fn target(m: Seq<(Seq<char>, int)>, name: Seq<char>) -> usize {
    (lookup(m, name)->0) as usize
}

/// The label an instruction jumps to, if it is a jump.
pub open spec fn jump_label(i: Instruction) -> Option<Seq<char>> {
    match i {
        Instruction::Unresolved(UnresolvedOp::Jump(l)) => Some(l@),
        Instruction::Unresolved(UnresolvedOp::JumpIfFalse(l)) => Some(l@),
        Instruction::Unresolved(UnresolvedOp::JumpIfTrue(l)) => Some(l@),
        Instruction::Resolved(_) => None,
    }
}

/// The operation an instruction becomes with the label positions `m`.
pub open spec fn resolve(i: Instruction, m: Seq<(Seq<char>, int)>) -> Op {
    match i {
        Instruction::Resolved(op) => op,
        Instruction::Unresolved(UnresolvedOp::Jump(l)) => Op::Jump(target(m, l@)),
        Instruction::Unresolved(UnresolvedOp::JumpIfFalse(l)) => Op::JumpIfFalse(target(m, l@)),
        Instruction::Unresolved(UnresolvedOp::JumpIfTrue(l)) => Op::JumpIfTrue(target(m, l@)),
    }
}

/// What `build` needs: every jump goes to a placed label, and the program
/// and its label positions fit in a `usize`.
pub open spec fn can_build(c: Compiler) -> bool {
    &&& c.wf()
    &&& code_len(c) <= usize::MAX
    &&& forall|i: int| 0 <= i < final_labels(c).len() ==> #[trigger] final_labels(c)[i].1 <= usize::MAX
    &&& forall|i: int| 0 <= i < c.instructions@.len()
        ==> (#[trigger] jump_label(c.instructions@[i]) matches Some(l) ==> has_key(c.label_map(), l))
    &&& forall|k: int, i: int|
        0 <= k < c.functions@.len() && 0 <= i < c.functions@[k].instructions@.len()
            ==> (#[trigger] jump_label(c.functions@[k].instructions@[i]) matches Some(l) ==> has_key(c.label_map(), l))
}

pub proof fn lemma_shift_all_keys(m: Seq<(Seq<char>, int)>, names: Seq<Seq<char>>, d: int)
    ensures
        shift_all(m, names, d).len() == m.len(),
        forall|i: int| 0 <= i < m.len() ==> #[trigger] shift_all(m, names, d)[i].0 == m[i].0,
        d >= 0 ==> forall|i: int| 0 <= i < m.len() ==> #[trigger] shift_all(m, names, d)[i].1 >= m[i].1,
    decreases names.len(),
{
    if names.len() > 0 {
        lemma_shift_all_keys(m, names.drop_last(), d);
    }
}

/// Moving by the labels of a prefix of `names` moves no further than by all of them.
pub proof fn lemma_shift_all_prefix(m: Seq<(Seq<char>, int)>, names: Seq<Seq<char>>, d: int, j: int)
    requires
        0 <= j <= names.len(),
        d >= 0,
    ensures
        shift_all(m, names.take(j), d).len() == m.len(),
        forall|i: int| 0 <= i < m.len() ==> #[trigger] shift_all(m, names.take(j), d)[i].1 <= shift_all(m, names, d)[i].1,
    decreases names.len() - j,
{
    lemma_shift_all_keys(m, names.take(j), d);
    if j < names.len() {
        lemma_shift_all_prefix(m, names, d, j + 1);
        assert(names.take(j + 1).drop_last() =~= names.take(j));
        assert(names.take(j + 1).last() == names[j]);
        assert(shift_all(m, names.take(j + 1), d) == shift(shift_all(m, names.take(j), d), names[j], d));
        assert forall|i: int| 0 <= i < m.len() implies #[trigger] shift_all(m, names.take(j), d)[i].1 <= shift_all(m, names, d)[i].1 by {
            assert(shift_all(m, names.take(j), d)[i].1 <= shift_all(m, names.take(j + 1), d)[i].1);
        }
    } else {
        assert(names.take(j) =~= names);
    }
}

pub proof fn lemma_code_offset_ge(c: Compiler, k: int)
    ensures
        code_offset(c, k) >= c.instructions@.len(),
    decreases k,
{
    if k > 0 {
        lemma_code_offset_ge(c, k - 1);
    }
}

pub proof fn lemma_code_offset_mono(c: Compiler, k: int, k2: int)
    requires
        0 <= k <= k2,
    ensures
        c.instructions@.len() <= code_offset(c, k) <= code_offset(c, k2),
    decreases k2 - k,
{
    lemma_code_offset_ge(c, k);
    if k < k2 {
        lemma_code_offset_mono(c, k, k2 - 1);
    }
}

pub proof fn lemma_laid_out_keys(c: Compiler, k: int)
    ensures
        laid_out_labels(c, k).len() == c.labels@.len(),
        forall|i: int| 0 <= i < c.labels@.len() ==> #[trigger] laid_out_labels(c, k)[i].0 == c.label_map()[i].0,
    decreases k,
{
    if k > 0 {
        lemma_laid_out_keys(c, k - 1);
        lemma_shift_all_keys(laid_out_labels(c, k - 1), names_view(c.functions@[k - 1].labels@), code_offset(c, k - 1));
    }
}

pub proof fn lemma_laid_out_mono(c: Compiler, k: int, k2: int)
    requires
        0 <= k <= k2,
    ensures
        laid_out_labels(c, k2).len() == c.labels@.len(),
        laid_out_labels(c, k).len() == c.labels@.len(),
        forall|i: int| 0 <= i < c.labels@.len() ==> #[trigger] laid_out_labels(c, k2)[i].0 == c.label_map()[i].0,
        forall|i: int| 0 <= i < c.labels@.len() ==> #[trigger] laid_out_labels(c, k)[i].0 == c.label_map()[i].0,
        forall|i: int| 0 <= i < c.labels@.len() ==> #[trigger] laid_out_labels(c, k)[i].1 <= laid_out_labels(c, k2)[i].1,
    decreases k2 - k,
{
    lemma_laid_out_keys(c, k);
    lemma_laid_out_keys(c, k2);
    if k < k2 {
        lemma_laid_out_mono(c, k, k2 - 1);
        lemma_code_offset_ge(c, k2 - 1);
        lemma_shift_all_keys(laid_out_labels(c, k2 - 1), names_view(c.functions@[k2 - 1].labels@), code_offset(c, k2 - 1));
        assert forall|i: int| 0 <= i < c.labels@.len() implies #[trigger] laid_out_labels(c, k)[i].1 <= laid_out_labels(c, k2)[i].1 by {
            assert(laid_out_labels(c, k)[i].1 <= laid_out_labels(c, k2 - 1)[i].1);
        }
    }
}

/// A copy of a list of captured variables.
fn copy_descriptors(v: &Vec<UpvalueDescriptor>) -> (r: Vec<UpvalueDescriptor>)
    ensures
        r@ == v@,
{
    let mut r: Vec<UpvalueDescriptor> = Vec::new();
    let mut i: usize = 0;
    while i < v.len()
        invariant
            i <= v@.len(),
            r@ == v@.take(i as int),
        decreases v.len() - i,
    {
        r.push(v[i]);
        i += 1;
        proof {
            assert(r@ =~= v@.take(i as int));
        }
    }
    proof {
        assert(v@.take(i as int) =~= v@);
    }
    r
}

/// The position of the label `label`.
fn resolve_label(labels: &Vec<(String, usize)>, label: &String) -> (r: usize)
    requires
        distinct_keys(label_positions(pairs_view(labels@))),
        has_key(pairs_view(labels@), label@),
    ensures
        r == target(label_positions(pairs_view(labels@)), label@),
{
    let ghost m = label_positions(pairs_view(labels@));
    match find_key(labels, label) {
        Some(i) => {
            proof {
                lemma_lookup_at(m, i as int);
            }
            labels[i].1
        },
        None => {
            proof {
                let j = choose|j: int| 0 <= j < pairs_view(labels@).len() && pairs_view(labels@)[j].0 == label@;
                assert(labels@[j].0@ == label@);
            }
            0
        },
    }
}

/// The operation that an instruction becomes.
fn resolve_instruction(i: &Instruction, labels: &Vec<(String, usize)>) -> (r: Op)
    requires
        distinct_keys(label_positions(pairs_view(labels@))),
        jump_label(*i) matches Some(l) ==> has_key(pairs_view(labels@), l),
    ensures
        r == resolve(*i, label_positions(pairs_view(labels@))),
{
    match i {
        Instruction::Resolved(op) => op.clone(),
        Instruction::Unresolved(UnresolvedOp::Jump(l)) => Op::Jump(resolve_label(labels, l)),
        Instruction::Unresolved(UnresolvedOp::JumpIfFalse(l)) => Op::JumpIfFalse(resolve_label(labels, l)),
        Instruction::Unresolved(UnresolvedOp::JumpIfTrue(l)) => Op::JumpIfTrue(resolve_label(labels, l)),
    }
}

impl Compiler {
    /// Lays the program out: the main code, then the code of each function in
    /// order, with every jump resolved to the position of its label.
    #[verifier::loop_isolation(false)]
    pub fn build(self) -> (r: CompilerBuild)
        requires
            can_build(self),
        ensures
            r.operations@.len() == code_len(self),
            forall|i: int| 0 <= i < self.instructions@.len()
                ==> #[trigger] r.operations@[i] == resolve(self.instructions@[i], final_labels(self)),
            forall|k: int, i: int| 0 <= k < self.functions@.len() && 0 <= i < self.functions@[k].instructions@.len()
                ==> r.operations@[code_offset(self, k) + i] == resolve(#[trigger] self.functions@[k].instructions@[i], final_labels(self)),
            r.functions@.len() == self.functions@.len(),
            forall|k: int| 0 <= k < self.functions@.len() ==> {
                &&& (#[trigger] r.functions@[k]).module_id is None
                &&& r.functions@[k].argument_count == self.functions@[k].argument_count
                &&& r.functions@[k].local_count == self.functions@[k].local_count
                &&& r.functions@[k].code_offset == code_offset(self, k)
                &&& r.functions@[k].upvalue_descriptors@ == self.functions@[k].upvalue_descriptors@
            },
            r.consts == self.consts,
            r.strings == self.strings,
            r.exports == self.exports,
            r.imports == self.imports,
    {
        let ghost c = self;
        let Compiler { labels, instructions, consts, functions, label_id: _, strings, exports, imports } = self;
        let mut labels = labels;
        let ghost n = labels@.len();
        proof {
            lemma_laid_out_mono(c, 0, functions@.len() as int);
            lemma_code_offset_mono(c, 0, functions@.len() as int);
        }
        let mut offset: usize = instructions.len();
        let mut laid: Vec<Function> = Vec::new();
        let mut k: usize = 0;
        while k < functions.len()
            invariant
                k <= functions@.len(),
                labels@.len() == n,
                label_positions(pairs_view(labels@)) == laid_out_labels(c, k as int),
                offset == code_offset(c, k as int),
                laid@.len() == k,
                forall|kk: int| 0 <= kk < k ==> {
                    &&& (#[trigger] laid@[kk]).module_id is None
                    &&& laid@[kk].argument_count == functions@[kk].argument_count
                    &&& laid@[kk].local_count == functions@[kk].local_count
                    &&& laid@[kk].code_offset == code_offset(c, kk)
                    &&& laid@[kk].upvalue_descriptors@ == functions@[kk].upvalue_descriptors@
                },
            decreases functions.len() - k,
        {
            let f = &functions[k];
            let ghost base = laid_out_labels(c, k as int);
            let ghost names = names_view(f.labels@);
            proof {
                lemma_laid_out_mono(c, k as int, k as int + 1);
                lemma_laid_out_mono(c, k as int + 1, functions@.len() as int);
                lemma_code_offset_mono(c, k as int + 1, functions@.len() as int);
                lemma_code_offset_mono(c, 0, k as int);
            }
            let mut j: usize = 0;
            while j < f.labels.len()
                invariant
                    j <= f.labels@.len(),
                    labels@.len() == n,
                    label_positions(pairs_view(labels@)) == shift_all(base, names.take(j as int), offset as int),
                decreases f.labels.len() - j,
            {
                proof {
                    lemma_shift_all_keys(base, names.take(j as int), offset as int);
                    lemma_shift_all_prefix(base, names, offset as int, j as int);
                    assert(f.labels@[j as int]@ == names[j as int]);
                    assert(has_key(c.label_map(), f.labels@[j as int]@));
                }
                let idx = match find_key(&labels, &f.labels[j]) {
                    Some(idx) => idx,
                    None => {
                        proof {
                            let w = choose|w: int| 0 <= w < c.label_map().len() && c.label_map()[w].0 == names[j as int];
                            assert(label_positions(pairs_view(labels@))[w].0 == names[j as int]);
                            assert(false);
                        }
                        0
                    },
                };
                let key = labels[idx].0.clone();
                let v = labels[idx].1;
                proof {
                    let before = shift_all(base, names.take(j as int), offset as int);
                    assert(before[idx as int].1 == v);
                    assert(before[idx as int].0 == names[j as int]);
                    assert(names.take(j as int + 1).drop_last() =~= names.take(j as int));
                    assert(names.take(j as int + 1).last() == names[j as int]);
                    assert(shift_all(base, names.take(j as int + 1), offset as int) == shift(before, names[j as int], offset as int));
                    assert(shift(before, names[j as int], offset as int)[idx as int].1 == v + offset);
                    lemma_shift_all_prefix(base, names, offset as int, j as int + 1);
                    assert(shift_all(base, names, offset as int) == laid_out_labels(c, k as int + 1));
                    assert(final_labels(c)[idx as int].1 <= usize::MAX);
                }
                let ghost before = label_positions(pairs_view(labels@));
                labels.set(idx, (key, v + offset));
                j += 1;
                proof {
                    assert(names.take(j as int).drop_last() =~= names.take(j as int - 1));
                    assert(names.take(j as int).last() == names[j as int - 1]);
                    lemma_shift_all_keys(base, names.take(j as int - 1), offset as int);
                    assert forall|i: int| 0 <= i < n implies (#[trigger] before[i]).0 == c.label_map()[i].0 by {
                        lemma_laid_out_mono(c, 0, k as int);
                    }
                    assert(label_positions(pairs_view(labels@)) =~= shift(before, names[j as int - 1], offset as int)) by {
                        assert forall|i: int| 0 <= i < n && i != idx implies before[i].0 != names[j as int - 1] by {
                            lemma_laid_out_mono(c, 0, k as int);
                        }
                    }
                }
            }
            proof {
                assert(names.take(f.labels@.len() as int) =~= names);
            }
            laid.push(Function {
                module_id: None,
                argument_count: f.argument_count,
                local_count: f.local_count,
                code_offset: offset,
                upvalue_descriptors: copy_descriptors(&f.upvalue_descriptors),
            });
            offset = offset + f.instructions.len();
            k += 1;
        }
        proof {
            lemma_laid_out_mono(c, 0, functions@.len() as int);
            assert(distinct_keys(label_positions(pairs_view(labels@))));
        }
        let mut operations: Vec<Op> = Vec::new();
        let mut i: usize = 0;
        while i < instructions.len()
            invariant
                i <= instructions@.len(),
                operations@.len() == i,
                forall|ii: int| 0 <= ii < i ==> #[trigger] operations@[ii] == resolve(instructions@[ii], final_labels(c)),
            decreases instructions.len() - i,
        {
            proof {
                if let Some(l) = jump_label(instructions@[i as int]) {
                    let w = choose|w: int| 0 <= w < c.label_map().len() && c.label_map()[w].0 == l;
                    assert(final_labels(c)[w].0 == c.label_map()[w].0);
                    assert(label_positions(pairs_view(labels@))[w].0 == l);
                    assert(pairs_view(labels@)[w].0 == l);
                }
            }
            operations.push(resolve_instruction(&instructions[i], &labels));
            i += 1;
        }
        let mut k: usize = 0;
        while k < functions.len()
            invariant
                k <= functions@.len(),
                operations@.len() == code_offset(c, k as int),
                forall|ii: int| 0 <= ii < instructions@.len() ==> #[trigger] operations@[ii] == resolve(instructions@[ii], final_labels(c)),
                forall|kk: int, ii: int| 0 <= kk < k && 0 <= ii < functions@[kk].instructions@.len()
                    ==> operations@[code_offset(c, kk) + ii] == resolve(#[trigger] functions@[kk].instructions@[ii], final_labels(c)),
            decreases functions.len() - k,
        {
            let f = &functions[k];
            proof {
                lemma_code_offset_mono(c, k as int + 1, functions@.len() as int);
            }
            let mut i: usize = 0;
            while i < f.instructions.len()
                invariant
                    i <= f.instructions@.len(),
                    operations@.len() == code_offset(c, k as int) + i,
                    forall|ii: int| 0 <= ii < instructions@.len() ==> #[trigger] operations@[ii] == resolve(instructions@[ii], final_labels(c)),
                    forall|kk: int, ii: int| 0 <= kk < k && 0 <= ii < functions@[kk].instructions@.len()
                        ==> operations@[code_offset(c, kk) + ii] == resolve(#[trigger] functions@[kk].instructions@[ii], final_labels(c)),
                    forall|ii: int| 0 <= ii < i ==> operations@[code_offset(c, k as int) + ii] == resolve(#[trigger] f.instructions@[ii], final_labels(c)),
                decreases f.instructions.len() - i,
            {
                proof {
                    if let Some(l) = jump_label(f.instructions@[i as int]) {
                        let w = choose|w: int| 0 <= w < c.label_map().len() && c.label_map()[w].0 == l;
                        assert(final_labels(c)[w].0 == c.label_map()[w].0);
                        assert(label_positions(pairs_view(labels@))[w].0 == l);
                        assert(pairs_view(labels@)[w].0 == l);
                    }
                }
                let ghost before = operations@;
                operations.push(resolve_instruction(&f.instructions[i], &labels));
                proof {
                    lemma_code_offset_ge(c, k as int);
                    assert forall|ii: int| 0 <= ii < instructions@.len() implies #[trigger] operations@[ii] == resolve(instructions@[ii], final_labels(c)) by {
                        assert(operations@[ii] == before[ii]);
                    }
                    assert forall|kk: int, ii: int| 0 <= kk < k && 0 <= ii < functions@[kk].instructions@.len()
                        implies operations@[code_offset(c, kk) + ii] == resolve(#[trigger] functions@[kk].instructions@[ii], final_labels(c)) by {
                        lemma_code_offset_mono(c, kk + 1, k as int);
                        lemma_code_offset_ge(c, kk);
                        assert(operations@[code_offset(c, kk) + ii] == before[code_offset(c, kk) + ii]);
                    }
                    assert forall|ii: int| 0 <= ii < i + 1 implies operations@[code_offset(c, k as int) + ii] == resolve(#[trigger] f.instructions@[ii], final_labels(c)) by {
                        if ii < i {
                            assert(operations@[code_offset(c, k as int) + ii] == before[code_offset(c, k as int) + ii]);
                        }
                    }
                }
                i += 1;
            }
            proof {
                assert forall|kk: int, ii: int| 0 <= kk < k + 1 && 0 <= ii < functions@[kk].instructions@.len()
                    implies operations@[code_offset(c, kk) + ii] == resolve(#[trigger] functions@[kk].instructions@[ii], final_labels(c)) by {
                    if kk < k {
                        lemma_code_offset_mono(c, kk + 1, k as int);
                    }
                }
            }
            k += 1;
        }
        CompilerBuild { operations, consts, functions: laid, strings, exports, imports }
    }
}

// ---------------------------------------------------------------------
// Laws.

/// Shifting by names among which `m[i]`'s label does not occur leaves its position.
proof fn lemma_shift_all_absent(m: Seq<(Seq<char>, int)>, names: Seq<Seq<char>>, d: int, i: int)
    requires
        0 <= i < m.len(),
        !names.contains(m[i].0),
    ensures
        shift_all(m, names, d)[i] == m[i],
    decreases names.len(),
{
    lemma_shift_all_keys(m, names, d);
    if names.len() > 0 {
        assert(!names.drop_last().contains(m[i].0)) by {
            if names.drop_last().contains(m[i].0) {
                let w = choose|w: int| 0 <= w < names.drop_last().len() && names.drop_last()[w] == m[i].0;
                assert(names[w] == m[i].0);
            }
        }
        lemma_shift_all_absent(m, names.drop_last(), d, i);
        lemma_shift_all_keys(m, names.drop_last(), d);
        assert(names.last() != m[i].0);
    }
}

/// Shifting by names among which `m[i]`'s label occurs once moves it by `d`.
proof fn lemma_shift_all_once(m: Seq<(Seq<char>, int)>, names: Seq<Seq<char>>, d: int, i: int, w: int)
    requires
        0 <= i < m.len(),
        0 <= w < names.len(),
        names[w] == m[i].0,
        forall|x: int| 0 <= x < names.len() && x != w ==> names[x] != m[i].0,
    ensures
        shift_all(m, names, d)[i] == (m[i].0, m[i].1 + d),
    decreases names.len(),
{
    lemma_shift_all_keys(m, names.drop_last(), d);
    if w == names.len() - 1 {
        assert(!names.drop_last().contains(m[i].0)) by {
            if names.drop_last().contains(m[i].0) {
                let x = choose|x: int| 0 <= x < names.drop_last().len() && names.drop_last()[x] == m[i].0;
                assert(names[x] == m[i].0);
            }
        }
        lemma_shift_all_absent(m, names.drop_last(), d, i);
    } else {
        lemma_shift_all_once(m, names.drop_last(), d, i, w);
        assert(names.last() != m[i].0);
    }
}

/// Whether no function places the label `name`.
pub open spec fn in_no_function(c: Compiler, name: Seq<char>) -> bool {
    forall|k: int| 0 <= k < c.functions@.len() ==> !(#[trigger] names_view(c.functions@[k].labels@)).contains(name)
}

/// A label placed in the main code, and in no function, is where the jumps
/// to it go in the laid-out program.
pub proof fn law_main_label_target(c: Compiler, name: Seq<char>)
    requires
        c.wf(),
        has_key(c.label_map(), name),
        in_no_function(c, name),
    ensures
        lookup(final_labels(c), name) == Some(lookup(c.label_map(), name)->0 as int),
{
    let i = choose|i: int| 0 <= i < c.label_map().len() && c.label_map()[i].0 == name;
    lemma_lookup_at(c.label_map(), i);
    assert forall|k: int| 0 <= k <= c.functions@.len() implies #[trigger] laid_out_labels(c, k)[i] == (name, c.label_map()[i].1 as int) by {
        lemma_laid_out_step_absent(c, k, i, name);
    }
    lemma_laid_out_keys(c, c.functions@.len() as int);
    assert(distinct_keys(final_labels(c)));
    lemma_lookup_at(final_labels(c), i);
}

proof fn lemma_laid_out_step_absent(c: Compiler, k: int, i: int, name: Seq<char>)
    requires
        c.wf(),
        0 <= k <= c.functions@.len(),
        0 <= i < c.label_map().len(),
        c.label_map()[i].0 == name,
        in_no_function(c, name),
    ensures
        laid_out_labels(c, k)[i] == (name, c.label_map()[i].1 as int),
    decreases k,
{
    if k > 0 {
        lemma_laid_out_step_absent(c, k - 1, i, name);
        lemma_laid_out_keys(c, k - 1);
        assert(!names_view(c.functions@[k - 1].labels@).contains(name));
        lemma_shift_all_absent(laid_out_labels(c, k - 1), names_view(c.functions@[k - 1].labels@), code_offset(c, k - 1), i);
    }
}

/// Whether the label `name` is placed once in function `k` and in no other function.
pub open spec fn placed_once_in(c: Compiler, name: Seq<char>, k: int) -> bool {
    &&& 0 <= k < c.functions@.len()
    &&& exists|w: int| 0 <= w < c.functions@[k].labels@.len() && c.functions@[k].labels@[w]@ == name
        && forall|x: int| 0 <= x < c.functions@[k].labels@.len() && x != w ==> c.functions@[k].labels@[x]@ != name
    &&& forall|j: int| 0 <= j < c.functions@.len() && j != k ==> !(#[trigger] names_view(c.functions@[j].labels@)).contains(name)
}

/// A label placed once, in function `k`, is where the jumps to it go in the
/// laid-out program: its position in the function's code moved by where
/// that code starts.
pub proof fn law_function_label_target(c: Compiler, name: Seq<char>, k: int)
    requires
        c.wf(),
        placed_once_in(c, name, k),
    ensures
        lookup(final_labels(c), name) == Some(lookup(c.label_map(), name)->0 + code_offset(c, k)),
{
    let w = choose|w: int| 0 <= w < c.functions@[k].labels@.len() && c.functions@[k].labels@[w]@ == name
        && forall|x: int| 0 <= x < c.functions@[k].labels@.len() && x != w ==> c.functions@[k].labels@[x]@ != name;
    assert(has_key(c.label_map(), name));
    let i = choose|i: int| 0 <= i < c.label_map().len() && c.label_map()[i].0 == name;
    lemma_lookup_at(c.label_map(), i);
    let p = c.label_map()[i].1 as int;
    lemma_laid_out_before(c, k, i, name);
    lemma_laid_out_keys(c, k);
    let names = names_view(c.functions@[k].labels@);
    assert(names[w] == name);
    assert forall|x: int| 0 <= x < names.len() && x != w implies names[x] != laid_out_labels(c, k)[i].0 by {
        assert(names[x] == c.functions@[k].labels@[x]@);
    }
    lemma_shift_all_once(laid_out_labels(c, k), names, code_offset(c, k), i, w);
    assert(laid_out_labels(c, k + 1) == shift_all(laid_out_labels(c, k), names, code_offset(c, k)));
    assert(laid_out_labels(c, k)[i] == (name, p));
    assert(laid_out_labels(c, k + 1)[i] == (name, p + code_offset(c, k)));
    lemma_laid_out_after(c, c.functions@.len() as int, i, name, p + code_offset(c, k), k);
    lemma_laid_out_keys(c, c.functions@.len() as int);
    assert(distinct_keys(final_labels(c)));
    lemma_lookup_at(final_labels(c), i);
}

proof fn lemma_laid_out_before(c: Compiler, k: int, i: int, name: Seq<char>)
    requires
        c.wf(),
        placed_once_in(c, name, k),
        0 <= i < c.label_map().len(),
        c.label_map()[i].0 == name,
    ensures
        forall|j: int| 0 <= j <= k ==> #[trigger] laid_out_labels(c, j)[i] == (name, c.label_map()[i].1 as int),
    decreases k,
{
    assert forall|j: int| 0 <= j <= k implies #[trigger] laid_out_labels(c, j)[i] == (name, c.label_map()[i].1 as int) by {
        lemma_laid_out_prefix_absent(c, j, k, i, name);
    }
}

proof fn lemma_laid_out_prefix_absent(c: Compiler, j: int, k: int, i: int, name: Seq<char>)
    requires
        c.wf(),
        placed_once_in(c, name, k),
        0 <= j <= k,
        0 <= i < c.label_map().len(),
        c.label_map()[i].0 == name,
    ensures
        laid_out_labels(c, j)[i] == (name, c.label_map()[i].1 as int),
    decreases j,
{
    if j > 0 {
        lemma_laid_out_prefix_absent(c, j - 1, k, i, name);
        lemma_laid_out_keys(c, j - 1);
        assert(!names_view(c.functions@[j - 1].labels@).contains(name));
        lemma_shift_all_absent(laid_out_labels(c, j - 1), names_view(c.functions@[j - 1].labels@), code_offset(c, j - 1), i);
    }
}

proof fn lemma_laid_out_after(c: Compiler, j: int, i: int, name: Seq<char>, v: int, k: int)
    requires
        c.wf(),
        placed_once_in(c, name, k),
        k < j <= c.functions@.len(),
        0 <= i < c.label_map().len(),
        laid_out_labels(c, k + 1)[i] == (name, v),
    ensures
        laid_out_labels(c, j)[i] == (name, v),
    decreases j,
{
    if j > k + 1 {
        lemma_laid_out_after(c, j - 1, i, name, v, k);
        lemma_laid_out_keys(c, j - 1);
        assert(!names_view(c.functions@[j - 1].labels@).contains(name));
        lemma_shift_all_absent(laid_out_labels(c, j - 1), names_view(c.functions@[j - 1].labels@), code_offset(c, j - 1), i);
    }
}

/// The labels that `generate_label` hands out for different counter values
/// differ, so a compiler never hands out the same label twice.
pub proof fn law_generated_labels_fresh(a: usize, b: usize)
    requires
        a != b,
    ensures
        decimal(a as nat) != decimal(b as nat),
{
    if decimal(a as nat) == decimal(b as nat) {
        lemma_decimal_injective(a as nat, b as nat);
    }
}

/// Every value but a NaN equals itself.
pub proof fn law_value_eq_reflexive(v: Value)
    requires
        !(v matches Value::Float(b) && float_is_nan(b)),
    ensures
        value_eq(v, v),
{
}

/// Equality of values is symmetric.
pub proof fn law_value_eq_symmetric(a: Value, b: Value)
    ensures
        value_eq(a, b) == value_eq(b, a),
{
}

/// Interning a constant that is not a NaN twice gives the same index the
/// second time, and the second time adds nothing.
pub proof fn law_constant_interned(consts: Seq<Value>, v: Value)
    requires
        !(v matches Value::Float(b) && float_is_nan(b)),
    ensures
        find_const(consts, v) matches Some(i) ==> find_const(consts, v) == Some(i),
        find_const(consts, v) is None ==> find_const(consts.push(v), v) == Some(consts.len() as int),
{
    if find_const(consts, v) is None {
        let c2 = consts.push(v);
        assert(value_eq(v, c2[consts.len() as int]));
        let i = choose|i: int| 0 <= i < c2.len() && value_eq(v, c2[i]) && forall|j: int| 0 <= j < i ==> !value_eq(v, c2[j]);
        assert(exists|i: int| 0 <= i < c2.len() && value_eq(v, c2[i]) && forall|j: int| 0 <= j < i ==> !value_eq(v, c2[j])) by {
            assert forall|j: int| 0 <= j < consts.len() implies !value_eq(v, c2[j]) by {
                assert(c2[j] == consts[j]);
            }
        }
        if i < consts.len() {
            assert(c2[i] == consts[i]);
        }
    }
}

/// A NaN constant equals no constant, so each time it is interned it takes a
/// new index.
pub proof fn law_nan_constant_never_found(consts: Seq<Value>, b: u64)
    requires
        float_is_nan(b),
    ensures
        find_const(consts, Value::Float(b)) is None,
{
}

/// Interning a string twice gives the same index the second time, and the
/// second time adds nothing.
pub proof fn law_string_interned(strings: Seq<String>, s: String)
    requires
        find_string(strings, s@) is None,
    ensures
        find_string(strings.push(s), s@) == Some(strings.len() as int),
{
    let t = strings.push(s);
    assert(t[strings.len() as int]@ == s@);
    let i = choose|i: int| 0 <= i < t.len() && t[i]@ == s@;
    if i < strings.len() {
        assert(t[i] == strings[i]);
    }
}

/// A function begun last is the one that `end_function` ends.
pub proof fn law_end_closes_last_begun(fs: Seq<AbstractFunction>, f: AbstractFunction)
    requires
        !f.completed,
    ensures
        open_function(fs.push(f)) == Some(fs.len() as int),
{
    lemma_open_function_at(fs.push(f), fs.len() as int);
}


/// Two values that are not both floats are equal exactly when they are the
/// same variant with the same contents: `true` and `false` differ, two
/// integers are equal when they are the same integer, and so on.
pub proof fn law_value_eq_is_content_equality(a: Value, b: Value)
    requires
        !(a is Float && b is Float),
    ensures
        value_eq(a, b) <==> a == b,
{
}

/// Two floats that are neither NaN nor zero are equal exactly when their
/// bit patterns are.
pub proof fn law_value_eq_floats(x: u64, y: u64)
    requires
        !float_is_nan(x),
        !float_is_nan(y),
        !float_is_zero(x),
    ensures
        value_eq(Value::Float(x), Value::Float(y)) <==> x == y,
{
}

/// The constant found for a value that is not a float is that very value:
/// interning never hands out the index of a different constant.
pub proof fn law_found_constant_is_the_value(consts: Seq<Value>, v: Value)
    requires
        !(v is Float),
    ensures
        find_const(consts, v) matches Some(i) ==> 0 <= i < consts.len() && consts[i] == v,
        find_const(consts, v) is None ==> forall|i: int| 0 <= i < consts.len() ==> consts[i] != v,
{
    if find_const(consts, v) is Some {
        let k = choose|k: int| 0 <= k < consts.len() && value_eq(v, consts[k]);
        lemma_first_equal_constant(consts, v, k);
        let i = find_const(consts, v)->0;
        law_value_eq_is_content_equality(v, consts[i]);
    } else {
        assert forall|i: int| 0 <= i < consts.len() implies consts[i] != v by {
            if consts[i] == v {
                law_value_eq_is_content_equality(v, consts[i]);
                assert(exists|k: int| 0 <= k < consts.len() && value_eq(v, consts[k]));
            }
        }
    }
}


/// Below any constant equal to `v` there is a first one.
proof fn lemma_first_equal_constant(consts: Seq<Value>, v: Value, k: int)
    requires
        0 <= k < consts.len(),
        value_eq(v, consts[k]),
    ensures
        exists|i: int| 0 <= i < consts.len() && value_eq(v, consts[i]) && forall|j: int| 0 <= j < i ==> !value_eq(v, consts[j]),
    decreases k,
{
    if exists|j: int| 0 <= j < k && value_eq(v, consts[j]) {
        let j = choose|j: int| 0 <= j < k && value_eq(v, consts[j]);
        lemma_first_equal_constant(consts, v, j);
    } else {
        assert(value_eq(v, consts[k]) && forall|j: int| 0 <= j < k ==> !value_eq(v, consts[j]));
    }
}

} // verus!
