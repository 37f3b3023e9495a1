//! Where a name that the editor points at is defined, and what is shown
//! when the pointer rests on it. Definitions imported from another module
//! are left to the caller, which reads that module.
use vstd::prelude::*;
use vstd::string::StringExecFns;
use crate::analysis::{lemma_scope_search_bound, visible_ids, first_definition, scope_search, symbol_search, Symbol, SymbolIndex, SymbolKind};
use crate::ast::{Argument, Identifier};
use crate::text::text_eq;
use crate::types::{type_text, ClassType, FunctionType, Type, TypeId};

verus! {

/// Where the definition of the name at an offset is.
#[derive(Debug)]
pub enum DefinitionTarget<'a> {
    /// No variable is used at the offset, or it is defined nowhere visible.
    Nothing,
    /// This definition, in the same module.
    Here(&'a Symbol),
    /// What the module `source` exports as `name`.
    Import { name: &'a String, source: &'a String },
}

/// The definition, by index, of the use of a variable at `pos`: the symbol
/// at `pos` must be such a use, and its definition is looked up from `pos`.
pub open spec fn definition_at(index: SymbolIndex, pos: usize) -> Option<usize> {
    match symbol_search(index.symbols@, pos, index.symbols@.len() as int) {
        Some(j) => if index.symbols@[j].kind is Variable {
            first_definition(
                index.symbols@,
                visible_ids(index.scopes@, scope_search(index.scopes@, pos, index.scopes@.len() as int).0 as int),
                index.symbols@[j].name@,
            )
        } else {
            None
        },
        None => None,
    }
}

/// Where the definition of the variable used at byte offset `source` is:
/// nothing when no variable is used there or none of that name is defined
/// where it is used; the import of the name when the definition is one;
/// otherwise the definition itself.
pub fn definition_target<'a>(index: &'a SymbolIndex, source: usize) -> (r: DefinitionTarget<'a>)
    requires
        index.chains_ok(),
    ensures
        match definition_at(*index, source) {
            None => r is Nothing,
            Some(k) => match index.symbols@[k as int].kind {
                SymbolKind::Import(path) => r matches DefinitionTarget::Import { name, source: s }
                    && name@ == index.symbols@[symbol_search(index.symbols@, source, index.symbols@.len() as int)->0].name@
                    && *s == path,
                _ => r matches DefinitionTarget::Here(d) && *d == index.symbols@[k as int],
            },
        },
{
    let symbol = match index.symbol_at(source) {
        Some(s) => s,
        None => return DefinitionTarget::Nothing,
    };
    let is_variable = match symbol.kind {
        SymbolKind::Variable => true,
        _ => false,
    };
    if !is_variable {
        return DefinitionTarget::Nothing;
    }
    proof {
        lemma_scope_search_bound(index.scopes@, source, index.scopes@.len() as int);
    }
    let definition = match index.find_definition(&symbol.name, source) {
        Some(d) => d,
        None => return DefinitionTarget::Nothing,
    };
    match &definition.kind {
        SymbolKind::Import(path) => DefinitionTarget::Import { name: &symbol.name, source: path },
        _ => DefinitionTarget::Here(definition),
    }
}

// ---------------------------------------------------------------------
// Hovering.

/// What is shown when the pointer rests on a symbol.
#[derive(Debug)]
pub enum HoverPlan<'a> {
    /// This text.
    Text(String),
    /// A variable defined nowhere visible: the caller shows it as a function
    /// of the standard library if it names one, and by its name otherwise.
    Undefined(&'a String),
    /// What the module `source` exports as `name`: the caller shows that.
    Import { name: &'a String, source: &'a String },
}

/// The mathematical value of a hover plan.
pub enum SHover {
    Text(Seq<char>),
    Undefined(Seq<char>),
    Import(Seq<char>, Seq<char>),
}

impl<'a> View for HoverPlan<'a> {
    type V = SHover;

    open spec fn view(&self) -> SHover {
        match self {
            HoverPlan::Text(t) => SHover::Text(t@),
            HoverPlan::Undefined(n) => SHover::Undefined(n@),
            HoverPlan::Import { name, source } => SHover::Import(name@, source@),
        }
    }
}

/// How the type with index `id` is written.
pub open spec fn type_at(index: SymbolIndex, id: TypeId) -> Seq<char> {
    type_text(index.arena.types@[id.0 as int])
}

/// Whether the type index `id` names a type of the arena.
pub open spec fn known(index: SymbolIndex, id: TypeId) -> bool {
    (id.0 as int) < index.arena.types@.len()
}

/// Whether all parameters and the result of a function type name types of the arena.
pub open spec fn known_function(index: SymbolIndex, f: FunctionType) -> bool {
    &&& known(index, f.return_ty)
    &&& forall|i: int| 0 <= i < f.arguments@.len() ==> known(index, #[trigger] f.arguments@[i].ty)
}

/// The parameters `name: type` of a function, separated by `, `.
pub open spec fn params_text(index: SymbolIndex, args: Seq<Argument<Identifier, TypeId>>) -> Seq<char>
    decreases args.len(),
{
    if args.len() == 0 {
        Seq::empty()
    } else {
        let a = args.last();
        let item = a.variable.value@ + ": "@ + type_at(index, a.ty);
        if args.len() == 1 {
            item
        } else {
            params_text(index, args.drop_last()) + ", "@ + item
        }
    }
}

/// `(parameters): result` of a function type.
pub open spec fn signature_text(index: SymbolIndex, f: FunctionType) -> Seq<char> {
    "("@ + params_text(index, f.arguments@) + "): "@ + type_at(index, f.return_ty)
}

/// The index of the first method of a class named `name`.
pub open spec fn method_named(methods: Seq<(String, FunctionType)>, name: Seq<char>) -> Option<int> {
    if exists|i: int| 0 <= i < methods.len() && methods[i].0@ == name {
        Some(choose|i: int| 0 <= i < methods.len() && methods[i].0@ == name
            && forall|j: int| 0 <= j < i ==> methods[j].0@ != name)
    } else {
        None
    }
}

/// The index of the first field of a class named `name`.
pub open spec fn field_named(class: ClassType, name: Seq<char>) -> Option<int> {
    if exists|i: int| 0 <= i < class.fields@.len() && class.fields@[i].name@ == name {
        Some(choose|i: int| 0 <= i < class.fields@.len() && class.fields@[i].name@ == name
            && forall|j: int| 0 <= j < i ==> class.fields@[j].name@ != name)
    } else {
        None
    }
}

/// The index of the first entry of an object type with key `name`.
pub open spec fn entry_named(entries: Seq<(String, Type)>, name: Seq<char>) -> Option<int> {
    if exists|i: int| 0 <= i < entries.len() && entries[i].0@ == name {
        Some(choose|i: int| 0 <= i < entries.len() && entries[i].0@ == name
            && forall|j: int| 0 <= j < i ==> entries[j].0@ != name)
    } else {
        None
    }
}

/// What a symbol that is no use of a variable shows, but a property.
pub open spec fn plain_hover(index: SymbolIndex, s: Symbol) -> SHover {
    match s.kind {
        SymbolKind::Definition(ty) => SHover::Text("let "@ + s.name@ + ": "@ + type_at(index, ty)),
        SymbolKind::Function(f) => SHover::Text("fn "@ + s.name@ + signature_text(index, f)),
        SymbolKind::Class(_) => SHover::Text("class "@ + s.name@),
        SymbolKind::Import(p) => SHover::Import(s.name@, p@),
        _ => SHover::Undefined(s.name@),
    }
}

/// Whether `plain_hover` reads only types of the arena and meets no kind it
/// cannot show.
pub open spec fn plain_ok(index: SymbolIndex, s: Symbol) -> bool {
    match s.kind {
        SymbolKind::Definition(ty) => known(index, ty),
        SymbolKind::Function(f) => known_function(index, f),
        SymbolKind::Class(_) => true,
        SymbolKind::Import(_) => true,
        _ => false,
    }
}

/// The definition, by index, of the name of the symbol `j`, looked up from
/// where that symbol starts.
pub open spec fn definition_of(index: SymbolIndex, j: int) -> Option<usize> {
    let pos = index.symbols@[j].span.start;
    first_definition(
        index.symbols@,
        visible_ids(index.scopes@, scope_search(index.scopes@, pos, index.scopes@.len() as int).0 as int),
        index.symbols@[j].name@,
    )
}

/// What a property named `name` of the object at `object_pos` shows: the
/// method, the field or the entry of that name of the object's type when it
/// has one; else what the object's definition shows when that is a
/// definition of a type; else the name.
pub open spec fn property_hover(index: SymbolIndex, name: Seq<char>, object_pos: usize) -> SHover {
    let j = symbol_search(index.symbols@, object_pos, index.symbols@.len() as int)->0;
    let d = index.symbols@[definition_of(index, j)->0 as int];
    match d.kind {
        SymbolKind::Definition(tid) => {
            let t = index.arena.types@[tid.0 as int];
            match t {
                Type::Instance { class } => match method_named(class.methods@, name) {
                    Some(m) => SHover::Text(class.name@ + "."@ + name + signature_text(index, class.methods@[m].1)),
                    None => match field_named(*class, name) {
                        Some(f) => SHover::Text("public "@ + name + ": "@ + type_at(index, class.fields@[f].ty)),
                        None => plain_hover(index, d),
                    },
                },
                Type::Object(entries) => match entry_named(entries@, name) {
                    Some(e) => SHover::Text(name + ": "@ + type_text(entries@[e].1)),
                    None => plain_hover(index, d),
                },
                _ => SHover::Undefined(name),
            }
        },
        _ => SHover::Undefined(name),
    }
}

/// Whether `property_hover` finds the object and its definition, and reads
/// only types of the arena.
pub open spec fn property_ok(index: SymbolIndex, name: Seq<char>, object_pos: usize) -> bool {
    match symbol_search(index.symbols@, object_pos, index.symbols@.len() as int) {
        None => false,
        Some(j) => match definition_of(index, j) {
            None => false,
            Some(k) => match index.symbols@[k as int].kind {
                SymbolKind::Definition(tid) => known(index, tid) && match index.arena.types@[tid.0 as int] {
                    Type::Instance { class } => match method_named(class.methods@, name) {
                        Some(m) => known_function(index, class.methods@[m].1),
                        None => match field_named(*class, name) {
                            Some(f) => known(index, class.fields@[f].ty),
                            None => plain_ok(index, index.symbols@[k as int]),
                        },
                    },
                    Type::Object(entries) => entry_named(entries@, name) is Some || plain_ok(
                        index,
                        index.symbols@[k as int],
                    ),
                    _ => true,
                },
                _ => true,
            },
        },
    }
}

/// What a symbol shows when the pointer rests on it at `source`.
pub open spec fn hover_of(index: SymbolIndex, s: Symbol, source: usize) -> SHover {
    match s.kind {
        SymbolKind::Variable => match first_definition(
            index.symbols@,
            visible_ids(index.scopes@, scope_search(index.scopes@, source, index.scopes@.len() as int).0 as int),
            s.name@,
        ) {
            Some(k) => match index.symbols@[k as int].kind {
                SymbolKind::Property(p) => property_hover(index, index.symbols@[k as int].name@, p),
                _ => plain_hover(index, index.symbols@[k as int]),
            },
            None => SHover::Undefined(s.name@),
        },
        SymbolKind::Property(p) => property_hover(index, s.name@, p),
        _ => plain_hover(index, s),
    }
}

/// Whether `hover_of` reads only types of the arena, finds what a property
/// needs, and meets no kind that cannot be shown.
pub open spec fn hover_ok(index: SymbolIndex, s: Symbol, source: usize) -> bool {
    match s.kind {
        SymbolKind::Variable => match first_definition(
            index.symbols@,
            visible_ids(index.scopes@, scope_search(index.scopes@, source, index.scopes@.len() as int).0 as int),
            s.name@,
        ) {
            Some(k) => match index.symbols@[k as int].kind {
                SymbolKind::Property(p) => property_ok(index, index.symbols@[k as int].name@, p),
                _ => plain_ok(index, index.symbols@[k as int]),
            },
            None => true,
        },
        SymbolKind::Property(p) => property_ok(index, s.name@, p),
        _ => plain_ok(index, s),
    }
}

/// How the type with index `id` is written.
fn written_type(index: &SymbolIndex, id: TypeId) -> (r: String)
    requires
        known(*index, id),
    ensures
        r@ == type_at(*index, id),
{
    index.arena.get(id).to_string()
}

/// `(parameters): result` of a function type.
fn signature(index: &SymbolIndex, f: &FunctionType) -> (r: String)
    requires
        known_function(*index, *f),
    ensures
        r@ == signature_text(*index, *f),
{
    let mut r = "(".to_owned();
    let mut i: usize = 0;
    let ghost head = r@;
    proof {
        assert(f.arguments@.take(0) =~= Seq::<Argument<Identifier, TypeId>>::empty());
        assert(r@ == "("@ + params_text(*index, f.arguments@.take(0)));
    }
    while i < f.arguments.len()
        invariant
            i <= f.arguments@.len(),
            known_function(*index, *f),
            r@ == "("@ + params_text(*index, f.arguments@.take(i as int)),
        decreases f.arguments.len() - i,
    {
        let a = &f.arguments[i];
        proof {
            assert(known(*index, f.arguments@[i as int].ty));
        }
        if i > 0 {
            r.append(", ");
        }
        r.append(a.variable.value.as_str());
        r.append(": ");
        let t = written_type(index, a.ty);
        r.append(t.as_str());
        proof {
            let args = f.arguments@.take(i as int + 1);
            assert(args.drop_last() =~= f.arguments@.take(i as int));
            assert(args.last() == f.arguments@[i as int]);
            assert(r@ =~= "("@ + params_text(*index, args));
        }
        i += 1;
    }
    proof {
        assert(f.arguments@.take(i as int) =~= f.arguments@);
    }
    r.append("): ");
    let t = written_type(index, f.return_ty);
    r.append(t.as_str());
    r
}

/// `prefix` followed by `text`.
fn joined(prefix: &str, text: &str) -> (r: String)
    ensures
        r@ == prefix@ + text@,
{
    let mut r = prefix.to_owned();
    r.append(text);
    r
}

/// What a symbol that is no use of a variable shows, but a property.
fn plain<'a>(index: &'a SymbolIndex, s: &'a Symbol) -> (r: HoverPlan<'a>)
    requires
        plain_ok(*index, *s),
    ensures
        r@ == plain_hover(*index, *s),
{
    match &s.kind {
        SymbolKind::Definition(ty) => {
            let mut r = joined("let ", s.name.as_str());
            r.append(": ");
            let t = written_type(index, *ty);
            r.append(t.as_str());
            HoverPlan::Text(r)
        },
        SymbolKind::Function(f) => {
            let mut r = joined("fn ", s.name.as_str());
            let t = signature(index, f);
            r.append(t.as_str());
            HoverPlan::Text(r)
        },
        SymbolKind::Class(_) => HoverPlan::Text(joined("class ", s.name.as_str())),
        SymbolKind::Import(p) => HoverPlan::Import { name: &s.name, source: p },
        _ => HoverPlan::Undefined(&s.name),
    }
}

/// What a property named `name` of the object at `object_pos` shows.
#[verifier::loop_isolation(false)]
fn property<'a>(index: &'a SymbolIndex, name: &'a String, object_pos: usize) -> (r: HoverPlan<'a>)
    requires
        index.chains_ok(),
        property_ok(*index, name@, object_pos),
    ensures
        r@ == property_hover(*index, name@, object_pos),
{
    let object = match index.symbol_at(object_pos) {
        Some(o) => o,
        None => {
            proof {
                assert(false);
            }
            return HoverPlan::Undefined(name);
        },
    };
    let ghost j = symbol_search(index.symbols@, object_pos, index.symbols@.len() as int)->0;
    let d = match index.find_definition(&object.name, object.span.start) {
        Some(d) => d,
        None => {
            proof {
                assert(false);
            }
            return HoverPlan::Undefined(name);
        },
    };
    let tid = match d.kind {
        SymbolKind::Definition(tid) => tid,
        _ => return HoverPlan::Undefined(name),
    };
    match index.arena.get(tid) {
        Type::Instance { class } => {
            let mut i: usize = 0;
            while i < class.methods.len()
                invariant
                    i <= class.methods@.len(),
                    forall|k: int| 0 <= k < i ==> class.methods@[k].0@ != name@,
                decreases class.methods.len() - i,
            {
                if text_eq(&class.methods[i].0, name.as_str()) {
                    proof {
                        assert(method_named(class.methods@, name@) == Some(i as int));
                    }
                    let mut r = joined(class.name.as_str(), ".");
                    r.append(name.as_str());
                    let t = signature(index, &class.methods[i].1);
                    r.append(t.as_str());
                    return HoverPlan::Text(r);
                }
                i += 1;
            }
            proof {
                assert(method_named(class.methods@, name@) is None);
            }
            let mut k: usize = 0;
            while k < class.fields.len()
                invariant
                    k <= class.fields@.len(),
                    forall|m: int| 0 <= m < k ==> class.fields@[m].name@ != name@,
                decreases class.fields.len() - k,
            {
                if text_eq(&class.fields[k].name, name.as_str()) {
                    proof {
                        assert(field_named(**class, name@) == Some(k as int));
                    }
                    let mut r = joined("public ", name.as_str());
                    r.append(": ");
                    let t = written_type(index, class.fields[k].ty);
                    r.append(t.as_str());
                    return HoverPlan::Text(r);
                }
                k += 1;
            }
            proof {
                assert(field_named(**class, name@) is None);
            }
            plain(index, d)
        },
        Type::Object(entries) => {
            let mut i: usize = 0;
            while i < entries.len()
                invariant
                    i <= entries@.len(),
                    forall|k: int| 0 <= k < i ==> entries@[k].0@ != name@,
                decreases entries.len() - i,
            {
                if text_eq(&entries[i].0, name.as_str()) {
                    proof {
                        assert(entry_named(entries@, name@) == Some(i as int));
                    }
                    let mut r = joined(name.as_str(), ": ");
                    let t = entries[i].1.to_string();
                    r.append(t.as_str());
                    return HoverPlan::Text(r);
                }
                i += 1;
            }
            proof {
                assert(entry_named(entries@, name@) is None);
            }
            plain(index, d)
        },
        _ => HoverPlan::Undefined(name),
    }
}

/// What the symbol `s` shows when the pointer rests on it at byte offset
/// `source`: a use of a variable shows what its definition shows, or is
/// left to the caller when it has none; a property shows the member of its
/// object's type; a definition of a type shows `let name: type`; a function
/// its signature; a class `class name`; an import is left to the caller.
pub fn hover_plan<'a>(index: &'a SymbolIndex, s: &'a Symbol, source: usize) -> (r: HoverPlan<'a>)
    requires
        index.chains_ok(),
        hover_ok(*index, *s, source),
    ensures
        r@ == hover_of(*index, *s, source),
{
    proof {
        lemma_scope_search_bound(index.scopes@, source, index.scopes@.len() as int);
    }
    match &s.kind {
        SymbolKind::Variable => match index.find_definition(&s.name, source) {
            Some(d) => match &d.kind {
                SymbolKind::Property(p) => property(index, &d.name, *p),
                _ => plain(index, d),
            },
            None => HoverPlan::Undefined(&s.name),
        },
        SymbolKind::Property(p) => property(index, &s.name, *p),
        _ => plain(index, s),
    }
}

} // verus!
