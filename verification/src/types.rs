//! Types of the language and the arena that holds them.
use vstd::prelude::*;
use vstd::string::StringExecFns;
use crate::ast::{Argument, Identifier, Visibility};
use crate::errors::{ErrorKind, LanguageError, RuntimeError};
use crate::text::text_eq;

verus! {

/// The index of a type in a type arena.
#[derive(Debug, Clone, Copy, PartialEq, Eq, Structural)]
pub struct TypeId(pub u32);

/// The types that every arena provides.
#[derive(Debug, Clone, Copy, PartialEq, Eq, Structural)]
pub enum DefaultType {
    String,
    Number,
    Bool,
    Any,
    Unknown,
}

/// The type of a function: its parameters and what it returns.
#[derive(Debug)]
pub struct FunctionType {
    pub arguments: Vec<Argument<Identifier, TypeId>>,
    pub return_ty: TypeId,
}

/// A field of a class.
#[derive(Debug)]
pub struct FieldType {
    pub name: String,
    pub visibility: Visibility,
    pub ty: TypeId,
}

/// The type of a class: its name, its methods by name, and its fields.
#[derive(Debug)]
pub struct ClassType {
    pub name: String,
    pub methods: Vec<(String, FunctionType)>,
    pub fields: Vec<FieldType>,
}

/// A type.
#[derive(Debug)]
pub enum Type {
    String,
    Number,
    Bool,
    Function(Box<FunctionType>),
    Class(Box<ClassType>),
    Instance { class: Box<ClassType> },
    Array(Box<Type>),
    Object(Vec<(String, Type)>),
    Unknown,
    Any,
}

/// The default type that a name stands for, if any.
pub open spec fn default_type_named(s: Seq<char>) -> Option<DefaultType> {
    if s == "string"@ {
        Some(DefaultType::String)
    } else if s == "number"@ {
        Some(DefaultType::Number)
    } else if s == "bool"@ {
        Some(DefaultType::Bool)
    } else if s == "unknown"@ {
        Some(DefaultType::Unknown)
    } else if s == "any"@ {
        Some(DefaultType::Any)
    } else {
        None
    }
}

/// The message of the error for a name that is no default type.
pub open spec fn unknown_default_message() -> Seq<char> {
    "Failed to convert str to DefaultType"@
}

impl DefaultType {
    /// The default type named `s`; any other name is a runtime error.
    pub fn from_str(s: &str) -> (r: Result<DefaultType, LanguageError>)
        ensures
            match default_type_named(s@) {
                Some(d) => r matches Ok(x) && x == d,
                None => r matches Err(e) && e.source is None && (e.kind matches ErrorKind::Runtime(
                    RuntimeError::Custom(m),
                ) && m@ == unknown_default_message()),
            },
    {
        let t = s.to_owned();
        if text_eq(&t, "string") {
            Ok(DefaultType::String)
        } else if text_eq(&t, "number") {
            Ok(DefaultType::Number)
        } else if text_eq(&t, "bool") {
            Ok(DefaultType::Bool)
        } else if text_eq(&t, "unknown") {
            Ok(DefaultType::Unknown)
        } else if text_eq(&t, "any") {
            Ok(DefaultType::Any)
        } else {
            let m = "Failed to convert str to DefaultType".to_owned();
            Err(LanguageError::from(ErrorKind::Runtime(RuntimeError::Custom(m))))
        }
    }
}

/// How a type is written: `string`, `T[]`, `class A`, `{ a: T, b: U }` and so on.
pub open spec fn type_text(t: Type) -> Seq<char>
    decreases t,
{
    match t {
        Type::String => "string"@,
        Type::Number => "number"@,
        Type::Bool => "bool"@,
        Type::Function(_) => "(not implemened) => still not implemented"@,
        Type::Class(c) => "class "@ + c.name@,
        Type::Instance { class } => class.name@,
        Type::Array(ty) => type_text(*ty) + "[]"@,
        Type::Object(entries) => "{ "@ + entries_text(entries@) + " }"@,
        Type::Unknown => "unknown"@,
        Type::Any => "any"@,
    }
}

/// The entries of an object type, each as `key: type`, separated by `, `.
pub open spec fn entries_text(es: Seq<(String, Type)>) -> Seq<char>
    decreases es,
{
    if es.len() == 0 {
        Seq::empty()
    } else if es.len() == 1 {
        es[0].0@ + ": "@ + type_text(es[0].1)
    } else {
        entries_text(es.drop_last()) + ", "@ + es.last().0@ + ": "@ + type_text(es.last().1)
    }
}

impl Type {
    /// How the type is written.
    pub fn to_string(&self) -> (r: String)
        ensures
            r@ == type_text(*self),
        decreases self,
    {
        match self {
            Type::String => "string".to_owned(),
            Type::Number => "number".to_owned(),
            Type::Bool => "bool".to_owned(),
            Type::Function(_) => "(not implemened) => still not implemented".to_owned(),
            Type::Class(c) => {
                let mut r = "class ".to_owned();
                r.append(c.name.as_str());
                r
            },
            Type::Instance { class } => class.name.clone(),
            Type::Array(ty) => {
                let mut r = ty.to_string();
                r.append("[]");
                r
            },
            Type::Object(entries) => {
                let mut r = "{ ".to_owned();
                let mut i: usize = 0;
                proof {
                    assert(entries@.take(0) =~= Seq::<(String, Type)>::empty());
                    assert(r@ =~= "{ "@ + entries_text(entries@.take(0)));
                }
                while i < entries.len()
                    invariant
                        i <= entries@.len(),
                        r@ == "{ "@ + entries_text(entries@.take(i as int)),
                        decreases_to!(*self => entries@),
                    decreases entries.len() - i,
                {
                    let ghost before = r@;
                    if i > 0 {
                        r.append(", ");
                    }
                    r.append(entries[i].0.as_str());
                    r.append(": ");
                    proof {
                        assert(decreases_to!(entries@ => entries@[i as int]));
                        assert(decreases_to!(entries@[i as int] => entries@[i as int].1));
                    }
                    let t = entries[i].1.to_string();
                    r.append(t.as_str());
                    proof {
                        let es = entries@.take(i as int + 1);
                        assert(es.drop_last() =~= entries@.take(i as int));
                        assert(es.last() == entries@[i as int]);
                        if i == 0 {
                            assert(r@ =~= "{ "@ + entries_text(es));
                        } else {
                            assert(r@ =~= "{ "@ + entries_text(es));
                        }
                    }
                    i += 1;
                }
                proof {
                    assert(entries@.take(i as int) =~= entries@);
                }
                r.append(" }");
                r
            },
            Type::Unknown => "unknown".to_owned(),
            Type::Any => "any".to_owned(),
        }
    }
}

/// An arena of types: a type is named by the index at which it was
/// allocated. `defaults` binds each registered default type to its index.
#[derive(Debug)]
pub struct TypeArena<T> {
    pub types: Vec<T>,
    pub defaults: Vec<(DefaultType, TypeId)>,
}

/// The index bound to the default type `d`, if any.
pub open spec fn default_of(defaults: Seq<(DefaultType, TypeId)>, d: DefaultType) -> Option<TypeId>
    decreases defaults.len(),
{
    if defaults.len() == 0 {
        None
    } else if defaults.last().0 == d {
        Some(defaults.last().1)
    } else {
        default_of(defaults.drop_last(), d)
    }
}

/// `defaults` with `d` bound to `id`.
pub open spec fn bind_default(defaults: Seq<(DefaultType, TypeId)>, d: DefaultType, id: TypeId) -> Seq<(DefaultType, TypeId)> {
    defaults.push((d, id))
}

/// The type that stands for a default type.
pub open spec fn default_type(d: DefaultType) -> Type {
    match d {
        DefaultType::String => Type::String,
        DefaultType::Number => Type::Number,
        DefaultType::Bool => Type::Bool,
        DefaultType::Any => Type::Any,
        DefaultType::Unknown => Type::Unknown,
    }
}

impl<T> TypeArena<T> {
    /// An empty arena.
    pub fn new() -> (r: TypeArena<T>)
        ensures
            r.types@.len() == 0,
            r.defaults@.len() == 0,
    {
        TypeArena { types: Vec::new(), defaults: Vec::new() }
    }

    /// Allocates `ty` and returns its index. The index is the number of types
    /// allocated before, cut to 32 bits.
    pub fn alloc_type(&mut self, ty: T) -> (r: TypeId)
        ensures
            final(self).types@ == old(self).types@.push(ty),
            final(self).defaults == old(self).defaults,
            r == TypeId(old(self).types@.len() as u32),
    {
        let id = self.types.len() as u32;
        self.types.push(ty);
        TypeId(id)
    }

    /// The type at index `id`.
    pub fn get(&self, id: TypeId) -> (r: &T)
        requires
            (id.0 as int) < self.types@.len(),
        ensures
            *r == self.types@[id.0 as int],
    {
        &self.types[id.0 as usize]
    }
}

impl TypeArena<Type> {
    /// Allocates the default types, in the order string, number, bool, any,
    /// unknown, and binds each default to its index.
    pub fn register_defaults(&mut self)
        ensures
            final(self).types@ == old(self).types@ + seq![Type::String, Type::Number, Type::Bool, Type::Any, Type::Unknown],
            final(self).defaults@ == old(self).defaults@
                + seq![
                    (DefaultType::String, TypeId(old(self).types@.len() as u32)),
                    (DefaultType::Number, TypeId((old(self).types@.len() + 1) as u32)),
                    (DefaultType::Bool, TypeId((old(self).types@.len() + 2) as u32)),
                    (DefaultType::Any, TypeId((old(self).types@.len() + 3) as u32)),
                    (DefaultType::Unknown, TypeId((old(self).types@.len() + 4) as u32)),
                ],
    {
        let id = self.alloc_type(Type::String);
        self.register(DefaultType::String, id);
        let id = self.alloc_type(Type::Number);
        self.register(DefaultType::Number, id);
        let id = self.alloc_type(Type::Bool);
        self.register(DefaultType::Bool, id);
        let id = self.alloc_type(Type::Any);
        self.register(DefaultType::Any, id);
        let id = self.alloc_type(Type::Unknown);
        self.register(DefaultType::Unknown, id);
        proof {
            assert(self.types@ =~= old(self).types@ + seq![Type::String, Type::Number, Type::Bool, Type::Any, Type::Unknown]);
            assert(self.defaults@ =~= old(self).defaults@
                + seq![
                    (DefaultType::String, TypeId(old(self).types@.len() as u32)),
                    (DefaultType::Number, TypeId((old(self).types@.len() + 1) as u32)),
                    (DefaultType::Bool, TypeId((old(self).types@.len() + 2) as u32)),
                    (DefaultType::Any, TypeId((old(self).types@.len() + 3) as u32)),
                    (DefaultType::Unknown, TypeId((old(self).types@.len() + 4) as u32)),
                ]);
        }
    }

    /// Binds the default type `d` to `id`.
    fn register(&mut self, d: DefaultType, id: TypeId)
        ensures
            final(self).defaults@ == bind_default(old(self).defaults@, d, id),
            final(self).types == old(self).types,
    {
        self.defaults.push((d, id));
    }

    /// The index bound to the default type `ty`.
    pub fn get_default(&self, ty: DefaultType) -> (r: TypeId)
        requires
            default_of(self.defaults@, ty) is Some,
        ensures
            Some(r) == default_of(self.defaults@, ty),
    {
        let mut i = self.defaults.len();
        proof {
            assert(self.defaults@.take(i as int) =~= self.defaults@);
        }
        while i > 0
            invariant
                i <= self.defaults@.len(),
                default_of(self.defaults@, ty) == default_of(self.defaults@.take(i as int), ty),
            decreases i,
        {
            proof {
                assert(self.defaults@.take(i as int).drop_last() =~= self.defaults@.take(i as int - 1));
            }
            if self.defaults[i - 1].0 == ty {
                return self.defaults[i - 1].1;
            }
            i -= 1;
        }
        proof {
            assert(self.defaults@.take(0) =~= Seq::<(DefaultType, TypeId)>::empty());
        }
        TypeId(0)
    }
}

/// A type allocated in an arena of fewer than 2^32 types is what `get` gives
/// back at the index that `alloc_type` returned.
pub proof fn law_get_after_alloc<T>(types: Seq<T>, ty: T)
    requires
        types.len() < 0x1_0000_0000,
    ensures
        (types.len() as u32) as int == types.len(),
        types.push(ty)[(types.len() as u32) as int] == ty,
{
}

/// After the defaults are registered in an arena of fewer than 2^32 - 5
/// types, each default type is bound to the index of the type that stands
/// for it.
pub proof fn law_defaults_registered(types: Seq<Type>, defaults: Seq<(DefaultType, TypeId)>, d: DefaultType)
    requires
        types.len() + 5 < 0x1_0000_0000,
    ensures
        ({
            let t2 = types + seq![Type::String, Type::Number, Type::Bool, Type::Any, Type::Unknown];
            let d2 = defaults + seq![
                (DefaultType::String, TypeId(types.len() as u32)),
                (DefaultType::Number, TypeId((types.len() + 1) as u32)),
                (DefaultType::Bool, TypeId((types.len() + 2) as u32)),
                (DefaultType::Any, TypeId((types.len() + 3) as u32)),
                (DefaultType::Unknown, TypeId((types.len() + 4) as u32)),
            ];
            default_of(d2, d) matches Some(id) && (id.0 as int) < t2.len() && t2[id.0 as int] == default_type(d)
        }),
{
    let t2 = types + seq![Type::String, Type::Number, Type::Bool, Type::Any, Type::Unknown];
    let d2 = defaults + seq![
        (DefaultType::String, TypeId(types.len() as u32)),
        (DefaultType::Number, TypeId((types.len() + 1) as u32)),
        (DefaultType::Bool, TypeId((types.len() + 2) as u32)),
        (DefaultType::Any, TypeId((types.len() + 3) as u32)),
        (DefaultType::Unknown, TypeId((types.len() + 4) as u32)),
    ];
    let n = defaults.len();
    reveal_with_fuel(default_of, 6);
    assert((types.len() as u32) as int == types.len());
    assert(((types.len() + 1) as u32) as int == types.len() + 1);
    assert(((types.len() + 2) as u32) as int == types.len() + 2);
    assert(((types.len() + 3) as u32) as int == types.len() + 3);
    assert(((types.len() + 4) as u32) as int == types.len() + 4);
    assert(d2.drop_last() =~= defaults + seq![
        (DefaultType::String, TypeId(types.len() as u32)),
        (DefaultType::Number, TypeId((types.len() + 1) as u32)),
        (DefaultType::Bool, TypeId((types.len() + 2) as u32)),
        (DefaultType::Any, TypeId((types.len() + 3) as u32)),
    ]);
    assert(d2.drop_last().drop_last() =~= defaults + seq![
        (DefaultType::String, TypeId(types.len() as u32)),
        (DefaultType::Number, TypeId((types.len() + 1) as u32)),
        (DefaultType::Bool, TypeId((types.len() + 2) as u32)),
    ]);
    assert(d2.drop_last().drop_last().drop_last() =~= defaults + seq![
        (DefaultType::String, TypeId(types.len() as u32)),
        (DefaultType::Number, TypeId((types.len() + 1) as u32)),
    ]);
    assert(d2.drop_last().drop_last().drop_last().drop_last() =~= defaults + seq![
        (DefaultType::String, TypeId(types.len() as u32)),
    ]);
    assert(t2[types.len() as int] == Type::String);
    assert(t2[types.len() + 1int] == Type::Number);
    assert(t2[types.len() + 2int] == Type::Bool);
    assert(t2[types.len() + 3int] == Type::Any);
    assert(t2[types.len() + 4int] == Type::Unknown);
}

} // verus!
