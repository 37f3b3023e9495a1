//! What a completion request in an editor is answered with. An editor asks
//! at a byte offset; the answer is either the members of what the object
//! before a `.` stands for, or the names visible at the offset followed by
//! the keywords of the language. Looking up imports in other modules and
//! the members of built-in types is left to the caller, which is told so.
use vstd::prelude::*;
use vstd::string::StringExecFns;
use crate::analysis::{
    visible_ids, first_definition, lemma_scope_search_bound, scope_search, symbol_search, CompletionCandidate, Symbol,
    SymbolIndex, SymbolKind,
};
use crate::lexer::{match_table, spec_table, SpecTokenKind, TokenKind};
use crate::text::{char_is_ascii_alpha, chars_of, is_ascii_alpha, text_eq};
use crate::types::{ClassType, FieldType, FunctionType, Type};

verus! {

/// The kind of an item offered for completion.
#[derive(Debug, Clone, Copy, PartialEq, Eq, Structural)]
pub enum CompletionItemKind {
    Variable,
    Function,
    Class,
    Method,
    Field,
    Keyword,
}

/// An item offered for completion: its label, its kind, and the text by
/// which the editor sorts it, if any.
#[derive(Debug)]
pub struct CompletionItemPlan {
    pub label: String,
    pub kind: CompletionItemKind,
    pub sort_text: Option<String>,
}

/// The mathematical value of an item.
pub struct SItem {
    pub label: Seq<char>,
    pub kind: CompletionItemKind,
    pub sort_text: Option<Seq<char>>,
}

impl View for CompletionItemPlan {
    type V = SItem;

    open spec fn view(&self) -> SItem {
        SItem {
            label: self.label@,
            kind: self.kind,
            sort_text: match &self.sort_text {
                Some(t) => Some(t@),
                None => None,
            },
        }
    }
}

/// The views of a sequence of items.
pub open spec fn items_view(v: Seq<CompletionItemPlan>) -> Seq<SItem> {
    v.map_values(|i: CompletionItemPlan| i@)
}

/// What a completion request is answered with.
#[derive(Debug)]
pub enum CompletionPlan<'a> {
    /// The members of what this definition stands for (see `member_plan`).
    Members(&'a Symbol),
    /// The names visible at the offset, then the keywords; the functions of
    /// the standard library go between the two.
    Names { symbols: Vec<CompletionItemPlan>, keywords: Vec<CompletionItemPlan> },
}

/// Whether the name part of a candidate contains `source`, both ends included.
pub open spec fn offered_at(c: CompletionCandidate, source: usize) -> bool {
    c.completion_span.start <= source <= c.completion_span.end
}

/// The definition, by index, of the variable that a candidate's object is:
/// the symbol at the object's start must be a use of a variable, and its
/// definition is looked up from there.
pub open spec fn candidate_definition(index: SymbolIndex, c: CompletionCandidate) -> Option<usize> {
    let pos = c.object_span.start;
    match symbol_search(index.symbols@, pos, index.symbols@.len() as int) {
        Some(j) => if index.symbols@[j].kind is Variable {
            first_definition(
                index.symbols@,
                visible_ids(index.scopes@, scope_search(index.scopes@, pos, index.scopes@.len() as int).0 as int),
                index.symbols@[j].name@,
            )
        } else {
            None
        },
        None => None,
    }
}

/// The definition found through the first candidate, in order, that is
/// offered at `source` and whose object is a defined variable.
pub open spec fn completion_definition(index: SymbolIndex, cands: Seq<CompletionCandidate>, source: usize) -> Option<usize>
    decreases cands.len(),
{
    if cands.len() == 0 {
        None
    } else if offered_at(cands[0], source) && candidate_definition(index, cands[0]) is Some {
        candidate_definition(index, cands[0])
    } else {
        completion_definition(index, cands.drop_first(), source)
    }
}

/// The item a visible symbol is offered as: a symbol whose name starts with
/// an ASCII letter and that is a definition, an import, a function or a
/// class; it sorts before everything else.
pub open spec fn symbol_item(s: Symbol) -> Option<SItem> {
    if s.name@.len() == 0 || !is_ascii_alpha(s.name@[0]) {
        None
    } else {
        let kind = match s.kind {
            SymbolKind::Definition(_) => Some(CompletionItemKind::Variable),
            SymbolKind::Import(_) => Some(CompletionItemKind::Variable),
            SymbolKind::Function(_) => Some(CompletionItemKind::Function),
            SymbolKind::Class(_) => Some(CompletionItemKind::Class),
            _ => None,
        };
        match kind {
            Some(k) => Some(SItem { label: s.name@, kind: k, sort_text: Some("0_"@ + s.name@) }),
            None => None,
        }
    }
}

/// The items of the symbols `ids`, in order.
pub open spec fn symbol_items(symbols: Seq<Symbol>, ids: Seq<usize>) -> Seq<SItem>
    decreases ids.len(),
{
    if ids.len() == 0 {
        Seq::empty()
    } else {
        let rest = symbol_items(symbols, ids.drop_last());
        match symbol_item(symbols[ids.last() as int]) {
            Some(it) => rest.push(it),
            None => rest,
        }
    }
}

/// Whether a lexeme of the table is a keyword or a boolean literal.
pub open spec fn is_word(k: SpecTokenKind) -> bool {
    ||| k matches SpecTokenKind::Other(TokenKind::Keyword(_))
    ||| k matches SpecTokenKind::Other(TokenKind::BooleanLiteral { .. })
}

/// The keyword items of the first `n` lexemes of the table, in order; they
/// sort after everything else.
pub open spec fn keyword_items(table: Seq<(Seq<char>, SpecTokenKind)>, n: int) -> Seq<SItem>
    decreases n,
{
    if n <= 0 {
        Seq::empty()
    } else {
        let rest = keyword_items(table, n - 1);
        if is_word(table[n - 1].1) {
            rest.push(SItem { label: table[n - 1].0, kind: CompletionItemKind::Keyword, sort_text: Some("2_"@ + table[n - 1].0) })
        } else {
            rest
        }
    }
}

/// `text` behind `prefix`.
fn prefixed(prefix: &str, text: &str) -> (r: String)
    ensures
        r@ == prefix@ + text@,
{
    let mut r = prefix.to_owned();
    r.append(text);
    r
}

/// The plan for a completion request at byte offset `source`, given the
/// index of the module and the completion candidates found in it, in walk
/// order: the members of the definition found through the first candidate
/// offered at `source` whose object is a defined variable; otherwise the
/// items of the symbols visible at `source`, innermost scope first, and the
/// keyword items in table order.
pub fn completion_items<'a>(index: &'a SymbolIndex, candidates: &Vec<CompletionCandidate>, source: usize) -> (r: CompletionPlan<'a>)
    requires
        index.chains_ok(),
    ensures
        match completion_definition(*index, candidates@, source) {
            Some(k) => r matches CompletionPlan::Members(s) && *s == index.symbols@[k as int],
            None => r matches CompletionPlan::Names { symbols, keywords }
                && items_view(symbols@) == symbol_items(
                    index.symbols@,
                    visible_ids(index.scopes@, scope_search(index.scopes@, source, index.scopes@.len() as int).0 as int),
                )
                && items_view(keywords@) == keyword_items(spec_table(), spec_table().len() as int),
        },
{
    let mut i: usize = 0;
    proof {
        assert(candidates@.skip(0) =~= candidates@);
    }
    while i < candidates.len()
        invariant
            i <= candidates@.len(),
            index.chains_ok(),
            completion_definition(*index, candidates@, source) == completion_definition(*index, candidates@.skip(i as int), source),
        decreases candidates.len() - i,
    {
        let candidate = candidates[i];
        proof {
            assert(candidates@.skip(i as int)[0] == candidate);
            assert(candidates@.skip(i as int).drop_first() =~= candidates@.skip(i as int + 1));
        }
        if source >= candidate.completion_span.start && source <= candidate.completion_span.end {
            let pos = candidate.object_span.start;
            if let Some(symbol) = index.symbol_at(pos) {
                let is_variable = match symbol.kind {
                    SymbolKind::Variable => true,
                    _ => false,
                };
                if is_variable {
                    proof {
                        lemma_scope_search_bound(index.scopes@, pos, index.scopes@.len() as int);
                    }
                    if let Some(definition) = index.find_definition(&symbol.name, pos) {
                        return CompletionPlan::Members(definition);
                    }
                }
            }
        }
        i += 1;
    }
    proof {
        assert(candidates@.skip(i as int).len() == 0);
    }
    let scope = index.scope_at_position(source);
    proof {
        lemma_scope_search_bound(index.scopes@, source, index.scopes@.len() as int);
    }
    let visible = index.visible_symbols(scope);
    let ghost ids = visible_ids(index.scopes@, scope.0 as int);
    let mut symbols: Vec<CompletionItemPlan> = Vec::new();
    let mut j: usize = 0;
    proof {
        assert(ids.take(0) =~= Seq::<usize>::empty());
        assert(items_view(symbols@) =~= Seq::<SItem>::empty());
    }
    while j < visible.len()
        invariant
            j <= visible@.len(),
            visible@.len() == ids.len(),
            forall|k: int| 0 <= k < visible@.len() ==> *visible@[k] == index.symbols@[ids[k] as int],
            items_view(symbols@) == symbol_items(index.symbols@, ids.take(j as int)),
        decreases visible.len() - j,
    {
        let symbol = visible[j];
        proof {
            assert(ids.take(j as int + 1).drop_last() =~= ids.take(j as int));
            assert(ids.take(j as int + 1).last() == ids[j as int]);
        }
        let cs = chars_of(symbol.name.as_str());
        let ghost before = symbols@;
        if cs.len() > 0 && char_is_ascii_alpha(cs[0]) {
            let kind = match symbol.kind {
                SymbolKind::Definition(_) | SymbolKind::Import(_) => Some(CompletionItemKind::Variable),
                SymbolKind::Function(_) => Some(CompletionItemKind::Function),
                SymbolKind::Class(_) => Some(CompletionItemKind::Class),
                _ => None,
            };
            if let Some(k) = kind {
                let sort = prefixed("0_", symbol.name.as_str());
                symbols.push(CompletionItemPlan { label: symbol.name.clone(), kind: k, sort_text: Some(sort) });
                proof {
                    assert(items_view(symbols@) =~= items_view(before).push(symbols@.last()@));
                }
            }
        }
        j += 1;
    }
    proof {
        assert(ids.take(j as int) =~= ids);
    }
    let table = match_table();
    let mut keywords: Vec<CompletionItemPlan> = Vec::new();
    let mut t: usize = 0;
    proof {
        assert(items_view(keywords@) =~= Seq::<SItem>::empty());
    }
    while t < table.len()
        invariant
            t <= table@.len(),
            table@.len() == spec_table().len(),
            forall|k: int| 0 <= k < table@.len() ==> (#[trigger] table@[k]).0@ == spec_table()[k].0 && table@[k].1@ == spec_table()[k].1,
            items_view(keywords@) == keyword_items(spec_table(), t as int),
        decreases table.len() - t,
    {
        let token: &str = table[t].0;
        let kind = &table[t].1;
        let ghost before = keywords@;
        let word = match kind {
            TokenKind::Keyword(_) | TokenKind::BooleanLiteral { .. } => true,
            _ => false,
        };
        proof {
            assert(table@[t as int].0@ == spec_table()[t as int].0);
        }
        if word {
            let sort = prefixed("2_", token);
            keywords.push(CompletionItemPlan { label: token.to_owned(), kind: CompletionItemKind::Keyword, sort_text: Some(sort) });
            proof {
                assert(items_view(keywords@) =~= items_view(before).push(keywords@.last()@));
            }
        }
        t += 1;
    }
    CompletionPlan::Names { symbols, keywords }
}

/// A built-in type whose members are the methods of its prototype.
#[derive(Debug, Clone, Copy, PartialEq, Eq, Structural)]
pub enum BuiltIn {
    String,
    Number,
    Array,
}

/// What the members of a definition are.
#[derive(Debug)]
pub enum MemberPlan<'a> {
    /// These items.
    Items(Vec<CompletionItemPlan>),
    /// The methods of the prototype of a built-in type.
    Prototype(BuiltIn),
    /// The members of what the module `source` exports as `name`.
    Import { name: &'a String, source: &'a String },
}

/// The items of the methods of a class, but its constructor (the method
/// named as the class), among the first `n` methods.
pub open spec fn method_items(methods: Seq<(String, FunctionType)>, class: Seq<char>, n: int) -> Seq<SItem>
    decreases n,
{
    if n <= 0 {
        Seq::empty()
    } else {
        let rest = method_items(methods, class, n - 1);
        if methods[n - 1].0@ == class {
            rest
        } else {
            rest.push(SItem { label: methods[n - 1].0@, kind: CompletionItemKind::Method, sort_text: None })
        }
    }
}

/// The items of the first `n` fields of a class.
pub open spec fn field_items(fields: Seq<FieldType>, n: int) -> Seq<SItem>
    decreases n,
{
    if n <= 0 {
        Seq::empty()
    } else {
        field_items(fields, n - 1).push(SItem { label: fields[n - 1].name@, kind: CompletionItemKind::Field, sort_text: None })
    }
}

/// The items of the first `n` keys of an object type.
pub open spec fn key_items(entries: Seq<(String, Type)>, n: int) -> Seq<SItem>
    decreases n,
{
    if n <= 0 {
        Seq::empty()
    } else {
        key_items(entries, n - 1).push(SItem { label: entries[n - 1].0@, kind: CompletionItemKind::Field, sort_text: None })
    }
}

/// The items of the members of a type: an instance offers the methods of
/// its class but the constructor, then its fields; an object type offers
/// its keys; other types offer nothing here.
pub open spec fn type_member_items(t: Type) -> Seq<SItem> {
    match t {
        Type::Instance { class } => method_items(class.methods@, class.name@, class.methods@.len() as int) + field_items(
            class.fields@,
            class.fields@.len() as int,
        ),
        Type::Object(entries) => key_items(entries@, entries@.len() as int),
        _ => Seq::empty(),
    }
}

/// The built-in type whose prototype gives the members of `t`, if any.
pub open spec fn built_in_of(t: Type) -> Option<BuiltIn> {
    match t {
        Type::String => Some(BuiltIn::String),
        Type::Number => Some(BuiltIn::Number),
        Type::Array(_) => Some(BuiltIn::Array),
        _ => None,
    }
}

/// The members of a definition that a completion offers: for a definition
/// of a type, the prototype of a built-in type or the members of the type;
/// for an import, the exported symbol of the imported module, which the
/// caller looks up; for anything else, nothing.
pub fn member_plan<'a>(index: &'a SymbolIndex, definition: &'a Symbol) -> (r: MemberPlan<'a>)
    requires
        definition.kind matches SymbolKind::Definition(ty) ==> (ty.0 as int) < index.arena.types@.len(),
    ensures
        match definition.kind {
            SymbolKind::Definition(ty) => {
                let t = index.arena.types@[ty.0 as int];
                match built_in_of(t) {
                    Some(b) => r == MemberPlan::Prototype(b),
                    None => r matches MemberPlan::Items(items) && items_view(items@) == type_member_items(t),
                }
            },
            SymbolKind::Import(source) => r matches MemberPlan::Import { name, source: s } && *name == definition.name
                && *s == source,
            _ => r matches MemberPlan::Items(items) && items@.len() == 0,
        },
{
    match &definition.kind {
        SymbolKind::Definition(ty) => {
            let t = index.arena.get(*ty);
            match t {
                Type::String => MemberPlan::Prototype(BuiltIn::String),
                Type::Number => MemberPlan::Prototype(BuiltIn::Number),
                Type::Array(_) => MemberPlan::Prototype(BuiltIn::Array),
                Type::Instance { class } => {
                    let mut items: Vec<CompletionItemPlan> = Vec::new();
                    let mut i: usize = 0;
                    proof {
                        assert(items_view(items@) =~= Seq::<SItem>::empty());
                    }
                    while i < class.methods.len()
                        invariant
                            i <= class.methods@.len(),
                            items_view(items@) == method_items(class.methods@, class.name@, i as int),
                        decreases class.methods.len() - i,
                    {
                        let ghost before = items@;
                        if !text_eq(&class.methods[i].0, class.name.as_str()) {
                            items.push(CompletionItemPlan { label: class.methods[i].0.clone(), kind: CompletionItemKind::Method, sort_text: None });
                            proof {
                                assert(items_view(items@) =~= items_view(before).push(items@.last()@));
                            }
                        }
                        i += 1;
                    }
                    let ghost methods_part = items_view(items@);
                    let mut j: usize = 0;
                    proof {
                        assert(field_items(class.fields@, 0) =~= Seq::<SItem>::empty());
                        assert(items_view(items@) =~= methods_part + field_items(class.fields@, 0));
                    }
                    while j < class.fields.len()
                        invariant
                            j <= class.fields@.len(),
                            items_view(items@) == methods_part + field_items(class.fields@, j as int),
                        decreases class.fields.len() - j,
                    {
                        let ghost before = items@;
                        items.push(CompletionItemPlan { label: class.fields[j].name.clone(), kind: CompletionItemKind::Field, sort_text: None });
                        proof {
                            assert(items_view(items@) =~= items_view(before).push(items@.last()@));
                            assert(methods_part + field_items(class.fields@, j as int + 1)
                                =~= (methods_part + field_items(class.fields@, j as int)).push(items@.last()@));
                        }
                        j += 1;
                    }
                    MemberPlan::Items(items)
                },
                Type::Object(entries) => {
                    let mut items: Vec<CompletionItemPlan> = Vec::new();
                    let mut i: usize = 0;
                    proof {
                        assert(items_view(items@) =~= Seq::<SItem>::empty());
                    }
                    while i < entries.len()
                        invariant
                            i <= entries@.len(),
                            items_view(items@) == key_items(entries@, i as int),
                        decreases entries.len() - i,
                    {
                        let ghost before = items@;
                        items.push(CompletionItemPlan { label: entries[i].0.clone(), kind: CompletionItemKind::Field, sort_text: None });
                        proof {
                            assert(items_view(items@) =~= items_view(before).push(items@.last()@));
                        }
                        i += 1;
                    }
                    MemberPlan::Items(items)
                },
                _ => {
                    let items: Vec<CompletionItemPlan> = Vec::new();
                    proof {
                        assert(items_view(items@) =~= Seq::<SItem>::empty());
                    }
                    MemberPlan::Items(items)
                },
            }
        },
        SymbolKind::Import(source) => MemberPlan::Import { name: &definition.name, source },
        _ => MemberPlan::Items(Vec::new()),
    }
}


/// Which symbols are offered and as what: a symbol whose name starts with an
/// ASCII letter is offered under its own name, sorted first, as a class if
/// it is a class, as a function if it is a function, and as a variable if it
/// is a definition or an import; nothing else is offered.
pub proof fn law_symbol_offered_as_its_kind(s: Symbol)
    ensures
        (s.name@.len() > 0 && is_ascii_alpha(s.name@[0]) && s.kind is Class) ==> symbol_item(s) == Some(
            SItem { label: s.name@, kind: CompletionItemKind::Class, sort_text: Some("0_"@ + s.name@) },
        ),
        (s.name@.len() > 0 && is_ascii_alpha(s.name@[0]) && s.kind is Function) ==> symbol_item(s) == Some(
            SItem { label: s.name@, kind: CompletionItemKind::Function, sort_text: Some("0_"@ + s.name@) },
        ),
        (s.name@.len() > 0 && is_ascii_alpha(s.name@[0]) && (s.kind is Definition || s.kind is Import)) ==> symbol_item(s)
            == Some(SItem { label: s.name@, kind: CompletionItemKind::Variable, sort_text: Some("0_"@ + s.name@) }),
        (s.name@.len() == 0 || !is_ascii_alpha(s.name@[0])) ==> symbol_item(s) is None,
        (s.kind is Variable || s.kind is Method || s.kind is Constant || s.kind is Property) ==> symbol_item(s) is None,
{
}

/// Every visible symbol that is offered at all is among the names a
/// completion lists.
pub proof fn law_visible_symbol_listed(symbols: Seq<Symbol>, ids: Seq<usize>, k: int)
    requires
        0 <= k < ids.len(),
    ensures
        symbol_item(symbols[ids[k] as int]) matches Some(it) ==> symbol_items(symbols, ids).contains(it),
    decreases ids.len(),
{
    if let Some(it) = symbol_item(symbols[ids[k] as int]) {
        let rest = symbol_items(symbols, ids.drop_last());
        if k == ids.len() - 1 {
            assert(symbol_items(symbols, ids) == rest.push(it));
            assert(rest.push(it)[rest.len() as int] == it);
        } else {
            law_visible_symbol_listed(symbols, ids.drop_last(), k);
            assert(ids.drop_last()[k] == ids[k]);
            let j = choose|j: int| 0 <= j < rest.len() && rest[j] == it;
            match symbol_item(symbols[ids.last() as int]) {
                Some(x) => {
                    assert(rest.push(x)[j] == it);
                },
                None => {},
            }
        }
    }
}


/// The keywords a completion offers: every item is a keyword or boolean
/// literal of the table, offered under its own text as a keyword and
/// sorted after the names.
pub proof fn law_keyword_items_are_words(table: Seq<(Seq<char>, SpecTokenKind)>, n: int, i: int)
    requires
        0 <= n <= table.len(),
        0 <= i < keyword_items(table, n).len(),
    ensures
        ({
            let it = keyword_items(table, n)[i];
            &&& it.kind == CompletionItemKind::Keyword
            &&& it.sort_text == Some("2_"@ + it.label)
            &&& exists|j: int| 0 <= j < n && table[j].0 == it.label && (table[j].1 matches SpecTokenKind::Other(TokenKind::Keyword(_))
                || table[j].1 matches SpecTokenKind::Other(TokenKind::BooleanLiteral { .. }))
        }),
    decreases n,
{
    let rest = keyword_items(table, n - 1);
    if is_word(table[n - 1].1) && i == rest.len() {
        assert(keyword_items(table, n)[i].label == table[n - 1].0);
    } else {
        law_keyword_items_are_words(table, n - 1, i);
        if is_word(table[n - 1].1) {
            assert(keyword_items(table, n)[i] == rest[i]);
        }
        let it = rest[i];
        let j = choose|j: int| 0 <= j < n - 1 && table[j].0 == it.label && (table[j].1 matches SpecTokenKind::Other(TokenKind::Keyword(_))
            || table[j].1 matches SpecTokenKind::Other(TokenKind::BooleanLiteral { .. }));
        assert(0 <= j < n);
    }
}

/// Every keyword and boolean literal of the table is offered, as a keyword.
pub proof fn law_every_word_offered(table: Seq<(Seq<char>, SpecTokenKind)>, n: int, j: int)
    requires
        0 <= j < n <= table.len(),
        table[j].1 matches SpecTokenKind::Other(TokenKind::Keyword(_))
            || table[j].1 matches SpecTokenKind::Other(TokenKind::BooleanLiteral { .. }),
    ensures
        keyword_items(table, n).contains(
            SItem { label: table[j].0, kind: CompletionItemKind::Keyword, sort_text: Some("2_"@ + table[j].0) },
        ),
    decreases n,
{
    let it = SItem { label: table[j].0, kind: CompletionItemKind::Keyword, sort_text: Some("2_"@ + table[j].0) };
    let rest = keyword_items(table, n - 1);
    if j == n - 1 {
        assert(keyword_items(table, n) == rest.push(it));
        assert(rest.push(it)[rest.len() as int] == it);
    } else {
        law_every_word_offered(table, n - 1, j);
        let k = choose|k: int| 0 <= k < rest.len() && rest[k] == it;
        if is_word(table[n - 1].1) {
            let x = SItem { label: table[n - 1].0, kind: CompletionItemKind::Keyword, sort_text: Some("2_"@ + table[n - 1].0) };
            assert(keyword_items(table, n) == rest.push(x));
            assert(rest.push(x)[k] == it);
        }
    }
}


proof fn lemma_method_listed(methods: Seq<(String, FunctionType)>, class: Seq<char>, n: int, i: int)
    requires
        0 <= i < n <= methods.len(),
        methods[i].0@ != class,
    ensures
        method_items(methods, class, n).contains(SItem { label: methods[i].0@, kind: CompletionItemKind::Method, sort_text: None }),
    decreases n,
{
    let it = SItem { label: methods[i].0@, kind: CompletionItemKind::Method, sort_text: None };
    let rest = method_items(methods, class, n - 1);
    if i == n - 1 {
        assert(method_items(methods, class, n) == rest.push(it));
        assert(rest.push(it)[rest.len() as int] == it);
    } else {
        lemma_method_listed(methods, class, n - 1, i);
        let k = choose|k: int| 0 <= k < rest.len() && rest[k] == it;
        if methods[n - 1].0@ != class {
            let x = SItem { label: methods[n - 1].0@, kind: CompletionItemKind::Method, sort_text: None };
            assert(method_items(methods, class, n) == rest.push(x));
            assert(rest.push(x)[k] == it);
        }
    }
}

proof fn lemma_no_constructor_listed(methods: Seq<(String, FunctionType)>, class: Seq<char>, n: int)
    requires
        n <= methods.len(),
    ensures
        forall|k: int| 0 <= k < method_items(methods, class, n).len() ==> (#[trigger] method_items(methods, class, n)[k]).label != class
            && method_items(methods, class, n)[k].kind == CompletionItemKind::Method,
    decreases n,
{
    if n > 0 {
        lemma_no_constructor_listed(methods, class, n - 1);
        let rest = method_items(methods, class, n - 1);
        if methods[n - 1].0@ != class {
            let x = SItem { label: methods[n - 1].0@, kind: CompletionItemKind::Method, sort_text: None };
            assert forall|k: int| 0 <= k < rest.push(x).len() implies (#[trigger] rest.push(x)[k]).label != class
                && rest.push(x)[k].kind == CompletionItemKind::Method by {
                if k < rest.len() {
                    assert(rest.push(x)[k] == rest[k]);
                }
            }
        }
    }
}

proof fn lemma_field_items(fields: Seq<FieldType>, n: int)
    requires
        0 <= n <= fields.len(),
    ensures
        field_items(fields, n).len() == n,
        forall|i: int| 0 <= i < n ==> #[trigger] field_items(fields, n)[i] == (SItem { label: fields[i].name@, kind: CompletionItemKind::Field, sort_text: None }),
    decreases n,
{
    if n > 0 {
        lemma_field_items(fields, n - 1);
    }
}

/// The members offered for an instance of a class: every method but the
/// constructor, as a method, and every field, as a field, in the order of
/// the class; the constructor is never offered.
pub proof fn law_instance_members(class: ClassType)
    ensures
        ({
            let items = type_member_items(Type::Instance { class: Box::new(class) });
            let m = method_items(class.methods@, class.name@, class.methods@.len() as int).len();
            &&& forall|i: int| 0 <= i < class.methods@.len() && class.methods@[i].0@ != class.name@ ==> items.contains(
                SItem { label: class.methods@[i].0@, kind: CompletionItemKind::Method, sort_text: None },
            )
            &&& forall|k: int| 0 <= k < m ==> (#[trigger] items[k]).label != class.name@ && items[k].kind == CompletionItemKind::Method
            &&& items.len() == m + class.fields@.len()
            &&& forall|i: int| 0 <= i < class.fields@.len() ==> #[trigger] items[m + i] == (SItem {
                label: class.fields@[i].name@,
                kind: CompletionItemKind::Field,
                sort_text: None,
            })
        }),
{
    let ms = method_items(class.methods@, class.name@, class.methods@.len() as int);
    let fs = field_items(class.fields@, class.fields@.len() as int);
    let items = type_member_items(Type::Instance { class: Box::new(class) });
    assert(items == ms + fs);
    lemma_no_constructor_listed(class.methods@, class.name@, class.methods@.len() as int);
    lemma_field_items(class.fields@, class.fields@.len() as int);
    assert forall|i: int| 0 <= i < class.methods@.len() && class.methods@[i].0@ != class.name@ implies items.contains(
        SItem { label: class.methods@[i].0@, kind: CompletionItemKind::Method, sort_text: None },
    ) by {
        lemma_method_listed(class.methods@, class.name@, class.methods@.len() as int, i);
        let it = SItem { label: class.methods@[i].0@, kind: CompletionItemKind::Method, sort_text: None };
        let k = choose|k: int| 0 <= k < ms.len() && ms[k] == it;
        assert(items[k] == ms[k]);
    }
    assert forall|k: int| 0 <= k < ms.len() implies (#[trigger] items[k]).label != class.name@ && items[k].kind == CompletionItemKind::Method by {
        assert(items[k] == ms[k]);
    }
    assert forall|i: int| 0 <= i < class.fields@.len() implies #[trigger] items[ms.len() + i] == (SItem {
        label: class.fields@[i].name@,
        kind: CompletionItemKind::Field,
        sort_text: None,
    }) by {
        assert(items[ms.len() + i] == fs[i]);
    }
}

} // verus!
