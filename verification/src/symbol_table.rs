//! The scoped symbol table: a tree of scopes (blocks, function bodies and
//! modules) and the definitions, variables, methods and imports registered
//! in each. Tables only grow; a scope's entries stay in place after the
//! checker leaves it, and lookups walk from the current scope to the root.
use vstd::prelude::*;

use crate::ast::{Location, Visibility};
use crate::text::{views, clone_strings};
use crate::type_info::{plain, KindModel, NumberType, TypeInfo, TypeInfoKind, TypeModel};

verus! {

/// A struct field.
#[derive(Debug)]
pub struct FieldInfo {
    pub name: String,
    pub type_info: TypeInfo,
    pub visibility: Visibility,
}

/// A registered struct.
#[derive(Debug)]
pub struct StructInfo {
    pub name: String,
    pub fields: Vec<FieldInfo>,
    pub type_params: Vec<String>,
    pub visibility: Visibility,
    pub definition_scope_id: u32,
}

/// A registered enum.
#[derive(Debug)]
pub struct EnumInfo {
    pub name: String,
    pub variants: Vec<String>,
    pub visibility: Visibility,
    pub definition_scope_id: u32,
}

/// A function signature.
#[derive(Debug)]
pub struct FuncInfo {
    pub name: String,
    pub type_params: Vec<String>,
    pub param_types: Vec<TypeInfo>,
    pub return_type: TypeInfo,
    pub visibility: Visibility,
    pub definition_scope_id: u32,
}

/// A method registered on a struct.
#[derive(Debug)]
pub struct MethodInfo {
    pub owner_type: String,
    pub signature: FuncInfo,
    pub visibility: Visibility,
    pub scope_id: u32,
    pub has_self: bool,
}

/// What a name in a scope stands for. An import stands for the entry it
/// was resolved to, by index.
#[derive(Debug)]
pub enum Symbol {
    TypeAlias(TypeInfo),
    Struct(StructInfo),
    Enum(EnumInfo),
    Spec,
    Function(FuncInfo),
    Variable(TypeInfo),
    Import(usize),
}

/// A name registered in a scope.
#[derive(Debug)]
pub struct Entry {
    pub scope: u32,
    pub name: String,
    pub symbol: Symbol,
}

/// A scope: its parent, and for modules their name and visibility.
#[derive(Debug)]
pub struct ScopeNode {
    pub id: u32,
    pub parent: Option<u32>,
    pub name: String,
    pub is_module: bool,
    pub visibility: Visibility,
}

/// One imported item with an optional local alias.
#[derive(Debug)]
pub struct ImportItem {
    pub name: String,
    pub alias: Option<String>,
}

/// What an import brings in: the named item, a list of items under the path,
/// or every public item of a module.
#[derive(Debug)]
pub enum ImportKind {
    Plain,
    Partial(Vec<ImportItem>),
    Glob,
}

/// An import as written, registered in a scope before it is resolved.
#[derive(Debug)]
pub struct Import {
    pub path: Vec<String>,
    pub kind: ImportKind,
    pub location: Location,
}

/// The three name spaces that lookups search.
#[derive(Clone, Copy, Debug, PartialEq, Eq, Structural)]
pub enum Namespace {
    Types,
    Functions,
    Variables,
}

/// The scoped tables of names.
#[derive(Debug)]
pub struct SymbolTable {
    pub scopes: Vec<ScopeNode>,
    pub entries: Vec<Entry>,
    pub methods: Vec<MethodInfo>,
    pub imports: Vec<(u32, Import)>,
    pub current: u32,
}

/// Whether a symbol lives in the name space `ns`.
pub open spec fn in_namespace(s: Symbol, ns: Namespace) -> bool {
    match s {
        Symbol::TypeAlias(_) | Symbol::Struct(_) | Symbol::Enum(_) | Symbol::Spec => ns
            == Namespace::Types,
        Symbol::Function(_) => ns == Namespace::Functions,
        Symbol::Variable(_) => ns == Namespace::Variables,
        Symbol::Import(_) => false,
    }
}

/// The index of the definition that entry `j` stands for.
pub open spec fn resolved_index(entries: Seq<Entry>, j: int) -> int {
    match entries[j].symbol {
        Symbol::Import(t) => t as int,
        _ => j,
    }
}

/// Whether entry `j` names `name` in `scope` and stands for a symbol of `ns`.
pub open spec fn entry_matches(
    entries: Seq<Entry>,
    j: int,
    scope: u32,
    name: Seq<char>,
    ns: Namespace,
) -> bool {
    &&& entries[j].scope == scope
    &&& entries[j].name@ == name
    &&& 0 <= resolved_index(entries, j) < entries.len()
    &&& in_namespace(entries[resolved_index(entries, j)].symbol, ns)
}

/// The first of the first `n` entries that matches.
pub open spec fn first_match(
    entries: Seq<Entry>,
    n: int,
    scope: u32,
    name: Seq<char>,
    ns: Namespace,
) -> Option<int>
    decreases n,
{
    if n <= 0 {
        None
    } else {
        match first_match(entries, n - 1, scope, name, ns) {
            Some(j) => Some(j),
            None => if entry_matches(entries, n - 1, scope, name, ns) {
                Some(n - 1)
            } else {
                None
            },
        }
    }
}

/// Whether method `m` is `method` on `owner`.
pub open spec fn method_matches(m: MethodInfo, owner: Seq<char>, method: Seq<char>) -> bool {
    m.owner_type@ == owner && m.signature.name@ == method
}

/// The first of the first `n` methods registered in `scope` that is `method` on `owner`.
pub open spec fn first_method(
    methods: Seq<MethodInfo>,
    n: int,
    scope: u32,
    owner: Seq<char>,
    method: Seq<char>,
) -> Option<int>
    decreases n,
{
    if n <= 0 {
        None
    } else {
        match first_method(methods, n - 1, scope, owner, method) {
            Some(j) => Some(j),
            None => if methods[n - 1].scope_id == scope && method_matches(
                methods[n - 1],
                owner,
                method,
            ) {
                Some(n - 1)
            } else {
                None
            },
        }
    }
}

/// The builtin type that a name denotes, if any: the integer types by their
/// lower-case names, `bool` and `String`.
pub open spec fn builtin_type(name: Seq<char>) -> Option<TypeModel> {
    if name == "i8"@ {
        Some(plain(KindModel::Number(NumberType::I8)))
    } else if name == "i16"@ {
        Some(plain(KindModel::Number(NumberType::I16)))
    } else if name == "i32"@ {
        Some(plain(KindModel::Number(NumberType::I32)))
    } else if name == "i64"@ {
        Some(plain(KindModel::Number(NumberType::I64)))
    } else if name == "u8"@ {
        Some(plain(KindModel::Number(NumberType::U8)))
    } else if name == "u16"@ {
        Some(plain(KindModel::Number(NumberType::U16)))
    } else if name == "u32"@ {
        Some(plain(KindModel::Number(NumberType::U32)))
    } else if name == "u64"@ {
        Some(plain(KindModel::Number(NumberType::U64)))
    } else if name == "bool"@ {
        Some(plain(KindModel::Bool))
    } else if name == "String"@ {
        Some(plain(KindModel::Str))
    } else {
        None
    }
}

/// The type a type-name-space symbol named `name` denotes: an alias its
/// target, a struct or enum its own named type, a spec its name.
pub open spec fn symbol_type(s: Symbol, name: Seq<char>) -> TypeModel {
    match s {
        Symbol::TypeAlias(t) => t@,
        Symbol::Struct(info) => TypeModel {
            kind: KindModel::Struct(info.name@),
            type_params: views(info.type_params@),
        },
        Symbol::Enum(info) => plain(KindModel::Enum(info.name@)),
        _ => plain(KindModel::Spec(name)),
    }
}

/// Whether a symbol may be used outside the scope that defines it. Type
/// aliases and specs are always public.
pub open spec fn symbol_is_public(s: Symbol) -> bool {
    match s {
        Symbol::Struct(info) => info.visibility == Visibility::Public,
        Symbol::Enum(info) => info.visibility == Visibility::Public,
        Symbol::Function(info) => info.visibility == Visibility::Public,
        Symbol::Variable(_) => false,
        Symbol::Import(_) => false,
        _ => true,
    }
}

impl Symbol {
    /// Whether the symbol may be used outside the scope that defines it
    /// (see `symbol_is_public`).
    pub fn is_public(&self) -> (r: bool)
        ensures
            r == symbol_is_public(*self),
    {
        match self {
            Symbol::Struct(info) => info.visibility == Visibility::Public,
            Symbol::Enum(info) => info.visibility == Visibility::Public,
            Symbol::Function(info) => info.visibility == Visibility::Public,
            Symbol::Variable(_) => false,
            Symbol::Import(_) => false,
            _ => true,
        }
    }
}

impl MethodInfo {
    /// Whether the method takes `self`.
    pub fn is_instance_method(&self) -> (r: bool)
        ensures
            r == self.has_self,
    {
        self.has_self
    }
}

/// Two signatures that agree in every part.
pub open spec fn same_signature(a: FuncInfo, b: FuncInfo) -> bool {
    &&& a.name@ == b.name@
    &&& views(a.type_params@) == views(b.type_params@)
    &&& a.param_types@.len() == b.param_types@.len()
    &&& forall|i: int| 0 <= i < a.param_types@.len() ==> #[trigger] a.param_types@[i]@
        == b.param_types@[i]@
    &&& a.return_type@ == b.return_type@
    &&& a.visibility == b.visibility
    &&& a.definition_scope_id == b.definition_scope_id
}

impl FuncInfo {
    /// A copy of the signature.
    pub fn duplicate(&self) -> (r: FuncInfo)
        ensures
            same_signature(r, *self),
    {
        let mut params: Vec<TypeInfo> = Vec::new();
        let mut i: usize = 0;
        while i < self.param_types.len()
            invariant
                i <= self.param_types.len(),
                params@.len() == i,
                forall|k: int| 0 <= k < i ==> #[trigger] params@[k]@ == self.param_types@[k]@,
            decreases self.param_types.len() - i,
        {
            params.push(self.param_types[i].duplicate());
            i = i + 1;
        }
        FuncInfo {
            name: self.name.clone(),
            type_params: clone_strings(&self.type_params),
            param_types: params,
            return_type: self.return_type.duplicate(),
            visibility: self.visibility,
            definition_scope_id: self.definition_scope_id,
        }
    }
}

impl StructInfo {
    /// The index of the field named `name`, if there is one.
    pub fn field_index(&self, name: &String) -> (r: Option<usize>)
        ensures
            match r {
                Some(i) => i < self.fields@.len() && self.fields@[i as int].name@ == name@ && forall|k: int|
                    0 <= k < i ==> #[trigger] self.fields@[k].name@ != name@,
                None => forall|i: int|
                    0 <= i < self.fields@.len() ==> #[trigger] self.fields@[i].name@ != name@,
            },
    {
        let mut i: usize = 0;
        while i < self.fields.len()
            invariant
                i <= self.fields.len(),
                forall|k: int| 0 <= k < i ==> #[trigger] self.fields@[k].name@ != name@,
            decreases self.fields.len() - i,
        {
            if self.fields[i].name == *name {
                return Some(i);
            }
            i = i + 1;
        }
        None
    }
}

impl SymbolTable {
    /// The tables are consistent: scopes are numbered by position and each
    /// parent precedes its children; the current scope exists; entries,
    /// methods and imports belong to existing scopes; an import entry stands
    /// for an earlier entry that is not itself an import.
    pub open spec fn wf(&self) -> bool {
        &&& 1 <= self.scopes@.len() <= u32::MAX
        &&& self.scopes@[0].parent is None
        &&& forall|i: int| 0 <= i < self.scopes@.len() ==> #[trigger] self.scopes@[i].id == i
        &&& forall|i: int|
            0 <= i < self.scopes@.len() ==> match #[trigger] self.scopes@[i].parent {
                Some(p) => p < i,
                None => true,
            }
        &&& self.current < self.scopes@.len()
        &&& forall|j: int|
            0 <= j < self.entries@.len() ==> #[trigger] self.entries@[j].scope
                < self.scopes@.len()
        &&& forall|j: int|
            0 <= j < self.entries@.len() ==> match #[trigger] self.entries@[j].symbol {
                Symbol::Import(t) => t < j && !(self.entries@[t as int].symbol is Import),
                _ => true,
            }
        &&& forall|j: int|
            0 <= j < self.methods@.len() ==> #[trigger] self.methods@[j].scope_id
                < self.scopes@.len()
        &&& forall|j: int|
            0 <= j < self.imports@.len() ==> #[trigger] self.imports@[j].0 < self.scopes@.len()
    }

    /// The parent of scope `s`, if it has one.
    pub open spec fn parent_of(&self, s: u32) -> Option<u32> {
        if s < self.scopes@.len() {
            self.scopes@[s as int].parent
        } else {
            None
        }
    }

    /// Whether `a` is `t` or lies below it in the scope tree.
    pub open spec fn is_descendant(&self, a: u32, t: u32) -> bool
        decreases a,
    {
        a == t || match self.parent_of(a) {
            Some(p) => p < a && self.is_descendant(p, t),
            None => false,
        }
    }

    /// The definition that `name` denotes in name space `ns` as seen from
    /// scope `s`: the first matching entry of `s`, else what the parent sees.
    pub open spec fn lookup_from(&self, s: u32, name: Seq<char>, ns: Namespace) -> Option<int>
        decreases s,
    {
        match first_match(self.entries@, self.entries@.len() as int, s, name, ns) {
            Some(j) => Some(resolved_index(self.entries@, j)),
            None => match self.parent_of(s) {
                Some(p) => if p < s {
                    self.lookup_from(p, name, ns)
                } else {
                    None
                },
                None => None,
            },
        }
    }

    /// The definition that `name` denotes in `ns` from the current scope.
    pub open spec fn lookup(&self, name: Seq<char>, ns: Namespace) -> Option<int> {
        self.lookup_from(self.current, name, ns)
    }

    /// The method `method` of `owner` as seen from scope `s`.
    pub open spec fn method_from(&self, s: u32, owner: Seq<char>, method: Seq<char>) -> Option<
        int,
    >
        decreases s,
    {
        match first_method(self.methods@, self.methods@.len() as int, s, owner, method) {
            Some(j) => Some(j),
            None => match self.parent_of(s) {
                Some(p) => if p < s {
                    self.method_from(p, owner, method)
                } else {
                    None
                },
                None => None,
            },
        }
    }

    /// The type that `name` denotes from the current scope: a builtin name,
    /// else the type of the type-name-space symbol it resolves to.
    pub open spec fn type_named(&self, name: Seq<char>) -> Option<TypeModel> {
        match builtin_type(name) {
            Some(t) => Some(t),
            None => match self.lookup(name, Namespace::Types) {
                Some(j) => Some(symbol_type(self.entries@[j].symbol, self.entries@[j].name@)),
                None => None,
            },
        }
    }

    /// The type of the variable `name` from the current scope.
    pub open spec fn variable_type(&self, name: Seq<char>) -> Option<TypeModel> {
        match self.lookup(name, Namespace::Variables) {
            Some(j) => match self.entries@[j].symbol {
                Symbol::Variable(t) => Some(t@),
                _ => None,
            },
            None => None,
        }
    }

    /// Whether a name of `ns` is registered in scope `s` itself.
    pub open spec fn defined_in(&self, s: u32, name: Seq<char>, ns: Namespace) -> bool {
        first_match(self.entries@, self.entries@.len() as int, s, name, ns) is Some
    }

    /// Everything but the entries is as in `other`.
    pub open spec fn same_scopes(&self, other: &SymbolTable) -> bool {
        &&& self.scopes@ == other.scopes@
        &&& self.current == other.current
    }
}

/// A prefix of the entries keeps its first matches.
pub proof fn lemma_first_match_prefix(
    entries: Seq<Entry>,
    longer: Seq<Entry>,
    n: int,
    scope: u32,
    name: Seq<char>,
    ns: Namespace,
)
    requires
        0 <= n <= entries.len() <= longer.len(),
        forall|j: int| 0 <= j < entries.len() ==> #[trigger] longer[j] == entries[j],
        forall|j: int|
            0 <= j < entries.len() ==> match #[trigger] entries[j].symbol {
                Symbol::Import(t) => t < j,
                _ => true,
            },
    ensures
        first_match(longer, n, scope, name, ns) == first_match(entries, n, scope, name, ns),
    decreases n,
{
    if n > 0 {
        lemma_first_match_prefix(entries, longer, n - 1, scope, name, ns);
        assert(longer[n - 1] == entries[n - 1]);
        match entries[n - 1].symbol {
            Symbol::Import(t) => {
                assert(longer[t as int] == entries[t as int]);
            },
            _ => {
            },
        }
    }
}


/// A first match is a matching entry among the first `n`.
pub proof fn lemma_first_match_sound(
    entries: Seq<Entry>,
    n: int,
    scope: u32,
    name: Seq<char>,
    ns: Namespace,
)
    ensures
        first_match(entries, n, scope, name, ns) matches Some(j) ==> 0 <= j < n && entry_matches(
            entries,
            j,
            scope,
            name,
            ns,
        ),
    decreases n,
{
    if n > 0 {
        lemma_first_match_sound(entries, n - 1, scope, name, ns);
    }
}

/// A first method match is a matching method among the first `n`.
pub proof fn lemma_first_method_sound(
    methods: Seq<MethodInfo>,
    n: int,
    scope: u32,
    owner: Seq<char>,
    method: Seq<char>,
)
    ensures
        first_method(methods, n, scope, owner, method) matches Some(j) ==> 0 <= j < n
            && methods[j].scope_id == scope && method_matches(methods[j], owner, method),
    decreases n,
{
    if n > 0 {
        lemma_first_method_sound(methods, n - 1, scope, owner, method);
    }
}

/// Once a match is found among the first `m` entries, it stays the first match.
pub proof fn lemma_first_match_stable(
    entries: Seq<Entry>,
    m: int,
    n: int,
    scope: u32,
    name: Seq<char>,
    ns: Namespace,
)
    requires
        0 <= m <= n,
        first_match(entries, m, scope, name, ns) is Some,
    ensures
        first_match(entries, n, scope, name, ns) == first_match(entries, m, scope, name, ns),
    decreases n - m,
{
    if m < n {
        lemma_first_match_stable(entries, m, n - 1, scope, name, ns);
    }
}

/// The first match of a matching entry appended after entries with none.
pub proof fn lemma_first_match_pushed(
    entries: Seq<Entry>,
    e: Entry,
    scope: u32,
    name: Seq<char>,
    ns: Namespace,
)
    requires
        first_match(entries, entries.len() as int, scope, name, ns) is None,
        forall|j: int|
            0 <= j < entries.len() ==> match #[trigger] entries[j].symbol {
                Symbol::Import(t) => t < j,
                _ => true,
            },
    ensures
        first_match(entries.push(e), entries.len() as int + 1, scope, name, ns) == (if entry_matches(
            entries.push(e),
            entries.len() as int,
            scope,
            name,
            ns,
        ) {
            Some(entries.len() as int)
        } else {
            None::<int>
        }),
{
    lemma_first_match_prefix(entries, entries.push(e), entries.len() as int, scope, name, ns);
}

impl SymbolTable {
    /// Every entry of `old` is still in its place.
    pub open spec fn grows_from(&self, old: &SymbolTable) -> bool {
        &&& old.entries@.len() <= self.entries@.len()
        &&& forall|j: int| 0 <= j < old.entries@.len() ==> #[trigger] self.entries@[j] == old.entries@[j]
    }
}

/// Every scope of `old` is still in its place in `t`.
pub open spec fn scopes_kept(t: SymbolTable, old: SymbolTable) -> bool {
    &&& old.scopes@.len() <= t.scopes@.len()
    &&& forall|s: int| 0 <= s < old.scopes@.len() ==> #[trigger] t.scopes@[s] == old.scopes@[s]
}

/// Growth of the entries is transitive.
pub proof fn lemma_grows_trans(a: SymbolTable, b: SymbolTable, c: SymbolTable)
    requires
        b.grows_from(&a),
        c.grows_from(&b),
    ensures
        c.grows_from(&a),
{
    assert forall|j: int| 0 <= j < a.entries@.len() implies #[trigger] c.entries@[j] == a.entries@[j] by {
        assert(b.entries@[j] == a.entries@[j]);
    }
}

/// What a scope defines stays defined as the entries grow.
pub proof fn lemma_defined_stays(old: SymbolTable, new: SymbolTable, s: u32, name: Seq<char>, ns: Namespace)
    requires
        old.wf(),
        new.grows_from(&old),
        old.defined_in(s, name, ns),
    ensures
        new.defined_in(s, name, ns),
{
    lemma_first_match_prefix(old.entries@, new.entries@, old.entries@.len() as int, s, name, ns);
    lemma_first_match_stable(new.entries@, old.entries@.len() as int, new.entries@.len() as int, s, name, ns);
}

/// A name bound by an appended import entry is defined in its scope, in
/// the name space of the definition it stands for.
pub proof fn lemma_import_defined(old: SymbolTable, new: SymbolTable, e: Entry, j: usize, ns: Namespace)
    requires
        old.wf(),
        new.appended_entry(&old, e),
        e.symbol == Symbol::Import(j),
        j < old.entries@.len(),
        in_namespace(old.entries@[j as int].symbol, ns),
    ensures
        new.defined_in(e.scope, e.name@, ns),
        new.grows_from(&old),
{
    if old.defined_in(e.scope, e.name@, ns) {
        lemma_defined_stays(old, new, e.scope, e.name@, ns);
    } else {
        lemma_first_match_pushed(old.entries@, e, e.scope, e.name@, ns);
        let n = old.entries@.len() as int;
        assert(new.entries@[j as int] == old.entries@[j as int]);
        assert(new.entries@[n] == e);
        assert(entry_matches(new.entries@, n, e.scope, e.name@, ns));
    }
}

/// An appended definition is defined in its scope.
pub proof fn lemma_defined_after_append(old: SymbolTable, new: SymbolTable, e: Entry, ns: Namespace)
    requires
        old.wf(),
        new.appended_entry(&old, e),
        in_namespace(e.symbol, ns),
    ensures
        new.defined_in(e.scope, e.name@, ns),
        new.grows_from(&old),
{
    if old.defined_in(e.scope, e.name@, ns) {
        lemma_defined_stays(old, new, e.scope, e.name@, ns);
    } else {
        lemma_first_match_pushed(old.entries@, e, e.scope, e.name@, ns);
    }
}

/// The text of a registration refused because the name is taken:
/// `<kind> `<name>` is already defined in this scope`.
pub open spec fn already_defined_text(kind: Seq<char>, name: Seq<char>) -> Seq<char> {
    kind + " `"@ + name + "` is already defined in this scope"@
}

fn already_defined(kind: &str, name: &String) -> (r: String)
    ensures
        r@ == already_defined_text(kind@, name@),
{
    proof {
        reveal_strlit(" `");
        reveal_strlit("` is already defined in this scope");
    }
    let mut r = String::from_str(kind);
    r.append(" `");
    r.append(name.as_str());
    r.append("` is already defined in this scope");
    r
}

fn symbol_in_namespace(s: &Symbol, ns: Namespace) -> (r: bool)
    ensures
        r == in_namespace(*s, ns),
{
    match s {
        Symbol::TypeAlias(_) | Symbol::Struct(_) | Symbol::Enum(_) | Symbol::Spec => ns
            == Namespace::Types,
        Symbol::Function(_) => ns == Namespace::Functions,
        Symbol::Variable(_) => ns == Namespace::Variables,
        Symbol::Import(_) => false,
    }
}

fn builtin_type_of(name: &String) -> (r: Option<TypeInfo>)
    ensures
        match r {
            Some(t) => builtin_type(name@) == Some(t@),
            None => builtin_type(name@) is None,
        },
{
    proof {
        reveal_strlit("i8");
        reveal_strlit("i16");
        reveal_strlit("i32");
        reveal_strlit("i64");
        reveal_strlit("u8");
        reveal_strlit("u16");
        reveal_strlit("u32");
        reveal_strlit("u64");
        reveal_strlit("bool");
        reveal_strlit("String");
    }
    let kind = if *name == String::from_str("i8") {
        TypeInfoKind::Number(NumberType::I8)
    } else if *name == String::from_str("i16") {
        TypeInfoKind::Number(NumberType::I16)
    } else if *name == String::from_str("i32") {
        TypeInfoKind::Number(NumberType::I32)
    } else if *name == String::from_str("i64") {
        TypeInfoKind::Number(NumberType::I64)
    } else if *name == String::from_str("u8") {
        TypeInfoKind::Number(NumberType::U8)
    } else if *name == String::from_str("u16") {
        TypeInfoKind::Number(NumberType::U16)
    } else if *name == String::from_str("u32") {
        TypeInfoKind::Number(NumberType::U32)
    } else if *name == String::from_str("u64") {
        TypeInfoKind::Number(NumberType::U64)
    } else if *name == String::from_str("bool") {
        TypeInfoKind::Bool
    } else if *name == String::from_str("String") {
        TypeInfoKind::String
    } else {
        return None;
    };
    Some(TypeInfo::of_kind(kind))
}

impl SymbolTable {
    /// A table with only the root scope, which is current.
    pub fn new() -> (r: SymbolTable)
        ensures
            r.wf(),
            r.scopes@.len() == 1,
            r.current == 0,
            r.entries@.len() == 0,
            r.methods@.len() == 0,
            r.imports@.len() == 0,
    {
        let mut scopes: Vec<ScopeNode> = Vec::new();
        scopes.push(
            ScopeNode {
                id: 0,
                parent: None,
                name: String::new(),
                is_module: true,
                visibility: Visibility::Public,
            },
        );
        SymbolTable {
            scopes,
            entries: Vec::new(),
            methods: Vec::new(),
            imports: Vec::new(),
            current: 0,
        }
    }

    /// The identifier of the current scope.
    pub fn current_scope_id(&self) -> (r: u32)
        ensures
            r == self.current,
    {
        self.current
    }

    /// The number of scopes; scopes are numbered from 0.
    pub fn scope_count(&self) -> (r: usize)
        ensures
            r == self.scopes@.len(),
    {
        self.scopes.len()
    }

    /// The parent of scope `s`, if it has one.
    pub fn scope_parent(&self, s: u32) -> (r: Option<u32>)
        requires
            self.wf(),
        ensures
            r == self.parent_of(s),
    {
        if (s as usize) < self.scopes.len() {
            self.scopes[s as usize].parent
        } else {
            None
        }
    }

    fn add_scope(&mut self, name: String, is_module: bool, visibility: Visibility) -> (r: u32)
        requires
            old(self).wf(),
            old(self).scopes@.len() < u32::MAX,
        ensures
            final(self).wf(),
            r == old(self).scopes@.len(),
            final(self).scopes@.len() == old(self).scopes@.len() + 1,
            final(self).scopes@.take(old(self).scopes@.len() as int) == old(self).scopes@,
            scopes_kept(*final(self), *old(self)),
            final(self).scopes@[r as int].parent == Some(old(self).current),
            final(self).scopes@[r as int].name@ == name@,
            final(self).scopes@[r as int].is_module == is_module,
            final(self).scopes@[r as int].visibility == visibility,
            final(self).current == r,
            final(self).entries@ == old(self).entries@,
            final(self).methods@ == old(self).methods@,
            final(self).imports@ == old(self).imports@,
    {
        let id = self.scopes.len() as u32;
        let parent = self.current;
        self.scopes.push(ScopeNode { id, parent: Some(parent), name, is_module, visibility });
        self.current = id;
        proof {
            assert(self.scopes@.take(old(self).scopes@.len() as int) =~= old(self).scopes@);
        }
        id
    }

    /// Opens a new block scope below the current one and makes it current.
    /// When no scope identifier is left, the current scope stays current.
    pub fn push_scope(&mut self)
        requires
            old(self).wf(),
        ensures
            final(self).wf(),
            final(self).entries@ == old(self).entries@,
            final(self).methods@ == old(self).methods@,
            final(self).imports@ == old(self).imports@,
            final(self).scopes@.len() >= old(self).scopes@.len(),
            final(self).scopes@.take(old(self).scopes@.len() as int) == old(self).scopes@,
            scopes_kept(*final(self), *old(self)),
            old(self).scopes@.len() < u32::MAX ==> final(self).scopes@.len() == old(self).scopes@.len() + 1
                && final(self).current == old(self).scopes@.len() && final(self).parent_of(
                final(self).current,
            ) == Some(old(self).current),
            old(self).scopes@.len() < u32::MAX ==> final(self).scopes@.last().name@ == Seq::<char>::empty()
                && !final(self).scopes@.last().is_module && final(self).scopes@.last().visibility
                == Visibility::Private,
            old(self).scopes@.len() == u32::MAX ==> *final(self) == *old(self),
    {
        if self.scopes.len() < u32::MAX as usize {
            self.add_scope(String::new(), false, Visibility::Private);
        } else {
            proof {
                assert(self.scopes@.take(self.scopes@.len() as int) =~= self.scopes@);
            }
        }
    }

    /// Leaves the current scope for its parent; at the root nothing changes.
    pub fn pop_scope(&mut self)
        requires
            old(self).wf(),
        ensures
            final(self).wf(),
            final(self).scopes@ == old(self).scopes@,
            final(self).entries@ == old(self).entries@,
            final(self).methods@ == old(self).methods@,
            final(self).imports@ == old(self).imports@,
            final(self).current == (match old(self).parent_of(old(self).current) {
                Some(p) => p,
                None => old(self).current,
            }),
    {
        if let Some(p) = self.scopes[self.current as usize].parent {
            self.current = p;
        }
    }

    /// Opens a module scope named `name` below the current one and makes it
    /// current; returns its identifier. When no scope identifier is left, the
    /// current scope stays current and is returned.
    pub fn enter_module(&mut self, name: String, visibility: Visibility) -> (r: u32)
        requires
            old(self).wf(),
        ensures
            final(self).wf(),
            r == final(self).current,
            final(self).entries@ == old(self).entries@,
            final(self).methods@ == old(self).methods@,
            final(self).imports@ == old(self).imports@,
            final(self).scopes@.take(old(self).scopes@.len() as int) == old(self).scopes@,
            scopes_kept(*final(self), *old(self)),
            old(self).scopes@.len() < u32::MAX ==> final(self).scopes@.len() == old(self).scopes@.len() + 1
                && r == old(self).scopes@.len() && final(self).parent_of(r) == Some(old(self).current)
                && final(self).scopes@[r as int].name@ == name@ && final(self).scopes@[r as int].is_module,
            old(self).scopes@.len() == u32::MAX ==> *final(self) == *old(self),
    {
        if self.scopes.len() < u32::MAX as usize {
            self.add_scope(name, true, visibility)
        } else {
            proof {
                assert(self.scopes@.take(self.scopes@.len() as int) =~= self.scopes@);
            }
            self.current
        }
    }

    /// The first entry registered in scope `s` itself that names `name` in `ns`.
    pub fn find_in_scope(&self, s: u32, name: &String, ns: Namespace) -> (r: Option<usize>)
        requires
            self.wf(),
        ensures
            match r {
                Some(j) => first_match(self.entries@, self.entries@.len() as int, s, name@, ns)
                    == Some(j as int),
                None => first_match(self.entries@, self.entries@.len() as int, s, name@, ns)
                    is None,
            },
    {
        let mut j: usize = 0;
        while j < self.entries.len()
            invariant
                self.wf(),
                j <= self.entries@.len(),
                first_match(self.entries@, j as int, s, name@, ns) is None,
            decreases self.entries@.len() - j,
        {
            if self.entries[j].scope == s && self.entries[j].name == *name {
                let k = match self.entries[j].symbol {
                    Symbol::Import(t) => t,
                    _ => j,
                };
                if symbol_in_namespace(&self.entries[k].symbol, ns) {
                    proof {
                        assert(first_match(self.entries@, j + 1, s, name@, ns) == Some(j as int));
                        lemma_first_match_stable(
                            self.entries@,
                            j + 1,
                            self.entries@.len() as int,
                            s,
                            name@,
                            ns,
                        );
                    }
                    return Some(j);
                }
            }
            j = j + 1;
        }
        None
    }

    /// The definition `name` denotes in `ns` from the current scope (see `lookup`).
    pub fn lookup_index(&self, name: &String, ns: Namespace) -> (r: Option<usize>)
        requires
            self.wf(),
        ensures
            match r {
                Some(j) => self.lookup(name@, ns) == Some(j as int) && j < self.entries@.len()
                    && in_namespace(self.entries@[j as int].symbol, ns),
                None => self.lookup(name@, ns) is None,
            },
    {
        let mut s = self.current;
        loop
            invariant
                self.wf(),
                s < self.scopes@.len(),
                self.lookup_from(s, name@, ns) == self.lookup(name@, ns),
            decreases s,
        {
            let found = self.find_in_scope(s, name, ns);
            proof {
                lemma_first_match_sound(self.entries@, self.entries@.len() as int, s, name@, ns);
            }
            match found {
                Some(j) => {
                    let k = match self.entries[j].symbol {
                        Symbol::Import(t) => t,
                        _ => j,
                    };
                    return Some(k);
                },
                None => {
                    match self.scopes[s as usize].parent {
                        Some(p) => {
                            s = p;
                        },
                        None => {
                            return None;
                        },
                    }
                },
            }
        }
    }

    /// The type `name` denotes from the current scope (see `type_named`).
    pub fn lookup_type(&self, name: &String) -> (r: Option<TypeInfo>)
        requires
            self.wf(),
        ensures
            match r {
                Some(t) => self.type_named(name@) == Some(t@),
                None => self.type_named(name@) is None,
            },
    {
        if let Some(t) = builtin_type_of(name) {
            return Some(t);
        }
        match self.lookup_index(name, Namespace::Types) {
            Some(j) => {
                let e = &self.entries[j];
                let t = match &e.symbol {
                    Symbol::TypeAlias(t) => t.duplicate(),
                    Symbol::Struct(info) => TypeInfo {
                        kind: TypeInfoKind::Struct(info.name.clone()),
                        type_params: clone_strings(&info.type_params),
                    },
                    Symbol::Enum(info) => TypeInfo::of_kind(TypeInfoKind::Enum(info.name.clone())),
                    _ => TypeInfo::of_kind(TypeInfoKind::Spec(e.name.clone())),
                };
                Some(t)
            },
            None => None,
        }
    }

    /// The type of the variable `name` from the current scope (see `variable_type`).
    pub fn lookup_variable(&self, name: &String) -> (r: Option<TypeInfo>)
        requires
            self.wf(),
        ensures
            match r {
                Some(t) => self.variable_type(name@) == Some(t@),
                None => self.variable_type(name@) is None,
            },
    {
        match self.lookup_index(name, Namespace::Variables) {
            Some(j) => match &self.entries[j].symbol {
                Symbol::Variable(t) => Some(t.duplicate()),
                _ => None,
            },
            None => None,
        }
    }

    /// The struct `name` denotes from the current scope, by entry index.
    pub fn lookup_struct(&self, name: &String) -> (r: Option<usize>)
        requires
            self.wf(),
        ensures
            match r {
                Some(j) => self.lookup(name@, Namespace::Types) == Some(j as int) && j
                    < self.entries@.len() && self.entries@[j as int].symbol is Struct,
                None => !(self.lookup(name@, Namespace::Types) matches Some(j)
                    && self.entries@[j].symbol is Struct),
            },
    {
        match self.lookup_index(name, Namespace::Types) {
            Some(j) => match &self.entries[j].symbol {
                Symbol::Struct(_) => Some(j),
                _ => None,
            },
            None => None,
        }
    }

    /// The enum `name` denotes from the current scope, by entry index.
    pub fn lookup_enum(&self, name: &String) -> (r: Option<usize>)
        requires
            self.wf(),
        ensures
            match r {
                Some(j) => self.lookup(name@, Namespace::Types) == Some(j as int) && j
                    < self.entries@.len() && self.entries@[j as int].symbol is Enum,
                None => !(self.lookup(name@, Namespace::Types) matches Some(j)
                    && self.entries@[j].symbol is Enum),
            },
    {
        match self.lookup_index(name, Namespace::Types) {
            Some(j) => match &self.entries[j].symbol {
                Symbol::Enum(_) => Some(j),
                _ => None,
            },
            None => None,
        }
    }

    /// The function `name` denotes from the current scope, by entry index.
    pub fn lookup_function(&self, name: &String) -> (r: Option<usize>)
        requires
            self.wf(),
        ensures
            match r {
                Some(j) => self.lookup(name@, Namespace::Functions) == Some(j as int) && j
                    < self.entries@.len() && self.entries@[j as int].symbol is Function,
                None => self.lookup(name@, Namespace::Functions) is None,
            },
    {
        self.lookup_index(name, Namespace::Functions)
    }

    /// The method `method` of `owner` from the current scope, by index (see `method_from`).
    pub fn lookup_method(&self, owner: &String, method: &String) -> (r: Option<usize>)
        requires
            self.wf(),
        ensures
            match r {
                Some(j) => self.method_from(self.current, owner@, method@) == Some(j as int)
                    && j < self.methods@.len(),
                None => self.method_from(self.current, owner@, method@) is None,
            },
    {
        let mut s = self.current;
        loop
            invariant
                self.wf(),
                s < self.scopes@.len(),
                self.method_from(s, owner@, method@) == self.method_from(
                    self.current,
                    owner@,
                    method@,
                ),
            decreases s,
        {
            let mut j: usize = 0;
            while j < self.methods.len()
                invariant
                    self.wf(),
                    j <= self.methods@.len(),
                    first_method(self.methods@, j as int, s, owner@, method@) is None,
                    s < self.scopes@.len(),
                    self.method_from(s, owner@, method@) == self.method_from(
                        self.current,
                        owner@,
                        method@,
                    ),
                decreases self.methods@.len() - j,
            {
                let m = &self.methods[j];
                if m.scope_id == s && m.owner_type == *owner && m.signature.name == *method {
                    proof {
                        assert(first_method(self.methods@, j + 1, s, owner@, method@) == Some(j as int));
                        lemma_first_method_stable(
                            self.methods@,
                            j + 1,
                            self.methods@.len() as int,
                            s,
                            owner@,
                            method@,
                        );
                        assert(self.method_from(s, owner@, method@) == Some(j as int));
                    }
                    return Some(j);
                }
                j = j + 1;
            }
            match self.scopes[s as usize].parent {
                Some(p) => {
                    s = p;
                },
                None => {
                    return None;
                },
            }
        }
    }
}

/// Once a method match is found among the first `m`, it stays the first match.
pub proof fn lemma_first_method_stable(
    methods: Seq<MethodInfo>,
    m: int,
    n: int,
    scope: u32,
    owner: Seq<char>,
    method: Seq<char>,
)
    requires
        0 <= m <= n,
        first_method(methods, m, scope, owner, method) is Some,
    ensures
        first_method(methods, n, scope, owner, method) == first_method(
            methods,
            m,
            scope,
            owner,
            method,
        ),
    decreases n - m,
{
    if m < n {
        lemma_first_method_stable(methods, m, n - 1, scope, owner, method);
    }
}


/// The first scope among the first `n` that is a module named `name` directly below `parent`.
pub open spec fn first_child_module(scopes: Seq<ScopeNode>, n: int, parent: u32, name: Seq<char>) -> Option<int>
    decreases n,
{
    if n <= 0 {
        None
    } else {
        match first_child_module(scopes, n - 1, parent, name) {
            Some(i) => Some(i),
            None => if scopes[n - 1].parent == Some(parent) && scopes[n - 1].is_module
                && scopes[n - 1].name@ == name {
                Some(n - 1)
            } else {
                None
            },
        }
    }
}

/// Once a child module is found among the first `m` scopes, it stays the first one.
pub proof fn lemma_first_child_stable(scopes: Seq<ScopeNode>, m: int, n: int, parent: u32, name: Seq<char>)
    requires
        0 <= m <= n,
        first_child_module(scopes, m, parent, name) is Some,
    ensures
        first_child_module(scopes, n, parent, name) == first_child_module(scopes, m, parent, name),
    decreases n - m,
{
    if m < n {
        lemma_first_child_stable(scopes, m, n - 1, parent, name);
    }
}

/// A first child module is a matching scope among the first `n`.
pub proof fn lemma_first_child_sound(scopes: Seq<ScopeNode>, n: int, parent: u32, name: Seq<char>)
    ensures
        first_child_module(scopes, n, parent, name) matches Some(i) ==> 0 <= i < n
            && scopes[i].parent == Some(parent) && scopes[i].is_module && scopes[i].name@ == name,
    decreases n,
{
    if n > 0 {
        lemma_first_child_sound(scopes, n - 1, parent, name);
    }
}

/// The symbol `name` of the qualified path `path`: the module its leading
/// segments name, and the type or function (in that order) registered there
/// under its last segment.
pub open spec fn qualified_target(t: SymbolTable, path: Seq<Seq<char>>) -> Option<(int, u32)> {
    if path.len() == 0 {
        None
    } else {
        match t.module_at(path.drop_last()) {
            Some(m) => match first_match(t.entries@, t.entries@.len() as int, m, path.last(), Namespace::Types) {
                Some(j) => Some((resolved_index(t.entries@, j), m)),
                None => match first_match(t.entries@, t.entries@.len() as int, m, path.last(), Namespace::Functions) {
                    Some(j) => Some((resolved_index(t.entries@, j), m)),
                    None => None,
                },
            },
            None => None,
        }
    }
}

/// Whether entry `j` is a public definition made in scope `s` itself.
pub open spec fn public_definition_in(entries: Seq<Entry>, j: int, s: u32) -> bool {
    &&& entries[j].scope == s
    &&& !(entries[j].symbol is Import)
    &&& symbol_is_public(entries[j].symbol)
}

impl SymbolTable {
    /// The module scope that `path` names, from the root: the root for the
    /// empty path, else the first module below the prefix's module named by
    /// the last segment.
    pub open spec fn module_at(&self, path: Seq<Seq<char>>) -> Option<u32>
        decreases path.len(),
    {
        if path.len() == 0 {
            Some(0)
        } else {
            match self.module_at(path.drop_last()) {
                Some(p) => match first_child_module(self.scopes@, self.scopes@.len() as int, p, path.last()) {
                    Some(i) => Some(i as u32),
                    None => None,
                },
                None => None,
            }
        }
    }

    /// Entries, methods and imports as before, with one entry appended.
    pub open spec fn appended_entry(&self, old: &SymbolTable, e: Entry) -> bool {
        &&& self.entries@ == old.entries@.push(e)
        &&& self.scopes@ == old.scopes@
        &&& self.current == old.current
        &&& self.methods@ == old.methods@
        &&& self.imports@ == old.imports@
    }

    fn define(&mut self, name: &String, symbol: Symbol, ns: Namespace, kind: &str) -> (r: Result<(), String>)
        requires
            old(self).wf(),
            in_namespace(symbol, ns),
        ensures
            final(self).wf(),
            match r {
                Ok(()) => !old(self).defined_in(old(self).current, name@, ns) && final(self).appended_entry(
                    old(self),
                    Entry { scope: old(self).current, name: *name, symbol },
                ) && final(self).lookup(name@, ns) == Some(old(self).entries@.len() as int),
                Err(msg) => old(self).defined_in(old(self).current, name@, ns) && *final(self)
                    == *old(self) && msg@ == already_defined_text(kind@, name@),
            },
    {
        if self.find_in_scope(self.current, name, ns).is_some() {
            return Err(already_defined(kind, name));
        }
        let e = Entry { scope: self.current, name: name.clone(), symbol };
        let ghost eg = e;
        self.entries.push(e);
        proof {
            lemma_defined_visible(*old(self), *self, eg, ns);
        }
        Ok(())
    }

    /// Registers the type alias `name` for `ty` in the current scope; refused
    /// when a type of that name is registered there already.
    pub fn register_type(&mut self, name: &String, ty: TypeInfo) -> (r: Result<(), String>)
        requires
            old(self).wf(),
        ensures
            final(self).wf(),
            match r {
                Ok(()) => !old(self).defined_in(old(self).current, name@, Namespace::Types) && final(self).appended_entry(
                    old(self),
                    Entry { scope: old(self).current, name: *name, symbol: Symbol::TypeAlias(ty) },
                ),
                Err(msg) => old(self).defined_in(old(self).current, name@, Namespace::Types) && *final(self)
                    == *old(self) && msg@ == already_defined_text("type"@, name@),
            },
            r is Ok ==> final(self).lookup(name@, Namespace::Types) == Some(old(self).entries@.len() as int),
            r is Ok && builtin_type(name@) is None ==> final(self).type_named(name@) == Some(ty@),
    {
        proof {
            reveal_strlit("type");
        }
        self.define(name, Symbol::TypeAlias(ty), Namespace::Types, "type")
    }

    /// Registers the struct `name` in the current scope; refused when a type
    /// of that name is registered there already.
    pub fn register_struct(
        &mut self,
        name: &String,
        fields: Vec<FieldInfo>,
        type_params: Vec<String>,
        visibility: Visibility,
    ) -> (r: Result<(), String>)
        requires
            old(self).wf(),
        ensures
            final(self).wf(),
            match r {
                Ok(()) => !old(self).defined_in(old(self).current, name@, Namespace::Types) && final(self).appended_entry(
                    old(self),
                    Entry {
                        scope: old(self).current,
                        name: *name,
                        symbol: Symbol::Struct(
                            StructInfo {
                                name: *name,
                                fields,
                                type_params,
                                visibility,
                                definition_scope_id: old(self).current,
                            },
                        ),
                    },
                ),
                Err(msg) => old(self).defined_in(old(self).current, name@, Namespace::Types) && *final(self)
                    == *old(self) && msg@ == already_defined_text("struct"@, name@),
            },
            r is Ok ==> final(self).lookup(name@, Namespace::Types) == Some(old(self).entries@.len() as int),
    {
        proof {
            reveal_strlit("struct");
        }
        let info = StructInfo {
            name: name.clone(),
            fields,
            type_params,
            visibility,
            definition_scope_id: self.current,
        };
        self.define(name, Symbol::Struct(info), Namespace::Types, "struct")
    }

    /// Registers the enum `name` in the current scope; refused when a type of
    /// that name is registered there already.
    pub fn register_enum(&mut self, name: &String, variants: Vec<String>, visibility: Visibility) -> (r: Result<(), String>)
        requires
            old(self).wf(),
        ensures
            final(self).wf(),
            match r {
                Ok(()) => !old(self).defined_in(old(self).current, name@, Namespace::Types) && final(self).appended_entry(
                    old(self),
                    Entry {
                        scope: old(self).current,
                        name: *name,
                        symbol: Symbol::Enum(
                            EnumInfo { name: *name, variants, visibility, definition_scope_id: old(self).current },
                        ),
                    },
                ),
                Err(msg) => old(self).defined_in(old(self).current, name@, Namespace::Types) && *final(self)
                    == *old(self) && msg@ == already_defined_text("enum"@, name@),
            },
            r is Ok ==> final(self).lookup(name@, Namespace::Types) == Some(old(self).entries@.len() as int),
    {
        proof {
            reveal_strlit("enum");
        }
        let info = EnumInfo { name: name.clone(), variants, visibility, definition_scope_id: self.current };
        self.define(name, Symbol::Enum(info), Namespace::Types, "enum")
    }

    /// Registers the spec `name` in the current scope; refused when a type of
    /// that name is registered there already.
    pub fn register_spec(&mut self, name: &String) -> (r: Result<(), String>)
        requires
            old(self).wf(),
        ensures
            final(self).wf(),
            match r {
                Ok(()) => !old(self).defined_in(old(self).current, name@, Namespace::Types) && final(self).appended_entry(
                    old(self),
                    Entry { scope: old(self).current, name: *name, symbol: Symbol::Spec },
                ),
                Err(msg) => old(self).defined_in(old(self).current, name@, Namespace::Types) && *final(self)
                    == *old(self) && msg@ == already_defined_text("spec"@, name@),
            },
            r is Ok ==> final(self).lookup(name@, Namespace::Types) == Some(old(self).entries@.len() as int),
    {
        proof {
            reveal_strlit("spec");
        }
        self.define(name, Symbol::Spec, Namespace::Types, "spec")
    }

    /// Registers the function `name` in the current scope; refused when a
    /// function of that name is registered there already.
    pub fn register_function(
        &mut self,
        name: &String,
        type_params: Vec<String>,
        param_types: Vec<TypeInfo>,
        return_type: TypeInfo,
        visibility: Visibility,
    ) -> (r: Result<(), String>)
        requires
            old(self).wf(),
        ensures
            final(self).wf(),
            match r {
                Ok(()) => !old(self).defined_in(old(self).current, name@, Namespace::Functions) && final(self).appended_entry(
                    old(self),
                    Entry {
                        scope: old(self).current,
                        name: *name,
                        symbol: Symbol::Function(
                            FuncInfo {
                                name: *name,
                                type_params,
                                param_types,
                                return_type,
                                visibility,
                                definition_scope_id: old(self).current,
                            },
                        ),
                    },
                ),
                Err(msg) => old(self).defined_in(old(self).current, name@, Namespace::Functions) && *final(self)
                    == *old(self) && msg@ == already_defined_text("function"@, name@),
            },
            r is Ok ==> final(self).lookup(name@, Namespace::Functions) == Some(old(self).entries@.len() as int),
    {
        proof {
            reveal_strlit("function");
        }
        let info = FuncInfo {
            name: name.clone(),
            type_params,
            param_types,
            return_type,
            visibility,
            definition_scope_id: self.current,
        };
        self.define(name, Symbol::Function(info), Namespace::Functions, "function")
    }

    /// Registers the variable `name` of type `ty` in the current scope;
    /// refused when a variable of that name is registered there already.
    pub fn push_variable_to_scope(&mut self, name: &String, ty: TypeInfo) -> (r: Result<(), String>)
        requires
            old(self).wf(),
        ensures
            final(self).wf(),
            match r {
                Ok(()) => !old(self).defined_in(old(self).current, name@, Namespace::Variables) && final(self).appended_entry(
                    old(self),
                    Entry { scope: old(self).current, name: *name, symbol: Symbol::Variable(ty) },
                ),
                Err(msg) => old(self).defined_in(old(self).current, name@, Namespace::Variables) && *final(self)
                    == *old(self) && msg@ == already_defined_text("variable"@, name@),
            },
            r is Ok ==> final(self).variable_type(name@) == Some(ty@),
    {
        proof {
            reveal_strlit("variable");
        }
        self.define(name, Symbol::Variable(ty), Namespace::Variables, "variable")
    }

    /// Registers the method `signature.name` on `owner` in the current scope;
    /// refused when that method of `owner` is registered there already.
    pub fn register_method(&mut self, owner: &String, signature: FuncInfo, visibility: Visibility, has_self: bool) -> (r: Result<(), String>)
        requires
            old(self).wf(),
        ensures
            final(self).wf(),
            final(self).scopes@ == old(self).scopes@,
            final(self).current == old(self).current,
            final(self).entries@ == old(self).entries@,
            final(self).imports@ == old(self).imports@,
            match r {
                Ok(()) => first_method(old(self).methods@, old(self).methods@.len() as int, old(self).current, owner@, signature.name@) is None
                    && final(self).methods@ == old(self).methods@.push(
                    MethodInfo { owner_type: *owner, signature, visibility, scope_id: old(self).current, has_self },
                ),
                Err(msg) => first_method(old(self).methods@, old(self).methods@.len() as int, old(self).current, owner@, signature.name@) is Some
                    && final(self).methods@ == old(self).methods@ && msg@ == already_defined_text("method"@, signature.name@),
            },
    {
        proof {
            reveal_strlit("method");
        }
        let mut j: usize = 0;
        while j < self.methods.len()
            invariant
                self.wf(),
                j <= self.methods@.len(),
                first_method(self.methods@, j as int, self.current, owner@, signature.name@) is None,
            decreases self.methods@.len() - j,
        {
            let m = &self.methods[j];
            if m.scope_id == self.current && m.owner_type == *owner && m.signature.name == signature.name {
                proof {
                    assert(first_method(self.methods@, j + 1, self.current, owner@, signature.name@) == Some(j as int));
                    lemma_first_method_stable(self.methods@, j + 1, self.methods@.len() as int, self.current, owner@, signature.name@);
                }
                return Err(already_defined("method", &signature.name));
            }
            j = j + 1;
        }
        let scope_id = self.current;
        self.methods.push(MethodInfo { owner_type: owner.clone(), signature, visibility, scope_id, has_self });
        Ok(())
    }

    /// Registers an import in the current scope, to be resolved later;
    /// refused when its path is empty.
    pub fn register_import(&mut self, import: Import) -> (r: Result<(), String>)
        requires
            old(self).wf(),
        ensures
            final(self).wf(),
            final(self).scopes@ == old(self).scopes@,
            final(self).current == old(self).current,
            final(self).entries@ == old(self).entries@,
            final(self).methods@ == old(self).methods@,
            match r {
                Ok(()) => import.path@.len() > 0 && final(self).imports@ == old(self).imports@.push((old(self).current, import)),
                Err(msg) => import.path@.len() == 0 && final(self).imports@ == old(self).imports@ && msg@ == "import path is empty"@,
            },
    {
        proof {
            reveal_strlit("import path is empty");
        }
        if import.path.len() == 0 {
            return Err(String::from_str("import path is empty"));
        }
        let s = self.current;
        self.imports.push((s, import));
        Ok(())
    }

    /// Makes `local_name` in scope `s` stand for the definition at `target`.
    pub fn add_resolved_import(&mut self, s: u32, local_name: String, target: usize)
        requires
            old(self).wf(),
            s < old(self).scopes@.len(),
            target < old(self).entries@.len(),
            !(old(self).entries@[target as int].symbol is Import),
        ensures
            final(self).wf(),
            final(self).appended_entry(old(self), Entry { scope: s, name: local_name, symbol: Symbol::Import(target) }),
    {
        self.entries.push(Entry { scope: s, name: local_name, symbol: Symbol::Import(target) });
    }

    /// The indices of the imports registered in scope `s`, in order.
    pub fn imports_in_scope(&self, s: u32) -> (r: Vec<usize>)
        requires
            self.wf(),
        ensures
            forall|k: int| 0 <= k < r@.len() ==> #[trigger] r@[k] < self.imports@.len() && self.imports@[r@[k] as int].0 == s,
            forall|k: int, l: int| 0 <= k < l < r@.len() ==> #[trigger] r@[k] < #[trigger] r@[l],
            forall|i: int| 0 <= i < self.imports@.len() && #[trigger] self.imports@[i].0 == s ==> r@.contains(i as usize),
    {
        let mut r: Vec<usize> = Vec::new();
        let mut i: usize = 0;
        while i < self.imports.len()
            invariant
                i <= self.imports@.len(),
                forall|k: int| 0 <= k < r@.len() ==> #[trigger] r@[k] < i && self.imports@[r@[k] as int].0 == s,
                forall|k: int, l: int| 0 <= k < l < r@.len() ==> #[trigger] r@[k] < #[trigger] r@[l],
                forall|m: int| 0 <= m < i && #[trigger] self.imports@[m].0 == s ==> r@.contains(m as usize),
            decreases self.imports@.len() - i,
        {
            if self.imports[i].0 == s {
                let ghost before = r@;
                r.push(i);
                proof {
                    assert forall|m: int| 0 <= m < i + 1 && #[trigger] self.imports@[m].0 == s implies r@.contains(m as usize) by {
                        if m < i {
                            assert(before.contains(m as usize));
                            let k = choose|k: int| 0 <= k < before.len() && before[k] == m as usize;
                            assert(r@[k] == m as usize);
                        } else {
                            assert(r@[r@.len() - 1] == m as usize);
                        }
                    }
                }
            }
            i = i + 1;
        }
        r
    }

    /// The first module named `name` directly below `parent` (see `first_child_module`).
    pub fn child_module(&self, parent: u32, name: &String) -> (r: Option<u32>)
        requires
            self.wf(),
        ensures
            match r {
                Some(m) => first_child_module(self.scopes@, self.scopes@.len() as int, parent, name@)
                    == Some(m as int) && m < self.scopes@.len(),
                None => first_child_module(self.scopes@, self.scopes@.len() as int, parent, name@) is None,
            },
    {
        let mut i: usize = 0;
        while i < self.scopes.len()
            invariant
                self.wf(),
                i <= self.scopes@.len(),
                first_child_module(self.scopes@, i as int, parent, name@) is None,
            decreases self.scopes@.len() - i,
        {
            let sc = &self.scopes[i];
            if sc.parent == Some(parent) && sc.is_module && sc.name == *name {
                proof {
                    assert(first_child_module(self.scopes@, i + 1, parent, name@) == Some(i as int));
                    lemma_first_child_stable(self.scopes@, i + 1, self.scopes@.len() as int, parent, name@);
                }
                return Some(i as u32);
            }
            i = i + 1;
        }
        None
    }

    /// The module scope that `path` names (see `module_at`).
    pub fn find_module_scope(&self, path: &Vec<String>) -> (r: Option<u32>)
        requires
            self.wf(),
        ensures
            r == self.module_at(views(path@)),
            r matches Some(m) ==> m < self.scopes@.len(),
    {
        let mut cur: u32 = 0;
        let mut k: usize = 0;
        while k < path.len()
            invariant
                self.wf(),
                k <= path@.len(),
                cur < self.scopes@.len(),
                self.module_at(views(path@).take(k as int)) == Some(cur),
            decreases path@.len() - k,
        {
            proof {
                assert(views(path@).take(k + 1).drop_last() =~= views(path@).take(k as int));
                assert(views(path@).take(k + 1).last() == path@[k as int]@);
            }
            let found = self.child_module(cur, &path[k]);
            match found {
                Some(m) => {
                    cur = m;
                },
                None => {
                    proof {
                        lemma_module_at_none(*self, views(path@), k as int + 1);
                    }
                    return None;
                },
            }
            k = k + 1;
        }
        proof {
            assert(views(path@).take(path@.len() as int) =~= views(path@));
        }
        Some(cur)
    }
}

impl SymbolTable {
    /// The definition a qualified path names, with the module scope that
    /// defines it (see `qualified_target`).
    pub fn resolve_qualified_name(&self, path: &Vec<String>) -> (r: Option<(usize, u32)>)
        requires
            self.wf(),
        ensures
            match r {
                Some((j, m)) => qualified_target(*self, views(path@)) == Some((j as int, m))
                    && j < self.entries@.len() && !(self.entries@[j as int].symbol is Import)
                    && m < self.scopes@.len(),
                None => qualified_target(*self, views(path@)) is None,
            },
    {
        if path.len() == 0 {
            return None;
        }
        let n = path.len() - 1;
        let mut prefix: Vec<String> = Vec::new();
        let mut i: usize = 0;
        while i < n
            invariant
                n < path@.len(),
                i <= n,
                prefix@.len() == i,
                forall|k: int| 0 <= k < i ==> #[trigger] prefix@[k]@ == path@[k]@,
            decreases n - i,
        {
            prefix.push(path[i].clone());
            i = i + 1;
        }
        proof {
            assert(views(prefix@) =~= views(path@).drop_last());
            assert(views(path@).last() == path@[n as int]@);
        }
        let m = match self.find_module_scope(&prefix) {
            Some(m) => m,
            None => {
                return None;
            },
        };
        let last = &path[n];
        let found = match self.find_in_scope(m, last, Namespace::Types) {
            Some(j) => Some(j),
            None => self.find_in_scope(m, last, Namespace::Functions),
        };
        proof {
            lemma_first_match_sound(self.entries@, self.entries@.len() as int, m, last@, Namespace::Types);
            lemma_first_match_sound(self.entries@, self.entries@.len() as int, m, last@, Namespace::Functions);
        }
        match found {
            Some(j) => {
                let k = match self.entries[j].symbol {
                    Symbol::Import(t) => t,
                    _ => j,
                };
                Some((k, m))
            },
            None => None,
        }
    }

    /// The indices of the public definitions made in scope `s` itself, in order.
    pub fn public_symbols_of_scope(&self, s: u32) -> (r: Vec<usize>)
        requires
            self.wf(),
        ensures
            forall|k: int| 0 <= k < r@.len() ==> #[trigger] r@[k] < self.entries@.len()
                && public_definition_in(self.entries@, r@[k] as int, s),
            forall|j: int| 0 <= j < self.entries@.len() && public_definition_in(self.entries@, j, s)
                ==> #[trigger] r@.contains(j as usize),
    {
        let mut r: Vec<usize> = Vec::new();
        let mut i: usize = 0;
        while i < self.entries.len()
            invariant
                i <= self.entries@.len(),
                forall|k: int| 0 <= k < r@.len() ==> #[trigger] r@[k] < i
                    && public_definition_in(self.entries@, r@[k] as int, s),
                forall|j: int| 0 <= j < i && public_definition_in(self.entries@, j, s)
                    ==> #[trigger] r@.contains(j as usize),
            decreases self.entries@.len() - i,
        {
            let e = &self.entries[i];
            let is_import = match e.symbol {
                Symbol::Import(_) => true,
                _ => false,
            };
            if e.scope == s && !is_import && e.symbol.is_public() {
                let ghost before = r@;
                r.push(i);
                proof {
                    assert forall|j: int| 0 <= j < i + 1 && public_definition_in(self.entries@, j, s)
                        implies #[trigger] r@.contains(j as usize) by {
                        if j < i {
                            assert(before.contains(j as usize));
                            let k = choose|k: int| 0 <= k < before.len() && before[k] == j as usize;
                            assert(r@[k] == j as usize);
                        } else {
                            assert(r@[r@.len() - 1] == j as usize);
                        }
                    }
                }
            }
            i = i + 1;
        }
        r
    }
}

impl SymbolTable {
    /// The struct registered at entry `j`.
    pub fn struct_at(&self, j: usize) -> (r: &StructInfo)
        requires
            j < self.entries@.len(),
            self.entries@[j as int].symbol is Struct,
        ensures
            self.entries@[j as int].symbol == Symbol::Struct(*r),
    {
        match &self.entries[j].symbol {
            Symbol::Struct(info) => info,
            _ => vstd::pervasive::unreached(),
        }
    }

    /// The enum registered at entry `j`.
    pub fn enum_at(&self, j: usize) -> (r: &EnumInfo)
        requires
            j < self.entries@.len(),
            self.entries@[j as int].symbol is Enum,
        ensures
            self.entries@[j as int].symbol == Symbol::Enum(*r),
    {
        match &self.entries[j].symbol {
            Symbol::Enum(info) => info,
            _ => vstd::pervasive::unreached(),
        }
    }

    /// The function registered at entry `j`.
    pub fn function_at(&self, j: usize) -> (r: &FuncInfo)
        requires
            j < self.entries@.len(),
            self.entries@[j as int].symbol is Function,
        ensures
            self.entries@[j as int].symbol == Symbol::Function(*r),
    {
        match &self.entries[j].symbol {
            Symbol::Function(info) => info,
            _ => vstd::pervasive::unreached(),
        }
    }

    /// The method registered at index `j`.
    pub fn method_at(&self, j: usize) -> (r: &MethodInfo)
        requires
            j < self.methods@.len(),
        ensures
            *r == self.methods@[j as int],
    {
        &self.methods[j]
    }

    /// Makes scope `s` current.
    pub fn restore_scope(&mut self, s: u32)
        requires
            old(self).wf(),
            s < old(self).scopes@.len(),
        ensures
            final(self).wf(),
            final(self).current == s,
            final(self).scopes@ == old(self).scopes@,
            final(self).entries@ == old(self).entries@,
            final(self).methods@ == old(self).methods@,
            final(self).imports@ == old(self).imports@,
    {
        self.current = s;
    }
}

/// A name registered in the current scope, where that scope had no name of
/// its name space, is what the name denotes from there.
pub proof fn lemma_defined_visible(old: SymbolTable, new: SymbolTable, e: Entry, ns: Namespace)
    requires
        old.wf(),
        e.scope == old.current,
        in_namespace(e.symbol, ns),
        !old.defined_in(old.current, e.name@, ns),
        new.appended_entry(&old, e),
    ensures
        new.lookup(e.name@, ns) == Some(old.entries@.len() as int),
{
    lemma_first_match_pushed(old.entries@, e, old.current, e.name@, ns);
    assert(entry_matches(new.entries@, old.entries@.len() as int, old.current, e.name@, ns));
    assert(new.lookup_from(new.current, e.name@, ns) == Some(old.entries@.len() as int));
}

/// A path whose prefix names no module names none either.
pub proof fn lemma_module_at_none(t: SymbolTable, path: Seq<Seq<char>>, k: int)
    requires
        0 < k <= path.len(),
        t.module_at(path.take(k)) is None,
    ensures
        t.module_at(path) is None,
    decreases path.len() - k,
{
    if k < path.len() {
        assert(path.take(k + 1).drop_last() =~= path.take(k));
        lemma_module_at_none(t, path, k + 1);
    } else {
        assert(path.take(k) =~= path);
    }
}

} // verus!
