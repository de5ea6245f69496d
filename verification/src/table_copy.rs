//! Copying a symbol table: a copy agrees with the original in every scope,
//! entry, method and import, read through the views of their names and
//! types.
use vstd::prelude::*;

use crate::symbol_table::{
    same_signature, EnumInfo, Entry, FieldInfo, Import, ImportItem, ImportKind, MethodInfo, ScopeNode, StructInfo,
    Symbol, SymbolTable,
};
use crate::text::{clone_strings, views};
use crate::type_info::TypeInfo;

verus! {

/// Two fields that agree in name, type and visibility.
pub open spec fn same_field(a: FieldInfo, b: FieldInfo) -> bool {
    a.name@ == b.name@ && a.type_info@ == b.type_info@ && a.visibility == b.visibility
}

/// Two structs that agree in every part.
pub open spec fn same_struct(a: StructInfo, b: StructInfo) -> bool {
    &&& a.name@ == b.name@
    &&& a.fields@.len() == b.fields@.len()
    &&& forall|i: int| 0 <= i < a.fields@.len() ==> same_field(#[trigger] a.fields@[i], b.fields@[i])
    &&& views(a.type_params@) == views(b.type_params@)
    &&& a.visibility == b.visibility
    &&& a.definition_scope_id == b.definition_scope_id
}

/// Two enums that agree in every part.
pub open spec fn same_enum(a: EnumInfo, b: EnumInfo) -> bool {
    &&& a.name@ == b.name@
    &&& views(a.variants@) == views(b.variants@)
    &&& a.visibility == b.visibility
    &&& a.definition_scope_id == b.definition_scope_id
}

/// Two symbols of the same kind that agree in every part.
pub open spec fn same_symbol(a: Symbol, b: Symbol) -> bool {
    match (a, b) {
        (Symbol::TypeAlias(x), Symbol::TypeAlias(y)) => x@ == y@,
        (Symbol::Struct(x), Symbol::Struct(y)) => same_struct(x, y),
        (Symbol::Enum(x), Symbol::Enum(y)) => same_enum(x, y),
        (Symbol::Spec, Symbol::Spec) => true,
        (Symbol::Function(x), Symbol::Function(y)) => same_signature(x, y),
        (Symbol::Variable(x), Symbol::Variable(y)) => x@ == y@,
        (Symbol::Import(x), Symbol::Import(y)) => x == y,
        _ => false,
    }
}

/// Two entries that agree in scope, name and symbol.
pub open spec fn same_entry(a: Entry, b: Entry) -> bool {
    a.scope == b.scope && a.name@ == b.name@ && same_symbol(a.symbol, b.symbol)
}

/// Two methods that agree in every part.
pub open spec fn same_method(a: MethodInfo, b: MethodInfo) -> bool {
    &&& a.owner_type@ == b.owner_type@
    &&& same_signature(a.signature, b.signature)
    &&& a.visibility == b.visibility
    &&& a.scope_id == b.scope_id
    &&& a.has_self == b.has_self
}

/// Two scopes that agree in every part.
pub open spec fn same_scope(a: ScopeNode, b: ScopeNode) -> bool {
    &&& a.id == b.id
    &&& a.parent == b.parent
    &&& a.name@ == b.name@
    &&& a.is_module == b.is_module
    &&& a.visibility == b.visibility
}

/// Two import items that agree in name and alias.
pub open spec fn same_item(a: ImportItem, b: ImportItem) -> bool {
    &&& a.name@ == b.name@
    &&& match (a.alias, b.alias) {
        (Some(x), Some(y)) => x@ == y@,
        (None, None) => true,
        _ => false,
    }
}

/// Two imports that agree in path, kind, items and location.
pub open spec fn same_import(a: Import, b: Import) -> bool {
    &&& views(a.path@) == views(b.path@)
    &&& a.location == b.location
    &&& match (a.kind, b.kind) {
        (ImportKind::Plain, ImportKind::Plain) => true,
        (ImportKind::Glob, ImportKind::Glob) => true,
        (ImportKind::Partial(x), ImportKind::Partial(y)) => x@.len() == y@.len() && forall|i: int|
            0 <= i < x@.len() ==> same_item(#[trigger] x@[i], y@[i]),
        _ => false,
    }
}

/// `a` is a copy of `b`: the same current scope, and scopes, entries,
/// methods and imports that agree one for one.
pub open spec fn copied_table(a: SymbolTable, b: SymbolTable) -> bool {
    &&& a.current == b.current
    &&& a.scopes@.len() == b.scopes@.len()
    &&& forall|i: int| 0 <= i < a.scopes@.len() ==> same_scope(#[trigger] a.scopes@[i], b.scopes@[i])
    &&& a.entries@.len() == b.entries@.len()
    &&& forall|i: int| 0 <= i < a.entries@.len() ==> same_entry(#[trigger] a.entries@[i], b.entries@[i])
    &&& a.methods@.len() == b.methods@.len()
    &&& forall|i: int| 0 <= i < a.methods@.len() ==> same_method(#[trigger] a.methods@[i], b.methods@[i])
    &&& a.imports@.len() == b.imports@.len()
    &&& forall|i: int| 0 <= i < a.imports@.len() ==> (#[trigger] a.imports@[i]).0 == b.imports@[i].0
        && same_import(a.imports@[i].1, b.imports@[i].1)
}

fn copy_field(f: &FieldInfo) -> (r: FieldInfo)
    ensures
        same_field(r, *f),
{
    FieldInfo { name: f.name.clone(), type_info: f.type_info.duplicate(), visibility: f.visibility }
}

fn copy_struct(s: &StructInfo) -> (r: StructInfo)
    ensures
        same_struct(r, *s),
{
    let mut fields: Vec<FieldInfo> = Vec::new();
    let mut i: usize = 0;
    while i < s.fields.len()
        invariant
            i <= s.fields@.len(),
            fields@.len() == i,
            forall|k: int| 0 <= k < i ==> same_field(#[trigger] fields@[k], s.fields@[k]),
        decreases s.fields@.len() - i,
    {
        fields.push(copy_field(&s.fields[i]));
        i = i + 1;
    }
    StructInfo {
        name: s.name.clone(),
        fields,
        type_params: clone_strings(&s.type_params),
        visibility: s.visibility,
        definition_scope_id: s.definition_scope_id,
    }
}

fn copy_symbol(s: &Symbol) -> (r: Symbol)
    ensures
        same_symbol(r, *s),
{
    match s {
        Symbol::TypeAlias(t) => Symbol::TypeAlias(t.duplicate()),
        Symbol::Struct(x) => Symbol::Struct(copy_struct(x)),
        Symbol::Enum(x) => Symbol::Enum(
            EnumInfo {
                name: x.name.clone(),
                variants: clone_strings(&x.variants),
                visibility: x.visibility,
                definition_scope_id: x.definition_scope_id,
            },
        ),
        Symbol::Spec => Symbol::Spec,
        Symbol::Function(g) => Symbol::Function(g.duplicate()),
        Symbol::Variable(t) => Symbol::Variable(t.duplicate()),
        Symbol::Import(j) => Symbol::Import(*j),
    }
}

fn copy_import_kind(k: &ImportKind) -> (r: ImportKind)
    ensures
        match (r, *k) {
            (ImportKind::Plain, ImportKind::Plain) => true,
            (ImportKind::Glob, ImportKind::Glob) => true,
            (ImportKind::Partial(x), ImportKind::Partial(y)) => x@.len() == y@.len() && forall|i: int|
                0 <= i < x@.len() ==> same_item(#[trigger] x@[i], y@[i]),
            _ => false,
        },
{
    match k {
        ImportKind::Plain => ImportKind::Plain,
        ImportKind::Glob => ImportKind::Glob,
        ImportKind::Partial(items) => {
            let mut copied: Vec<ImportItem> = Vec::new();
            let mut i: usize = 0;
            while i < items.len()
                invariant
                    i <= items@.len(),
                    copied@.len() == i,
                    forall|q: int| 0 <= q < i ==> same_item(#[trigger] copied@[q], items@[q]),
                decreases items@.len() - i,
            {
                let alias = match &items[i].alias {
                    Some(a) => Some(a.clone()),
                    None => None,
                };
                copied.push(ImportItem { name: items[i].name.clone(), alias });
                i = i + 1;
            }
            ImportKind::Partial(copied)
        },
    }
}

impl SymbolTable {
    /// A copy of the table.
    pub fn copy(&self) -> (r: SymbolTable)
        requires
            self.wf(),
        ensures
            copied_table(r, *self),
            r.wf(),
    {
        let mut scopes: Vec<ScopeNode> = Vec::new();
        let mut i: usize = 0;
        while i < self.scopes.len()
            invariant
                i <= self.scopes@.len(),
                scopes@.len() == i,
                forall|k: int| 0 <= k < i ==> same_scope(#[trigger] scopes@[k], self.scopes@[k]),
            decreases self.scopes@.len() - i,
        {
            let sc = &self.scopes[i];
            scopes.push(ScopeNode {
                id: sc.id,
                parent: sc.parent,
                name: sc.name.clone(),
                is_module: sc.is_module,
                visibility: sc.visibility,
            });
            i = i + 1;
        }
        let mut entries: Vec<Entry> = Vec::new();
        let mut i: usize = 0;
        while i < self.entries.len()
            invariant
                i <= self.entries@.len(),
                entries@.len() == i,
                forall|k: int| 0 <= k < i ==> same_entry(#[trigger] entries@[k], self.entries@[k]),
            decreases self.entries@.len() - i,
        {
            let e = &self.entries[i];
            entries.push(Entry { scope: e.scope, name: e.name.clone(), symbol: copy_symbol(&e.symbol) });
            i = i + 1;
        }
        let mut methods: Vec<MethodInfo> = Vec::new();
        let mut i: usize = 0;
        while i < self.methods.len()
            invariant
                i <= self.methods@.len(),
                methods@.len() == i,
                forall|k: int| 0 <= k < i ==> same_method(#[trigger] methods@[k], self.methods@[k]),
            decreases self.methods@.len() - i,
        {
            let m = &self.methods[i];
            methods.push(MethodInfo {
                owner_type: m.owner_type.clone(),
                signature: m.signature.duplicate(),
                visibility: m.visibility,
                scope_id: m.scope_id,
                has_self: m.has_self,
            });
            i = i + 1;
        }
        let mut imports: Vec<(u32, Import)> = Vec::new();
        let mut i: usize = 0;
        while i < self.imports.len()
            invariant
                i <= self.imports@.len(),
                imports@.len() == i,
                forall|k: int| 0 <= k < i ==> (#[trigger] imports@[k]).0 == self.imports@[k].0 && same_import(
                    imports@[k].1,
                    self.imports@[k].1,
                ),
            decreases self.imports@.len() - i,
        {
            let (s, imp) = &self.imports[i];
            let copy = Import { path: clone_strings(&imp.path), kind: copy_import_kind(&imp.kind), location: imp.location };
            imports.push((*s, copy));
            i = i + 1;
        }
        let r = SymbolTable { scopes, entries, methods, imports, current: self.current };
        proof {
            assert forall|j: int| 0 <= j < r.entries@.len() implies match #[trigger] r.entries@[j].symbol {
                Symbol::Import(t) => t < j && !(r.entries@[t as int].symbol is Import),
                _ => true,
            } by {
                assert(same_entry(r.entries@[j], self.entries@[j]));
                if let Symbol::Import(t) = self.entries@[j].symbol {
                    assert(same_entry(r.entries@[t as int], self.entries@[t as int]));
                }
            }
            assert forall|q: int| 0 <= q < r.scopes@.len() implies #[trigger] r.scopes@[q].id == q by {
                assert(same_scope(r.scopes@[q], self.scopes@[q]));
            }
            assert forall|q: int| 0 <= q < r.scopes@.len() implies match #[trigger] r.scopes@[q].parent {
                Some(p) => p < q,
                None => true,
            } by {
                assert(same_scope(r.scopes@[q], self.scopes@[q]));
            }
            assert(same_scope(r.scopes@[0], self.scopes@[0]));
            assert forall|j: int| 0 <= j < r.entries@.len() implies #[trigger] r.entries@[j].scope < r.scopes@.len() by {
                assert(same_entry(r.entries@[j], self.entries@[j]));
            }
            assert forall|j: int| 0 <= j < r.methods@.len() implies #[trigger] r.methods@[j].scope_id < r.scopes@.len() by {
                assert(same_method(r.methods@[j], self.methods@[j]));
            }
        }
        r
    }
}

} // verus!
