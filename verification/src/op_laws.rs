//! Laws of single operations of the checker: what a call with explicit type
//! arguments gives, what registering an enum or a constant records, and
//! what resolving a list of imported items binds.
use vstd::prelude::*;

use crate::ast::{ConstantDefinition, Definition, EnumDefinition, FunctionCallExpression, Identifier};
use crate::errors::TypeCheckError;
use crate::inference::{call_result, explicit_substitution, type_argument};
use crate::passes::{items_bound, type_definition_step, value_definition_step};
use crate::statements::table_at;
use crate::symbol_table::{lemma_defined_visible, FuncInfo, Import, ImportItem, Namespace, Symbol, SymbolTable};
use crate::text::views;
use crate::type_info::{type_of, KindModel, TypeModel};
use crate::typed_context::NodeTypes;

verus! {

/// The signature of the function that `name` denotes from the current
/// scope of `t`.
pub open spec fn callee(t: SymbolTable, name: Seq<char>) -> FuncInfo {
    t.entries@[t.lookup(name, Namespace::Functions)->0].symbol->Function_0
}

/// With distinct type parameter names and as many type arguments, the
/// `k`-th type parameter is bound to the type the `k`-th argument names.
proof fn lemma_explicit_binding(t: SymbolTable, names: Seq<Seq<char>>, args: Seq<Identifier>, k: int)
    requires
        names.len() == args.len(),
        0 <= k < names.len(),
        forall|i: int, j: int| 0 <= i < j < names.len() ==> names[i] != names[j],
    ensures
        explicit_substitution(t, names, args).contains_key(names[k]),
        explicit_substitution(t, names, args)[names[k]] == type_argument(t, args[k]),
    decreases names.len(),
{
    if k < names.len() - 1 {
        lemma_explicit_binding(t, names.drop_last(), args.drop_last(), k);
        assert(names.drop_last()[k] == names[k]);
        assert(args.drop_last()[k] == args[k]);
    }
}

/// A call of a generic function with as many explicit type arguments as
/// it has (distinct) type parameters binds them in order: when the
/// function returns its `k`-th type parameter, the call has the type that
/// the `k`-th type argument names.
pub proof fn law_explicit_type_arguments_in_order(
    t: SymbolTable,
    before: NodeTypes,
    name: Seq<char>,
    f: FunctionCallExpression,
    r: Option<TypeModel>,
    k: int,
)
    requires
        call_result(t, before, name, f, r),
        t.lookup(name, Namespace::Functions) is Some,
        !(f.arguments matches Some(a) && a@.len() != callee(t, name).param_types@.len()),
        f.type_parameters is Some,
        f.type_parameters->0@.len() == callee(t, name).type_params@.len(),
        0 <= k < callee(t, name).type_params@.len(),
        forall|i: int, j: int|
            0 <= i < j < callee(t, name).type_params@.len() ==> callee(t, name).type_params@[i]@
                != callee(t, name).type_params@[j]@,
        callee(t, name).return_type@.kind == KindModel::Generic(callee(t, name).type_params@[k]@),
    ensures
        r == Some(type_argument(t, f.type_parameters->0@[k])),
{
    let g = callee(t, name);
    let names = views(g.type_params@);
    let args = f.type_parameters->0@;
    assert forall|i: int, j: int| 0 <= i < j < names.len() implies names[i] != names[j] by {
        assert(names[i] == g.type_params@[i]@);
        assert(names[j] == g.type_params@[j]@);
    }
    lemma_explicit_binding(t, names, args, k);
    assert(names[k] == g.type_params@[k]@);
}

/// Registering an enum whose name is free in the current scope records
/// exactly the names of its variants, in order.
pub proof fn law_enum_registers_its_variants(
    t0: SymbolTable,
    e0: Seq<TypeCheckError>,
    ed: EnumDefinition,
    with_methods: bool,
    t1: SymbolTable,
    e1: Seq<TypeCheckError>,
)
    requires
        type_definition_step(t0, e0, Definition::Enum(ed), with_methods, t1, e1),
        !t0.defined_in(t0.current, ed.name.name@, Namespace::Types),
    ensures
        e1 == e0,
        t1.entries@.last().symbol matches Symbol::Enum(info) && info.name@ == ed.name.name@ && info.variants@.len()
            == ed.variants@.len() && forall|k: int|
            0 <= k < ed.variants@.len() ==> #[trigger] info.variants@[k]@ == ed.variants@[k].name@,
{
    let info = t1.entries@.last().symbol->Enum_0;
    assert(views(info.variants@) == crate::type_checker::identifier_names(ed.variants@));
    assert forall|k: int| 0 <= k < ed.variants@.len() implies #[trigger] info.variants@[k]@ == ed.variants@[k].name@ by {
        assert(views(info.variants@)[k] == info.variants@[k]@);
        assert(crate::type_checker::identifier_names(ed.variants@)[k] == ed.variants@[k].name@);
    }
}

/// Registering a constant whose name is free in the current scope makes
/// its name a variable of its declared type there.
pub proof fn law_constant_has_its_declared_type(
    t0: SymbolTable,
    s0: (Set<Seq<char>>, Seq<TypeCheckError>),
    cd: ConstantDefinition,
    t1: SymbolTable,
    s1: (Set<Seq<char>>, Seq<TypeCheckError>),
)
    requires
        t0.wf(),
        value_definition_step(t0, s0, Definition::Constant(cd), t1, s1),
        !t0.defined_in(t0.current, cd.name.name@, Namespace::Variables),
    ensures
        s1 == s0,
        t1.variable_type(cd.name.name@) == Some(type_of(cd.ty, Seq::empty())),
{
    let e = t1.entries@.last();
    assert(t1.entries@ == t0.entries@.push(e)) by {
        assert(t1.entries@ =~= t1.entries@.drop_last().push(e));
    }
    assert(t1.appended_entry(&t0, e));
    lemma_defined_visible(t0, t1, e, Namespace::Variables);
}

/// The local name and path text of the `k`-th item of a partial import.
pub open spec fn item_local(item: ImportItem) -> Seq<char> {
    match item.alias {
        Some(a) => a@,
        None => item.name@,
    }
}

/// Resolving the first `n` listed items of a partial import into scope `s`
/// binds each of them there under its alias or its own name, or reports
/// its path as naming nothing; what was there before stays.
pub proof fn law_every_listed_item_is_resolved(
    t0: SymbolTable,
    e0: Seq<TypeCheckError>,
    s: u32,
    imp: Import,
    items: Seq<ImportItem>,
    n: int,
    t1: SymbolTable,
    e1: Seq<TypeCheckError>,
)
    requires
        0 <= n <= items.len(),
        items_bound(t0, e0, s, imp, items, n, t1, e1),
    ensures
        t0.entries@.len() <= t1.entries@.len(),
        forall|q: int| 0 <= q < t0.entries@.len() ==> #[trigger] t1.entries@[q] == t0.entries@[q],
        e0.len() <= e1.len(),
        forall|q: int| 0 <= q < e0.len() ==> #[trigger] e1[q] == e0[q],
        forall|k: int|
            0 <= k < n ==> (exists|q: int|
                0 <= q < t1.entries@.len() && #[trigger] t1.entries@[q].scope == s && t1.entries@[q].name@ == item_local(
                    #[trigger] items[k],
                )) || (exists|q: int|
                0 <= q < e1.len() && (#[trigger] e1[q] matches TypeCheckError::ImportResolutionFailed { path, .. }
                    && path@ == crate::text::joined(views(imp.path@), "::"@) + "::"@ + items[k].name@)),
    decreases n,
{
    if n > 0 {
        let (tm, em) = choose|tm: SymbolTable, em: Seq<TypeCheckError>|
            #![trigger table_at(tm), crate::passes::errors_at(em)]
            items_bound(t0, e0, s, imp, items, n - 1, table_at(tm), crate::passes::errors_at(em))
                && crate::passes::path_bound(
                tm,
                em,
                s,
                views(imp.path@).push(items[n - 1].name@),
                match items[n - 1].alias {
                    Some(a) => a@,
                    None => items[n - 1].name@,
                },
                crate::text::joined(views(imp.path@), "::"@) + "::"@ + items[n - 1].name@,
                imp.location,
                t1,
                e1,
            );
        law_every_listed_item_is_resolved(t0, e0, s, imp, items, n - 1, tm, em);
        assert(tm.entries@.len() <= t1.entries@.len());
        assert forall|q: int| 0 <= q < tm.entries@.len() implies #[trigger] t1.entries@[q] == tm.entries@[q] by {
            if t1.entries@.len() > tm.entries@.len() {
                assert(t1.entries@.drop_last()[q] == tm.entries@[q]);
            }
        }
        assert forall|q: int| 0 <= q < em.len() implies #[trigger] e1[q] == em[q] by {
            if e1.len() > em.len() {
                assert(e1.drop_last()[q] == em[q]);
            }
        }
        assert forall|k: int|
            0 <= k < n implies (exists|q: int|
                0 <= q < t1.entries@.len() && #[trigger] t1.entries@[q].scope == s && t1.entries@[q].name@ == item_local(
                    #[trigger] items[k],
                )) || (exists|q: int|
                0 <= q < e1.len() && (#[trigger] e1[q] matches TypeCheckError::ImportResolutionFailed { path, .. }
                    && path@ == crate::text::joined(views(imp.path@), "::"@) + "::"@ + items[k].name@)) by {
            if k < n - 1 {
                if exists|q: int|
                    0 <= q < tm.entries@.len() && #[trigger] tm.entries@[q].scope == s && tm.entries@[q].name@
                        == item_local(items[k]) {
                    let q = choose|q: int|
                        0 <= q < tm.entries@.len() && #[trigger] tm.entries@[q].scope == s && tm.entries@[q].name@
                            == item_local(items[k]);
                    assert(t1.entries@[q] == tm.entries@[q]);
                } else {
                    let q = choose|q: int|
                        0 <= q < em.len() && (#[trigger] em[q] matches TypeCheckError::ImportResolutionFailed {
                            path,
                            ..
                        } && path@ == crate::text::joined(views(imp.path@), "::"@) + "::"@ + items[k].name@);
                    assert(e1[q] == em[q]);
                }
            } else {
                let last = t1.entries@.len() - 1;
                if t1.entries@.len() > tm.entries@.len() {
                    assert(t1.entries@[last].scope == s && t1.entries@[last].name@ == item_local(items[k]));
                } else {
                    let q = e1.len() - 1;
                    assert(e1[q] matches TypeCheckError::ImportResolutionFailed { path, .. } && path@
                        == crate::text::joined(views(imp.path@), "::"@) + "::"@ + items[k].name@);
                }
            }
        }
    }
}

} // verus!
