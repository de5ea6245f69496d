//! Registering the definitions of external modules in the symbol table.
use vstd::prelude::*;

use crate::ast::{ArgumentType, Definition, FunctionDefinition, StructDefinition, Type, Visibility};
use crate::passes::{argument_types, has_self_parameter, optional_argument_types, return_model, type_parameters_of, type_definition_name, value_definition_name, value_definition_space};
use crate::text::views;
use crate::type_checker::identifier_names;
use crate::symbol_table::{
    first_match, first_method, lemma_first_match_sound, Entry, Symbol, lemma_defined_after_append, lemma_defined_stays, lemma_first_method_sound, lemma_grows_trans,
    method_matches, scopes_kept, FieldInfo, FuncInfo, MethodInfo, Namespace, SymbolTable,
};
use crate::type_info::TypeInfo;

verus! {

/// The types of the parameters other than `self` of an external
/// definition, read with `type_params` as type parameters in scope.
fn external_parameter_types(arguments: &Option<Vec<ArgumentType>>, type_params: &Vec<String>) -> (r: Vec<TypeInfo>)
    ensures
        r@.map_values(|p: TypeInfo| p@) == optional_argument_types(*arguments, views(type_params@)),
{
    let mut r: Vec<TypeInfo> = Vec::new();
    if let Some(args) = arguments {
        let mut i: usize = 0;
        while i < args.len()
            invariant
                i <= args@.len(),
                r@.map_values(|p: TypeInfo| p@) == argument_types(args@.take(i as int), views(type_params@)),
            decreases args@.len() - i,
        {
            proof {
                assert(args@.take(i as int + 1).drop_last() =~= args@.take(i as int));
                assert(args@.take(i as int + 1).last() == args@[i as int]);
            }
            match &args[i] {
                ArgumentType::SelfReference(_) => {},
                ArgumentType::IgnoreArgument(a) => {
                    r.push(TypeInfo::new_with_type_params(&a.ty, type_params));
                },
                ArgumentType::Argument(a) => {
                    r.push(TypeInfo::new_with_type_params(&a.ty, type_params));
                },
                ArgumentType::Type(t) => {
                    r.push(TypeInfo::new_with_type_params(t, type_params));
                },
            }
            proof {
                assert(r@.map_values(|p: TypeInfo| p@) =~= argument_types(args@.take(i as int + 1), views(type_params@)));
            }
            i = i + 1;
        }
        proof {
            assert(args@.take(i as int) =~= args@);
        }
    } else {
        proof {
            assert(r@.map_values(|p: TypeInfo| p@) =~= Seq::<crate::type_info::TypeModel>::empty());
        }
    }
    r
}

/// The declared return type of an external definition, unit when it
/// declares none.
fn external_return_type(declared: &Option<Type>, type_params: &Vec<String>) -> (r: TypeInfo)
    ensures
        r@ == return_model(*declared, views(type_params@)),
{
    match declared {
        Some(t) => TypeInfo::new_with_type_params(t, type_params),
        None => TypeInfo::unit(),
    }
}

/// The names of optional identifiers, owned (none when absent).
fn identifier_names_of(ids: &Option<Vec<crate::ast::Identifier>>) -> (r: Vec<String>)
    ensures
        views(r@) == match ids {
            Some(v) => identifier_names(v@),
            None => Seq::empty(),
        },
{
    let mut r: Vec<String> = Vec::new();
    if let Some(v) = ids {
        let mut i: usize = 0;
        while i < v.len()
            invariant
                i <= v@.len(),
                r@.len() == i,
                forall|k: int| 0 <= k < i ==> #[trigger] r@[k]@ == v@[k].name@,
            decreases v@.len() - i,
        {
            r.push(v[i].name.clone());
            i = i + 1;
        }
        proof {
            assert(views(r@) =~= identifier_names(v@));
        }
    } else {
        proof {
            assert(views(r@) =~= Seq::<Seq<char>>::empty());
        }
    }
    r
}

/// The method `mi` is the method definition `f` registered on `owner` in
/// `scope`: its name, type parameters, parameter and return types (read
/// without type parameters in scope), visibility, and whether it takes
/// `self`.
pub open spec fn method_loaded(mi: MethodInfo, owner: Seq<char>, f: FunctionDefinition, scope: u32) -> bool {
    &&& mi.owner_type@ == owner
    &&& mi.scope_id == scope
    &&& mi.visibility == f.visibility
    &&& mi.has_self == has_self_parameter(f.arguments)
    &&& mi.signature.name@ == f.name.name@
    &&& views(mi.signature.type_params@) == type_parameters_of(f)
    &&& mi.signature.param_types@.map_values(|p: TypeInfo| p@) == optional_argument_types(f.arguments, Seq::empty())
    &&& mi.signature.return_type@ == return_model(f.returns, Seq::empty())
    &&& mi.signature.visibility == f.visibility
    &&& mi.signature.definition_scope_id == scope
}

/// No two of the method definitions share a name.
pub open spec fn method_names_distinct(ms: Seq<FunctionDefinition>) -> bool {
    forall|a: int, b: int| #![trigger ms[a], ms[b]] 0 <= a < b < ms.len() ==> ms[a].name.name@ != ms[b].name.name@
}

/// The struct `sd` can be registered in the current scope of `t`: its name
/// is free among the types there, its methods have distinct names, and none
/// of them is registered on a struct of that name in that scope.
pub open spec fn struct_loadable(t: SymbolTable, sd: StructDefinition) -> bool {
    &&& !t.defined_in(t.current, sd.name.name@, Namespace::Types)
    &&& method_names_distinct(sd.methods@)
    &&& forall|k: int| 0 <= k < sd.methods@.len() ==> #[trigger] first_method(
        t.methods@,
        t.methods@.len() as int,
        t.current,
        sd.name.name@,
        sd.methods@[k].name.name@,
    ) is None
}

/// Every method of `old` is still in its place in `t`.
pub open spec fn methods_grow(t: SymbolTable, old: SymbolTable) -> bool {
    &&& old.methods@.len() <= t.methods@.len()
    &&& forall|q: int| 0 <= q < old.methods@.len() ==> #[trigger] t.methods@[q] == old.methods@[q]
}

/// No method among the first `n` matches exactly when `first_method` finds none.
pub proof fn lemma_first_method_none(
    methods: Seq<MethodInfo>,
    n: int,
    scope: u32,
    owner: Seq<char>,
    method: Seq<char>,
)
    requires
        0 <= n <= methods.len(),
    ensures
        first_method(methods, n, scope, owner, method) is None <==> forall|q: int|
            0 <= q < n ==> !((#[trigger] methods[q]).scope_id == scope && method_matches(methods[q], owner, method)),
    decreases n,
{
    if n > 0 {
        lemma_first_method_none(methods, n - 1, scope, owner, method);
    }
}

/// The name space that a defined symbol lives in (imports stand for
/// another entry and have none of their own).
pub open spec fn namespace_of(s: Symbol) -> Namespace {
    match s {
        Symbol::Function(_) => Namespace::Functions,
        Symbol::Variable(_) => Namespace::Variables,
        _ => Namespace::Types,
    }
}

/// Definition `d` registers `name` in name space `ns`.
pub open spec fn registers_name(d: Definition, name: Seq<char>, ns: Namespace) -> bool {
    ||| type_definition_name(d) == Some(name) && ns == Namespace::Types
    ||| value_definition_name(d) == Some(name) && value_definition_space(d) == ns
}

/// Entry `e` is a definition that `d` registers.
pub open spec fn entry_registers(d: Definition, e: Entry) -> bool {
    &&& !(e.symbol is Import)
    &&& registers_name(d, e.name@, namespace_of(e.symbol))
}

/// `d` is a type definition named `owner`.
pub open spec fn registers_owner(d: Definition, owner: Seq<char>) -> bool {
    type_definition_name(d) == Some(owner)
}

/// The two definitions register the same name in the same name space.
pub open spec fn clash(a: Definition, b: Definition) -> bool {
    ||| type_definition_name(a) is Some && type_definition_name(a) == type_definition_name(b)
    ||| value_definition_name(a) is Some && value_definition_name(a) == value_definition_name(b)
        && value_definition_space(a) == value_definition_space(b)
}

/// The definitions of an external module can all be registered in a new
/// module scope: no two of them register the same name in the same name
/// space, and each can be registered itself.
pub open spec fn loadable(defs: Seq<Definition>) -> bool
    decreases defs,
{
    &&& forall|a: int, b: int| #![trigger defs[a], defs[b]] 0 <= a < b < defs.len() ==> !clash(defs[a], defs[b])
    &&& forall|k: int| 0 <= k < defs.len() ==> definition_loadable(#[trigger] defs[k])
}

/// A definition can be registered by itself: a struct's methods have
/// distinct names, and a nested module's definitions are `loadable`.
pub open spec fn definition_loadable(d: Definition) -> bool
    decreases d,
{
    match d {
        Definition::Struct(sd) => method_names_distinct(sd.methods@),
        Definition::Module(md) => match md.body {
            Some(b) => loadable(b@),
            None => true,
        },
        _ => true,
    }
}

/// Every entry of scope `m` in `t` was registered by one of the first `i`
/// definitions.
pub open spec fn scope_entries_from(t: SymbolTable, m: u32, defs: Seq<Definition>, i: int) -> bool {
    forall|q: int|
        0 <= q < t.entries@.len() && (#[trigger] t.entries@[q]).scope == m ==> exists|k: int|
            0 <= k < i && #[trigger] entry_registers(defs[k], t.entries@[q])
}

/// Every method of scope `m` in `t` is on a type named by one of the first
/// `i` definitions.
pub open spec fn scope_methods_from(t: SymbolTable, m: u32, defs: Seq<Definition>, i: int) -> bool {
    forall|q: int|
        0 <= q < t.methods@.len() && (#[trigger] t.methods@[q]).scope_id == m ==> exists|k: int|
            0 <= k < i && #[trigger] registers_owner(defs[k], t.methods@[q].owner_type@)
}

/// A name defined in scope `m`, where only the first `i` definitions
/// registered entries, was registered by one of them.
pub proof fn lemma_defined_by_earlier(
    t: SymbolTable,
    m: u32,
    defs: Seq<Definition>,
    i: int,
    name: Seq<char>,
    ns: Namespace,
)
    requires
        scope_entries_from(t, m, defs, i),
        t.defined_in(m, name, ns),
    ensures
        exists|k: int| 0 <= k < i && #[trigger] registers_name(defs[k], name, ns),
{
    lemma_first_match_sound(t.entries@, t.entries@.len() as int, m, name, ns);
    let j = first_match(t.entries@, t.entries@.len() as int, m, name, ns)->0;
    assert(t.entries@[j].scope == m);
    let k = choose|k: int| 0 <= k < i && #[trigger] entry_registers(defs[k], t.entries@[j]);
    assert(registers_name(defs[k], name, ns));
}

/// Every type alias, struct, enum, spec, function, external function and
/// constant among `defs` has its name defined in scope `m` of `t`, in its
/// name space.
pub open spec fn module_defines(t: SymbolTable, m: u32, defs: Seq<Definition>) -> bool {
    &&& forall|k: int|
        0 <= k < defs.len() && #[trigger] type_definition_name(defs[k]) is Some ==> t.defined_in(
            m,
            type_definition_name(defs[k])->0,
            Namespace::Types,
        )
    &&& forall|k: int|
        0 <= k < defs.len() && #[trigger] value_definition_name(defs[k]) is Some ==> t.defined_in(
            m,
            value_definition_name(defs[k])->0,
            value_definition_space(defs[k]),
        )
}

/// Scope `m` of `t` is a module named `name` directly below scope `parent`.
pub open spec fn is_module_below(t: SymbolTable, m: u32, parent: u32, name: Seq<char>) -> bool {
    &&& (m as int) < t.scopes@.len()
    &&& t.parent_of(m) == Some(parent)
    &&& t.scopes@[m as int].name@ == name
    &&& t.scopes@[m as int].is_module
}

/// A module scope and what it defines stay as the table grows.
pub proof fn lemma_module_stays(t0: SymbolTable, t1: SymbolTable, m: u32, parent: u32, name: Seq<char>, defs: Seq<Definition>)
    requires
        t0.wf(),
        t1.grows_from(&t0),
        scopes_kept(t1, t0),
        is_module_below(t0, m, parent, name),
        module_defines(t0, m, defs),
    ensures
        is_module_below(t1, m, parent, name),
        module_defines(t1, m, defs),
{
    assert(t1.scopes@[m as int] == t0.scopes@[m as int]);
    assert forall|k: int|
        0 <= k < defs.len() && #[trigger] type_definition_name(defs[k]) is Some implies t1.defined_in(
        m,
        type_definition_name(defs[k])->0,
        Namespace::Types,
    ) by {
        lemma_defined_stays(t0, t1, m, type_definition_name(defs[k])->0, Namespace::Types);
    }
    assert forall|k: int|
        0 <= k < defs.len() && #[trigger] value_definition_name(defs[k]) is Some implies t1.defined_in(
        m,
        value_definition_name(defs[k])->0,
        value_definition_space(defs[k]),
    ) by {
        lemma_defined_stays(t0, t1, m, value_definition_name(defs[k])->0, value_definition_space(defs[k]));
    }
}

/// The external module `name` with the definitions `defs` is loaded in
/// `t`: some module scope of that name directly below `parent` defines them.
pub open spec fn module_loaded(t: SymbolTable, parent: u32, name: Seq<char>, defs: Seq<Definition>) -> bool {
    exists|m: u32| is_module_below(t, m, parent, name) && #[trigger] module_defines(t, m, defs)
}

impl SymbolTable {
    /// Registers the definitions of an external module in a new public
    /// module scope named `name` below the current scope: type aliases,
    /// structs with their fields and methods, enums, specs, functions,
    /// external functions, constants, and nested modules. Stops at the first
    /// refused registration and returns its reason. It succeeds when the
    /// definitions are `loadable` (and only then), as long as scope
    /// identifiers last. The current scope is the same afterwards.
    #[verifier::spinoff_prover]
    #[verifier::rlimit(60)]
    pub fn load_external_module(&mut self, name: &String, definitions: &Vec<Definition>) -> (r: Result<(), String>)
        requires
            old(self).wf(),
        ensures
            final(self).wf(),
            final(self).current == old(self).current,
            final(self).scopes@.len() >= old(self).scopes@.len(),
            final(self).grows_from(&*old(self)),
            methods_grow(*final(self), *old(self)),
            scopes_kept(*final(self), *old(self)),
            r is Ok && old(self).scopes@.len() < u32::MAX ==> {
                &&& is_module_below(*final(self), old(self).scopes@.len() as u32, old(self).current, name@)
                &&& module_defines(*final(self), old(self).scopes@.len() as u32, definitions@)
            },
            r is Ok ==> loadable(definitions@),
            loadable(definitions@) && final(self).scopes@.len() < u32::MAX ==> r is Ok,
            final(self).scopes@.len() < u32::MAX ==> forall|q: int|
                old(self).entries@.len() <= q < final(self).entries@.len()
                    ==> #[trigger] final(self).entries@[q].scope >= old(self).scopes@.len(),
            final(self).scopes@.len() < u32::MAX ==> forall|q: int|
                old(self).methods@.len() <= q < final(self).methods@.len()
                    ==> #[trigger] final(self).methods@[q].scope_id >= old(self).scopes@.len(),
        decreases definitions,
    {
        let outer = self.current_scope_id();
        let m = self.enter_module(name.clone(), Visibility::Public);
        proof {
            assert forall|s: int| 0 <= s < old(self).scopes@.len() implies #[trigger] self.scopes@[s]
                == old(self).scopes@[s] by {
                assert(self.scopes@.take(old(self).scopes@.len() as int)[s] == old(self).scopes@[s]);
            }
            if self.scopes@.len() < u32::MAX {
                assert forall|q: int| 0 <= q < self.entries@.len() && (#[trigger] self.entries@[q]).scope == m implies exists|k: int|
                    0 <= k < 0 && #[trigger] entry_registers(definitions@[k], self.entries@[q]) by {
                    assert(self.entries@[q] == old(self).entries@[q]);
                }
                assert forall|q: int| 0 <= q < self.methods@.len() && (#[trigger] self.methods@[q]).scope_id == m implies exists|k: int|
                    0 <= k < 0 && #[trigger] registers_owner(definitions@[k], self.methods@[q].owner_type@) by {
                    assert(self.methods@[q] == old(self).methods@[q]);
                }
            }
        }
        let mut i: usize = 0;
        while i < definitions.len()
            invariant
                i <= definitions@.len(),
                self.wf(),
                outer == old(self).current,
                outer < self.scopes@.len(),
                self.scopes@.len() >= old(self).scopes@.len(),
                self.grows_from(&*old(self)),
                methods_grow(*self, *old(self)),
                scopes_kept(*self, *old(self)),
                m == self.current,
                old(self).scopes@.len() < u32::MAX ==> is_module_below(*self, m, outer, name@)
                    && m == old(self).scopes@.len(),
                module_defines(*self, m, definitions@.take(i as int)),
                forall|a: int, b: int| #![trigger definitions@[a], definitions@[b]]
                    0 <= a < b < i ==> !clash(definitions@[a], definitions@[b]),
                forall|k: int| 0 <= k < i ==> definition_loadable(#[trigger] definitions@[k]),
                self.scopes@.len() < u32::MAX ==> scope_entries_from(*self, m, definitions@, i as int),
                self.scopes@.len() < u32::MAX ==> scope_methods_from(*self, m, definitions@, i as int),
                self.scopes@.len() < u32::MAX ==> forall|q: int|
                    old(self).entries@.len() <= q < self.entries@.len()
                        ==> #[trigger] self.entries@[q].scope >= old(self).scopes@.len(),
                self.scopes@.len() < u32::MAX ==> forall|q: int|
                    old(self).methods@.len() <= q < self.methods@.len()
                        ==> #[trigger] self.methods@[q].scope_id >= old(self).scopes@.len(),
            decreases definitions@.len() - i,
        {
            let ghost t0 = *self;
            let registered = match &definitions[i] {
                Definition::Type(td) => self.register_type(&td.name.name, TypeInfo::new(&td.ty)),
                Definition::Struct(sd) => self.load_struct(sd),
                Definition::Enum(ed) => {
                    let mut names: Vec<String> = Vec::new();
                    let mut k: usize = 0;
                    while k < ed.variants.len()
                        invariant
                            k <= ed.variants@.len(),
                        decreases ed.variants@.len() - k,
                    {
                        names.push(ed.variants[k].name.clone());
                        k = k + 1;
                    }
                    self.register_enum(&ed.name.name, names, ed.visibility)
                },
                Definition::Spec(sd) => self.register_spec(&sd.name.name),
                Definition::Function(fd) => {
                    let type_params = identifier_names_of(&fd.type_parameters);
                    let params = external_parameter_types(&fd.arguments, &type_params);
                    let ret = external_return_type(&fd.returns, &type_params);
                    self.register_function(&fd.name.name, type_params, params, ret, fd.visibility)
                },
                Definition::ExternalFunction(ef) => {
                    let none: Vec<String> = Vec::new();
                    let params = external_parameter_types(&ef.arguments, &none);
                    let ret = external_return_type(&ef.returns, &none);
                    self.register_function(&ef.name.name, Vec::new(), params, ret, Visibility::Public)
                },
                Definition::Constant(cd) => self.push_variable_to_scope(&cd.name.name, TypeInfo::new(&cd.ty)),
                Definition::Module(md) => match &md.body {
                    Some(body) => {
                        proof {
                            let ghost d = definitions@[i as int];
                            assert(decreases_to!(*definitions => definitions@));
                            assert(decreases_to!(definitions@ => d));
                            assert(decreases_to!(d => d->Module_0));
                            assert(decreases_to!(d->Module_0 => d->Module_0.body));
                            assert(decreases_to!(d->Module_0.body => *body));
                        }
                        self.load_external_module(&md.name.name, body)
                    },
                    None => Ok(()),
                },
            };
            proof {
                lemma_grows_trans(*old(self), t0, *self);
                assert forall|s: int| 0 <= s < old(self).scopes@.len() implies #[trigger] self.scopes@[s]
                    == old(self).scopes@[s] by {
                    assert(t0.scopes@[s] == old(self).scopes@[s]);
                }
                assert forall|q: int| 0 <= q < old(self).methods@.len() implies #[trigger] self.methods@[q]
                    == old(self).methods@[q] by {
                    assert(t0.methods@[q] == old(self).methods@[q]);
                }
                if old(self).scopes@.len() < u32::MAX {
                    assert(self.scopes@[m as int] == t0.scopes@[m as int]);
                }
                let ghost d = definitions@[i as int];
                let ghost fresh = self.scopes@.len() < u32::MAX;
                assert(t0.scopes@.len() <= self.scopes@.len());
                // What the registration of `d` needed: its name free in `m`.
                assert forall|n: Seq<char>, ns: Namespace| registered is Ok && #[trigger] registers_name(d, n, ns)
                    implies !t0.defined_in(m, n, ns) by {
                    match d {
                        Definition::Struct(sd) => {
                            assert(struct_loadable(t0, sd));
                        },
                        _ => {},
                    }
                }
                if registered is Ok {
                    assert forall|a: int| 0 <= a < i implies !clash(#[trigger] definitions@[a], d) by {
                        let ghost da = definitions@[a];
                        assert(definitions@.take(i as int)[a] == da);
                        if type_definition_name(da) is Some && type_definition_name(da) == type_definition_name(d) {
                            assert(registers_name(d, type_definition_name(da)->0, Namespace::Types));
                        }
                        if value_definition_name(da) is Some && value_definition_name(da) == value_definition_name(d)
                            && value_definition_space(da) == value_definition_space(d) {
                            assert(registers_name(d, value_definition_name(da)->0, value_definition_space(da)));
                        }
                    }
                    match d {
                        Definition::Struct(sd) => {
                            assert(struct_loadable(t0, sd));
                        },
                        _ => {},
                    }
                    assert(definition_loadable(d));
                    if fresh {
                        assert forall|q: int|
                            0 <= q < self.entries@.len() && (#[trigger] self.entries@[q]).scope == m implies exists|k: int|
                            0 <= k < i + 1 && #[trigger] entry_registers(definitions@[k], self.entries@[q]) by {
                            if q < t0.entries@.len() {
                                assert(self.entries@[q] == t0.entries@[q]);
                                let k = choose|k: int| 0 <= k < i && #[trigger] entry_registers(definitions@[k], t0.entries@[q]);
                                assert(entry_registers(definitions@[k], self.entries@[q]));
                            } else {
                                assert(entry_registers(definitions@[i as int], self.entries@[q]));
                            }
                        }
                        assert forall|q: int|
                            0 <= q < self.methods@.len() && (#[trigger] self.methods@[q]).scope_id == m implies exists|k: int|
                            0 <= k < i + 1 && #[trigger] registers_owner(definitions@[k], self.methods@[q].owner_type@) by {
                            if q < t0.methods@.len() {
                                assert(self.methods@[q] == t0.methods@[q]);
                                let k = choose|k: int| 0 <= k < i && #[trigger] registers_owner(definitions@[k], t0.methods@[q].owner_type@);
                                assert(registers_owner(definitions@[k], self.methods@[q].owner_type@));
                            } else {
                                match d {
                                    Definition::Struct(sd) => {
                                        let k = q - t0.methods@.len();
                                        assert(method_loaded(
                                            self.methods@[t0.methods@.len() + k],
                                            sd.name.name@,
                                            sd.methods@[k],
                                            t0.current,
                                        ));
                                        assert(registers_owner(definitions@[i as int], self.methods@[q].owner_type@));
                                    },
                                    Definition::Module(md) => {
                                        assert(self.methods@[q].scope_id >= t0.scopes@.len());
                                    },
                                    _ => {},
                                }
                            }
                        }
                        assert forall|q: int| old(self).entries@.len() <= q < self.entries@.len()
                            implies #[trigger] self.entries@[q].scope >= old(self).scopes@.len() by {
                            if q < t0.entries@.len() {
                                assert(self.entries@[q] == t0.entries@[q]);
                            }
                        }
                        assert forall|q: int| old(self).methods@.len() <= q < self.methods@.len()
                            implies #[trigger] self.methods@[q].scope_id >= old(self).scopes@.len() by {
                            if q < t0.methods@.len() {
                                assert(self.methods@[q] == t0.methods@[q]);
                            }
                        }
                    }
                } else if fresh {
                    match d {
                        Definition::Struct(sd) => {
                            assert(!struct_loadable(t0, sd));
                            if t0.defined_in(m, sd.name.name@, Namespace::Types) {
                                assert(registers_name(d, sd.name.name@, Namespace::Types));
                                lemma_defined_by_earlier(t0, m, definitions@, i as int, sd.name.name@, Namespace::Types);
                                let k = choose|k: int| 0 <= k < i && #[trigger] registers_name(definitions@[k], sd.name.name@, Namespace::Types);
                                assert(clash(definitions@[k], definitions@[i as int]));
                            } else if !method_names_distinct(sd.methods@) {
                                assert(!definition_loadable(d));
                            } else {
                                let j = choose|j: int| 0 <= j < sd.methods@.len() && !(#[trigger] first_method(
                                    t0.methods@,
                                    t0.methods@.len() as int,
                                    t0.current,
                                    sd.name.name@,
                                    sd.methods@[j].name.name@,
                                ) is None);
                                lemma_first_method_sound(t0.methods@, t0.methods@.len() as int, m, sd.name.name@, sd.methods@[j].name.name@);
                                let q = first_method(t0.methods@, t0.methods@.len() as int, m, sd.name.name@, sd.methods@[j].name.name@)->0;
                                assert(t0.methods@[q].scope_id == m);
                                let k = choose|k: int| 0 <= k < i && #[trigger] registers_owner(definitions@[k], t0.methods@[q].owner_type@);
                                assert(clash(definitions@[k], definitions@[i as int]));
                            }
                        },
                        Definition::Module(md) => {
                            assert(!definition_loadable(d));
                        },
                        _ => {
                            let ghost n = if type_definition_name(d) is Some { type_definition_name(d)->0 } else { value_definition_name(d)->0 };
                            let ghost ns = if type_definition_name(d) is Some { Namespace::Types } else { value_definition_space(d) };
                            assert(registers_name(d, n, ns));
                            assert(t0.defined_in(m, n, ns));
                            lemma_defined_by_earlier(t0, m, definitions@, i as int, n, ns);
                            let k = choose|k: int| 0 <= k < i && #[trigger] registers_name(definitions@[k], n, ns);
                            assert(clash(definitions@[k], definitions@[i as int]));
                        },
                    }
                    assert(!loadable(definitions@));
                }
            }
            if let Err(reason) = registered {
                self.restore_scope(outer);
                return Err(reason);
            }
            proof {
                let ghost t1 = *self;
                let ghost d = definitions@[i as int];
                if type_definition_name(d) is Some && !(d is Struct) {
                    lemma_defined_after_append(t0, t1, t1.entries@[t0.entries@.len() as int], Namespace::Types);
                }
                let ghost done = definitions@.take(i as int + 1);
                assert forall|k: int|
                    0 <= k < done.len() && #[trigger] type_definition_name(done[k]) is Some implies t1.defined_in(
                    m,
                    type_definition_name(done[k])->0,
                    Namespace::Types,
                ) by {
                    if k < i {
                        assert(done[k] == definitions@.take(i as int)[k]);
                        lemma_defined_stays(t0, t1, m, type_definition_name(done[k])->0, Namespace::Types);
                    }
                }
                assert forall|k: int|
                    0 <= k < done.len() && #[trigger] value_definition_name(done[k]) is Some implies t1.defined_in(
                    m,
                    value_definition_name(done[k])->0,
                    value_definition_space(done[k]),
                ) by {
                    if k < i {
                        assert(done[k] == definitions@.take(i as int)[k]);
                        lemma_defined_stays(t0, t1, m, value_definition_name(done[k])->0, value_definition_space(done[k]));
                    } else {
                        lemma_defined_after_append(t0, t1, t1.entries@[t0.entries@.len() as int], value_definition_space(d));
                    }
                }
            }
            i = i + 1;
        }
        proof {
            assert(definitions@.take(i as int) =~= definitions@);
        }
        self.restore_scope(outer);
        Ok(())
    }

    /// Registers a struct of an external module with its fields and methods.
    /// It succeeds exactly when `struct_loadable`: the struct's name is free
    /// among the types of the current scope, its methods have distinct names,
    /// and none of them is registered on a struct of that name in the current
    /// scope already. Then the struct's entry is appended and one method per
    /// method definition, in order; otherwise it stops at the first refusal
    /// and returns its reason.
    fn load_struct(&mut self, sd: &crate::ast::StructDefinition) -> (r: Result<(), String>)
        requires
            old(self).wf(),
        ensures
            final(self).wf(),
            final(self).current == old(self).current,
            final(self).scopes@ == old(self).scopes@,
            final(self).grows_from(&*old(self)),
            methods_grow(*final(self), *old(self)),
            forall|q: int| old(self).entries@.len() <= q < final(self).entries@.len()
                ==> #[trigger] final(self).entries@[q].scope == old(self).current,
            forall|q: int| old(self).methods@.len() <= q < final(self).methods@.len()
                ==> #[trigger] final(self).methods@[q].scope_id == old(self).current,
            r is Ok <==> struct_loadable(*old(self), *sd),
            r is Ok ==> {
                &&& final(self).entries@.len() == old(self).entries@.len() + 1
                &&& final(self).entries@.last().scope == old(self).current
                &&& final(self).entries@.last().name@ == sd.name.name@
                &&& final(self).entries@.last().symbol is Struct
                &&& final(self).defined_in(old(self).current, sd.name.name@, Namespace::Types)
                &&& final(self).methods@.len() == old(self).methods@.len() + sd.methods@.len()
                &&& forall|k: int| 0 <= k < sd.methods@.len() ==> #[trigger] method_loaded(
                    final(self).methods@[old(self).methods@.len() + k],
                    sd.name.name@,
                    sd.methods@[k],
                    old(self).current,
                )
            },
    {
        let mut fields: Vec<FieldInfo> = Vec::new();
        let mut i: usize = 0;
        while i < sd.fields.len()
            invariant
                i <= sd.fields@.len(),
            decreases sd.fields@.len() - i,
        {
            let f = &sd.fields[i];
            fields.push(FieldInfo { name: f.name.name.clone(), type_info: TypeInfo::new(&f.type_), visibility: Visibility::Private });
            i = i + 1;
        }
        let ghost t0 = *self;
        let registered = self.register_struct(&sd.name.name, fields, Vec::new(), sd.visibility);
        if registered.is_err() {
            return registered;
        }
        proof {
            lemma_defined_after_append(t0, *self, self.entries@[t0.entries@.len() as int], Namespace::Types);
        }
        let ghost t1 = *self;
        let ghost base = t1.methods@.len() as int;
        let ghost owner = sd.name.name@;
        let ghost cur = old(self).current;
        let mut m: usize = 0;
        while m < sd.methods.len()
            invariant
                m <= sd.methods@.len(),
                self.wf(),
                self.current == old(self).current,
                self.scopes@ == old(self).scopes@,
                self.entries@ == t1.entries@,
                t1.grows_from(&*old(self)),
                t1.entries@.len() == old(self).entries@.len() + 1,
                t1.entries@.last().scope == cur,
                t1.entries@.last().name@ == owner,
                t1.entries@.last().symbol is Struct,
                t1.defined_in(old(self).current, sd.name.name@, Namespace::Types),
                t1.methods@ == old(self).methods@,
                cur == old(self).current,
                owner == sd.name.name@,
                base == old(self).methods@.len(),
                self.methods@.len() == base + m,
                forall|q: int| 0 <= q < base ==> #[trigger] self.methods@[q] == t1.methods@[q],
                forall|q: int| base <= q < self.methods@.len() ==> #[trigger] self.methods@[q].scope_id == cur,
                forall|k: int| 0 <= k < m ==> #[trigger] method_loaded(self.methods@[base + k], owner, sd.methods@[k], cur),
                forall|k: int| 0 <= k < m ==> #[trigger] first_method(
                    t1.methods@,
                    base,
                    cur,
                    owner,
                    sd.methods@[k].name.name@,
                ) is None,
                forall|a: int, b: int| #![trigger sd.methods@[a], sd.methods@[b]]
                    0 <= a < b < m ==> sd.methods@[a].name.name@ != sd.methods@[b].name.name@,
                !old(self).defined_in(old(self).current, sd.name.name@, Namespace::Types),
            decreases sd.methods@.len() - m,
        {
            let method = &sd.methods[m];
            let mut has_self = false;
            if let Some(args) = &method.arguments {
                let mut k: usize = 0;
                while k < args.len()
                    invariant
                        k <= args@.len(),
                        has_self <==> exists|q: int| 0 <= q < k && (#[trigger] args@[q]) is SelfReference,
                    decreases args@.len() - k,
                {
                    if let ArgumentType::SelfReference(_) = &args[k] {
                        has_self = true;
                        proof {
                            assert(args@[k as int] is SelfReference);
                        }
                    }
                    k = k + 1;
                }
            }
            let none: Vec<String> = Vec::new();
            proof {
                assert(views(none@) =~= Seq::<Seq<char>>::empty());
            }
            let signature = FuncInfo {
                name: method.name.name.clone(),
                type_params: identifier_names_of(&method.type_parameters),
                param_types: external_parameter_types(&method.arguments, &none),
                return_type: external_return_type(&method.returns, &none),
                visibility: method.visibility,
                definition_scope_id: self.current,
            };
            let ghost sig = signature;
            let ghost before = self.methods@;
            let added = self.register_method(&sd.name.name, signature, method.visibility, has_self);
            proof {
                let ghost name = sd.methods@[m as int].name.name@;
                lemma_first_method_none(before, before.len() as int, cur, owner, name);
                lemma_first_method_none(t1.methods@, base, cur, owner, name);
                if added is Err {
                    lemma_first_method_sound(before, before.len() as int, cur, owner, name);
                    let q = first_method(before, before.len() as int, cur, owner, name)->0;
                    if q < base {
                        assert(before[q] == t1.methods@[q]);
                        assert(first_method(t1.methods@, base, cur, owner, name) is Some);
                        assert(!struct_loadable(*old(self), *sd));
                    } else {
                        let k = q - base;
                        assert(method_loaded(self.methods@[base + k], owner, sd.methods@[k], cur));
                        assert(!method_names_distinct(sd.methods@));
                    }
                } else {
                    assert forall|q: int| 0 <= q < base implies !(t1.methods@[q].scope_id == cur && method_matches(
                        t1.methods@[q],
                        owner,
                        name,
                    )) by {
                        assert(before[q] == t1.methods@[q]);
                    }
                    assert forall|a: int| 0 <= a < m implies sd.methods@[a].name.name@ != name by {
                        assert(method_loaded(before[base + a], owner, sd.methods@[a], cur));
                    }
                    assert(method_loaded(self.methods@[base + m], owner, sd.methods@[m as int], cur));
                }
            }
            if added.is_err() {
                return added;
            }
            m = m + 1;
        }
        proof {
            assert(struct_loadable(*old(self), *sd));
        }
        Ok(())
    }
}

} // verus!
