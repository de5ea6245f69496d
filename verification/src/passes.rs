//! The checker's passes over whole source files: registering definitions,
//! directives and imports, checking function and method bodies, and
//! reporting the outcome.
use vstd::prelude::*;

use crate::ast::{
    ArgumentType, Definition, Directive, FunctionDefinition, Identifier, SourceFile, StructDefinition,
    Type, UseDirective, Visibility,
};
use crate::errors::{RegistrationKind, TypeCheckError};
use crate::statements::{block_checked, scope_closed, scope_opened, stmts_wf, table_at, variable_added};
use crate::reports::{pushes, report_state, stage, Report};
use crate::symbol_table::{FieldInfo, FuncInfo, Import, ImportItem, ImportKind};
use crate::text::{clone_strings, views};
use crate::type_checker::{extends, visible, TypeChecker};
use crate::type_info::{TypeInfo, TypeInfoKind};
use crate::typed_context::NodeTypes;
use crate::symbol_table::{
    lemma_defined_after_append, lemma_defined_stays, lemma_grows_trans, lemma_import_defined, qualified_target,
    already_defined_text, first_method, scopes_kept, symbol_is_public, Entry,
    Namespace, Symbol, SymbolTable,
};
use crate::fx::scope_set_contents;
use crate::prelude::{is_module_below, lemma_module_stays, loadable, method_loaded, module_defines, module_loaded};

verus! {

/// Every body in the definition satisfies `stmts_wf`: functions, methods of
/// structs, and the definitions of modules.
pub open spec fn def_wf(d: Definition) -> bool
    decreases d,
{
    match d {
        Definition::Function(f) => stmts_wf(f.body@),
        Definition::Struct(s) => forall|i: int| 0 <= i < s.methods@.len() ==> stmts_wf(#[trigger] s.methods@[i].body@),
        Definition::Module(m) => match m.body {
            Some(b) => forall|i: int| 0 <= i < b@.len() ==> def_wf(#[trigger] b@[i]),
            None => true,
        },
        _ => true,
    }
}

/// Every definition of every file satisfies `def_wf`.
pub open spec fn files_wf(files: Seq<SourceFile>) -> bool {
    forall|i: int, j: int| 0 <= i < files.len() && 0 <= j < files[i].definitions@.len()
        ==> def_wf(#[trigger] files[i].definitions@[j])
}

/// The names of the identifiers, owned.
fn names_of(ids: &Vec<Identifier>) -> (r: Vec<String>)
    ensures
        views(r@) == crate::type_checker::identifier_names(ids@),
{
    let mut r: Vec<String> = Vec::new();
    let mut i: usize = 0;
    while i < ids.len()
        invariant
            i <= ids@.len(),
            r@.len() == i,
            forall|k: int| 0 <= k < i ==> #[trigger] r@[k]@ == ids@[k].name@,
        decreases ids@.len() - i,
    {
        r.push(ids[i].name.clone());
        i = i + 1;
    }
    proof {
        assert(views(r@) =~= crate::type_checker::identifier_names(ids@));
    }
    r
}

/// The names of optional type parameters, owned (none when absent).
fn type_parameter_names(ids: &Option<Vec<Identifier>>) -> (r: Vec<String>)
    ensures
        views(r@) == match ids {
            Some(v) => crate::type_checker::identifier_names(v@),
            None => Seq::empty(),
        },
{
    match ids {
        Some(v) => names_of(v),
        None => {
            let r: Vec<String> = Vec::new();
            proof {
                assert(views(r@) =~= Seq::<Seq<char>>::empty());
            }
            r
        },
    }
}

/// The declared types of the parameters `args` other than `self`, in
/// order, read with the names in `params` as type parameters.
pub open spec fn argument_types(args: Seq<ArgumentType>, params: Seq<Seq<char>>) -> Seq<crate::type_info::TypeModel>
    decreases args.len(),
{
    if args.len() == 0 {
        Seq::empty()
    } else {
        let before = argument_types(args.drop_last(), params);
        match args.last() {
            ArgumentType::SelfReference(_) => before,
            ArgumentType::IgnoreArgument(a) => before.push(crate::type_info::type_of(a.ty, params)),
            ArgumentType::Argument(a) => before.push(crate::type_info::type_of(a.ty, params)),
            ArgumentType::Type(t) => before.push(crate::type_info::type_of(t, params)),
        }
    }
}

/// The declared types of optional parameters (none when absent).
pub open spec fn optional_argument_types(
    arguments: Option<Vec<ArgumentType>>,
    params: Seq<Seq<char>>,
) -> Seq<crate::type_info::TypeModel> {
    match arguments {
        Some(v) => argument_types(v@, params),
        None => Seq::empty(),
    }
}

/// Whether `self` is among the parameters `args`.
pub open spec fn has_self_parameter(arguments: Option<Vec<ArgumentType>>) -> bool {
    match arguments {
        Some(v) => exists|k: int| 0 <= k < v@.len() && (#[trigger] v@[k]) is SelfReference,
        None => false,
    }
}

/// The types of the parameters other than `self`, read with `type_params`
/// as type parameters in scope.
fn parameter_types(arguments: &Option<Vec<ArgumentType>>, type_params: &Vec<String>) -> (r: Vec<TypeInfo>)
    ensures
        r@.map_values(|p: TypeInfo| p@) == optional_argument_types(*arguments, views(type_params@)),
{
    let mut r: Vec<TypeInfo> = Vec::new();
    if let Some(args) = arguments {
        let mut i: usize = 0;
        while i < args.len()
            invariant
                i <= args@.len(),
                r@.map_values(|p: TypeInfo| p@) == argument_types(args@.take(i as int), views(type_params@)),
            decreases args@.len() - i,
        {
            proof {
                assert(args@.take(i as int + 1).drop_last() =~= args@.take(i as int));
                assert(args@.take(i as int + 1).last() == args@[i as int]);
            }
            match &args[i] {
                ArgumentType::SelfReference(_) => {},
                ArgumentType::IgnoreArgument(ignore_arg) => {
                    r.push(TypeInfo::new_with_type_params(&ignore_arg.ty, type_params));
                },
                ArgumentType::Argument(arg) => {
                    r.push(TypeInfo::new_with_type_params(&arg.ty, type_params));
                },
                ArgumentType::Type(ty) => {
                    r.push(TypeInfo::new_with_type_params(ty, type_params));
                },
            }
            proof {
                assert(r@.map_values(|p: TypeInfo| p@) =~= argument_types(args@.take(i as int + 1), views(type_params@)));
            }
            i = i + 1;
        }
        proof {
            assert(args@.take(i as int) =~= args@);
        }
    } else {
        proof {
            assert(r@.map_values(|p: TypeInfo| p@) =~= Seq::<crate::type_info::TypeModel>::empty());
        }
    }
    r
}

/// Whether one of the parameters is `self`.
fn takes_self(arguments: &Option<Vec<ArgumentType>>) -> (r: bool)
    ensures
        r == has_self_parameter(*arguments),
{
    if let Some(args) = arguments {
        let mut i: usize = 0;
        while i < args.len()
            invariant
                i <= args@.len(),
                *arguments == Some(*args),
                forall|k: int| 0 <= k < i ==> !((#[trigger] args@[k]) is SelfReference),
            decreases args@.len() - i,
        {
            if let ArgumentType::SelfReference(_) = &args[i] {
                proof {
                    assert(args@[i as int] is SelfReference);
                }
                return true;
            }
            i = i + 1;
        }
    }
    false
}

/// The type a function declared to return, where the names in `params`
/// are type parameters in scope: unit when it declared none.
pub open spec fn return_model(declared: Option<Type>, params: Seq<Seq<char>>) -> crate::type_info::TypeModel {
    match declared {
        Some(t) => crate::type_info::type_of(t, params),
        None => crate::type_info::plain(crate::type_info::KindModel::Unit),
    }
}

/// The declared return type, unit when there is none.
fn return_type_of(declared: &Option<Type>, type_params: &Vec<String>) -> (r: TypeInfo)
    ensures
        r@ == return_model(*declared, views(type_params@)),
{
    match declared {
        Some(t) => TypeInfo::new_with_type_params(t, type_params),
        None => TypeInfo::unit(),
    }
}

/// `owner::member`
fn qualified(owner: &String, member: &String) -> (r: String)
    ensures
        r@ == owner@ + "::"@ + member@,
{
    proof {
        reveal_strlit("::");
    }
    let mut s = owner.clone();
    s.append("::");
    s.append(member.as_str());
    s
}

/// The name that a type alias, struct, enum or spec definition registers
/// among the types.
pub open spec fn type_definition_name(d: Definition) -> Option<Seq<char>> {
    match d {
        Definition::Type(t) => Some(t.name.name@),
        Definition::Struct(s) => Some(s.name.name@),
        Definition::Enum(e) => Some(e.name.name@),
        Definition::Spec(s) => Some(s.name.name@),
        _ => None,
    }
}

/// Every type alias, struct, enum and spec definition of the files has its
/// name defined among the types of the current scope of `t`, by itself or
/// by an earlier definition of that name.
pub open spec fn type_definitions_registered(t: SymbolTable, files: Seq<SourceFile>) -> bool {
    forall|i: int, j: int|
        0 <= i < files.len() && 0 <= j < files[i].definitions@.len() && #[trigger] type_definition_name(
            files[i].definitions@[j],
        ) is Some ==> t.defined_in(t.current, type_definition_name(files[i].definitions@[j])->0, Namespace::Types)
}

/// The name that a function, external function or constant definition
/// registers.
pub open spec fn value_definition_name(d: Definition) -> Option<Seq<char>> {
    match d {
        Definition::Function(f) => Some(f.name.name@),
        Definition::ExternalFunction(f) => Some(f.name.name@),
        Definition::Constant(c) => Some(c.name.name@),
        _ => None,
    }
}

/// The name space a definition registers its name in: constants among the
/// variables, everything else among the functions.
pub open spec fn value_definition_space(d: Definition) -> Namespace {
    match d {
        Definition::Constant(_) => Namespace::Variables,
        _ => Namespace::Functions,
    }
}

/// Every function, external function and constant definition of the files
/// has its name defined in its name space in the current scope of `t`, by
/// itself or by an earlier definition of that name.
pub open spec fn value_definitions_registered(t: SymbolTable, files: Seq<SourceFile>) -> bool {
    forall|i: int, j: int|
        0 <= i < files.len() && 0 <= j < files[i].definitions@.len() && #[trigger] value_definition_name(
            files[i].definitions@[j],
        ) is Some ==> t.defined_in(
            t.current,
            value_definition_name(files[i].definitions@[j])->0,
            value_definition_space(files[i].definitions@[j]),
        )
}

/// What is registered for the files stays registered as the entries grow
/// and the current scope stays.
pub proof fn lemma_registered_stays(t0: SymbolTable, t1: SymbolTable, files: Seq<SourceFile>)
    requires
        t0.wf(),
        t1.grows_from(&t0),
        t1.current == t0.current,
    ensures
        type_definitions_registered(t0, files) ==> type_definitions_registered(t1, files),
        value_definitions_registered(t0, files) ==> value_definitions_registered(t1, files),
{
    if type_definitions_registered(t0, files) {
        assert forall|i: int, j: int|
            0 <= i < files.len() && 0 <= j < files[i].definitions@.len() && #[trigger] type_definition_name(
                files[i].definitions@[j],
            ) is Some implies t1.defined_in(
            t1.current,
            type_definition_name(files[i].definitions@[j])->0,
            Namespace::Types,
        ) by {
            lemma_defined_stays(t0, t1, t0.current, type_definition_name(files[i].definitions@[j])->0, Namespace::Types);
        }
    }
    if value_definitions_registered(t0, files) {
        assert forall|i: int, j: int|
            0 <= i < files.len() && 0 <= j < files[i].definitions@.len() && #[trigger] value_definition_name(
                files[i].definitions@[j],
            ) is Some implies t1.defined_in(
            t1.current,
            value_definition_name(files[i].definitions@[j])->0,
            value_definition_space(files[i].definitions@[j]),
        ) by {
            lemma_defined_stays(
                t0,
                t1,
                t0.current,
                value_definition_name(files[i].definitions@[j])->0,
                value_definition_space(files[i].definitions@[j]),
            );
        }
    }
}

/// Every error from position `from` on is a registration failure.
pub open spec fn only_registration_failures_from(errors: Seq<TypeCheckError>, from: int) -> bool {
    forall|i: int| from <= i < errors.len() ==> #[trigger] errors[i] is RegistrationFailed
}

/// `e` reports the refused registration of `name` as a `kind` at `l`, with
/// no reason given.
pub open spec fn refusal(e: TypeCheckError, kind: RegistrationKind, name: Seq<char>, l: crate::ast::Location) -> bool {
    e matches TypeCheckError::RegistrationFailed { kind: k, name: n, reason, location } && k == kind && n@ == name
        && reason is None && location == l
}

/// Registering `name` among the types of the current scope of `t0`: when
/// the name is taken there, the table stays and the refusal is reported;
/// otherwise one entry of that name, whose symbol `fits`, is appended and
/// nothing is reported.
pub open spec fn registered_or_refused(
    t0: SymbolTable,
    e0: Seq<TypeCheckError>,
    name: Seq<char>,
    kind: RegistrationKind,
    l: crate::ast::Location,
    fits: spec_fn(Symbol) -> bool,
    t1: SymbolTable,
    e1: Seq<TypeCheckError>,
) -> bool {
    if t0.defined_in(t0.current, name, Namespace::Types) {
        &&& t1 == t0
        &&& e1.len() == e0.len() + 1
        &&& e1.drop_last() == e0
        &&& refusal(e1.last(), kind, name, l)
    } else {
        &&& e1 == e0
        &&& t1.entries@.len() == t0.entries@.len() + 1
        &&& t1.entries@.drop_last() == t0.entries@
        &&& t1.entries@.last().scope == t0.current
        &&& t1.entries@.last().name@ == name
        &&& fits(t1.entries@.last().symbol)
        &&& t1.scopes@ == t0.scopes@
        &&& t1.current == t0.current
        &&& t1.methods@ == t0.methods@
        &&& t1.imports@ == t0.imports@
    }
}

/// The symbol registered for the struct `sd` in scope `scope`: its name,
/// its fields in order with their declared types (private), no type
/// parameters, its visibility and scope.
pub open spec fn struct_fits(s: Symbol, sd: StructDefinition, scope: u32) -> bool {
    s matches Symbol::Struct(info) && info.name@ == sd.name.name@ && info.fields@.len() == sd.fields@.len()
        && (forall|k: int| 0 <= k < sd.fields@.len() ==> {
            &&& (#[trigger] info.fields@[k]).name@ == sd.fields@[k].name.name@
            &&& info.fields@[k].type_info@ == crate::type_info::type_of(sd.fields@[k].type_, Seq::empty())
            &&& info.fields@[k].visibility == Visibility::Private
        }) && info.type_params@.len() == 0 && info.visibility == sd.visibility && info.definition_scope_id == scope
}

/// `e` reports that the method `m` of `owner` is registered in the scope
/// already, with the table's reason.
pub open spec fn method_refusal(e: TypeCheckError, owner: Seq<char>, m: FunctionDefinition) -> bool {
    match e {
        TypeCheckError::RegistrationFailed { kind, name, reason, location } => {
            &&& kind == RegistrationKind::Method
            &&& name@ == owner + "::"@ + m.name.name@
            &&& match reason {
                Some(x) => x@ == already_defined_text("method"@, m.name.name@),
                None => false,
            }
            &&& location == m.location
        },
        _ => false,
    }
}

/// Registering the method `m` on `owner` in the current scope of `t0`: when
/// that method of `owner` is registered there already, the refusal is
/// reported with its reason; otherwise the method is appended as
/// `method_loaded` describes. Nothing else of the table changes.
pub open spec fn method_registered(
    t0: SymbolTable,
    e0: Seq<TypeCheckError>,
    owner: Seq<char>,
    m: FunctionDefinition,
    t1: SymbolTable,
    e1: Seq<TypeCheckError>,
) -> bool {
    &&& t1.entries@ == t0.entries@
    &&& t1.scopes@ == t0.scopes@
    &&& t1.current == t0.current
    &&& t1.imports@ == t0.imports@
    &&& if first_method(t0.methods@, t0.methods@.len() as int, t0.current, owner, m.name.name@) is Some {
        &&& t1.methods@ == t0.methods@
        &&& e1.len() == e0.len() + 1
        &&& e1.drop_last() == e0
        &&& method_refusal(e1.last(), owner, m)
    } else {
        &&& e1 == e0
        &&& t1.methods@.len() == t0.methods@.len() + 1
        &&& t1.methods@.drop_last() == t0.methods@
        &&& method_loaded(t1.methods@.last(), owner, m, t0.current)
    }
}

/// An error list at some point of registration (the identity: it names
/// such a list in the statements below).
pub open spec fn errors_at(e: Seq<TypeCheckError>) -> Seq<TypeCheckError> {
    e
}

/// Registering the first `n` methods of `sd` in order.
pub open spec fn methods_registered(
    t0: SymbolTable,
    e0: Seq<TypeCheckError>,
    sd: StructDefinition,
    n: int,
    t1: SymbolTable,
    e1: Seq<TypeCheckError>,
) -> bool
    decreases n,
{
    if n <= 0 {
        t1 == t0 && e1 == e0
    } else {
        exists|tm: SymbolTable, em: Seq<TypeCheckError>|
            #![trigger table_at(tm), errors_at(em)]
            methods_registered(t0, e0, sd, n - 1, table_at(tm), errors_at(em)) && method_registered(
                tm,
                em,
                sd.name.name@,
                sd.methods@[n - 1],
                t1,
                e1,
            )
    }
}

/// Registering the struct `sd` and, when `with_methods`, its methods.
pub open spec fn struct_registered(
    t0: SymbolTable,
    e0: Seq<TypeCheckError>,
    sd: StructDefinition,
    with_methods: bool,
    t1: SymbolTable,
    e1: Seq<TypeCheckError>,
) -> bool {
    exists|tm: SymbolTable, em: Seq<TypeCheckError>|
        #![trigger table_at(tm), errors_at(em)]
        registered_or_refused(
            t0,
            e0,
            sd.name.name@,
            RegistrationKind::Struct,
            sd.location,
            |s: Symbol| struct_fits(s, sd, t0.current),
            table_at(tm),
            errors_at(em),
        ) && if with_methods {
            methods_registered(tm, em, sd, sd.methods@.len() as int, t1, e1)
        } else {
            t1 == tm && e1 == em
        }
}

/// Registering a type alias, struct, enum or spec definition; other
/// definitions change nothing.
pub open spec fn type_definition_step(
    t0: SymbolTable,
    e0: Seq<TypeCheckError>,
    d: Definition,
    with_methods: bool,
    t1: SymbolTable,
    e1: Seq<TypeCheckError>,
) -> bool {
    match d {
        Definition::Type(td) => registered_or_refused(
            t0,
            e0,
            td.name.name@,
            RegistrationKind::Type,
            td.location,
            |s: Symbol| s matches Symbol::TypeAlias(ti) && ti@ == crate::type_info::type_of(td.ty, Seq::empty()),
            t1,
            e1,
        ),
        Definition::Struct(sd) => struct_registered(t0, e0, sd, with_methods, t1, e1),
        Definition::Enum(ed) => registered_or_refused(
            t0,
            e0,
            ed.name.name@,
            RegistrationKind::Enum,
            ed.location,
            |s: Symbol| s matches Symbol::Enum(info) && info.name@ == ed.name.name@ && views(info.variants@)
                == crate::type_checker::identifier_names(ed.variants@) && info.visibility == ed.visibility
                && info.definition_scope_id == t0.current,
            t1,
            e1,
        ),
        Definition::Spec(sd) => registered_or_refused(
            t0,
            e0,
            sd.name.name@,
            RegistrationKind::Spec,
            sd.location,
            |s: Symbol| s is Spec,
            t1,
            e1,
        ),
        _ => t1 == t0 && e1 == e0,
    }
}

/// Registering the type definitions among `ds` in order, with methods.
pub open spec fn type_definitions_steps(
    t0: SymbolTable,
    e0: Seq<TypeCheckError>,
    ds: Seq<Definition>,
    t1: SymbolTable,
    e1: Seq<TypeCheckError>,
) -> bool
    decreases ds.len(),
{
    if ds.len() == 0 {
        t1 == t0 && e1 == e0
    } else {
        exists|tm: SymbolTable, em: Seq<TypeCheckError>|
            #![trigger table_at(tm), errors_at(em)]
            type_definitions_steps(t0, e0, ds.drop_last(), table_at(tm), errors_at(em)) && type_definition_step(
                tm,
                em,
                ds.last(),
                true,
                t1,
                e1,
            )
    }
}

/// Registering the type definitions of the files `fs` in order.
pub open spec fn files_types_registered(
    t0: SymbolTable,
    e0: Seq<TypeCheckError>,
    fs: Seq<SourceFile>,
    t1: SymbolTable,
    e1: Seq<TypeCheckError>,
) -> bool
    decreases fs.len(),
{
    if fs.len() == 0 {
        t1 == t0 && e1 == e0
    } else {
        exists|tm: SymbolTable, em: Seq<TypeCheckError>|
            #![trigger table_at(tm), errors_at(em)]
            files_types_registered(t0, e0, fs.drop_last(), table_at(tm), errors_at(em)) && type_definitions_steps(
                tm,
                em,
                fs.last().definitions@,
                t1,
                e1,
            )
    }
}

impl TypeChecker {
    /// Registers the fields of a struct, and its methods when `with_methods`;
    /// each refused registration is reported.
    fn register_struct_definition(&mut self, struct_definition: &StructDefinition, with_methods: bool)
        requires
            old(self).wf(),
        ensures
            final(self).keeps_scope(old(self)),
            final(self).symbol_table.grows_from(&old(self).symbol_table),
            final(self).symbol_table.defined_in(
                final(self).symbol_table.current,
                struct_definition.name.name@,
                Namespace::Types,
            ),
            final(self).reported_error_keys == old(self).reported_error_keys,
            only_registration_failures_from(final(self).errors@, old(self).errors@.len() as int),
            struct_registered(
                old(self).symbol_table,
                old(self).errors@,
                *struct_definition,
                with_methods,
                final(self).symbol_table,
                final(self).errors@,
            ),
    {
        let mut fields: Vec<FieldInfo> = Vec::new();
        let mut i: usize = 0;
        while i < struct_definition.fields.len()
            invariant
                i <= struct_definition.fields@.len(),
                fields@.len() == i,
                forall|k: int| 0 <= k < i ==> {
                    &&& (#[trigger] fields@[k]).name@ == struct_definition.fields@[k].name.name@
                    &&& fields@[k].type_info@ == crate::type_info::type_of(struct_definition.fields@[k].type_, Seq::empty())
                    &&& fields@[k].visibility == Visibility::Private
                },
            decreases struct_definition.fields@.len() - i,
        {
            let f = &struct_definition.fields[i];
            fields.push(
                FieldInfo {
                    name: f.name.name.clone(),
                    type_info: TypeInfo::new(&f.type_),
                    visibility: Visibility::Private,
                },
            );
            i = i + 1;
        }
        let struct_name = &struct_definition.name.name;
        let ghost t0 = self.symbol_table;
        let ghost cur = t0.current;
        let ghost fits = |s: Symbol| struct_fits(s, *struct_definition, cur);
        let no_type_params: Vec<String> = Vec::new();
        let registered = self.symbol_table.register_struct(struct_name, fields, no_type_params, struct_definition.visibility);
        proof {
            if registered is Ok {
                lemma_defined_after_append(t0, self.symbol_table, self.symbol_table.entries@.last(), Namespace::Types);
                assert(self.symbol_table.entries@.drop_last() =~= t0.entries@);
                assert(fits(self.symbol_table.entries@.last().symbol));
            }
        }
        if registered.is_err() {
            self.push_error(
                TypeCheckError::RegistrationFailed {
                    kind: RegistrationKind::Struct,
                    name: struct_name.clone(),
                    reason: None,
                    location: struct_definition.location,
                },
            );
            proof {
                assert(self.errors@.drop_last() =~= old(self).errors@);
            }
        }
        let ghost tm = self.symbol_table;
        let ghost em = self.errors@;
        proof {
            assert(registered_or_refused(
                old(self).symbol_table,
                old(self).errors@,
                struct_definition.name.name@,
                RegistrationKind::Struct,
                struct_definition.location,
                fits,
                tm,
                em,
            ));
            assert(table_at(tm) == tm && errors_at(em) == em);
        }
        if !with_methods {
            return;
        }
        let ghost t1 = self.symbol_table;
        let mut m: usize = 0;
        while m < struct_definition.methods.len()
            invariant
                m <= struct_definition.methods@.len(),
                self.keeps_scope(old(self)),
                self.symbol_table.entries@ == t1.entries@,
                t1.grows_from(&old(self).symbol_table),
                t1.defined_in(t1.current, struct_definition.name.name@, Namespace::Types),
                t1.current == self.symbol_table.current,
                self.reported_error_keys == old(self).reported_error_keys,
                only_registration_failures_from(self.errors@, old(self).errors@.len() as int),
                methods_registered(tm, em, *struct_definition, m as int, self.symbol_table, self.errors@),
                *struct_name == struct_definition.name.name,
            decreases struct_definition.methods@.len() - m,
        {
            let ghost tb = self.symbol_table;
            let ghost eb = self.errors@;
            let method = &struct_definition.methods[m];
            let has_self = takes_self(&method.arguments);
            let type_params = type_parameter_names(&method.type_parameters);
            let no_params: Vec<String> = Vec::new();
            proof {
                assert(views(no_params@) =~= Seq::<Seq<char>>::empty());
            }
            let param_types = parameter_types(&method.arguments, &no_params);
            let return_type = return_type_of(&method.returns, &no_params);
            let definition_scope_id = self.symbol_table.current_scope_id();
            let signature = FuncInfo {
                name: method.name.name.clone(),
                type_params,
                param_types,
                return_type,
                visibility: method.visibility,
                definition_scope_id,
            };
            let ghost sig = signature;
            let added = self.symbol_table.register_method(struct_name, signature, method.visibility, has_self);
            match added {
                Err(err) => {
                    let ghost er = err;
                    let qname = qualified(struct_name, &method.name.name);
                    let ghost qn = qname;
                    self.push_error(
                        TypeCheckError::RegistrationFailed {
                            kind: RegistrationKind::Method,
                            name: qname,
                            reason: Some(err),
                            location: method.location,
                        },
                    );
                    proof {
                        assert(self.errors@.drop_last() =~= eb);
                        assert(self.errors@.last() == TypeCheckError::RegistrationFailed {
                            kind: RegistrationKind::Method,
                            name: qn,
                            reason: Some(er),
                            location: method.location,
                        });
                        assert(er@ == already_defined_text("method"@, sig.name@));
                        assert(sig.name@ == struct_definition.methods@[m as int].name.name@);
                        assert(method_refusal(self.errors@.last(), struct_definition.name.name@, struct_definition.methods@[m as int]));
                    }
                },
                Ok(()) => {
                    proof {
                        assert(self.symbol_table.methods@.drop_last() =~= tb.methods@);
                        let ghost mi = self.symbol_table.methods@.last();
                        assert(mi.signature == sig);
                        assert(mi.owner_type@ == struct_definition.name.name@);
                        assert(mi.scope_id == tb.current);
                        assert(views(sig.type_params@) == type_parameters_of(*method));
                        assert(sig.param_types@.map_values(|p: TypeInfo| p@) == optional_argument_types(method.arguments, Seq::empty()));
                        assert(sig.return_type@ == return_model(method.returns, Seq::empty()));
                        assert(method_loaded(mi, struct_definition.name.name@, *method, tb.current));
                    }
                },
            }
            proof {
                let ghost md = struct_definition.methods@[m as int];
                assert(self.symbol_table.entries@ == tb.entries@);
                assert(self.symbol_table.current == tb.current);
                if first_method(tb.methods@, tb.methods@.len() as int, tb.current, struct_definition.name.name@, md.name.name@) is Some {
                    assert(self.errors@.drop_last() == eb);
                    assert(method_refusal(self.errors@.last(), struct_definition.name.name@, md));
                } else {
                    assert(method_loaded(self.symbol_table.methods@.last(), struct_definition.name.name@, md, tb.current));
                }
                assert(method_registered(tb, eb, struct_definition.name.name@, struct_definition.methods@[m as int], self.symbol_table, self.errors@));
                assert(table_at(tb) == tb && errors_at(eb) == eb);
                assert(methods_registered(tm, em, *struct_definition, m as int + 1, self.symbol_table, self.errors@));
            }
            m = m + 1;
        }
    }

    /// Registers a type, struct (with its methods when `with_methods`), enum
    /// or spec definition; other definitions are left alone. Each refused
    /// registration is reported.
    fn register_type_definition(&mut self, definition: &Definition, with_methods: bool)
        requires
            old(self).wf(),
        ensures
            final(self).keeps_scope(old(self)),
            final(self).symbol_table.grows_from(&old(self).symbol_table),
            type_definition_name(*definition) matches Some(n) ==> final(self).symbol_table.defined_in(
                final(self).symbol_table.current,
                n,
                Namespace::Types,
            ),
            final(self).reported_error_keys == old(self).reported_error_keys,
            only_registration_failures_from(final(self).errors@, old(self).errors@.len() as int),
            type_definition_step(
                old(self).symbol_table,
                old(self).errors@,
                *definition,
                with_methods,
                final(self).symbol_table,
                final(self).errors@,
            ),
    {
        match definition {
            Definition::Type(type_definition) => {
                let name = &type_definition.name.name;
                let ghost t0 = self.symbol_table;
                let registered = self.symbol_table.register_type(name, TypeInfo::new(&type_definition.ty));
                proof {
                    if registered is Ok {
                        lemma_defined_after_append(t0, self.symbol_table, self.symbol_table.entries@.last(), Namespace::Types);
                        assert(self.symbol_table.entries@.drop_last() =~= t0.entries@);
                    }
                }
                if registered.is_err() {
                    self.push_error(
                        TypeCheckError::RegistrationFailed {
                            kind: RegistrationKind::Type,
                            name: name.clone(),
                            reason: None,
                            location: type_definition.location,
                        },
                    );
                    proof {
                        assert(self.errors@.drop_last() =~= old(self).errors@);
                    }
                }
            },
            Definition::Struct(struct_definition) => {
                self.register_struct_definition(struct_definition, with_methods);
            },
            Definition::Enum(enum_definition) => {
                let variants = names_of(&enum_definition.variants);
                let name = &enum_definition.name.name;
                let ghost t0 = self.symbol_table;
                let registered = self.symbol_table.register_enum(name, variants, enum_definition.visibility);
                proof {
                    if registered is Ok {
                        lemma_defined_after_append(t0, self.symbol_table, self.symbol_table.entries@.last(), Namespace::Types);
                        assert(self.symbol_table.entries@.drop_last() =~= t0.entries@);
                    }
                }
                if registered.is_err() {
                    self.push_error(
                        TypeCheckError::RegistrationFailed {
                            kind: RegistrationKind::Enum,
                            name: name.clone(),
                            reason: None,
                            location: enum_definition.location,
                        },
                    );
                    proof {
                        assert(self.errors@.drop_last() =~= old(self).errors@);
                    }
                }
            },
            Definition::Spec(spec_definition) => {
                let name = &spec_definition.name.name;
                let ghost t0 = self.symbol_table;
                let registered = self.symbol_table.register_spec(name);
                proof {
                    if registered is Ok {
                        lemma_defined_after_append(t0, self.symbol_table, self.symbol_table.entries@.last(), Namespace::Types);
                        assert(self.symbol_table.entries@.drop_last() =~= t0.entries@);
                    }
                }
                if registered.is_err() {
                    self.push_error(
                        TypeCheckError::RegistrationFailed {
                            kind: RegistrationKind::Spec,
                            name: name.clone(),
                            reason: None,
                            location: spec_definition.location,
                        },
                    );
                    proof {
                        assert(self.errors@.drop_last() =~= old(self).errors@);
                    }
                }
            },
            _ => {},
        }
    }

    /// Registers the type, struct (with methods), enum and spec definitions
    /// of every file, reporting each refused registration.
    pub fn register_types(&mut self, files: &Vec<SourceFile>)
        requires
            old(self).wf(),
        ensures
            final(self).keeps_scope(old(self)),
            final(self).symbol_table.grows_from(&old(self).symbol_table),
            type_definitions_registered(final(self).symbol_table, files@),
            final(self).reported_error_keys == old(self).reported_error_keys,
            only_registration_failures_from(final(self).errors@, old(self).errors@.len() as int),
            files_types_registered(
                old(self).symbol_table,
                old(self).errors@,
                files@,
                final(self).symbol_table,
                final(self).errors@,
            ),
    {
        let mut i: usize = 0;
        while i < files.len()
            invariant
                i <= files@.len(),
                self.keeps_scope(old(self)),
                self.reported_error_keys == old(self).reported_error_keys,
                only_registration_failures_from(self.errors@, old(self).errors@.len() as int),
                self.symbol_table.grows_from(&old(self).symbol_table),
                type_definitions_registered(self.symbol_table, files@.take(i as int)),
                files_types_registered(
                    old(self).symbol_table,
                    old(self).errors@,
                    files@.take(i as int),
                    self.symbol_table,
                    self.errors@,
                ),
            decreases files@.len() - i,
        {
            let definitions = &files[i].definitions;
            let ghost tf = self.symbol_table;
            let ghost ef = self.errors@;
            let mut j: usize = 0;
            while j < definitions.len()
                invariant
                    i < files@.len(),
                    definitions == &files@[i as int].definitions,
                    j <= definitions@.len(),
                    self.keeps_scope(old(self)),
                    self.reported_error_keys == old(self).reported_error_keys,
                    only_registration_failures_from(self.errors@, old(self).errors@.len() as int),
                    self.symbol_table.grows_from(&old(self).symbol_table),
                    type_definitions_registered(self.symbol_table, files@.take(i as int)),
                    type_definitions_steps(tf, ef, definitions@.take(j as int), self.symbol_table, self.errors@),
                    files_types_registered(
                        old(self).symbol_table,
                        old(self).errors@,
                        files@.take(i as int),
                        tf,
                        ef,
                    ),
                    forall|k: int| 0 <= k < j && #[trigger] type_definition_name(definitions@[k]) is Some
                        ==> self.symbol_table.defined_in(
                        self.symbol_table.current,
                        type_definition_name(definitions@[k])->0,
                        Namespace::Types,
                    ),
                decreases definitions@.len() - j,
            {
                let ghost t0 = self.symbol_table;
                let ghost e0 = self.errors@;
                self.register_type_definition(&definitions[j], true);
                proof {
                    let ghost ds = definitions@.take(j as int + 1);
                    assert(ds.drop_last() =~= definitions@.take(j as int));
                    assert(ds.last() == definitions@[j as int]);
                    assert(table_at(t0) == t0 && errors_at(e0) == e0);
                    assert(type_definitions_steps(tf, ef, ds, self.symbol_table, self.errors@));
                    let ghost t1 = self.symbol_table;
                    assert forall|k: int| 0 <= k < j + 1 && #[trigger] type_definition_name(definitions@[k]) is Some
                        implies t1.defined_in(t1.current, type_definition_name(definitions@[k])->0, Namespace::Types) by {
                        if k < j {
                            lemma_defined_stays(t0, t1, t0.current, type_definition_name(definitions@[k])->0, Namespace::Types);
                        }
                    }
                    let ghost done = files@.take(i as int);
                    assert forall|a: int, b: int|
                        0 <= a < done.len() && 0 <= b < done[a].definitions@.len() && #[trigger] type_definition_name(
                            done[a].definitions@[b],
                        ) is Some implies t1.defined_in(
                        t1.current,
                        type_definition_name(done[a].definitions@[b])->0,
                        Namespace::Types,
                    ) by {
                        lemma_defined_stays(t0, t1, t0.current, type_definition_name(done[a].definitions@[b])->0, Namespace::Types);
                    }
                    assert forall|q: int| 0 <= q < old(self).symbol_table.entries@.len() implies #[trigger] t1.entries@[q]
                        == old(self).symbol_table.entries@[q] by {
                        assert(t0.entries@[q] == old(self).symbol_table.entries@[q]);
                    }
                }
                j = j + 1;
            }
            proof {
                let ghost fs = files@.take(i as int + 1);
                assert(fs.drop_last() =~= files@.take(i as int));
                assert(fs.last() == files@[i as int]);
                assert(definitions@.take(j as int) =~= definitions@);
                assert(table_at(tf) == tf && errors_at(ef) == ef);
                assert(files_types_registered(old(self).symbol_table, old(self).errors@, fs, self.symbol_table, self.errors@));
                let ghost done = files@.take(i as int + 1);
                assert forall|a: int, b: int|
                    0 <= a < done.len() && 0 <= b < done[a].definitions@.len() && #[trigger] type_definition_name(
                        done[a].definitions@[b],
                    ) is Some implies self.symbol_table.defined_in(
                    self.symbol_table.current,
                    type_definition_name(done[a].definitions@[b])->0,
                    Namespace::Types,
                ) by {
                    if a < i {
                        assert(done[a] == files@.take(i as int)[a]);
                    } else {
                        assert(done[a] == files@[i as int]);
                    }
                }
            }
            i = i + 1;
        }
        proof {
            assert(files@.take(i as int) =~= files@);
        }
    }
}


/// The keys and errors after checking the first `n` parameters `args` of
/// the function `fname` from `s`: a `self` parameter is reported, and every
/// declared type is validated (with the names in `params` as type
/// parameters).
pub open spec fn params_collected(
    t: SymbolTable,
    fname: String,
    args: Seq<ArgumentType>,
    params: Seq<Seq<char>>,
    n: int,
    s: (Set<Seq<char>>, Seq<TypeCheckError>),
) -> (Set<Seq<char>>, Seq<TypeCheckError>)
    decreases n,
{
    if n <= 0 {
        s
    } else {
        let sb = params_collected(t, fname, args, params, n - 1, s);
        match args[n - 1] {
            ArgumentType::SelfReference(r) => (
                sb.0,
                sb.1.push(TypeCheckError::SelfReferenceInFunction { function_name: fname, location: r.location }),
            ),
            ArgumentType::IgnoreArgument(a) => crate::type_checker::validated(t, a.ty, params, sb),
            ArgumentType::Argument(a) => crate::type_checker::validated(t, a.ty, params, sb),
            ArgumentType::Type(ty) => crate::type_checker::validated(t, ty, params, sb),
        }
    }
}

/// The keys and errors after checking the signature of `f` from `s`: its
/// parameters, then its return type.
pub open spec fn signature_checked(
    t: SymbolTable,
    f: FunctionDefinition,
    s: (Set<Seq<char>>, Seq<TypeCheckError>),
) -> (Set<Seq<char>>, Seq<TypeCheckError>) {
    let params = type_parameters_of(f);
    let args = parameters_of(f);
    let sp = params_collected(t, f.name.name, args, params, args.len() as int, s);
    match f.returns {
        Some(rt) => crate::type_checker::validated(t, rt, params, sp),
        None => sp,
    }
}

/// The symbol registered for a function named `name` with the type
/// parameters `tps`, the parameters `args` and the return type `declared`.
pub open spec fn function_fits(
    s: Symbol,
    name: Seq<char>,
    tps: Seq<Seq<char>>,
    args: Option<Vec<ArgumentType>>,
    declared: Option<Type>,
    visibility: Visibility,
    scope: u32,
) -> bool {
    s matches Symbol::Function(info) && info.name@ == name && views(info.type_params@) == tps
        && info.param_types@.map_values(|p: TypeInfo| p@) == optional_argument_types(args, tps)
        && info.return_type@ == return_model(declared, tps) && info.visibility == visibility
        && info.definition_scope_id == scope
}

/// `e` reports the refused registration of `name` as a `kind`, with the
/// table's reason, at `l`.
pub open spec fn reasoned_refusal(
    e: TypeCheckError,
    kind: RegistrationKind,
    word: Seq<char>,
    name: Seq<char>,
    l: crate::ast::Location,
) -> bool {
    match e {
        TypeCheckError::RegistrationFailed { kind: k, name: n, reason, location } => {
            &&& k == kind
            &&& n@ == name
            &&& match reason {
                Some(x) => x@ == already_defined_text(word, name),
                None => false,
            }
            &&& location == l
        },
        _ => false,
    }
}

/// Registering `name` in the name space `ns` of the current scope of `t0`,
/// with the reports `s0` made before: when the name is taken there, the
/// table stays and the refusal is reported with its reason; otherwise one
/// entry of that name, whose symbol `fits`, is appended.
pub open spec fn value_registered_or_refused(
    t0: SymbolTable,
    s0: (Set<Seq<char>>, Seq<TypeCheckError>),
    name: Seq<char>,
    ns: Namespace,
    kind: RegistrationKind,
    word: Seq<char>,
    l: crate::ast::Location,
    fits: spec_fn(Symbol) -> bool,
    t1: SymbolTable,
    s1: (Set<Seq<char>>, Seq<TypeCheckError>),
) -> bool {
    if t0.defined_in(t0.current, name, ns) {
        &&& t1 == t0
        &&& s1.0 == s0.0
        &&& s1.1.len() == s0.1.len() + 1
        &&& s1.1.drop_last() == s0.1
        &&& reasoned_refusal(s1.1.last(), kind, word, name, l)
    } else {
        &&& s1 == s0
        &&& t1.entries@.len() == t0.entries@.len() + 1
        &&& t1.entries@.drop_last() == t0.entries@
        &&& t1.entries@.last().scope == t0.current
        &&& t1.entries@.last().name@ == name
        &&& fits(t1.entries@.last().symbol)
        &&& t1.scopes@ == t0.scopes@
        &&& t1.current == t0.current
        &&& t1.methods@ == t0.methods@
        &&& t1.imports@ == t0.imports@
    }
}

/// Collecting a function (its signature checked, then registered), an
/// external function or a constant; other definitions change nothing.
pub open spec fn value_definition_step(
    t0: SymbolTable,
    s0: (Set<Seq<char>>, Seq<TypeCheckError>),
    d: Definition,
    t1: SymbolTable,
    s1: (Set<Seq<char>>, Seq<TypeCheckError>),
) -> bool {
    match d {
        Definition::Function(f) => value_registered_or_refused(
            t0,
            signature_checked(t0, f, s0),
            f.name.name@,
            Namespace::Functions,
            RegistrationKind::Function,
            "function"@,
            f.location,
            |sym: Symbol| function_fits(
                sym,
                f.name.name@,
                type_parameters_of(f),
                f.arguments,
                f.returns,
                f.visibility,
                t0.current,
            ),
            t1,
            s1,
        ),
        Definition::ExternalFunction(ef) => value_registered_or_refused(
            t0,
            s0,
            ef.name.name@,
            Namespace::Functions,
            RegistrationKind::Function,
            "function"@,
            ef.location,
            |sym: Symbol| function_fits(
                sym,
                ef.name.name@,
                Seq::empty(),
                ef.arguments,
                ef.returns,
                Visibility::Public,
                t0.current,
            ),
            t1,
            s1,
        ),
        Definition::Constant(cd) => value_registered_or_refused(
            t0,
            s0,
            cd.name.name@,
            Namespace::Variables,
            RegistrationKind::Variable,
            "variable"@,
            cd.location,
            |sym: Symbol| sym matches Symbol::Variable(ti) && ti@ == crate::type_info::type_of(cd.ty, Seq::empty()),
            t1,
            s1,
        ),
        _ => t1 == t0 && s1 == s0,
    }
}

/// The type recorded for node `id` after recording the declared types of
/// the first `k` parameters `args` (for a named parameter on its node and
/// its name's node, for an ignored one on its node) over `n0`.
pub open spec fn parameter_node_type(args: Seq<ArgumentType>, k: int, id: u32, n0: NodeTypes) -> Option<crate::type_info::TypeModel>
    decreases k,
{
    if k <= 0 {
        n0.type_of_node(id)
    } else {
        match args[k - 1] {
            ArgumentType::Argument(a) => if id == a.name.id || id == a.id {
                Some(crate::type_info::type_of(a.ty, Seq::empty()))
            } else {
                parameter_node_type(args, k - 1, id, n0)
            },
            ArgumentType::IgnoreArgument(a) => if id == a.id {
                Some(crate::type_info::type_of(a.ty, Seq::empty()))
            } else {
                parameter_node_type(args, k - 1, id, n0)
            },
            _ => parameter_node_type(args, k - 1, id, n0),
        }
    }
}

/// The type recorded for node `id` after collecting the function `f` over
/// `n0`: its parameters' declared types, the function's own type on its
/// name's node, and its declared return type on the return type's node.
pub open spec fn function_node_type(f: FunctionDefinition, id: u32, n0: NodeTypes) -> Option<crate::type_info::TypeModel> {
    let args = parameters_of(f);
    let after_name = if id == f.name.id {
        Some(crate::type_info::TypeModel {
            kind: crate::type_info::KindModel::Function(f.name.name@),
            type_params: type_parameters_of(f),
        })
    } else {
        parameter_node_type(args, args.len() as int, id, n0)
    };
    match f.returns {
        Some(rt) => if id == rt.spec_node_id() {
            Some(crate::type_info::type_of(rt, Seq::empty()))
        } else {
            after_name
        },
        None => after_name,
    }
}

/// The types recorded after collecting the definition `d` over `n0`:
/// those of a function's signature, a constant's declared type on its
/// value's node; nothing for other definitions.
pub open spec fn collected_nodes(d: Definition, n0: NodeTypes, n1: NodeTypes) -> bool {
    match d {
        Definition::Function(f) => forall|id: u32| #[trigger] n1.type_of_node(id) == function_node_type(f, id, n0),
        Definition::Constant(cd) => n1.updated(&n0, cd.value.spec_node_id(), crate::type_info::type_of(cd.ty, Seq::empty())),
        _ => n1 == n0,
    }
}

/// Collecting the definitions `ds` in order, with the types recorded.
pub open spec fn value_definitions_steps(
    t0: SymbolTable,
    n0: NodeTypes,
    s0: (Set<Seq<char>>, Seq<TypeCheckError>),
    ds: Seq<Definition>,
    t1: SymbolTable,
    n1: NodeTypes,
    s1: (Set<Seq<char>>, Seq<TypeCheckError>),
) -> bool
    decreases ds.len(),
{
    if ds.len() == 0 {
        t1 == t0 && n1 == n0 && s1 == s0
    } else {
        exists|tm: SymbolTable, nm: NodeTypes, sm: (Set<Seq<char>>, Seq<TypeCheckError>)|
            #![trigger table_at(tm), nodes_at(nm), stage(sm)]
            value_definitions_steps(t0, n0, s0, ds.drop_last(), table_at(tm), nodes_at(nm), stage(sm))
                && value_definition_step(tm, sm, ds.last(), t1, s1) && collected_nodes(ds.last(), nm, n1)
    }
}

/// Collecting the definitions of the files `fs` in order, with the types
/// recorded.
pub open spec fn files_values_collected(
    t0: SymbolTable,
    n0: NodeTypes,
    s0: (Set<Seq<char>>, Seq<TypeCheckError>),
    fs: Seq<SourceFile>,
    t1: SymbolTable,
    n1: NodeTypes,
    s1: (Set<Seq<char>>, Seq<TypeCheckError>),
) -> bool
    decreases fs.len(),
{
    if fs.len() == 0 {
        t1 == t0 && n1 == n0 && s1 == s0
    } else {
        exists|tm: SymbolTable, nm: NodeTypes, sm: (Set<Seq<char>>, Seq<TypeCheckError>)|
            #![trigger table_at(tm), nodes_at(nm), stage(sm)]
            files_values_collected(t0, n0, s0, fs.drop_last(), table_at(tm), nodes_at(nm), stage(sm))
                && value_definitions_steps(tm, nm, sm, fs.last().definitions@, t1, n1, s1)
    }
}

impl TypeChecker {
    /// Checks the parameters and return type of a function, records their
    /// types, and registers its signature.
    fn collect_function(&mut self, function_definition: &FunctionDefinition, nodes: &mut NodeTypes)
        requires
            old(self).wf(),
        ensures
            final(self).keeps_scope(old(self)),
            final(self).symbol_table.grows_from(&old(self).symbol_table),
            final(self).symbol_table.defined_in(final(self).symbol_table.current, function_definition.name.name@, Namespace::Functions),
            value_definition_step(
                old(self).symbol_table,
                report_state(*old(self)),
                Definition::Function(*function_definition),
                final(self).symbol_table,
                report_state(*final(self)),
            ),
            collected_nodes(Definition::Function(*function_definition), *old(nodes), *final(nodes)),
    {
        let fname = &function_definition.name.name;
        let ghost t_start = self.symbol_table;
        let ghost params = type_parameters_of(*function_definition);
        let ghost args_all = parameters_of(*function_definition);
        if let Some(arguments) = &function_definition.arguments {
            let mut i: usize = 0;
            while i < arguments.len()
                invariant
                    i <= arguments@.len(),
                    self.keeps_scope(old(self)),
                    self.symbol_table == old(self).symbol_table,
                    arguments@ == args_all,
                    t_start == old(self).symbol_table,
                    *fname == function_definition.name.name,
                    params == match function_definition.type_parameters {
                        Some(p) => crate::type_checker::identifier_names(p@),
                        None => Seq::<Seq<char>>::empty(),
                    },
                    forall|id: u32| #[trigger] nodes.type_of_node(id) == parameter_node_type(args_all, i as int, id, *old(nodes)),
                    report_state(*self) == params_collected(
                        t_start,
                        function_definition.name.name,
                        args_all,
                        params,
                        i as int,
                        report_state(*old(self)),
                    ),
                decreases arguments@.len() - i,
            {
                let ghost before = report_state(*self);
                match &arguments[i] {
                    ArgumentType::SelfReference(self_ref) => {
                        let name_copy = fname.clone();
                        proof {
                            assert(name_copy == function_definition.name.name);
                        }
                        self.push_error(
                            TypeCheckError::SelfReferenceInFunction {
                                function_name: name_copy,
                                location: self_ref.location,
                            },
                        );
                        proof {
                            assert(report_state(*self).1 == before.1.push(TypeCheckError::SelfReferenceInFunction {
                                function_name: function_definition.name.name,
                                location: self_ref.location,
                            }));
                        }
                    },
                    ArgumentType::IgnoreArgument(ignore_argument) => {
                        self.validate_type(&ignore_argument.ty, function_definition.type_parameters.as_ref());
                        proof {
                            assert(report_state(*self) == crate::type_checker::validated(t_start, ignore_argument.ty, params, before));
                        }
                        nodes.set_node_typeinfo(ignore_argument.id, TypeInfo::new(&ignore_argument.ty));
                    },
                    ArgumentType::Argument(arg) => {
                        self.validate_type(&arg.ty, function_definition.type_parameters.as_ref());
                        let type_info = TypeInfo::new(&arg.ty);
                        nodes.set_node_typeinfo(arg.id, type_info.duplicate());
                        nodes.set_node_typeinfo(arg.name.id, type_info);
                    },
                    ArgumentType::Type(ty) => {
                        self.validate_type(ty, function_definition.type_parameters.as_ref());
                    },
                }
                proof {
                    assert forall|id: u32| #[trigger] nodes.type_of_node(id) == parameter_node_type(
                        args_all,
                        i as int + 1,
                        id,
                        *old(nodes),
                    ) by {
                        assert(args_all[i as int] == arguments@[i as int]);
                    }
                    let ghost sb = params_collected(
                        t_start,
                        function_definition.name.name,
                        args_all,
                        params,
                        i as int,
                        report_state(*old(self)),
                    );
                    assert(args_all[i as int] == arguments@[i as int]);
                    assert(report_state(*self) == params_collected(
                        t_start,
                        function_definition.name.name,
                        args_all,
                        params,
                        i as int + 1,
                        report_state(*old(self)),
                    ));
                }
                i = i + 1;
            }
        }
        let ghost n_args = *nodes;
        proof {
            assert forall|id: u32| #[trigger] n_args.type_of_node(id) == parameter_node_type(
                args_all,
                args_all.len() as int,
                id,
                *old(nodes),
            ) by {
                if function_definition.arguments is None {
                    assert(args_all.len() == 0);
                }
            }
        }
        let type_params = type_parameter_names(&function_definition.type_parameters);
        nodes.set_node_typeinfo(
            function_definition.name.id,
            TypeInfo { kind: TypeInfoKind::Function(fname.clone()), type_params: clone_strings(&type_params) },
        );
        if let Some(return_type) = &function_definition.returns {
            self.validate_type(return_type, function_definition.type_parameters.as_ref());
            nodes.set_node_typeinfo(return_type.node_id(), TypeInfo::new(return_type));
        }
        let ghost sr = report_state(*self);
        proof {
            assert(sr == signature_checked(t_start, *function_definition, report_state(*old(self))));
            assert(views(type_params@) == type_parameters_of(*function_definition));
            assert forall|id: u32| #[trigger] nodes.type_of_node(id) == function_node_type(
                *function_definition,
                id,
                *old(nodes),
            ) by {
                assert(n_args.type_of_node(id) == parameter_node_type(args_all, args_all.len() as int, id, *old(nodes)));
            }
        }
        // The function is registered even when its parameters had errors, so
        // that calls to it are not reported as undefined.
        let param_types = parameter_types(&function_definition.arguments, &type_params);
        let return_type = return_type_of(&function_definition.returns, &type_params);
        let ghost t0 = self.symbol_table;
        let registered = self.symbol_table.register_function(
            fname,
            type_params,
            param_types,
            return_type,
            function_definition.visibility,
        );
        proof {
            if registered is Ok {
                lemma_defined_after_append(t0, self.symbol_table, self.symbol_table.entries@.last(), Namespace::Functions);
                assert(self.symbol_table.entries@.drop_last() =~= t0.entries@);
            }
        }
        if let Err(err) = registered {
            let ghost er = err;
            self.push_error(
                TypeCheckError::RegistrationFailed {
                    kind: RegistrationKind::Function,
                    name: fname.clone(),
                    reason: Some(err),
                    location: function_definition.location,
                },
            );
            proof {
                assert(self.errors@.drop_last() =~= sr.1);
                assert(er@ == already_defined_text("function"@, function_definition.name.name@));
            }
        }
    }

    /// Registers the signature of an external function.
    fn collect_external_function(&mut self, external: &crate::ast::ExternalFunctionDefinition)
        requires
            old(self).wf(),
        ensures
            final(self).keeps_scope(old(self)),
            final(self).symbol_table.grows_from(&old(self).symbol_table),
            final(self).symbol_table.defined_in(final(self).symbol_table.current, external.name.name@, Namespace::Functions),
            value_definition_step(
                old(self).symbol_table,
                report_state(*old(self)),
                Definition::ExternalFunction(*external),
                final(self).symbol_table,
                report_state(*final(self)),
            ),
    {
        let no_params: Vec<String> = Vec::new();
        proof {
            assert(views(no_params@) =~= Seq::<Seq<char>>::empty());
        }
        let param_types = parameter_types(&external.arguments, &no_params);
        let return_type = return_type_of(&external.returns, &no_params);
        let name = &external.name.name;
        let ghost t0 = self.symbol_table;
        let no_type_params: Vec<String> = Vec::new();
        proof {
            assert(views(no_type_params@) =~= Seq::<Seq<char>>::empty());
        }
        let registered = self.symbol_table.register_function(name, no_type_params, param_types, return_type, Visibility::Public);
        proof {
            if registered is Ok {
                lemma_defined_after_append(t0, self.symbol_table, self.symbol_table.entries@.last(), Namespace::Functions);
                assert(self.symbol_table.entries@.drop_last() =~= t0.entries@);
            }
        }
        if let Err(err) = registered {
            let ghost er = err;
            self.push_error(
                TypeCheckError::RegistrationFailed {
                    kind: RegistrationKind::Function,
                    name: name.clone(),
                    reason: Some(err),
                    location: external.location,
                },
            );
            proof {
                assert(self.errors@.drop_last() =~= old(self).errors@);
                assert(er@ == already_defined_text("function"@, external.name.name@));
            }
        }
    }

    /// Registers a constant as a variable of its declared type.
    fn collect_constant(&mut self, constant_definition: &crate::ast::ConstantDefinition, nodes: &mut NodeTypes)
        requires
            old(self).wf(),
        ensures
            final(self).keeps_scope(old(self)),
            final(self).symbol_table.grows_from(&old(self).symbol_table),
            final(self).symbol_table.defined_in(final(self).symbol_table.current, constant_definition.name.name@, Namespace::Variables),
            value_definition_step(
                old(self).symbol_table,
                report_state(*old(self)),
                Definition::Constant(*constant_definition),
                final(self).symbol_table,
                report_state(*final(self)),
            ),
            collected_nodes(Definition::Constant(*constant_definition), *old(nodes), *final(nodes)),
    {
        let const_type = TypeInfo::new(&constant_definition.ty);
        let name = &constant_definition.name.name;
        let ghost t0 = self.symbol_table;
        let registered = self.symbol_table.push_variable_to_scope(name, const_type.duplicate());
        proof {
            if registered is Ok {
                lemma_defined_after_append(t0, self.symbol_table, self.symbol_table.entries@.last(), Namespace::Variables);
                assert(self.symbol_table.entries@.drop_last() =~= t0.entries@);
            }
        }
        if let Err(err) = registered {
            let ghost er = err;
            self.push_error(
                TypeCheckError::RegistrationFailed {
                    kind: RegistrationKind::Variable,
                    name: name.clone(),
                    reason: Some(err),
                    location: constant_definition.location,
                },
            );
            proof {
                assert(self.errors@.drop_last() =~= old(self).errors@);
                assert(er@ == already_defined_text("variable"@, constant_definition.name.name@));
            }
        }
        nodes.set_node_typeinfo(constant_definition.value.node_id(), const_type);
    }

    /// Registers the functions, external functions and constants of every
    /// file, after checking the types that functions mention.
    pub fn collect_function_and_constant_definitions(&mut self, files: &Vec<SourceFile>, nodes: &mut NodeTypes)
        requires
            old(self).wf(),
        ensures
            final(self).keeps_scope(old(self)),
            final(self).symbol_table.grows_from(&old(self).symbol_table),
            value_definitions_registered(final(self).symbol_table, files@),
            files_values_collected(
                old(self).symbol_table,
                *old(nodes),
                report_state(*old(self)),
                files@,
                final(self).symbol_table,
                *final(nodes),
                report_state(*final(self)),
            ),
    {
        let mut i: usize = 0;
        while i < files.len()
            invariant
                i <= files@.len(),
                self.keeps_scope(old(self)),
                self.symbol_table.grows_from(&old(self).symbol_table),
                value_definitions_registered(self.symbol_table, files@.take(i as int)),
                files_values_collected(
                    old(self).symbol_table,
                    *old(nodes),
                    report_state(*old(self)),
                    files@.take(i as int),
                    self.symbol_table,
                    *nodes,
                    report_state(*self),
                ),
            decreases files@.len() - i,
        {
            let definitions = &files[i].definitions;
            let ghost tf = self.symbol_table;
            let ghost nf = *nodes;
            let ghost sf = report_state(*self);
            let mut j: usize = 0;
            while j < definitions.len()
                invariant
                    i < files@.len(),
                    definitions == &files@[i as int].definitions,
                    j <= definitions@.len(),
                    self.keeps_scope(old(self)),
                    self.symbol_table.grows_from(&old(self).symbol_table),
                    value_definitions_registered(self.symbol_table, files@.take(i as int)),
                    value_definitions_steps(tf, nf, sf, definitions@.take(j as int), self.symbol_table, *nodes, report_state(*self)),
                    files_values_collected(
                        old(self).symbol_table,
                        *old(nodes),
                        report_state(*old(self)),
                        files@.take(i as int),
                        tf,
                        nf,
                        sf,
                    ),
                    forall|k: int| 0 <= k < j && #[trigger] value_definition_name(definitions@[k]) is Some
                        ==> self.symbol_table.defined_in(
                        self.symbol_table.current,
                        value_definition_name(definitions@[k])->0,
                        value_definition_space(definitions@[k]),
                    ),
                decreases definitions@.len() - j,
            {
                let ghost t0 = self.symbol_table;
                let ghost n0 = *nodes;
                let ghost s0 = report_state(*self);
                match &definitions[j] {
                    Definition::Constant(constant_definition) => {
                        self.collect_constant(constant_definition, nodes);
                    },
                    Definition::Function(function_definition) => {
                        self.collect_function(function_definition, nodes);
                    },
                    Definition::ExternalFunction(external) => {
                        self.collect_external_function(external);
                    },
                    _ => {},
                }
                proof {
                    let ghost ds = definitions@.take(j as int + 1);
                    assert(ds.drop_last() =~= definitions@.take(j as int));
                    assert(ds.last() == definitions@[j as int]);
                    assert(table_at(t0) == t0 && nodes_at(n0) == n0 && stage(s0) == s0);
                    assert(value_definition_step(t0, s0, ds.last(), self.symbol_table, report_state(*self)));
                    assert(collected_nodes(ds.last(), n0, *nodes));
                    assert(value_definitions_steps(tf, nf, sf, ds, self.symbol_table, *nodes, report_state(*self)));
                    let ghost t1 = self.symbol_table;
                    assert forall|k: int| 0 <= k < j + 1 && #[trigger] value_definition_name(definitions@[k]) is Some
                        implies t1.defined_in(
                        t1.current,
                        value_definition_name(definitions@[k])->0,
                        value_definition_space(definitions@[k]),
                    ) by {
                        if k < j {
                            lemma_defined_stays(
                                t0,
                                t1,
                                t0.current,
                                value_definition_name(definitions@[k])->0,
                                value_definition_space(definitions@[k]),
                            );
                        }
                    }
                    let ghost done = files@.take(i as int);
                    assert forall|a: int, b: int|
                        0 <= a < done.len() && 0 <= b < done[a].definitions@.len() && #[trigger] value_definition_name(
                            done[a].definitions@[b],
                        ) is Some implies t1.defined_in(
                        t1.current,
                        value_definition_name(done[a].definitions@[b])->0,
                        value_definition_space(done[a].definitions@[b]),
                    ) by {
                        lemma_defined_stays(
                            t0,
                            t1,
                            t0.current,
                            value_definition_name(done[a].definitions@[b])->0,
                            value_definition_space(done[a].definitions@[b]),
                        );
                    }
                    assert forall|q: int| 0 <= q < old(self).symbol_table.entries@.len() implies #[trigger] t1.entries@[q]
                        == old(self).symbol_table.entries@[q] by {
                        assert(t0.entries@[q] == old(self).symbol_table.entries@[q]);
                    }
                }
                j = j + 1;
            }
            proof {
                let ghost fs = files@.take(i as int + 1);
                assert(fs.drop_last() =~= files@.take(i as int));
                assert(fs.last() == files@[i as int]);
                assert(definitions@.take(j as int) =~= definitions@);
                assert(table_at(tf) == tf && nodes_at(nf) == nf && stage(sf) == sf);
                assert(files_values_collected(old(self).symbol_table, *old(nodes), report_state(*old(self)), fs, self.symbol_table, *nodes, report_state(*self)));
            }
            proof {
                let ghost done = files@.take(i as int + 1);
                assert forall|a: int, b: int|
                    0 <= a < done.len() && 0 <= b < done[a].definitions@.len() && #[trigger] value_definition_name(
                        done[a].definitions@[b],
                    ) is Some implies self.symbol_table.defined_in(
                    self.symbol_table.current,
                    value_definition_name(done[a].definitions@[b])->0,
                    value_definition_space(done[a].definitions@[b]),
                ) by {
                    if a < i {
                        assert(done[a] == files@.take(i as int)[a]);
                    } else {
                        assert(done[a] == files@[i as int]);
                    }
                }
            }
            i = i + 1;
        }
        proof {
            assert(files@.take(i as int) =~= files@);
        }
    }

    /// Checks the body of a function in a new scope holding its parameters,
    /// with its type parameters in scope; `self` parameters are reported.
    ///
    /// The parameters are registered first: a name taken by an earlier
    /// parameter is reported as a refused variable registration, and a
    /// `self` parameter as used outside a method; these reports come first,
    /// in parameter order, before those of the body.
    pub fn infer_variables(&mut self, function_definition: &FunctionDefinition, nodes: &mut NodeTypes)
        requires
            old(self).wf(),
            stmts_wf(function_definition.body@),
        ensures
            final(self).keeps_scope(old(self)),
            crate::statements::kept_outside_statements(*final(nodes), *old(nodes), function_definition.body@),
            body_checked(
                old(self).symbol_table,
                *old(nodes),
                *function_definition,
                type_parameters_of(*function_definition),
                None,
                report_state(*old(self)),
                final(self).symbol_table,
                *final(nodes),
                report_state(*final(self)),
            ),
    {
        let ghost s0 = report_state(*self);
        let outer = self.symbol_table.current_scope_id();
        self.symbol_table.push_scope();
        let ghost topen = self.symbol_table;
        proof {
            assert(table_at(topen) == topen);
            if old(self).symbol_table.scopes@.len() < u32::MAX {
                assert(topen.scopes@.last() == topen.scopes@[topen.current as int]);
            }
        }
        let type_param_names = type_parameter_names(&function_definition.type_parameters);
        let ghost params = views(type_param_names@);
        if let Some(arguments) = &function_definition.arguments {
            let mut i: usize = 0;
            proof {
                assert(arguments@.take(0) =~= Seq::<ArgumentType>::empty());
            }
            while i < arguments.len()
                invariant
                    i <= arguments@.len(),
                    self.wf(),
                    outer < self.symbol_table.scopes@.len(),
                    scopes_kept(self.symbol_table, old(self).symbol_table),
                    scope_set_contents(self.glob_resolution_in_progress) == scope_set_contents(old(self).glob_resolution_in_progress),
                    extends(self.errors@, old(self).errors@),
                    self.symbol_table.grows_from(&old(self).symbol_table),
                    *nodes == *old(nodes),
                    params == type_parameters_of(*function_definition),
                    params == views(type_param_names@),
                    parameters_checked(
                        topen,
                        s0,
                        arguments@.take(i as int),
                        params,
                        None,
                        self.symbol_table,
                        report_state(*self),
                    ),
                decreases arguments@.len() - i,
            {
                let ghost tm = self.symbol_table;
                let ghost sm = report_state(*self);
                proof {
                    assert(table_at(tm) == tm);
                    assert(stage(sm) == sm);
                    crate::reports::lemma_pushes_none(sm);
                    let ghost next = arguments@.take(i as int + 1);
                    assert(next.drop_last() =~= arguments@.take(i as int));
                    assert(next.last() == arguments@[i as int]);
                }
                match &arguments[i] {
                    ArgumentType::Argument(arg) => {
                        let arg_type = TypeInfo::new_with_type_params(&arg.ty, &type_param_names);
                        let ghost entry = Entry { scope: tm.current, name: arg.name.name, symbol: Symbol::Variable(arg_type) };
                        let pushed = self.symbol_table.push_variable_to_scope(&arg.name.name, arg_type);
                        proof {
                            if pushed is Ok {
                                assert(self.symbol_table.appended_entry(&tm, entry));
                            }
                        }
                        if let Err(err) = pushed {
                            let ghost r = Report::Refused(RegistrationKind::Variable, "variable"@, arg.name.name@, arg.location);
                            proof {
                                assert(Seq::<Report>::empty().push(r) =~= seq![r]);
                            }
                            self.push_report(
                                TypeCheckError::RegistrationFailed {
                                    kind: RegistrationKind::Variable,
                                    name: arg.name.name.clone(),
                                    reason: Some(err),
                                    location: arg.location,
                                },
                                Ghost(r),
                                Ghost(sm),
                                Ghost(Seq::empty()),
                            );
                        }
                    },
                    ArgumentType::SelfReference(self_ref) => {
                        let ghost r = Report::Exact(TypeCheckError::SelfReferenceOutsideMethod { location: self_ref.location });
                        proof {
                            assert(Seq::<Report>::empty().push(r) =~= seq![r]);
                        }
                        self.push_report(
                            TypeCheckError::SelfReferenceOutsideMethod { location: self_ref.location },
                            Ghost(r),
                            Ghost(sm),
                            Ghost(Seq::empty()),
                        );
                    },
                    _ => {},
                }
                proof {
                    lemma_grows_trans(old(self).symbol_table, tm, self.symbol_table);
                }
                i = i + 1;
            }
            proof {
                assert(arguments@.take(i as int) =~= arguments@);
            }
        }
        let ghost tp = self.symbol_table;
        let ghost sp = report_state(*self);
        proof {
            assert(table_at(tp) == tp);
            assert(stage(sp) == sp);
        }
        let return_type = return_type_of(&function_definition.returns, &type_param_names);
        self.infer_block(&function_definition.body, &return_type, nodes);
        let ghost tend = self.symbol_table;
        proof {
            assert(table_at(tend) == tend);
        }
        self.symbol_table.restore_scope(outer);
    }

    /// Checks the body of a method in a new scope holding its parameters,
    /// where `self` has the type `self_type`.
    ///
    /// The parameters are registered first, `self` under the name `self`: a
    /// name taken by an earlier parameter is reported as a refused variable
    /// registration; these reports come first, in parameter order, before
    /// those of the body.
    pub fn infer_method_variables(&mut self, method_definition: &FunctionDefinition, self_type: &TypeInfo, nodes: &mut NodeTypes)
        requires
            old(self).wf(),
            stmts_wf(method_definition.body@),
        ensures
            final(self).keeps_scope(old(self)),
            crate::statements::kept_outside_statements(*final(nodes), *old(nodes), method_definition.body@),
            body_checked(
                old(self).symbol_table,
                *old(nodes),
                *method_definition,
                Seq::empty(),
                Some(self_type@),
                report_state(*old(self)),
                final(self).symbol_table,
                *final(nodes),
                report_state(*final(self)),
            ),
    {
        let ghost s0 = report_state(*self);
        let outer = self.symbol_table.current_scope_id();
        self.symbol_table.push_scope();
        let ghost topen = self.symbol_table;
        proof {
            assert(table_at(topen) == topen);
            if old(self).symbol_table.scopes@.len() < u32::MAX {
                assert(topen.scopes@.last() == topen.scopes@[topen.current as int]);
            }
        }
        if let Some(arguments) = &method_definition.arguments {
            let mut i: usize = 0;
            proof {
                assert(arguments@.take(0) =~= Seq::<ArgumentType>::empty());
            }
            while i < arguments.len()
                invariant
                    i <= arguments@.len(),
                    self.wf(),
                    outer < self.symbol_table.scopes@.len(),
                    scopes_kept(self.symbol_table, old(self).symbol_table),
                    scope_set_contents(self.glob_resolution_in_progress) == scope_set_contents(old(self).glob_resolution_in_progress),
                    extends(self.errors@, old(self).errors@),
                    self.symbol_table.grows_from(&old(self).symbol_table),
                    *nodes == *old(nodes),
                    parameters_checked(
                        topen,
                        s0,
                        arguments@.take(i as int),
                        Seq::empty(),
                        Some(self_type@),
                        self.symbol_table,
                        report_state(*self),
                    ),
                decreases arguments@.len() - i,
            {
                let ghost tm = self.symbol_table;
                let ghost sm = report_state(*self);
                proof {
                    assert(table_at(tm) == tm);
                    assert(stage(sm) == sm);
                    crate::reports::lemma_pushes_none(sm);
                    let ghost next = arguments@.take(i as int + 1);
                    assert(next.drop_last() =~= arguments@.take(i as int));
                    assert(next.last() == arguments@[i as int]);
                }
                match &arguments[i] {
                    ArgumentType::Argument(arg) => {
                        let arg_type = TypeInfo::new(&arg.ty);
                        let ghost entry = Entry { scope: tm.current, name: arg.name.name, symbol: Symbol::Variable(arg_type) };
                        let pushed = self.symbol_table.push_variable_to_scope(&arg.name.name, arg_type);
                        proof {
                            if pushed is Ok {
                                assert(self.symbol_table.appended_entry(&tm, entry));
                            }
                        }
                        if let Err(err) = pushed {
                            let ghost r = Report::Refused(RegistrationKind::Variable, "variable"@, arg.name.name@, arg.location);
                            proof {
                                assert(Seq::<Report>::empty().push(r) =~= seq![r]);
                            }
                            self.push_report(
                                TypeCheckError::RegistrationFailed {
                                    kind: RegistrationKind::Variable,
                                    name: arg.name.name.clone(),
                                    reason: Some(err),
                                    location: arg.location,
                                },
                                Ghost(r),
                                Ghost(sm),
                                Ghost(Seq::empty()),
                            );
                        }
                    },
                    ArgumentType::SelfReference(self_ref) => {
                        let self_name = String::from_str("self");
                        let registered = self_type.duplicate();
                        let ghost entry = Entry { scope: tm.current, name: self_name, symbol: Symbol::Variable(registered) };
                        let pushed = self.symbol_table.push_variable_to_scope(&self_name, registered);
                        proof {
                            if pushed is Ok {
                                assert(self.symbol_table.appended_entry(&tm, entry));
                            }
                        }
                        if let Err(err) = pushed {
                            let ghost r = Report::Refused(RegistrationKind::Variable, "variable"@, "self"@, self_ref.location);
                            proof {
                                assert(Seq::<Report>::empty().push(r) =~= seq![r]);
                            }
                            self.push_report(
                                TypeCheckError::RegistrationFailed {
                                    kind: RegistrationKind::Variable,
                                    name: self_name,
                                    reason: Some(err),
                                    location: self_ref.location,
                                },
                                Ghost(r),
                                Ghost(sm),
                                Ghost(Seq::empty()),
                            );
                        }
                    },
                    _ => {},
                }
                proof {
                    lemma_grows_trans(old(self).symbol_table, tm, self.symbol_table);
                }
                i = i + 1;
            }
            proof {
                assert(arguments@.take(i as int) =~= arguments@);
            }
        }
        let ghost tp = self.symbol_table;
        let ghost sp = report_state(*self);
        proof {
            assert(table_at(tp) == tp);
            assert(stage(sp) == sp);
        }
        let no_params: Vec<String> = Vec::new();
        let return_type = return_type_of(&method_definition.returns, &no_params);
        proof {
            assert(views(no_params@) =~= Seq::<Seq<char>>::empty());
        }
        self.infer_block(&method_definition.body, &return_type, nodes);
        let ghost tend = self.symbol_table;
        proof {
            assert(table_at(tend) == tend);
        }
        self.symbol_table.restore_scope(outer);
    }

}


/// The parameters of a function; none where it has no parameter list.
pub open spec fn parameters_of(f: FunctionDefinition) -> Seq<ArgumentType> {
    match f.arguments {
        Some(v) => v@,
        None => Seq::empty(),
    }
}

/// The names of a function's type parameters (none when it has none).
pub open spec fn type_parameters_of(f: FunctionDefinition) -> Seq<Seq<char>> {
    match f.type_parameters {
        Some(v) => crate::type_checker::identifier_names(v@),
        None => Seq::empty(),
    }
}

/// What registering the parameters `args` does, from the table `t0` and the
/// reports `s0` to `t1` and `s1`: each named parameter becomes a variable of
/// its declared type (the names in `params` being type parameters), or is
/// refused when its name is defined in the scope already; `self` becomes a
/// variable of type `self_type` in a method (`self_type` given), and is
/// reported elsewhere.
pub open spec fn parameters_checked(
    t0: SymbolTable,
    s0: (Set<Seq<char>>, Seq<TypeCheckError>),
    args: Seq<ArgumentType>,
    params: Seq<Seq<char>>,
    self_type: Option<crate::type_info::TypeModel>,
    t1: SymbolTable,
    s1: (Set<Seq<char>>, Seq<TypeCheckError>),
) -> bool
    decreases args.len(),
{
    if args.len() == 0 {
        t1 == t0 && s1 == s0
    } else {
        exists|tm: SymbolTable, sm: (Set<Seq<char>>, Seq<TypeCheckError>)|
            #![trigger table_at(tm), stage(sm)]
            parameters_checked(t0, s0, args.drop_last(), params, self_type, table_at(tm), stage(sm)) && match args.last() {
                ArgumentType::Argument(a) => if tm.defined_in(tm.current, a.name.name@, Namespace::Variables) {
                    t1 == tm && pushes(
                        sm,
                        seq![Report::Refused(RegistrationKind::Variable, "variable"@, a.name.name@, a.location)],
                        s1,
                    )
                } else {
                    variable_added(tm, t1, a.name.name@, crate::type_info::type_of(a.ty, params)) && s1 == sm
                },
                ArgumentType::SelfReference(r) => match self_type {
                    Some(st) => if tm.defined_in(tm.current, "self"@, Namespace::Variables) {
                        t1 == tm && pushes(
                            sm,
                            seq![Report::Refused(RegistrationKind::Variable, "variable"@, "self"@, r.location)],
                            s1,
                        )
                    } else {
                        variable_added(tm, t1, "self"@, st) && s1 == sm
                    },
                    None => t1 == tm && pushes(
                        sm,
                        seq![Report::Exact(TypeCheckError::SelfReferenceOutsideMethod { location: r.location })],
                        s1,
                    ),
                },
                _ => t1 == tm && s1 == sm,
            }
    }
}

/// What checking a function or method `f` does, from the table `t0`, the
/// recorded types `n0` and the reports `s0` to `t1` and `s1`: a scope is
/// opened, the parameters are registered there (`self` with the type
/// `self_type` in a method), the body is checked there against the declared
/// return type, and the current scope is current again.
pub open spec fn body_checked(
    t0: SymbolTable,
    n0: NodeTypes,
    f: FunctionDefinition,
    params: Seq<Seq<char>>,
    self_type: Option<crate::type_info::TypeModel>,
    s0: (Set<Seq<char>>, Seq<TypeCheckError>),
    t1: SymbolTable,
    n1: NodeTypes,
    s1: (Set<Seq<char>>, Seq<TypeCheckError>),
) -> bool {
    exists|
        topen: SymbolTable,
        tp: SymbolTable,
        sp: (Set<Seq<char>>, Seq<TypeCheckError>),
        tend: SymbolTable,
    |
        #![trigger table_at(topen), table_at(tp), stage(sp), table_at(tend)]
        scope_opened(t0, table_at(topen)) && parameters_checked(
            topen,
            s0,
            parameters_of(f),
            params,
            self_type,
            table_at(tp),
            stage(sp),
        ) && block_checked(tp, n0, f.body@, return_model(f.returns, params), sp, table_at(tend), n1, s1)
            && scope_closed(tend, t0, t1)
}

/// The type of `self` in the methods of the struct `name`.
pub open spec fn struct_model(name: Seq<char>) -> crate::type_info::TypeModel {
    crate::type_info::plain(crate::type_info::KindModel::Struct(name))
}

/// The types recorded for the nodes at some point of checking (the
/// identity: it names such a state in the statements below).
pub open spec fn nodes_at(n: NodeTypes) -> NodeTypes {
    n
}

/// Checking the body of `f` from the table `t0`, the recorded types `n0`
/// and the reports `s0` to `t1`, `n1` and `s1`: as `body_checked` says,
/// with every node outside the body kept.
pub open spec fn function_body_checked(
    t0: SymbolTable,
    n0: NodeTypes,
    s0: (Set<Seq<char>>, Seq<TypeCheckError>),
    f: FunctionDefinition,
    params: Seq<Seq<char>>,
    self_type: Option<crate::type_info::TypeModel>,
    t1: SymbolTable,
    n1: NodeTypes,
    s1: (Set<Seq<char>>, Seq<TypeCheckError>),
) -> bool {
    &&& body_checked(t0, n0, f, params, self_type, s0, t1, n1, s1)
    &&& crate::statements::kept_outside_statements(n1, n0, f.body@)
}

/// Checking the method bodies `ms` in order, with `self` of type
/// `self_type`, each as `function_body_checked` says, from the types
/// recorded before it.
pub open spec fn methods_checked(
    t0: SymbolTable,
    n0: NodeTypes,
    s0: (Set<Seq<char>>, Seq<TypeCheckError>),
    ms: Seq<FunctionDefinition>,
    self_type: crate::type_info::TypeModel,
    t1: SymbolTable,
    n1: NodeTypes,
    s1: (Set<Seq<char>>, Seq<TypeCheckError>),
) -> bool
    decreases ms.len(),
{
    if ms.len() == 0 {
        t1 == t0 && n1 == n0 && s1 == s0
    } else {
        exists|tm: SymbolTable, nm: NodeTypes, sm: (Set<Seq<char>>, Seq<TypeCheckError>)|
            #![trigger table_at(tm), nodes_at(nm), stage(sm)]
            methods_checked(t0, n0, s0, ms.drop_last(), self_type, table_at(tm), nodes_at(nm), stage(sm))
                && function_body_checked(tm, nm, sm, ms.last(), Seq::empty(), Some(self_type), t1, n1, s1)
    }
}

/// Checking the bodies in the definition `d`: a function's body with its
/// type parameters, a struct's methods with `self` of the struct's type;
/// other definitions have none and change nothing.
pub open spec fn definition_checked(
    t0: SymbolTable,
    n0: NodeTypes,
    s0: (Set<Seq<char>>, Seq<TypeCheckError>),
    d: Definition,
    t1: SymbolTable,
    n1: NodeTypes,
    s1: (Set<Seq<char>>, Seq<TypeCheckError>),
) -> bool {
    match d {
        Definition::Function(f) => function_body_checked(t0, n0, s0, f, type_parameters_of(f), None, t1, n1, s1),
        Definition::Struct(sd) => methods_checked(t0, n0, s0, sd.methods@, struct_model(sd.name.name@), t1, n1, s1),
        _ => t1 == t0 && n1 == n0 && s1 == s0,
    }
}

/// Checking the bodies of the definitions `ds` in order.
pub open spec fn definitions_checked(
    t0: SymbolTable,
    n0: NodeTypes,
    s0: (Set<Seq<char>>, Seq<TypeCheckError>),
    ds: Seq<Definition>,
    t1: SymbolTable,
    n1: NodeTypes,
    s1: (Set<Seq<char>>, Seq<TypeCheckError>),
) -> bool
    decreases ds.len(),
{
    if ds.len() == 0 {
        t1 == t0 && n1 == n0 && s1 == s0
    } else {
        exists|tm: SymbolTable, nm: NodeTypes, sm: (Set<Seq<char>>, Seq<TypeCheckError>)|
            #![trigger table_at(tm), nodes_at(nm), stage(sm)]
            definitions_checked(t0, n0, s0, ds.drop_last(), table_at(tm), nodes_at(nm), stage(sm))
                && definition_checked(tm, nm, sm, ds.last(), t1, n1, s1)
    }
}

/// Checking the bodies of the definitions of the files `fs` in order.
pub open spec fn files_checked(
    t0: SymbolTable,
    n0: NodeTypes,
    s0: (Set<Seq<char>>, Seq<TypeCheckError>),
    fs: Seq<SourceFile>,
    t1: SymbolTable,
    n1: NodeTypes,
    s1: (Set<Seq<char>>, Seq<TypeCheckError>),
) -> bool
    decreases fs.len(),
{
    if fs.len() == 0 {
        t1 == t0 && n1 == n0 && s1 == s0
    } else {
        exists|tm: SymbolTable, nm: NodeTypes, sm: (Set<Seq<char>>, Seq<TypeCheckError>)|
            #![trigger table_at(tm), nodes_at(nm), stage(sm)]
            files_checked(t0, n0, s0, fs.drop_last(), table_at(tm), nodes_at(nm), stage(sm))
                && definitions_checked(tm, nm, sm, fs.last().definitions@, t1, n1, s1)
    }
}

/// A state of the checker at some point of `infer_types` (the identity: it
/// names such a state in `phases_ran`).
pub open spec fn checker_at(c: TypeChecker) -> TypeChecker {
    c
}

/// The checker `c5` and the recorded types `n5` are what the five phases
/// of `infer_types` make of `c0` and the recorded types `n0` on the files
/// `files`, each phase as its own contract states it (only the last two
/// record types):
/// registering the use directives, the type definitions, resolving the
/// imports, registering functions and constants, and checking every body.
pub open spec fn phases_ran(c0: TypeChecker, n0: NodeTypes, files: Seq<SourceFile>, c5: TypeChecker, n5: NodeTypes) -> bool {
    exists|c1: TypeChecker, c2: TypeChecker, c3: TypeChecker, c4: TypeChecker, n4: NodeTypes|
        #![trigger checker_at(c1), checker_at(c2), checker_at(c3), checker_at(c4), nodes_at(n4)]
        {
            &&& checker_at(c1).keeps_scope(&c0)
            &&& c1.symbol_table.entries@ == c0.symbol_table.entries@
            &&& imports_grow(c1.symbol_table, c0.symbol_table)
            &&& uses_registered(c1.symbol_table, c0.symbol_table.current, files)
            &&& c1.reported_error_keys == c0.reported_error_keys
            &&& import_failures_pushed(c0.errors@, files_pathless_uses(files), c1.errors@)
            &&& checker_at(c2).keeps_scope(&c1)
            &&& type_definitions_registered(c2.symbol_table, files)
            &&& c2.reported_error_keys == c1.reported_error_keys
            &&& only_registration_failures_from(c2.errors@, c1.errors@.len() as int)
            &&& files_types_registered(c1.symbol_table, c1.errors@, files, c2.symbol_table, c2.errors@)
            &&& checker_at(c3).keeps_scope(&c2)
            &&& scopes_resolved(c2, c2.symbol_table.scopes@.len() as int, c3)
            &&& c3.symbol_table.scopes@ == c2.symbol_table.scopes@
            &&& c3.symbol_table.imports@ == c2.symbol_table.imports@
            &&& forall|k: int|
                0 <= k < c2.symbol_table.imports@.len() ==> plain_import_settled(
                    c3.symbol_table,
                    c3.errors@,
                    c2.symbol_table.imports@[k].0,
                    #[trigger] c2.symbol_table.imports@[k].1,
                )
            &&& checker_at(c4).keeps_scope(&c3)
            &&& value_definitions_registered(c4.symbol_table, files)
            &&& files_values_collected(c3.symbol_table, n0, report_state(c3), files, c4.symbol_table, n4, report_state(c4))
            &&& c5.keeps_scope(&c4)
            &&& files_checked(c4.symbol_table, n4, report_state(c4), files, c5.symbol_table, n5, report_state(c5))
        }
}

/// The name `local` is defined in scope `s` of `t`, in some name space.
pub open spec fn bound_in(t: SymbolTable, s: u32, local: Seq<char>) -> bool {
    exists|ns: Namespace| t.defined_in(s, local, ns)
}

/// `errors` report a path, written `text`, that names nothing.
pub open spec fn reported_unresolved(errors: Seq<TypeCheckError>, text: Seq<char>) -> bool {
    exists|i: int|
        0 <= i < errors.len() && (#[trigger] errors[i] matches TypeCheckError::ImportResolutionFailed { path, .. }
            && path@ == text)
}

/// A plain import with a path has had its outcome: the last segment of the
/// path is bound in scope `s`, or the path was reported as naming nothing.
pub open spec fn plain_import_settled(t: SymbolTable, errors: Seq<TypeCheckError>, s: u32, imp: Import) -> bool {
    imp.kind is Plain && imp.path@.len() > 0 ==> bound_in(t, s, views(imp.path@).last()) || reported_unresolved(
        errors,
        crate::text::joined(views(imp.path@), "::"@),
    )
}

/// What is settled stays settled as the entries grow and errors are added.
proof fn lemma_settled_stays(
    t0: SymbolTable,
    e0: Seq<TypeCheckError>,
    t1: SymbolTable,
    e1: Seq<TypeCheckError>,
    s: u32,
    imp: Import,
)
    requires
        t0.wf(),
        t1.grows_from(&t0),
        extends(e1, e0),
        plain_import_settled(t0, e0, s, imp),
    ensures
        plain_import_settled(t1, e1, s, imp),
{
    if imp.kind is Plain && imp.path@.len() > 0 {
        let local = views(imp.path@).last();
        if bound_in(t0, s, local) {
            let ns = choose|ns: Namespace| t0.defined_in(s, local, ns);
            lemma_defined_stays(t0, t1, s, local, ns);
        } else {
            let text = crate::text::joined(views(imp.path@), "::"@);
            let i = choose|i: int|
                0 <= i < e0.len() && (#[trigger] e0[i] matches TypeCheckError::ImportResolutionFailed { path, .. }
                    && path@ == text);
            assert(e1[i] == e0[i]);
        }
    }
}

/// Binding the path `fp` as `local` in scope `s`, from `t0` and `e0`: a
/// path that names a definition appends an import entry for it (and a
/// private definition not visible from the current scope is reported); a
/// path that names nothing is reported, written `text`, at `l`.
pub open spec fn path_bound(
    t0: SymbolTable,
    e0: Seq<TypeCheckError>,
    s: u32,
    fp: Seq<Seq<char>>,
    local: Seq<char>,
    text: Seq<char>,
    l: crate::ast::Location,
    t1: SymbolTable,
    e1: Seq<TypeCheckError>,
) -> bool {
    match qualified_target(t0, fp) {
        Some((j, m)) => {
            &&& t1.entries@.len() == t0.entries@.len() + 1
            &&& t1.entries@.drop_last() == t0.entries@
            &&& t1.entries@.last().scope == s
            &&& t1.entries@.last().name@ == local
            &&& t1.entries@.last().symbol == Symbol::Import(j as usize)
            &&& if symbol_is_public(t0.entries@[j].symbol) || visible(t0, Visibility::Private, m, t0.current) {
                e1 == e0
            } else {
                &&& e1.len() == e0.len() + 1
                &&& e1.drop_last() == e0
                &&& private_import_report(e1.last(), crate::text::joined(fp, "::"@), l)
            }
        },
        None => {
            &&& t1.entries@ == t0.entries@
            &&& e1.len() == e0.len() + 1
            &&& e1.drop_last() == e0
            &&& unresolved_report(e1.last(), text, l)
        },
    }
}

/// `e` reports importing the private definition `path` at `l`.
pub open spec fn private_import_report(e: TypeCheckError, path: Seq<char>, l: crate::ast::Location) -> bool {
    match e {
        TypeCheckError::PrivateAccessViolation { context, location } => match context {
            crate::errors::VisibilityContext::Import { path: p } => p@ == path && location == l,
            _ => false,
        },
        _ => false,
    }
}

/// `e` reports the import path `text`, which names nothing, at `l`.
pub open spec fn unresolved_report(e: TypeCheckError, text: Seq<char>, l: crate::ast::Location) -> bool {
    match e {
        TypeCheckError::ImportResolutionFailed { path, location } => path@ == text && location == l,
        _ => false,
    }
}

/// Binding the first `n` items of the partial import `imp` in scope `s`,
/// each under its alias or its own name.
pub open spec fn items_bound(
    t0: SymbolTable,
    e0: Seq<TypeCheckError>,
    s: u32,
    imp: Import,
    items: Seq<ImportItem>,
    n: int,
    t1: SymbolTable,
    e1: Seq<TypeCheckError>,
) -> bool
    decreases n,
{
    if n <= 0 {
        t1 == t0 && e1 == e0
    } else {
        exists|tm: SymbolTable, em: Seq<TypeCheckError>|
            #![trigger table_at(tm), errors_at(em)]
            items_bound(t0, e0, s, imp, items, n - 1, table_at(tm), errors_at(em)) && path_bound(
                tm,
                em,
                s,
                views(imp.path@).push(items[n - 1].name@),
                match items[n - 1].alias {
                    Some(a) => a@,
                    None => items[n - 1].name@,
                },
                crate::text::joined(views(imp.path@), "::"@) + "::"@ + items[n - 1].name@,
                imp.location,
                t1,
                e1,
            )
    }
}

/// What resolving the glob import of the module at `p` into scope `s`
/// makes of the checker `c0` (as `resolve_glob_import` states it).
pub open spec fn glob_resolved(c0: TypeChecker, p: Seq<Seq<char>>, l: crate::ast::Location, s: u32, c1: TypeChecker) -> bool {
    if p.len() == 0 {
        c1.errors@.len() == c0.errors@.len() + 1 && c1.errors@.drop_last() == c0.errors@
            && c1.errors@.last() == TypeCheckError::EmptyGlobImport { location: l }
    } else {
        match c0.symbol_table.module_at(p) {
            None => c1.errors@.len() == c0.errors@.len() + 1 && extends(c1.errors@, c0.errors@)
                && c1.errors@.last() is ImportResolutionFailed && c1.errors@.last()->ImportResolutionFailed_path@
                == crate::text::joined(p, "::"@) + "::* - module not found"@,
            Some(t) => if scope_set_contents(c0.glob_resolution_in_progress).contains(t) {
                c1.errors@.len() == c0.errors@.len() + 1 && extends(c1.errors@, c0.errors@)
                    && c1.errors@.last() is CircularImport && c1.errors@.last()->CircularImport_path@
                    == crate::text::joined(p, "::"@)
            } else {
                &&& c1.errors@ == c0.errors@
                &&& s < c0.symbol_table.scopes@.len() ==> forall|j: int|
                    0 <= j < c0.symbol_table.entries@.len() && crate::symbol_table::public_definition_in(
                        c0.symbol_table.entries@,
                        j,
                        t,
                    ) ==> exists|k: int| 0 <= k < c1.symbol_table.entries@.len()
                        && #[trigger] c1.symbol_table.entries@[k] == (Entry {
                        scope: s,
                        name: c0.symbol_table.entries@[j].name,
                        symbol: Symbol::Import(j as usize),
                    })
            },
        }
    }
}

/// What resolving the import `imp` of scope `s` makes of the checker `c0`:
/// a plain import binds its path under its last segment, a partial import
/// binds each listed item, a glob import brings in the module's public
/// definitions.
pub open spec fn import_resolved(c0: TypeChecker, s: u32, imp: Import, c1: TypeChecker) -> bool {
    &&& c1.keeps_scope(&c0)
    &&& c1.symbol_table.scopes@ == c0.symbol_table.scopes@
    &&& c1.symbol_table.imports@ == c0.symbol_table.imports@
    &&& match imp.kind {
        ImportKind::Plain => if imp.path@.len() > 0 {
            path_bound(
                c0.symbol_table,
                c0.errors@,
                s,
                views(imp.path@),
                views(imp.path@).last(),
                crate::text::joined(views(imp.path@), "::"@),
                imp.location,
                c1.symbol_table,
                c1.errors@,
            )
        } else {
            c1.symbol_table.entries@ == c0.symbol_table.entries@ && c1.errors@ == c0.errors@
        },
        ImportKind::Partial(items) => items_bound(
            c0.symbol_table,
            c0.errors@,
            s,
            imp,
            items@,
            items@.len() as int,
            c1.symbol_table,
            c1.errors@,
        ),
        ImportKind::Glob => glob_resolved(c0, views(imp.path@), imp.location, s, c1),
    }
}

/// `ks` lists, in increasing order, every import registered in scope `s`.
pub open spec fn imports_of_scope(imports: Seq<(u32, Import)>, s: u32, ks: Seq<usize>) -> bool {
    &&& forall|k: int| 0 <= k < ks.len() ==> #[trigger] ks[k] < imports.len() && imports[ks[k] as int].0 == s
    &&& forall|k: int, l: int| 0 <= k < l < ks.len() ==> #[trigger] ks[k] < #[trigger] ks[l]
    &&& forall|i: int| 0 <= i < imports.len() && #[trigger] imports[i].0 == s ==> ks.contains(i as usize)
}

/// Resolving the first `n` of the imports `ks` of scope `s` in order.
pub open spec fn scope_imports_resolved(c0: TypeChecker, s: u32, ks: Seq<usize>, n: int, c1: TypeChecker) -> bool
    decreases n,
{
    if n <= 0 {
        c1 == c0
    } else {
        exists|cm: TypeChecker|
            #![trigger checker_at(cm)]
            scope_imports_resolved(c0, s, ks, n - 1, checker_at(cm)) && import_resolved(
                cm,
                s,
                cm.symbol_table.imports@[ks[n - 1] as int].1,
                c1,
            )
    }
}

/// Resolving the imports of scope `s`, in the order they were registered.
pub open spec fn scope_resolved(c0: TypeChecker, s: u32, c1: TypeChecker) -> bool {
    if s < c0.symbol_table.scopes@.len() {
        exists|ks: Seq<usize>|
            imports_of_scope(c0.symbol_table.imports@, s, ks) && #[trigger] scope_imports_resolved(
                c0,
                s,
                ks,
                ks.len() as int,
                c1,
            )
    } else {
        c1 == c0
    }
}

/// Resolving the imports of the first `n` scopes, scope by scope.
pub open spec fn scopes_resolved(c0: TypeChecker, n: int, c1: TypeChecker) -> bool
    decreases n,
{
    if n <= 0 {
        c1 == c0
    } else {
        exists|cm: TypeChecker|
            #![trigger checker_at(cm)]
            scopes_resolved(c0, n - 1, checker_at(cm)) && scope_resolved(cm, (n - 1) as u32, c1)
    }
}

/// A copy of an import.
fn copy_import(import: &Import) -> (r: Import)
    ensures
        views(r.path@) == views(import.path@),
        r.location == import.location,
        (r.kind is Plain) == (import.kind is Plain),
        (r.kind is Glob) == (import.kind is Glob),
        import.kind matches ImportKind::Partial(a) ==> (r.kind matches ImportKind::Partial(b) && b@ == a@),
{
    let kind = match &import.kind {
        ImportKind::Plain => ImportKind::Plain,
        ImportKind::Glob => ImportKind::Glob,
        ImportKind::Partial(items) => {
            let mut copied: Vec<ImportItem> = Vec::new();
            let mut i: usize = 0;
            while i < items.len()
                invariant
                    i <= items@.len(),
                    copied@ == items@.take(i as int),
                decreases items@.len() - i,
            {
                proof {
                    assert(items@.take(i as int + 1) =~= items@.take(i as int).push(items@[i as int]));
                }
                let alias = match &items[i].alias {
                    Some(a) => Some(a.clone()),
                    None => None,
                };
                copied.push(ImportItem { name: items[i].name.clone(), alias });
                i = i + 1;
            }
            proof {
                assert(items@.take(i as int) =~= items@);
            }
            ImportKind::Partial(copied)
        },
    };
    Import { path: clone_strings(&import.path), kind, location: import.location }
}

/// The path of a use directive joined with `::` (empty without segments).
fn use_path_text(use_directive: &UseDirective) -> (r: String)
    ensures
        r@ == crate::text::joined(
            match use_directive.segments {
                Some(segs) => crate::type_checker::identifier_names(segs@),
                None => Seq::empty(),
            },
            "::"@,
        ),
{
    proof {
        reveal_strlit("::");
    }
    match &use_directive.segments {
        Some(segs) => {
            let names = names_of(segs);
            crate::text::join(&names, "::")
        },
        None => String::new(),
    }
}

/// The import a use directive writes: its path, and the listed items
/// under it (none listed: the item the path names), at its location.
pub open spec fn import_of_use(u: UseDirective, imp: Import) -> bool {
    &&& views(imp.path@) == match u.segments {
        Some(segs) => crate::type_checker::identifier_names(segs@),
        None => Seq::empty(),
    }
    &&& imp.location == u.location
    &&& match u.imported_types {
        Some(ts) => if ts@.len() == 0 {
            imp.kind is Plain
        } else {
            imp.kind matches ImportKind::Partial(items) && items@.len() == ts@.len() && forall|k: int|
                0 <= k < ts@.len() ==> #[trigger] items@[k].name@ == ts@[k].name@ && items@[k].alias is None
        },
        None => imp.kind is Plain,
    }
}

/// The import that the use directive `u` writes is registered in scope `s`
/// of `t`.
pub open spec fn use_registered(t: SymbolTable, s: u32, u: UseDirective) -> bool {
    exists|k: int| 0 <= k < t.imports@.len() && t.imports@[k].0 == s && import_of_use(u, #[trigger] t.imports@[k].1)
}

/// The imports of `old` are the first imports of `t`.
pub open spec fn imports_grow(t: SymbolTable, old: SymbolTable) -> bool {
    &&& old.imports@.len() <= t.imports@.len()
    &&& forall|k: int| 0 <= k < old.imports@.len() ==> #[trigger] t.imports@[k] == old.imports@[k]
}

/// Every use directive of the files with a path has its import registered
/// in scope `s` of `t`.
pub open spec fn uses_registered(t: SymbolTable, s: u32, files: Seq<SourceFile>) -> bool {
    forall|i: int, j: int|
        0 <= i < files.len() && 0 <= j < files[i].directives@.len() && (#[trigger] files[i].directives@[j] matches Directive::Use(
            u,
        ) && u.segments matches Some(segs) && segs@.len() > 0) ==> use_registered(
            t,
            s,
            files[i].directives@[j]->Use_0,
        )
}

/// Whether a use directive names no path.
pub open spec fn pathless(u: UseDirective) -> bool {
    match u.segments {
        Some(segs) => segs@.len() == 0,
        None => true,
    }
}

/// The locations of the use directives among `ds` that name no path, in
/// order.
pub open spec fn pathless_uses(ds: Seq<Directive>) -> Seq<crate::ast::Location>
    decreases ds.len(),
{
    if ds.len() == 0 {
        Seq::empty()
    } else {
        pathless_uses(ds.drop_last()) + match ds.last() {
            Directive::Use(u) => if pathless(u) {
                seq![u.location]
            } else {
                Seq::empty()
            },
        }
    }
}

/// The locations of the use directives of the files that name no path, in
/// order.
pub open spec fn files_pathless_uses(fs: Seq<SourceFile>) -> Seq<crate::ast::Location>
    decreases fs.len(),
{
    if fs.len() == 0 {
        Seq::empty()
    } else {
        files_pathless_uses(fs.drop_last()) + pathless_uses(fs.last().directives@)
    }
}

/// `e1` is `e0` followed by one failed import with an empty path at each of
/// the locations `ls`, in order.
pub open spec fn import_failures_pushed(
    e0: Seq<TypeCheckError>,
    ls: Seq<crate::ast::Location>,
    e1: Seq<TypeCheckError>,
) -> bool {
    &&& e1.len() == e0.len() + ls.len()
    &&& e1.subrange(0, e0.len() as int) == e0
    &&& forall|k: int| 0 <= k < ls.len() ==> (#[trigger] e1[e0.len() + k] matches TypeCheckError::ImportResolutionFailed {
        path,
        location,
    } && path@ == Seq::<char>::empty() && location == ls[k])
}

impl TypeChecker {
    /// Registers the import that a use directive writes, in the current
    /// scope: the whole path, or the listed items under it.
    pub fn process_use_statement(&mut self, use_stmt: &UseDirective) -> (r: Result<(), String>)
        requires
            old(self).wf(),
        ensures
            final(self).wf(),
            final(self).errors == old(self).errors,
            final(self).reported_error_keys == old(self).reported_error_keys,
            final(self).glob_resolution_in_progress == old(self).glob_resolution_in_progress,
            final(self).symbol_table.scopes@ == old(self).symbol_table.scopes@,
            final(self).symbol_table.current == old(self).symbol_table.current,
            final(self).symbol_table.entries@ == old(self).symbol_table.entries@,
            r is Err <==> match use_stmt.segments {
                Some(segs) => segs@.len() == 0,
                None => true,
            },
            r is Ok ==> final(self).symbol_table.imports@.len() == old(self).symbol_table.imports@.len() + 1
                && final(self).symbol_table.imports@.drop_last() == old(self).symbol_table.imports@
                && final(self).symbol_table.imports@.last().0 == old(self).symbol_table.current && import_of_use(
                *use_stmt,
                final(self).symbol_table.imports@.last().1,
            ),
            r is Err ==> final(self).symbol_table.imports@ == old(self).symbol_table.imports@,
    {
        let path: Vec<String> = match &use_stmt.segments {
            Some(segs) => names_of(segs),
            None => Vec::new(),
        };
        let ghost n = path@.len();
        proof {
            assert(views(path@).len() == path@.len());
        }
        let kind = match &use_stmt.imported_types {
            None => ImportKind::Plain,
            Some(types) => {
                if types.len() == 0 {
                    ImportKind::Plain
                } else {
                    let mut items: Vec<ImportItem> = Vec::new();
                    let mut i: usize = 0;
                    while i < types.len()
                        invariant
                            i <= types@.len(),
                            items@.len() == i,
                            forall|k: int| 0 <= k < i ==> #[trigger] items@[k].name@ == types@[k].name@ && items@[k].alias is None,
                        decreases types@.len() - i,
                    {
                        let ghost before_items = items@;
                        items.push(ImportItem { name: types[i].name.clone(), alias: None });
                        proof {
                            assert forall|k: int| 0 <= k < i + 1 implies #[trigger] items@[k].name@ == types@[k].name@
                                && items@[k].alias is None by {
                                if k < i {
                                    assert(items@[k] == before_items[k]);
                                }
                            }
                        }
                        i = i + 1;
                    }
                    ImportKind::Partial(items)
                }
            },
        };
        let import = Import { path, kind, location: use_stmt.location };
        let r = self.symbol_table.register_import(import);
        proof {
            if r is Ok {
                assert(self.symbol_table.imports@.drop_last() =~= old(self).symbol_table.imports@);
            }
        }
        r
    }

    /// Process all use directives in source files (the first phase of import
    /// resolution); a directive that cannot be registered is reported.
    pub fn process_directives(&mut self, files: &Vec<SourceFile>)
        requires
            old(self).wf(),
        ensures
            final(self).keeps_scope(old(self)),
            final(self).symbol_table.entries@ == old(self).symbol_table.entries@,
            imports_grow(final(self).symbol_table, old(self).symbol_table),
            uses_registered(final(self).symbol_table, old(self).symbol_table.current, files@),
            final(self).reported_error_keys == old(self).reported_error_keys,
            import_failures_pushed(old(self).errors@, files_pathless_uses(files@), final(self).errors@),
    {
        proof {
            assert(old(self).errors@.subrange(0, old(self).errors@.len() as int) =~= old(self).errors@);
        }
        let mut i: usize = 0;
        while i < files.len()
            invariant
                i <= files@.len(),
                self.keeps_scope(old(self)),
                self.symbol_table.entries@ == old(self).symbol_table.entries@,
                imports_grow(self.symbol_table, old(self).symbol_table),
                uses_registered(self.symbol_table, old(self).symbol_table.current, files@.take(i as int)),
                self.reported_error_keys == old(self).reported_error_keys,
                import_failures_pushed(old(self).errors@, files_pathless_uses(files@.take(i as int)), self.errors@),
            decreases files@.len() - i,
        {
            let directives = &files[i].directives;
            let ghost before = files_pathless_uses(files@.take(i as int));
            proof {
                assert(before + pathless_uses(directives@.take(0)) =~= before);
            }
            let mut j: usize = 0;
            while j < directives.len()
                invariant
                    i < files@.len(),
                    directives == &files@[i as int].directives,
                    j <= directives@.len(),
                    self.keeps_scope(old(self)),
                    self.reported_error_keys == old(self).reported_error_keys,
                    import_failures_pushed(
                        old(self).errors@,
                        before + pathless_uses(directives@.take(j as int)),
                        self.errors@,
                    ),
                    self.symbol_table.entries@ == old(self).symbol_table.entries@,
                    imports_grow(self.symbol_table, old(self).symbol_table),
                    uses_registered(self.symbol_table, old(self).symbol_table.current, files@.take(i as int)),
                    forall|k: int|
                        0 <= k < j && (#[trigger] directives@[k] matches Directive::Use(u) && u.segments matches Some(
                            segs,
                        ) && segs@.len() > 0) ==> use_registered(
                            self.symbol_table,
                            old(self).symbol_table.current,
                            directives@[k]->Use_0,
                        ),
                decreases directives@.len() - j,
            {
                let ghost t0 = self.symbol_table;
                let ghost e0 = self.errors@;
                proof {
                    let ghost d1 = directives@.take(j as int + 1);
                    assert(d1.drop_last() =~= directives@.take(j as int));
                    assert(d1.last() == directives@[j as int]);
                }
                match &directives[j] {
                    Directive::Use(use_directive) => {
                        if self.process_use_statement(use_directive).is_err() {
                            let path = use_path_text(use_directive);
                            proof {
                                assert(crate::type_checker::identifier_names(Seq::<Identifier>::empty()).len() == 0);
                                assert(path@ =~= Seq::<char>::empty());
                            }
                            self.push_error(
                                TypeCheckError::ImportResolutionFailed { path, location: use_directive.location },
                            );
                            proof {
                                let ghost l0 = before + pathless_uses(directives@.take(j as int));
                                let ghost l1 = before + pathless_uses(directives@.take(j as int + 1));
                                assert(l1 =~= l0.push(use_directive.location));
                                assert(self.errors@.subrange(0, old(self).errors@.len() as int) =~= e0.subrange(
                                    0,
                                    old(self).errors@.len() as int,
                                ));
                                assert forall|k: int| 0 <= k < l1.len() implies (#[trigger] self.errors@[old(self).errors@.len() + k]
                                    matches TypeCheckError::ImportResolutionFailed { path, location }
                                    && path@ == Seq::<char>::empty() && location == l1[k]) by {
                                    if k < l0.len() {
                                        assert(self.errors@[old(self).errors@.len() + k] == e0[old(self).errors@.len() + k]);
                                    }
                                }
                            }
                        } else {
                            proof {
                                let ghost l0 = before + pathless_uses(directives@.take(j as int));
                                let ghost l1 = before + pathless_uses(directives@.take(j as int + 1));
                                assert(l1 =~= l0);
                            }
                        }
                    },
                }
                proof {
                    let ghost t1 = self.symbol_table;
                    assert forall|k: int| 0 <= k < t0.imports@.len() implies #[trigger] t1.imports@[k] == t0.imports@[k] by {
                        if t1.imports@.len() > t0.imports@.len() {
                            assert(t1.imports@.drop_last()[k] == t0.imports@[k]);
                        }
                    }
                    assert forall|q: int| 0 <= q < old(self).symbol_table.imports@.len() implies #[trigger] t1.imports@[q]
                        == old(self).symbol_table.imports@[q] by {
                        assert(t0.imports@[q] == old(self).symbol_table.imports@[q]);
                    }
                    assert forall|k: int|
                        0 <= k < j + 1 && (#[trigger] directives@[k] matches Directive::Use(u) && u.segments matches Some(
                            segs,
                        ) && segs@.len() > 0) implies use_registered(t1, old(self).symbol_table.current, directives@[k]->Use_0) by {
                        if k < j {
                            let w = choose|w: int|
                                0 <= w < t0.imports@.len() && t0.imports@[w].0 == old(self).symbol_table.current
                                    && import_of_use(directives@[k]->Use_0, #[trigger] t0.imports@[w].1);
                            assert(t1.imports@[w] == t0.imports@[w]);
                        } else {
                            let w = t1.imports@.len() - 1;
                            assert(import_of_use(directives@[k]->Use_0, t1.imports@[w].1));
                        }
                    }
                    let ghost done = files@.take(i as int);
                    assert forall|a: int, b: int|
                        0 <= a < done.len() && 0 <= b < done[a].directives@.len() && (
                        #[trigger] done[a].directives@[b] matches Directive::Use(u) && u.segments matches Some(segs)
                            && segs@.len() > 0) implies use_registered(
                        t1,
                        old(self).symbol_table.current,
                        done[a].directives@[b]->Use_0,
                    ) by {
                        let w = choose|w: int|
                            0 <= w < t0.imports@.len() && t0.imports@[w].0 == old(self).symbol_table.current
                                && import_of_use(done[a].directives@[b]->Use_0, #[trigger] t0.imports@[w].1);
                        assert(t1.imports@[w] == t0.imports@[w]);
                    }
                }
                j = j + 1;
            }
            proof {
                let ghost done = files@.take(i as int + 1);
                assert(done.drop_last() =~= files@.take(i as int));
                assert(done.last() == files@[i as int]);
                assert(directives@.take(j as int) =~= directives@);
                assert(files_pathless_uses(done) =~= before + pathless_uses(directives@));
                assert forall|a: int, b: int|
                    0 <= a < done.len() && 0 <= b < done[a].directives@.len() && (
                    #[trigger] done[a].directives@[b] matches Directive::Use(u) && u.segments matches Some(segs)
                        && segs@.len() > 0) implies use_registered(
                    self.symbol_table,
                    old(self).symbol_table.current,
                    done[a].directives@[b]->Use_0,
                ) by {
                    if a < i {
                        assert(done[a] == files@.take(i as int)[a]);
                        assert(files@.take(i as int)[a].directives@[b] == done[a].directives@[b]);
                    } else {
                        assert(done[a] == files@[i as int]);
                        assert(directives@[b] == done[a].directives@[b]);
                    }
                }
            }
            i = i + 1;
        }
        proof {
            assert(files@.take(i as int) =~= files@);
        }
    }

    /// Resolve all imports (the second phase of import resolution), scope by
    /// scope. This runs after `register_types` so symbols are available.
    pub fn resolve_imports(&mut self)
        requires
            old(self).wf(),
        ensures
            final(self).keeps_scope(old(self)),
            final(self).symbol_table.scopes@ == old(self).symbol_table.scopes@,
            final(self).symbol_table.imports@ == old(self).symbol_table.imports@,
            forall|k: int|
                0 <= k < old(self).symbol_table.imports@.len() ==> plain_import_settled(
                    final(self).symbol_table,
                    final(self).errors@,
                    old(self).symbol_table.imports@[k].0,
                    #[trigger] old(self).symbol_table.imports@[k].1,
                ),
            scopes_resolved(*old(self), old(self).symbol_table.scopes@.len() as int, *final(self)),
    {
        let count = self.symbol_table.scope_count();
        let mut scope_id: usize = 0;
        while scope_id < count
            invariant
                count == old(self).symbol_table.scopes@.len(),
                scope_id <= count,
                self.keeps_scope(old(self)),
                self.symbol_table.scopes@ == old(self).symbol_table.scopes@,
                self.symbol_table.imports@ == old(self).symbol_table.imports@,
                forall|k: int|
                    0 <= k < old(self).symbol_table.imports@.len() && old(self).symbol_table.imports@[k].0 < scope_id
                        ==> plain_import_settled(
                        self.symbol_table,
                        self.errors@,
                        old(self).symbol_table.imports@[k].0,
                        #[trigger] old(self).symbol_table.imports@[k].1,
                    ),
                scopes_resolved(*old(self), scope_id as int, *self),
            decreases count - scope_id,
        {
            let ghost cm = *self;
            let ghost t0 = self.symbol_table;
            let ghost e0 = self.errors@;
            self.resolve_imports_in_scope(scope_id as u32);
            proof {
                assert(checker_at(cm) == cm);
                assert(scopes_resolved(*old(self), scope_id as int + 1, *self));
                assert forall|k: int|
                    0 <= k < old(self).symbol_table.imports@.len() && old(self).symbol_table.imports@[k].0 < scope_id + 1
                        implies plain_import_settled(
                        self.symbol_table,
                        self.errors@,
                        old(self).symbol_table.imports@[k].0,
                        #[trigger] old(self).symbol_table.imports@[k].1,
                    ) by {
                    if old(self).symbol_table.imports@[k].0 < scope_id {
                        lemma_settled_stays(
                            t0,
                            e0,
                            self.symbol_table,
                            self.errors@,
                            old(self).symbol_table.imports@[k].0,
                            old(self).symbol_table.imports@[k].1,
                        );
                    }
                }
            }
            scope_id = scope_id + 1;
        }
    }

    /// Binds one resolved path as `local_name` in scope `scope_id`, reporting
    /// a private target; an unresolved path is reported with `path_text`.
    fn bind_import(&mut self, scope_id: u32, full_path: &Vec<String>, local_name: String, path_text: String, location: &crate::ast::Location)
        requires
            old(self).wf(),
            scope_id < old(self).symbol_table.scopes@.len(),
        ensures
            final(self).keeps_scope(old(self)),
            final(self).symbol_table.scopes@ == old(self).symbol_table.scopes@,
            final(self).symbol_table.imports@ == old(self).symbol_table.imports@,
            match qualified_target(old(self).symbol_table, views(full_path@)) {
                Some((j, m)) => {
                    &&& bound_in(final(self).symbol_table, scope_id, local_name@)
                    &&& final(self).symbol_table.entries@ == old(self).symbol_table.entries@.push(
                        Entry { scope: scope_id, name: local_name, symbol: Symbol::Import(j as usize) },
                    )
                    &&& if symbol_is_public(old(self).symbol_table.entries@[j].symbol) || visible(
                        old(self).symbol_table,
                        Visibility::Private,
                        m,
                        old(self).symbol_table.current,
                    ) {
                        final(self).errors@ == old(self).errors@
                    } else {
                        &&& final(self).errors@.len() == old(self).errors@.len() + 1
                        &&& extends(final(self).errors@, old(self).errors@)
                        &&& final(self).errors@.last() matches TypeCheckError::PrivateAccessViolation {
                            context: crate::errors::VisibilityContext::Import { path },
                            location: l,
                        } && path@ == crate::text::joined(views(full_path@), "::"@) && l == *location
                    }
                },
                None => {
                    &&& final(self).symbol_table.entries@ == old(self).symbol_table.entries@
                    &&& final(self).errors@ == old(self).errors@.push(
                        TypeCheckError::ImportResolutionFailed { path: path_text, location: *location },
                    )
                },
            },
    {
        match self.symbol_table.resolve_qualified_name(full_path) {
            Some((j, def_scope_id)) => {
                if !self.symbol_table.entries[j].symbol.is_public() {
                    let joined = crate::text::join(full_path, "::");
                    self.check_and_report_visibility(
                        Visibility::Private,
                        def_scope_id,
                        location,
                        crate::errors::VisibilityContext::Import { path: joined },
                    );
                }
                let ghost t0 = self.symbol_table;
                let ghost local = local_name@;
                self.symbol_table.add_resolved_import(scope_id, local_name, j);
                proof {
                    let ghost e = self.symbol_table.entries@.last();
                    let ghost ns = if t0.entries@[j as int].symbol is Function {
                        Namespace::Functions
                    } else if t0.entries@[j as int].symbol is Variable {
                        Namespace::Variables
                    } else {
                        Namespace::Types
                    };
                    lemma_import_defined(t0, self.symbol_table, e, j, ns);
                    assert(self.symbol_table.defined_in(scope_id, local, ns));
                    assert(crate::type_checker::keys_of(self.errors@).subset_of(
                        crate::fx::key_set_contents(self.reported_error_keys),
                    ));
                }
            },
            None => {
                self.push_error(TypeCheckError::ImportResolutionFailed { path: path_text, location: *location });
            },
        }
    }

    /// Resolve the imports registered in one scope: a plain import binds the
    /// last segment of its path, a list of items binds each item (or its
    /// alias), and a glob import binds every public definition of a module.
    /// Paths that name nothing are reported.
    pub fn resolve_imports_in_scope(&mut self, scope_id: u32)
        requires
            old(self).wf(),
        ensures
            final(self).keeps_scope(old(self)),
            final(self).symbol_table.scopes@ == old(self).symbol_table.scopes@,
            final(self).symbol_table.imports@ == old(self).symbol_table.imports@,
            forall|k: int|
                0 <= k < old(self).symbol_table.imports@.len() && old(self).symbol_table.imports@[k].0 == scope_id
                    ==> plain_import_settled(
                    final(self).symbol_table,
                    final(self).errors@,
                    scope_id,
                    #[trigger] old(self).symbol_table.imports@[k].1,
                ),
            scope_resolved(*old(self), scope_id, *final(self)),
    {
        if scope_id as usize >= self.symbol_table.scope_count() {
            return;
        }
        let ghost c_start = *self;
        let ks = self.symbol_table.imports_in_scope(scope_id);
        let mut n: usize = 0;
        while n < ks.len()
            invariant
                n <= ks@.len(),
                scope_id < self.symbol_table.scopes@.len(),
                c_start == *old(self),
                self.keeps_scope(old(self)),
                self.symbol_table.scopes@ == old(self).symbol_table.scopes@,
                self.symbol_table.imports@ == old(self).symbol_table.imports@,
                imports_of_scope(old(self).symbol_table.imports@, scope_id, ks@),
                forall|k: int| 0 <= k < ks@.len() ==> #[trigger] ks@[k] < self.symbol_table.imports@.len(),
                forall|m: int|
                    0 <= m < n ==> plain_import_settled(
                        self.symbol_table,
                        self.errors@,
                        scope_id,
                        self.symbol_table.imports@[#[trigger] ks@[m] as int].1,
                    ),
                scope_imports_resolved(c_start, scope_id, ks@, n as int, *self),
            decreases ks@.len() - n,
        {
            let ghost cm = *self;
            let ghost t0 = self.symbol_table;
            let ghost e0 = self.errors@;
            let ghost written = self.symbol_table.imports@[ks@[n as int] as int].1;
            let import = copy_import(&self.symbol_table.imports[ks[n]].1);
            match &import.kind {
                ImportKind::Plain => {
                    if import.path.len() > 0 {
                        let symbol_name = import.path[import.path.len() - 1].clone();
                        let text = crate::text::join(&import.path, "::");
                        proof {
                            reveal_strlit("::");
                            assert(views(import.path@).last() == symbol_name@);
                        }
                        let ghost lv = symbol_name@;
                        let ghost tv = text@;
                        self.bind_import(scope_id, &import.path, symbol_name, text, &import.location);
                        proof {
                            if self.symbol_table.entries@.len() > t0.entries@.len() {
                                assert(self.symbol_table.entries@.drop_last() =~= t0.entries@);
                            }
                            if self.errors@.len() > e0.len() {
                                assert(self.errors@.drop_last() =~= e0);
                            }
                            assert(path_bound(t0, e0, scope_id, views(import.path@), lv, tv, import.location, self.symbol_table, self.errors@));
                        }
                    }
                },
                ImportKind::Partial(items) => {
                    let mut m: usize = 0;
                    while m < items.len()
                        invariant
                            m <= items@.len(),
                            scope_id < self.symbol_table.scopes@.len(),
                            self.keeps_scope(old(self)),
                            self.keeps_scope(&cm),
                            self.symbol_table.scopes@ == old(self).symbol_table.scopes@,
                            self.symbol_table.imports@ == old(self).symbol_table.imports@,
                            self.symbol_table.grows_from(&t0),
                            extends(self.errors@, e0),
                            written.kind matches ImportKind::Partial(w) && w@ == items@,
                            views(import.path@) == views(written.path@),
                            import.location == written.location,
                            t0 == cm.symbol_table,
                            e0 == cm.errors@,
                            items_bound(t0, e0, scope_id, written, items@, m as int, self.symbol_table, self.errors@),
                        decreases items@.len() - m,
                    {
                        let ghost c_item = *self;
                        let ghost t_item = self.symbol_table;
                        let ghost e_item = self.errors@;
                        let item = &items[m];
                        let mut full_path = clone_strings(&import.path);
                        full_path.push(item.name.clone());
                        let local_name = match &item.alias {
                            Some(a) => a.clone(),
                            None => item.name.clone(),
                        };
                        let base = crate::text::join(&import.path, "::");
                        let text = qualified(&base, &item.name);
                        proof {
                            reveal_strlit("::");
                            assert(views(full_path@) =~= views(import.path@).push(item.name@));
                        }
                        let ghost fpv = views(full_path@);
                        let ghost lv = local_name@;
                        let ghost tv = text@;
                        self.bind_import(scope_id, &full_path, local_name, text, &import.location);
                        proof {
                            if self.symbol_table.entries@.len() > t_item.entries@.len() {
                                assert(self.symbol_table.entries@.drop_last() =~= t_item.entries@);
                            }
                            if self.errors@.len() > e_item.len() {
                                assert(self.errors@.drop_last() =~= e_item);
                            }
                            assert(path_bound(t_item, e_item, scope_id, fpv, lv, tv, import.location, self.symbol_table, self.errors@));
                            lemma_grows_trans(t0, t_item, self.symbol_table);
                            assert forall|q: int| 0 <= q < e0.len() implies #[trigger] self.errors@[q] == e0[q] by {
                                assert(e_item[q] == e0[q]);
                            }
                            crate::type_checker::lemma_keeps_scope_trans(cm, c_item, *self);
                            assert(table_at(t_item) == t_item && errors_at(e_item) == e_item);
                            assert(items@[m as int] == *item);
                            assert(items_bound(t0, e0, scope_id, written, items@, m as int + 1, self.symbol_table, self.errors@));
                        }
                        m = m + 1;
                    }
                },
                ImportKind::Glob => {
                    self.resolve_glob_import(&import.path, &import.location, scope_id);
                    proof {
                        if import.path@.len() == 0 {
                            assert(self.errors@.drop_last() =~= e0);
                        }
                        assert(glob_resolved(cm, views(written.path@), written.location, scope_id, *self));
                    }
                },
            }
            proof {
                let ghost t1 = self.symbol_table;
                let ghost e1 = self.errors@;
                assert forall|m: int| 0 <= m < n + 1 implies plain_import_settled(
                    t1,
                    e1,
                    scope_id,
                    t1.imports@[#[trigger] ks@[m] as int].1,
                ) by {
                    if m < n {
                        lemma_settled_stays(t0, e0, t1, e1, scope_id, t0.imports@[ks@[m] as int].1);
                    } else if written.kind is Plain && written.path@.len() > 0 {
                        assert(views(import.path@) == views(written.path@));
                        if !bound_in(t1, scope_id, views(written.path@).last()) {
                            assert(e1[e1.len() - 1] matches TypeCheckError::ImportResolutionFailed { path, .. } && path@
                                == crate::text::joined(views(written.path@), "::"@));
                        }
                    }
                }
                assert(import_resolved(cm, scope_id, written, *self));
                assert(checker_at(cm) == cm);
                assert(scope_imports_resolved(c_start, scope_id, ks@, n as int + 1, *self));
            }
            n = n + 1;
        }
        let import_count = self.symbol_table.imports.len();
        proof {
            assert(import_count == self.symbol_table.imports@.len());
            assert forall|k: int|
                0 <= k < old(self).symbol_table.imports@.len() && old(self).symbol_table.imports@[k].0 == scope_id
                    implies plain_import_settled(
                    self.symbol_table,
                    self.errors@,
                    scope_id,
                    #[trigger] old(self).symbol_table.imports@[k].1,
                ) by {
                assert(ks@.contains(k as usize));
                let m = choose|m: int| 0 <= m < ks@.len() && ks@[m] == k as usize;
                assert(ks@[m] as int == k);
            }
            assert(scope_imports_resolved(*old(self), scope_id, ks@, ks@.len() as int, *self));
        }
    }
}


impl TypeChecker {
    /// Resolve a glob import (`use path::*`) by importing all public symbols
    /// of the module that `path` names into scope `into_scope_id`, each under
    /// its own name. An empty path, a path that names no module, and a module
    /// whose glob import is already being resolved are reported instead. The
    /// set of modules being resolved is the same afterwards.
    pub fn resolve_glob_import(&mut self, path: &Vec<String>, location: &crate::ast::Location, into_scope_id: u32)
        requires
            old(self).wf(),
        ensures
            final(self).keeps_scope(old(self)),
            final(self).symbol_table.scopes@ == old(self).symbol_table.scopes@,
            final(self).symbol_table.imports@ == old(self).symbol_table.imports@,
            path@.len() == 0 ==> final(self).errors@ == old(self).errors@.push(
                TypeCheckError::EmptyGlobImport { location: *location },
            ),
            path@.len() > 0 ==> match old(self).symbol_table.module_at(views(path@)) {
                None => final(self).errors@.len() == old(self).errors@.len() + 1
                    && extends(final(self).errors@, old(self).errors@)
                    && final(self).errors@.last() is ImportResolutionFailed
                    && final(self).errors@.last()->ImportResolutionFailed_path@ == crate::text::joined(
                    views(path@),
                    "::"@,
                ) + "::* - module not found"@,
                Some(t) => if scope_set_contents(old(self).glob_resolution_in_progress).contains(t) {
                    final(self).errors@.len() == old(self).errors@.len() + 1
                        && extends(final(self).errors@, old(self).errors@)
                        && final(self).errors@.last() is CircularImport
                        && final(self).errors@.last()->CircularImport_path@ == crate::text::joined(views(path@), "::"@)
                } else {
                    &&& final(self).errors@ == old(self).errors@
                    &&& into_scope_id < old(self).symbol_table.scopes@.len() ==> forall|j: int|
                        0 <= j < old(self).symbol_table.entries@.len()
                        && crate::symbol_table::public_definition_in(old(self).symbol_table.entries@, j, t)
                        ==> exists|k: int| 0 <= k < final(self).symbol_table.entries@.len()
                        && #[trigger] final(self).symbol_table.entries@[k] == (Entry {
                            scope: into_scope_id,
                            name: old(self).symbol_table.entries@[j].name,
                            symbol: Symbol::Import(j as usize),
                        })
                },
            },
    {
        if path.len() == 0 {
            self.push_error(TypeCheckError::EmptyGlobImport { location: *location });
            return;
        }
        let target_scope_id = match self.symbol_table.find_module_scope(path) {
            Some(id) => id,
            None => {
                proof {
                    reveal_strlit("::* - module not found");
                }
                let mut text = crate::text::join(path, "::");
                text.append("::* - module not found");
                self.push_error(TypeCheckError::ImportResolutionFailed { path: text, location: *location });
                return;
            },
        };
        if crate::fx::scope_set_contains(&self.glob_resolution_in_progress, target_scope_id) {
            proof {
                reveal_strlit("::");
            }
            let text = crate::text::join(path, "::");
            self.push_error(TypeCheckError::CircularImport { path: text, location: *location });
            return;
        }
        crate::fx::scope_set_insert(&mut self.glob_resolution_in_progress, target_scope_id);
        let public_symbols = self.symbol_table.public_symbols_of_scope(target_scope_id);
        let ghost entries0 = self.symbol_table.entries@;
        let entry_count = self.symbol_table.entries.len();
        assert(entries0.len() == entry_count);
        if (into_scope_id as usize) < self.symbol_table.scope_count() {
            let mut n: usize = 0;
            while n < public_symbols.len()
                invariant
                    n <= public_symbols@.len(),
                    into_scope_id < self.symbol_table.scopes@.len(),
                    self.wf(),
                    self.errors@ == old(self).errors@,
                    self.symbol_table.scopes@ == old(self).symbol_table.scopes@,
                    self.symbol_table.current == old(self).symbol_table.current,
                    self.symbol_table.imports@ == old(self).symbol_table.imports@,
                    scope_set_contents(self.glob_resolution_in_progress) == scope_set_contents(
                        old(self).glob_resolution_in_progress,
                    ).insert(target_scope_id),
                    self.symbol_table.entries@.len() >= entries0.len(),
                    forall|j: int| 0 <= j < entries0.len() ==> #[trigger] self.symbol_table.entries@[j] == entries0[j],
                    forall|k: int| 0 <= k < public_symbols@.len() ==> #[trigger] public_symbols@[k] < entries0.len()
                        && crate::symbol_table::public_definition_in(entries0, public_symbols@[k] as int, target_scope_id),
                    forall|q: int| #![trigger public_symbols@[q]] 0 <= q < n ==> exists|k: int| 0 <= k < self.symbol_table.entries@.len()
                        && #[trigger] self.symbol_table.entries@[k] == (Entry {
                            scope: into_scope_id,
                            name: entries0[public_symbols@[q] as int].name,
                            symbol: Symbol::Import(public_symbols@[q]),
                        }),
                decreases public_symbols@.len() - n,
            {
                let j = public_symbols[n];
                let name = self.symbol_table.entries[j].name.clone();
                let ghost before = self.symbol_table.entries@;
                self.symbol_table.add_resolved_import(into_scope_id, name, j);
                proof {
                    assert(self.symbol_table.entries@[before.len() as int] == (Entry {
                        scope: into_scope_id,
                        name: entries0[j as int].name,
                        symbol: Symbol::Import(j),
                    }));
                    assert forall|q: int| #![trigger public_symbols@[q]] 0 <= q < n + 1 implies exists|k: int| 0 <= k < self.symbol_table.entries@.len()
                        && #[trigger] self.symbol_table.entries@[k] == (Entry {
                            scope: into_scope_id,
                            name: entries0[public_symbols@[q] as int].name,
                            symbol: Symbol::Import(public_symbols@[q]),
                        }) by {
                        if q < n {
                            let k = choose|k: int| 0 <= k < before.len()
                                && #[trigger] before[k] == (Entry {
                                    scope: into_scope_id,
                                    name: entries0[public_symbols@[q] as int].name,
                                    symbol: Symbol::Import(public_symbols@[q]),
                                });
                            assert(self.symbol_table.entries@[k] == before[k]);
                        } else {
                            assert(self.symbol_table.entries@[before.len() as int] == (Entry {
                                scope: into_scope_id,
                                name: entries0[public_symbols@[q] as int].name,
                                symbol: Symbol::Import(public_symbols@[q]),
                            }));
                        }
                    }
                }
                n = n + 1;
            }
            proof {
                assert forall|j: int| 0 <= j < entries0.len() && crate::symbol_table::public_definition_in(entries0, j, target_scope_id)
                    implies exists|k: int| 0 <= k < self.symbol_table.entries@.len()
                    && #[trigger] self.symbol_table.entries@[k] == (Entry {
                        scope: into_scope_id,
                        name: entries0[j].name,
                        symbol: Symbol::Import(j as usize),
                    }) by {
                    assert(public_symbols@.contains(j as usize));
                    let q = choose|q: int| 0 <= q < public_symbols@.len() && public_symbols@[q] == j as usize;
                    assert(public_symbols@[q] == j as usize);
                    assert(j as usize as int == j);
                    let k = choose|k: int| 0 <= k < self.symbol_table.entries@.len()
                        && #[trigger] self.symbol_table.entries@[k] == (Entry {
                            scope: into_scope_id,
                            name: entries0[public_symbols@[q] as int].name,
                            symbol: Symbol::Import(public_symbols@[q]),
                        });
                    assert(self.symbol_table.entries@[k] == (Entry {
                        scope: into_scope_id,
                        name: entries0[j].name,
                        symbol: Symbol::Import(j as usize),
                    }));
                }
            }
        }
        crate::fx::scope_set_remove(&mut self.glob_resolution_in_progress, target_scope_id);
        proof {
            assert(scope_set_contents(old(self).glob_resolution_in_progress).insert(target_scope_id).remove(target_scope_id)
                =~= scope_set_contents(old(self).glob_resolution_in_progress));
        }
    }
}


/// The messages of the errors, in order.
pub open spec fn messages_of(errors: Seq<TypeCheckError>) -> Seq<Seq<char>> {
    errors.map_values(|e: TypeCheckError| crate::errors::error_message(e))
}

/// The name that a definition of a module body registers in the module's
/// own scope: type aliases, structs, enums, specs, constants and external
/// functions. The functions of a module body are checked, not registered.
pub open spec fn module_member(d: Definition) -> Option<Seq<char>> {
    match d {
        Definition::Constant(c) => Some(c.name.name@),
        Definition::ExternalFunction(f) => Some(f.name.name@),
        _ => type_definition_name(d),
    }
}

/// The name space a member of a module body is registered in: constants
/// among the variables, external functions among the functions, the rest
/// among the types.
pub open spec fn module_member_space(d: Definition) -> Namespace {
    match d {
        Definition::Constant(_) => Namespace::Variables,
        Definition::ExternalFunction(_) => Namespace::Functions,
        _ => Namespace::Types,
    }
}

/// Every member of `defs` has its name defined in scope `m` of `t`, in its
/// name space, by itself or by an earlier definition of that name.
pub open spec fn module_members_registered(t: SymbolTable, m: u32, defs: Seq<Definition>) -> bool {
    forall|k: int|
        0 <= k < defs.len() && #[trigger] module_member(defs[k]) is Some ==> t.defined_in(
            m,
            module_member(defs[k])->0,
            module_member_space(defs[k]),
        )
}

/// The definitions of a module's body; none where it has no body.
pub open spec fn module_body(module: crate::ast::ModuleDefinition) -> Seq<Definition> {
    match module.body {
        Some(b) => b@,
        None => Seq::empty(),
    }
}

/// Entering the module scope of `md` from `c0`: when scope identifiers
/// last, a new module scope of that name below the current one becomes
/// current; otherwise nothing changes. Nothing else changes.
pub open spec fn module_entered(c0: TypeChecker, md: crate::ast::ModuleDefinition, c1: TypeChecker) -> bool {
    &&& c1.errors@ == c0.errors@
    &&& c1.reported_error_keys == c0.reported_error_keys
    &&& c1.glob_resolution_in_progress == c0.glob_resolution_in_progress
    &&& c1.symbol_table.entries@ == c0.symbol_table.entries@
    &&& c1.symbol_table.methods@ == c0.symbol_table.methods@
    &&& c1.symbol_table.imports@ == c0.symbol_table.imports@
    &&& if c0.symbol_table.scopes@.len() < u32::MAX {
        &&& c1.symbol_table.scopes@.len() == c0.symbol_table.scopes@.len() + 1
        &&& c1.symbol_table.scopes@.take(c0.symbol_table.scopes@.len() as int) == c0.symbol_table.scopes@
        &&& c1.symbol_table.current == c0.symbol_table.scopes@.len()
        &&& c1.symbol_table.parent_of(c1.symbol_table.current) == Some(c0.symbol_table.current)
        &&& c1.symbol_table.scopes@[c1.symbol_table.current as int].name@ == md.name.name@
        &&& c1.symbol_table.scopes@[c1.symbol_table.current as int].is_module
    } else {
        c1.symbol_table == c0.symbol_table
    }
}

/// Processing one definition of a module body from `c0`: a nested module
/// is processed, a function's body is checked (it is not registered),
/// constants and external functions are registered, and type definitions
/// are registered without their methods.
pub open spec fn module_member_processed(c0: TypeChecker, n0: NodeTypes, d: Definition, c1: TypeChecker, n1: NodeTypes) -> bool
    decreases d, 0int,
{
    match d {
        Definition::Module(nested) => module_processed(c0, n0, nested, c1, n1),
        Definition::Function(f) => {
            &&& c1.keeps_scope(&c0)
            &&& function_body_checked(
                c0.symbol_table,
                n0,
                report_state(c0),
                f,
                type_parameters_of(f),
                None,
                c1.symbol_table,
                n1,
                report_state(c1),
            )
        },
        Definition::Constant(cd) => {
            &&& c1.keeps_scope(&c0)
            &&& n1 == n0
            &&& value_registered_or_refused(
                c0.symbol_table,
                report_state(c0),
                cd.name.name@,
                Namespace::Variables,
                RegistrationKind::Variable,
                "variable"@,
                cd.location,
                |sym: Symbol| sym matches Symbol::Variable(ti) && ti@ == crate::type_info::type_of(cd.ty, Seq::empty()),
                c1.symbol_table,
                report_state(c1),
            )
        },
        Definition::ExternalFunction(_) => {
            &&& c1.keeps_scope(&c0)
            &&& n1 == n0
            &&& value_definition_step(c0.symbol_table, report_state(c0), d, c1.symbol_table, report_state(c1))
        },
        _ => {
            &&& c1.keeps_scope(&c0)
            &&& n1 == n0
            &&& c1.reported_error_keys == c0.reported_error_keys
            &&& type_definition_step(c0.symbol_table, c0.errors@, d, false, c1.symbol_table, c1.errors@)
        },
    }
}

/// Processing the first `n` definitions of a module body in order.
pub open spec fn module_members_processed(
    c0: TypeChecker,
    n0: NodeTypes,
    ds: Seq<Definition>,
    n: int,
    c1: TypeChecker,
    n1: NodeTypes,
) -> bool
    decreases ds, n,
{
    if n <= 0 || n > ds.len() {
        c1 == c0 && n1 == n0
    } else {
        exists|cm: TypeChecker, nm: NodeTypes|
            #![trigger checker_at(cm), nodes_at(nm)]
            module_members_processed(c0, n0, ds, n - 1, checker_at(cm), nodes_at(nm)) && module_member_processed(
                cm,
                nm,
                ds[n - 1],
                c1,
                n1,
            )
    }
}

/// Processing the module `md` from `c0`: its scope is entered, every
/// definition of its body is processed in order, and the scope of `c0` is
/// made current again.
pub open spec fn module_processed(
    c0: TypeChecker,
    n0: NodeTypes,
    md: crate::ast::ModuleDefinition,
    c1: TypeChecker,
    n1: NodeTypes,
) -> bool
    decreases md, 0int,
{
    &&& c1.keeps_scope(&c0)
    &&& exists|ci: TypeChecker, co: TypeChecker|
        #![trigger checker_at(ci), checker_at(co)]
        {
            &&& module_entered(c0, md, checker_at(ci))
            &&& match md.body {
                Some(b) => module_members_processed(ci, n0, b@, b@.len() as int, checker_at(co), n1),
                None => co == ci && n1 == n0,
            }
            &&& c1.errors@ == co.errors@
            &&& c1.reported_error_keys == co.reported_error_keys
            &&& c1.symbol_table.entries@ == co.symbol_table.entries@
            &&& c1.symbol_table.scopes@ == co.symbol_table.scopes@
            &&& c1.symbol_table.methods@ == co.symbol_table.methods@
            &&& c1.symbol_table.imports@ == co.symbol_table.imports@
        }
}

/// Loading the prelude `p` stopped at module `j`: the modules before it
/// can be loaded, and, as long as scope identifiers last, are loaded in `t`
/// below scope `cur`, while module `j` cannot be.
pub open spec fn prelude_stops_at(p: Seq<(String, crate::ast::ParsedModule)>, j: int, t: SymbolTable, cur: u32) -> bool {
    &&& 0 <= j < p.len()
    &&& forall|k: int| 0 <= k < j ==> loadable(#[trigger] p[k].1.definitions@)
    &&& t.scopes@.len() < u32::MAX ==> {
        &&& !loadable(p[j].1.definitions@)
        &&& forall|k: int| 0 <= k < j ==> #[trigger] module_loaded(t, cur, p[k].0@, p[k].1.definitions@)
    }
}

impl TypeChecker {
    /// The messages of the errors found so far, in order.
    pub fn error_messages(&self) -> (r: Vec<String>)
        ensures
            views(r@) == messages_of(self.errors@),
    {
        let mut r: Vec<String> = Vec::new();
        let mut i: usize = 0;
        while i < self.errors.len()
            invariant
                i <= self.errors@.len(),
                r@.len() == i,
                forall|k: int| 0 <= k < i ==> #[trigger] r@[k]@ == crate::errors::error_message(self.errors@[k]),
            decreases self.errors@.len() - i,
        {
            r.push(self.errors[i].message());
            i = i + 1;
        }
        proof {
            assert(views(r@) =~= messages_of(self.errors@));
        }
        r
    }

    /// Process a module definition.
    ///
    /// Creates a new scope for the module and processes all definitions
    /// within it: types, structs (without their methods), enums and specs are
    /// registered, nested modules processed, function bodies checked,
    /// constants and external functions registered. Afterwards the parent
    /// scope is current again.
    #[verifier::loop_isolation(false)]
    pub fn process_module_definition(&mut self, module: &crate::ast::ModuleDefinition, nodes: &mut NodeTypes) -> (r: Result<(), anyhow::Error>)
        requires
            old(self).wf(),
            def_wf(Definition::Module(*module)),
        ensures
            final(self).keeps_scope(old(self)),
            r is Ok,
            old(self).symbol_table.scopes@.len() < u32::MAX ==> {
                &&& is_module_below(
                    final(self).symbol_table,
                    old(self).symbol_table.scopes@.len() as u32,
                    old(self).symbol_table.current,
                    module.name.name@,
                )
                &&& module_members_registered(
                    final(self).symbol_table,
                    old(self).symbol_table.scopes@.len() as u32,
                    module_body(*module),
                )
            },
            module_processed(*old(self), *old(nodes), *module, *final(self), *final(nodes)),
        decreases module,
    {
        let outer = self.symbol_table.current_scope_id();
        let m = self.symbol_table.enter_module(module.name.name.clone(), module.visibility);
        let ghost ci = *self;
        proof {
            assert(module_entered(*old(self), *module, ci));
        }
        if let Some(body) = &module.body {
            let mut i: usize = 0;
            while i < body.len()
                invariant
                    i <= body@.len(),
                    self.wf(),
                    outer < self.symbol_table.scopes@.len(),
                    scopes_kept(self.symbol_table, old(self).symbol_table),
                    scope_set_contents(self.glob_resolution_in_progress) == scope_set_contents(old(self).glob_resolution_in_progress),
                    extends(self.errors@, old(self).errors@),
                    self.symbol_table.grows_from(&old(self).symbol_table),
                    self.symbol_table.current == m,
                    old(self).symbol_table.scopes@.len() < u32::MAX ==> is_module_below(
                        self.symbol_table,
                        m,
                        outer,
                        module.name.name@,
                    ) && m == old(self).symbol_table.scopes@.len(),
                    module_members_registered(self.symbol_table, m, body@.take(i as int)),
                    module_members_processed(ci, *old(nodes), body@, i as int, *self, *nodes),
                    self.keeps_scope(&ci),
                decreases body@.len() - i,
            {
                let ghost cm = *self;
                let ghost nm = *nodes;
                let ghost t0 = self.symbol_table;
                let definition = &body[i];
                proof {
                    assert(def_wf(body@[i as int]));
                }
                match definition {
                    Definition::Module(nested) => {
                        proof {
                            let ghost d = body@[i as int];
                            assert(decreases_to!(*module => module.body));
                            assert(decreases_to!(module.body => *body));
                            assert(decreases_to!(*body => body@));
                            assert(decreases_to!(body@ => d));
                            assert(decreases_to!(d => d->Module_0));
                        }
                        let _ = self.process_module_definition(nested, nodes);
                    },
                    Definition::Function(function_definition) => {
                        self.infer_variables(function_definition, nodes);
                    },
                    Definition::Constant(constant_definition) => {
                        let name = &constant_definition.name.name;
                        let pushed = self.symbol_table.push_variable_to_scope(name, TypeInfo::new(&constant_definition.ty));
                        proof {
                            if pushed is Ok {
                                lemma_defined_after_append(
                                    t0,
                                    self.symbol_table,
                                    self.symbol_table.entries@.last(),
                                    Namespace::Variables,
                                );
                            }
                        }
                        proof {
                            if pushed is Ok {
                                assert(self.symbol_table.entries@.drop_last() =~= t0.entries@);
                            }
                        }
                        if let Err(err) = pushed {
                            let ghost er = err;
                            self.push_error(
                                TypeCheckError::RegistrationFailed {
                                    kind: RegistrationKind::Variable,
                                    name: name.clone(),
                                    reason: Some(err),
                                    location: constant_definition.location,
                                },
                            );
                            proof {
                                assert(self.errors@.drop_last() =~= cm.errors@);
                                assert(er@ == already_defined_text("variable"@, constant_definition.name.name@));
                            }
                        }
                    },
                    Definition::ExternalFunction(external) => {
                        self.collect_external_function(external);
                    },
                    _ => {
                        self.register_type_definition(definition, false);
                    },
                }
                proof {
                    assert(module_member_processed(cm, nm, body@[i as int], *self, *nodes));
                    assert(checker_at(cm) == cm && nodes_at(nm) == nm);
                    assert(module_members_processed(ci, *old(nodes), body@, i as int + 1, *self, *nodes));
                    crate::type_checker::lemma_keeps_scope_trans(ci, cm, *self);
                    let ghost t1 = self.symbol_table;
                    lemma_grows_trans(old(self).symbol_table, t0, t1);
                    if old(self).symbol_table.scopes@.len() < u32::MAX {
                        assert(t1.scopes@[m as int] == t0.scopes@[m as int]);
                    }
                    let ghost done = body@.take(i as int + 1);
                    assert forall|k: int| 0 <= k < done.len() && #[trigger] module_member(done[k]) is Some implies t1.defined_in(
                        m,
                        module_member(done[k])->0,
                        module_member_space(done[k]),
                    ) by {
                        if k < i {
                            assert(done[k] == body@.take(i as int)[k]);
                            lemma_defined_stays(t0, t1, m, module_member(done[k])->0, module_member_space(done[k]));
                        } else {
                            assert(done[k] == body@[i as int]);
                        }
                    }
                }
                i = i + 1;
            }
            proof {
                assert(body@.take(i as int) =~= body@);
            }
        }
        proof {
            if module.body is None {
                assert(module_body(*module) =~= Seq::<Definition>::empty());
            }
        }
        let ghost co = *self;
        self.symbol_table.restore_scope(outer);
        proof {
            assert(checker_at(ci) == ci && checker_at(co) == co);
        }
        Ok(())
    }

    /// Checks every function body and method body of the files, in order:
    /// the functions with their own type parameters, the methods of each
    /// struct with `self` of that struct's type.
    #[verifier::loop_isolation(false)]
    fn infer_bodies(&mut self, files: &Vec<SourceFile>, nodes: &mut NodeTypes)
        requires
            old(self).wf(),
            files_wf(files@),
        ensures
            final(self).keeps_scope(old(self)),
            files_checked(
                old(self).symbol_table,
                *old(nodes),
                report_state(*old(self)),
                files@,
                final(self).symbol_table,
                *final(nodes),
                report_state(*final(self)),
            ),
    {
        let mut i: usize = 0;
        while i < files.len()
            invariant
                i <= files@.len(),
                self.keeps_scope(old(self)),
                files_checked(
                    old(self).symbol_table,
                    *old(nodes),
                    report_state(*old(self)),
                    files@.take(i as int),
                    self.symbol_table,
                    *nodes,
                    report_state(*self),
                ),
            decreases files@.len() - i,
        {
            let definitions = &files[i].definitions;
            let ghost tf = self.symbol_table;
            let ghost nf = *nodes;
            let ghost sf = report_state(*self);
            let mut j: usize = 0;
            while j < definitions.len()
                invariant
                    j <= definitions@.len(),
                    self.keeps_scope(old(self)),
                    definitions_checked(tf, nf, sf, definitions@.take(j as int), self.symbol_table, *nodes, report_state(*self)),
                decreases definitions@.len() - j,
            {
                proof {
                    assert(def_wf(files@[i as int].definitions@[j as int]));
                }
                let ghost td = self.symbol_table;
                let ghost nd = *nodes;
                let ghost sd0 = report_state(*self);
                match &definitions[j] {
                    Definition::Function(function_definition) => {
                        self.infer_variables(function_definition, nodes);
                    },
                    Definition::Struct(struct_definition) => {
                        let struct_type = TypeInfo::of_kind(TypeInfoKind::Struct(struct_definition.name.name.clone()));
                        proof {
                            assert(struct_type@ == struct_model(struct_definition.name.name@));
                        }
                        let mut m: usize = 0;
                        while m < struct_definition.methods.len()
                            invariant
                                m <= struct_definition.methods@.len(),
                                self.keeps_scope(old(self)),
                                methods_checked(
                                    td,
                                    nd,
                                    sd0,
                                    struct_definition.methods@.take(m as int),
                                    struct_type@,
                                    self.symbol_table,
                                    *nodes,
                                    report_state(*self),
                                ),
                            decreases struct_definition.methods@.len() - m,
                        {
                            let ghost tm = self.symbol_table;
                            let ghost nm = *nodes;
                            let ghost sm = report_state(*self);
                            self.infer_method_variables(&struct_definition.methods[m], &struct_type, nodes);
                            proof {
                                let ghost ms = struct_definition.methods@.take(m as int + 1);
                                assert(ms.drop_last() =~= struct_definition.methods@.take(m as int));
                                assert(ms.last() == struct_definition.methods@[m as int]);
                                assert(table_at(tm) == tm && nodes_at(nm) == nm && stage(sm) == sm);
                                assert(function_body_checked(
                                    tm,
                                    nm,
                                    sm,
                                    ms.last(),
                                    Seq::empty(),
                                    Some(struct_type@),
                                    self.symbol_table,
                                    *nodes,
                                    report_state(*self),
                                ));
                                assert(methods_checked(td, nd, sd0, ms, struct_type@, self.symbol_table, *nodes, report_state(*self)));
                            }
                            m = m + 1;
                        }
                        proof {
                            assert(struct_definition.methods@.take(m as int) =~= struct_definition.methods@);
                        }
                    },
                    _ => {},
                }
                proof {
                    let ghost ds = definitions@.take(j as int + 1);
                    assert(ds.drop_last() =~= definitions@.take(j as int));
                    assert(ds.last() == definitions@[j as int]);
                    assert(table_at(td) == td && nodes_at(nd) == nd && stage(sd0) == sd0);
                    assert(definition_checked(td, nd, sd0, ds.last(), self.symbol_table, *nodes, report_state(*self)));
                    assert(definitions_checked(tf, nf, sf, ds, self.symbol_table, *nodes, report_state(*self)));
                }
                j = j + 1;
            }
            proof {
                assert(definitions@.take(j as int) =~= definitions@);
                let ghost fs = files@.take(i as int + 1);
                assert(fs.drop_last() =~= files@.take(i as int));
                assert(fs.last() == files@[i as int]);
                assert(table_at(tf) == tf && nodes_at(nf) == nf && stage(sf) == sf);
                assert(files_checked(
                    old(self).symbol_table,
                    *old(nodes),
                    report_state(*old(self)),
                    fs,
                    self.symbol_table,
                    *nodes,
                    report_state(*self),
                ));
            }
            i = i + 1;
        }
        proof {
            assert(files@.take(i as int) =~= files@);
        }
    }

    /// Runs the five phases of `infer_types` on the files, recording types in
    /// `nodes`; every phase runs whatever the earlier ones found.
    fn run_phases(&mut self, files: &Vec<SourceFile>, nodes: &mut NodeTypes)
        requires
            old(self).wf(),
            files_wf(files@),
        ensures
            final(self).wf(),
            extends(final(self).errors@, old(self).errors@),
            final(self).symbol_table.grows_from(&old(self).symbol_table),
            final(self).symbol_table.current == old(self).symbol_table.current,
            type_definitions_registered(final(self).symbol_table, files@),
            value_definitions_registered(final(self).symbol_table, files@),
            phases_ran(*old(self), *old(nodes), files@, *final(self), *final(nodes)),
    {
        self.process_directives(files);
        let ghost c1 = *self;
        let ghost t0 = self.symbol_table;
        self.register_types(files);
        let ghost c2 = *self;
        let ghost t1 = self.symbol_table;
        self.resolve_imports();
        let ghost c3 = *self;
        let ghost t2 = self.symbol_table;
        proof {
            lemma_registered_stays(t1, t2, files@);
        }
        self.collect_function_and_constant_definitions(files, nodes);
        let ghost c4 = *self;
        let ghost n4 = *nodes;
        let ghost t3 = self.symbol_table;
        proof {
            lemma_registered_stays(t2, t3, files@);
        }
        // Continue to the inference phase even if registration had errors,
        // to collect all errors before returning.
        self.infer_bodies(files, nodes);
        proof {
            lemma_registered_stays(t3, self.symbol_table, files@);
            lemma_grows_trans(old(self).symbol_table, t0, t1);
            lemma_grows_trans(old(self).symbol_table, t1, t2);
            lemma_grows_trans(old(self).symbol_table, t2, t3);
            lemma_grows_trans(old(self).symbol_table, t3, self.symbol_table);
            assert(checker_at(c1) == c1 && checker_at(c2) == c2 && checker_at(c3) == c3 && checker_at(c4) == c4);
            assert(nodes_at(n4) == n4);
            assert(phases_ran(*old(self), *old(nodes), files@, *self, *nodes));
        }
    }

    /// Infer types for all definitions in the context.
    ///
    /// Phase ordering:
    /// 1. `process_directives()` - Register raw imports in scopes
    /// 2. `register_types()` - Collect type definitions into symbol table
    /// 3. `resolve_imports()` - Bind import paths to symbols
    /// 4. `collect_function_and_constant_definitions()` - Register functions
    /// 5. Infer variable types in function bodies
    ///
    /// All phases run even when earlier ones found errors, so that every
    /// error is collected. When errors were found they are taken out of the
    /// checker and returned as one error whose text is their messages joined
    /// with `; `; otherwise the symbol table is returned and the checker
    /// keeps a copy of it.
    #[verifier::spinoff_prover]
    #[verifier::rlimit(60)]
    pub fn infer_types(&mut self, ctx: &mut crate::typed_context::TypedContext) -> (r: Result<crate::symbol_table::SymbolTable, anyhow::Error>)
        requires
            old(self).wf(),
            files_wf(old(ctx).source_files@),
        ensures
            final(self).wf(),
            final(self).errors@.len() == 0,
            final(ctx).source_files == old(ctx).source_files,
            match r {
                Ok(table) => {
                    &&& table.wf()
                    &&& old(self).errors@.len() == 0
                    &&& table.grows_from(&old(self).symbol_table)
                    &&& table.current == old(self).symbol_table.current
                    &&& type_definitions_registered(table, old(ctx).source_files@)
                    &&& value_definitions_registered(table, old(ctx).source_files@)
                },
                Err(e) => exists|all: Seq<TypeCheckError>| extends(all, old(self).errors@) && all.len() > 0
                    && crate::failure::error_text(e) == crate::text::joined(messages_of(all), "; "@),
            },
            exists|c5: TypeChecker|
                #![trigger checker_at(c5)]
                {
                    &&& phases_ran(
                        *old(self),
                        old(ctx).node_types,
                        old(ctx).source_files@,
                        checker_at(c5),
                        final(ctx).node_types,
                    )
                    &&& (r is Ok <==> c5.errors@.len() == 0)
                    &&& r matches Ok(table) ==> table == c5.symbol_table && crate::table_copy::copied_table(
                        final(self).symbol_table,
                        table,
                    )
                    &&& r matches Err(e) ==> crate::failure::error_text(e) == crate::text::joined(
                        messages_of(c5.errors@),
                        "; "@,
                    )
                },
    {
        let files = &ctx.source_files;
        let nodes = &mut ctx.node_types;
        self.run_phases(files, nodes);
        let ghost c5 = *self;
        proof {
            assert(checker_at(c5) == c5);
        }
        if self.errors.len() > 0 {
            let messages = self.error_messages();
            let ghost all = self.errors@;
            let mut taken: Vec<TypeCheckError> = Vec::new();
            std::mem::swap(&mut self.errors, &mut taken);
            proof {
                assert(crate::type_checker::keys_of(self.errors@) =~= Set::<Seq<char>>::empty());
                reveal_strlit("; ");
            }
            let text = crate::text::join(&messages, "; ");
            let err = crate::failure::error_from_message(text);
            proof {
                assert(extends(all, old(self).errors@));
                assert(all.len() > 0);
                assert(crate::failure::error_text(err) == crate::text::joined(messages_of(all), "; "@));
            }
            return Err(err);
        }
        let mut table = self.symbol_table.copy();
        std::mem::swap(&mut self.symbol_table, &mut table);
        Ok(table)
    }

    /// Load external modules from the prelude before import resolution:
    /// each becomes a public module scope below the current scope holding
    /// its definitions. Registration stops at the first refused definition,
    /// whose reason is returned. It succeeds exactly when the definitions of
    /// every module are `loadable`, as long as scope identifiers last.
    pub fn load_prelude(&mut self, prelude: crate::ast::ExternPrelude) -> (r: Result<(), anyhow::Error>)
        requires
            old(self).wf(),
        ensures
            r is Ok ==> forall|i: int| 0 <= i < prelude@.len() ==> loadable(#[trigger] prelude@[i].1.definitions@),
            (forall|i: int| 0 <= i < prelude@.len() ==> loadable(#[trigger] prelude@[i].1.definitions@))
                && final(self).symbol_table.scopes@.len() < u32::MAX ==> r is Ok,
            r is Err ==> exists|j: int| #[trigger] prelude_stops_at(
                prelude@,
                j,
                final(self).symbol_table,
                old(self).symbol_table.current,
            ),
            final(self).keeps_scope(old(self)),
            final(self).errors == old(self).errors,
            final(self).reported_error_keys == old(self).reported_error_keys,
            scopes_kept(final(self).symbol_table, old(self).symbol_table),
            r is Ok && final(self).symbol_table.scopes@.len() < u32::MAX ==> forall|i: int|
                0 <= i < prelude@.len() ==> #[trigger] module_loaded(
                    final(self).symbol_table,
                    old(self).symbol_table.current,
                    prelude@[i].0@,
                    prelude@[i].1.definitions@,
                ),
    {
        let mut i: usize = 0;
        while i < prelude.len()
            invariant
                i <= prelude@.len(),
                self.keeps_scope(old(self)),
                self.errors == old(self).errors,
                self.reported_error_keys == old(self).reported_error_keys,
                scopes_kept(self.symbol_table, old(self).symbol_table),
                forall|k: int| 0 <= k < i ==> loadable(#[trigger] prelude@[k].1.definitions@),
                self.symbol_table.scopes@.len() < u32::MAX ==> forall|k: int|
                    0 <= k < i ==> #[trigger] module_loaded(
                        self.symbol_table,
                        old(self).symbol_table.current,
                        prelude@[k].0@,
                        prelude@[k].1.definitions@,
                    ),
            decreases prelude@.len() - i,
        {
            let (name, parsed_module) = &prelude[i];
            let ghost t0 = self.symbol_table;
            let loaded = self.symbol_table.load_external_module(name, &parsed_module.definitions);
            proof {
                let ghost t1 = self.symbol_table;
                lemma_grows_trans(old(self).symbol_table, t0, t1);
                assert forall|s: int| 0 <= s < old(self).symbol_table.scopes@.len() implies #[trigger] t1.scopes@[s]
                    == old(self).symbol_table.scopes@[s] by {
                    assert(t0.scopes@[s] == old(self).symbol_table.scopes@[s]);
                }
                if t1.scopes@.len() < u32::MAX {
                    assert forall|k: int| 0 <= k < i implies #[trigger] module_loaded(
                        t1,
                        old(self).symbol_table.current,
                        prelude@[k].0@,
                        prelude@[k].1.definitions@,
                    ) by {
                        assert(t0.scopes@.len() <= t1.scopes@.len());
                        assert(module_loaded(t0, old(self).symbol_table.current, prelude@[k].0@, prelude@[k].1.definitions@));
                        let m = choose|m: u32|
                            is_module_below(t0, m, old(self).symbol_table.current, prelude@[k].0@)
                                && #[trigger] module_defines(t0, m, prelude@[k].1.definitions@);
                        lemma_module_stays(
                            t0,
                            t1,
                            m,
                            old(self).symbol_table.current,
                            prelude@[k].0@,
                            prelude@[k].1.definitions@,
                        );
                    }
                    if loaded is Ok {
                        let m = t0.scopes@.len() as u32;
                        assert(module_defines(t1, m, prelude@[i as int].1.definitions@));
                    }
                }
            }
            if let Err(reason) = loaded {
                proof {
                    if self.symbol_table.scopes@.len() < u32::MAX {
                        assert(!loadable(prelude@[i as int].1.definitions@));
                    }
                    assert(prelude_stops_at(prelude@, i as int, self.symbol_table, old(self).symbol_table.current));
                }
                return Err(crate::failure::error_from_message(reason));
            }
            i = i + 1;
        }
        Ok(())
    }
}

} // verus!
