//! Type Checker Implementation
//!
//! The core type checking logic that infers and validates types throughout
//! the tree. The checker operates in phases:
//!
//! 1. **process_directives** - Register raw imports from use statements
//! 2. **register_types** - Collect type/struct/enum/spec definitions
//! 3. **resolve_imports** - Bind import paths to symbols
//! 4. **collect_function_and_constant_definitions** - Register functions
//! 5. **infer_variables** - Type-check function bodies
//!
//! The checker continues after encountering errors to collect all issues
//! before returning. Errors are deduplicated to avoid repeated reports.
use vstd::prelude::*;

use crate::ast::{Identifier, Location, Type, Visibility};
use crate::errors::{TypeCheckError, VisibilityContext};
use crate::fx::{
    key_set_contains, key_set_contents, key_set_insert, key_set_new, scope_set_contents,
    scope_set_new, KeySet, ScopeIdSet,
};
use crate::symbol_table::{scopes_kept, SymbolTable};
use vstd::set::*;

verus! {

/// The key under which an error is reported at most once: unknown types,
/// undefined functions, undeclared variables, undefined structs and
/// undefined enums, by name. Other errors have none.
pub open spec fn dedup_key(e: TypeCheckError) -> Option<Seq<char>> {
    match e {
        TypeCheckError::UnknownType { name, .. } => Some("UnknownType:"@ + name@),
        TypeCheckError::UndefinedFunction { name, .. } => Some("UndefinedFunction:"@ + name@),
        TypeCheckError::UnknownIdentifier { name, .. } => Some("UnknownIdentifier:"@ + name@),
        TypeCheckError::UndefinedStruct { name, .. } => Some("UndefinedStruct:"@ + name@),
        TypeCheckError::UndefinedEnum { name, .. } => Some("UndefinedEnum:"@ + name@),
        _ => None,
    }
}

/// The keys of the errors in `errors`.
pub open spec fn keys_of(errors: Seq<TypeCheckError>) -> Set<Seq<char>>
    decreases errors.len(),
{
    if errors.len() == 0 {
        Set::empty()
    } else {
        match dedup_key(errors.last()) {
            Some(k) => keys_of(errors.drop_last()).insert(k),
            None => keys_of(errors.drop_last()),
        }
    }
}

/// No two errors of `errors` share a key.
pub open spec fn distinct_keys(errors: Seq<TypeCheckError>) -> bool
    decreases errors.len(),
{
    if errors.len() == 0 {
        true
    } else {
        distinct_keys(errors.drop_last()) && match dedup_key(errors.last()) {
            Some(k) => !keys_of(errors.drop_last()).contains(k),
            None => true,
        }
    }
}

/// What reporting `e` through deduplication does to the reported keys and
/// the errors: an error whose key was reported before is dropped; otherwise
/// the error is recorded and its key, if any, reported.
pub open spec fn dedup_step(keys: Set<Seq<char>>, errors: Seq<TypeCheckError>, e: TypeCheckError) -> (Set<Seq<char>>, Seq<TypeCheckError>) {
    match dedup_key(e) {
        Some(k) => if keys.contains(k) {
            (keys, errors)
        } else {
            (keys.insert(k), errors.push(e))
        },
        None => (keys, errors.push(e)),
    }
}

/// Whether a definition with `visibility`, made in scope `definition`, may
/// be used from scope `access`: public items everywhere, private items in
/// their own scope and the scopes below it.
pub open spec fn visible(table: SymbolTable, visibility: Visibility, definition: u32, access: u32) -> bool {
    visibility == Visibility::Public || table.is_descendant(access, definition)
}

/// `new` begins with `old`.
pub open spec fn extends(new: Seq<TypeCheckError>, old: Seq<TypeCheckError>) -> bool {
    &&& old.len() <= new.len()
    &&& forall|i: int| 0 <= i < old.len() ==> #[trigger] new[i] == old[i]
}

/// The checker's state: the symbol table, the errors found so far, the
/// modules whose glob imports are being resolved, and the keys of the
/// errors reported once.
#[derive(Debug)]
pub struct TypeChecker {
    pub symbol_table: SymbolTable,
    pub errors: Vec<TypeCheckError>,
    pub glob_resolution_in_progress: ScopeIdSet,
    pub reported_error_keys: KeySet,
}

impl TypeChecker {
    /// The symbol table is consistent, the reported keys are exactly the
    /// keys of the errors, and no two errors share a key.
    pub open spec fn wf(&self) -> bool {
        &&& self.symbol_table.wf()
        &&& keys_of(self.errors@).subset_of(key_set_contents(self.reported_error_keys))
        &&& distinct_keys(self.errors@)
    }

    /// What every inference step keeps: consistency, the symbol table, the
    /// glob resolutions in progress, and the errors found before it.
    pub open spec fn keeps_table(&self, old: &TypeChecker) -> bool {
        &&& self.wf()
        &&& self.symbol_table == old.symbol_table
        &&& scope_set_contents(self.glob_resolution_in_progress) == scope_set_contents(
            old.glob_resolution_in_progress,
        )
        &&& extends(self.errors@, old.errors@)
    }

    /// What every pass keeps: consistency, the current scope, every entry of
    /// the symbol table, the glob resolutions in progress, and the errors
    /// found before it.
    pub open spec fn keeps_scope(&self, old: &TypeChecker) -> bool {
        &&& self.wf()
        &&& self.symbol_table.current == old.symbol_table.current
        &&& self.symbol_table.grows_from(&old.symbol_table)
        &&& scopes_kept(self.symbol_table, old.symbol_table)
        &&& scope_set_contents(self.glob_resolution_in_progress) == scope_set_contents(
            old.glob_resolution_in_progress,
        )
        &&& extends(self.errors@, old.errors@)
    }

    /// A checker with an empty symbol table and no errors.
    pub fn new() -> (r: TypeChecker)
        ensures
            r.wf(),
            r.errors@.len() == 0,
            r.symbol_table.scopes@.len() == 1,
            r.symbol_table.current == 0,
            r.symbol_table.entries@.len() == 0,
            scope_set_contents(r.glob_resolution_in_progress) == Set::<u32>::empty(),
    {
        let r = TypeChecker {
            symbol_table: SymbolTable::new(),
            errors: Vec::new(),
            glob_resolution_in_progress: scope_set_new(),
            reported_error_keys: key_set_new(),
        };
        proof {
            assert(keys_of(r.errors@) =~= Set::<Seq<char>>::empty());
        }
        r
    }

    /// Records an error that has no deduplication key.
    pub fn push_error(&mut self, error: TypeCheckError)
        requires
            old(self).wf(),
            dedup_key(error) is None,
        ensures
            final(self).wf(),
            final(self).errors@ == old(self).errors@.push(error),
            final(self).symbol_table == old(self).symbol_table,
            final(self).glob_resolution_in_progress == old(self).glob_resolution_in_progress,
            final(self).reported_error_keys == old(self).reported_error_keys,
    {
        self.errors.push(error);
        proof {
            assert(self.errors@.drop_last() =~= old(self).errors@);
            assert(keys_of(self.errors@) == keys_of(old(self).errors@));
        }
    }

    /// Push an error, deduplicating errors for the same unknown
    /// type/function/identifier/struct/enum. This prevents duplicate errors
    /// when registration fails but inference continues: an error whose key
    /// was reported before is dropped; any other error is recorded.
    pub fn push_error_dedup(&mut self, error: TypeCheckError)
        requires
            old(self).wf(),
        ensures
            final(self).wf(),
            final(self).symbol_table == old(self).symbol_table,
            final(self).glob_resolution_in_progress == old(self).glob_resolution_in_progress,
            match dedup_key(error) {
                Some(k) => if key_set_contents(old(self).reported_error_keys).contains(k) {
                    final(self).errors@ == old(self).errors@
                } else {
                    final(self).errors@ == old(self).errors@.push(error)
                },
                None => final(self).errors@ == old(self).errors@.push(error),
            },
            key_set_contents(final(self).reported_error_keys) == match dedup_key(error) {
                Some(k) => key_set_contents(old(self).reported_error_keys).insert(k),
                None => key_set_contents(old(self).reported_error_keys),
            },
            (key_set_contents(final(self).reported_error_keys), final(self).errors@) == dedup_step(
                key_set_contents(old(self).reported_error_keys),
                old(self).errors@,
                error,
            ),
    {
        let key = error_key(&error);
        match key {
            Some(key) => {
                if key_set_contains(&self.reported_error_keys, &key) {
                    proof {
                        assert(key_set_contents(old(self).reported_error_keys).insert(key@) =~= key_set_contents(old(self).reported_error_keys));
                    }
                    return;
                }
                let ghost kv = key@;
                key_set_insert(&mut self.reported_error_keys, key);
                self.errors.push(error);
                proof {
                    assert(self.errors@.drop_last() =~= old(self).errors@);
                    assert(keys_of(self.errors@) == keys_of(old(self).errors@).insert(kv));
                }
            },
            None => {
                self.push_error(error);
            },
        }
    }

    /// Check visibility of a definition from a scope.
    ///
    /// A private item is visible to the same scope and all descendant scopes.
    /// A public item is visible everywhere.
    pub fn check_visibility(&self, visibility: Visibility, definition_scope: u32, access_scope: u32) -> (r: bool)
        requires
            self.wf(),
        ensures
            r == visible(self.symbol_table, visibility, definition_scope, access_scope),
    {
        match visibility {
            Visibility::Public => true,
            Visibility::Private => self.is_scope_descendant_of(access_scope, definition_scope),
        }
    }

    /// Check visibility from the current scope and report an error if access
    /// is not allowed. Returns true if access is allowed, false if an error
    /// was reported.
    pub fn check_and_report_visibility(
        &mut self,
        visibility: Visibility,
        definition_scope: u32,
        location: &Location,
        context: VisibilityContext,
    ) -> (r: bool)
        requires
            old(self).wf(),
        ensures
            final(self).wf(),
            final(self).symbol_table == old(self).symbol_table,
            final(self).glob_resolution_in_progress == old(self).glob_resolution_in_progress,
            final(self).reported_error_keys == old(self).reported_error_keys,
            r == visible(old(self).symbol_table, visibility, definition_scope, old(self).symbol_table.current),
            r ==> final(self).errors@ == old(self).errors@,
            !r ==> final(self).errors@ == old(self).errors@.push(
                TypeCheckError::PrivateAccessViolation { context, location: *location },
            ),
    {
        let access_scope = self.symbol_table.current_scope_id();
        if self.check_visibility(visibility, definition_scope, access_scope) {
            true
        } else {
            self.push_error(TypeCheckError::PrivateAccessViolation { context, location: *location });
            false
        }
    }

    /// Check if `access_scope` is the same as or a descendant of `target_scope`.
    /// Uses iteration to avoid stack overflow on deep scope trees.
    pub fn is_scope_descendant_of(&self, access_scope: u32, target_scope: u32) -> (r: bool)
        requires
            self.wf(),
        ensures
            r == self.symbol_table.is_descendant(access_scope, target_scope),
    {
        let mut current = access_scope;
        loop
            invariant
                self.wf(),
                self.symbol_table.is_descendant(access_scope, target_scope)
                    == self.symbol_table.is_descendant(current, target_scope),
            decreases current,
        {
            if current == target_scope {
                return true;
            }
            match self.symbol_table.scope_parent(current) {
                Some(parent) => {
                    current = parent;
                },
                None => {
                    return false;
                },
            }
        }
    }
}

/// The deduplication key of an error (see `dedup_key`).
fn error_key(e: &TypeCheckError) -> (r: Option<String>)
    ensures
        match r {
            Some(k) => dedup_key(*e) == Some(k@),
            None => dedup_key(*e) is None,
        },
{
    proof {
        reveal_strlit("UnknownType:");
        reveal_strlit("UndefinedFunction:");
        reveal_strlit("UnknownIdentifier:");
        reveal_strlit("UndefinedStruct:");
        reveal_strlit("UndefinedEnum:");
    }
    let (prefix, name): (&str, &String) = match e {
        TypeCheckError::UnknownType { name, .. } => ("UnknownType:", name),
        TypeCheckError::UndefinedFunction { name, .. } => ("UndefinedFunction:", name),
        TypeCheckError::UnknownIdentifier { name, .. } => ("UnknownIdentifier:", name),
        TypeCheckError::UndefinedStruct { name, .. } => ("UndefinedStruct:", name),
        TypeCheckError::UndefinedEnum { name, .. } => ("UndefinedEnum:", name),
        _ => {
            return None;
        },
    };
    let mut k = String::from_str(prefix);
    k.append(name.as_str());
    Some(k)
}


/// The names of a list of identifiers.
pub open spec fn identifier_names(ids: Seq<Identifier>) -> Seq<Seq<char>> {
    ids.map_values(|i: Identifier| i.name@)
}

/// Structural equality of type expressions: same primitive, same element
/// type, same generic base and parameter names, same qualified or custom
/// names, and for function types the same presence and equality of return
/// type and parameter list.
pub open spec fn types_equal_spec(left: Type, right: Type) -> bool
    decreases left,
{
    match (left, right) {
        (Type::Simple(_, l), Type::Simple(_, r)) => l == r,
        (Type::Array(l), Type::Array(r)) => types_equal_spec(l.element_type, r.element_type),
        (Type::Generic(l), Type::Generic(r)) => l.base.name@ == r.base.name@ && identifier_names(
            l.parameters@,
        ) == identifier_names(r.parameters@),
        (Type::Qualified(l), Type::Qualified(r)) => l.name.name@ == r.name.name@,
        (Type::QualifiedName(l), Type::QualifiedName(r)) => l.qualifier.name@
            == r.qualifier.name@ && l.name.name@ == r.name.name@,
        (Type::Custom(l), Type::Custom(r)) => l.name@ == r.name@,
        (Type::Function(l), Type::Function(r)) => {
            &&& l.returns is Some == r.returns is Some
            &&& (l.returns matches Some(lr) ==> r.returns matches Some(rr) && types_equal_spec(
                *lr,
                *rr,
            ))
            &&& l.parameters is Some == r.parameters is Some
            &&& (l.parameters matches Some(lp) ==> r.parameters matches Some(rp) && lp@.len()
                == rp@.len() && forall|i: int|
                0 <= i < lp@.len() ==> types_equal_spec(#[trigger] lp@[i], rp@[i]))
        },
        _ => false,
    }
}

fn identifier_names_equal(a: &Vec<Identifier>, b: &Vec<Identifier>) -> (r: bool)
    ensures
        r == (identifier_names(a@) == identifier_names(b@)),
{
    if a.len() != b.len() {
        proof {
            assert(identifier_names(a@).len() != identifier_names(b@).len());
        }
        return false;
    }
    let mut i: usize = 0;
    while i < a.len()
        invariant
            i <= a.len(),
            a.len() == b.len(),
            forall|j: int| 0 <= j < i ==> a@[j].name@ == b@[j].name@,
        decreases a.len() - i,
    {
        if a[i].name != b[i].name {
            proof {
                assert(identifier_names(a@)[i as int] != identifier_names(b@)[i as int]);
            }
            return false;
        }
        i = i + 1;
    }
    proof {
        assert(identifier_names(a@) =~= identifier_names(b@));
    }
    true
}

impl TypeChecker {
    /// Whether two type expressions are structurally equal (see `types_equal_spec`).
    #[verifier::loop_isolation(false)]
    pub fn types_equal(left: &Type, right: &Type) -> (r: bool)
        ensures
            r == types_equal_spec(*left, *right),
        decreases left,
    {
        match (left, right) {
            (Type::Simple(_, l), Type::Simple(_, r)) => *l == *r,
            (Type::Array(l), Type::Array(r)) => Self::types_equal(&l.element_type, &r.element_type),
            (Type::Generic(l), Type::Generic(r)) => l.base.name == r.base.name
                && identifier_names_equal(&l.parameters, &r.parameters),
            (Type::Qualified(l), Type::Qualified(r)) => l.name.name == r.name.name,
            (Type::QualifiedName(l), Type::QualifiedName(r)) => l.qualifier.name
                == r.qualifier.name && l.name.name == r.name.name,
            (Type::Custom(l), Type::Custom(r)) => l.name == r.name,
            (Type::Function(l), Type::Function(r)) => {
                let left_has_return_type = l.returns.is_some();
                let right_has_return_type = r.returns.is_some();
                if left_has_return_type != right_has_return_type {
                    return false;
                }
                if let (Some(lr), Some(rr)) = (&l.returns, &r.returns) {
                    if !Self::types_equal(lr, rr) {
                        return false;
                    }
                }
                let left_has_parameters = l.parameters.is_some();
                let right_has_parameters = r.parameters.is_some();
                if left_has_parameters != right_has_parameters {
                    return false;
                }
                if let (Some(lp), Some(rp)) = (&l.parameters, &r.parameters) {
                    if lp.len() != rp.len() {
                        return false;
                    }
                    let mut i: usize = 0;
                    while i < lp.len()
                        invariant
                            i <= lp@.len(),
                            lp@.len() == rp@.len(),
                            forall|j: int| 0 <= j < i ==> types_equal_spec(#[trigger] lp@[j], rp@[j]),
                        decreases lp@.len() - i,
                    {
                        proof {
                            let ghost e = lp@[i as int];
                            assert(decreases_to!(*left => *l));
                            assert(decreases_to!(*l => l.parameters));
                            assert(decreases_to!(l.parameters => *lp));
                            assert(decreases_to!(*lp => lp@));
                            assert(decreases_to!(lp@ => e));
                        }
                        if !Self::types_equal(&lp[i], &rp[i]) {
                            proof {
                                assert(!types_equal_spec(lp@[i as int], rp@[i as int]));
                            }
                            return false;
                        }
                        i = i + 1;
                    }
                }
                true
            },
            _ => false,
        }
    }
}


/// The key of an unknown-type error for `name`.
pub open spec fn unknown_type_key(name: Seq<char>) -> Seq<char> {
    "UnknownType:"@ + name
}

/// Whether `name` is a type parameter in scope or a known type.
pub open spec fn names_type(table: SymbolTable, name: Seq<char>, params: Seq<Seq<char>>) -> bool {
    params.contains(name) || table.type_named(name) is Some
}

/// The keys of the unknown-type errors that validating `ty` reports: a
/// custom name that is neither a type parameter nor a known type, the base
/// of a generic type that is not a known type, and generic arguments that
/// are neither; array types are validated through their element type, and
/// primitive, function and qualified types need no lookup.
pub open spec fn unknown_type_keys(table: SymbolTable, ty: Type, params: Seq<Seq<char>>) -> Set<Seq<char>>
    decreases ty,
{
    match ty {
        Type::Array(a) => unknown_type_keys(table, a.element_type, params),
        Type::Generic(g) => {
            let base = if table.type_named(g.base.name@) is Some {
                Set::empty()
            } else {
                set![unknown_type_key(g.base.name@)]
            };
            base.union(Set::new(|k: Seq<char>| exists|i: int| 0 <= i < g.parameters@.len()
                && !names_type(table, #[trigger] g.parameters@[i].name@, params) && k
                == unknown_type_key(g.parameters@[i].name@)))
        },
        Type::Custom(i) => if names_type(table, i.name@, params) {
            Set::empty()
        } else {
            set![unknown_type_key(i.name@)]
        },
        _ => Set::empty(),
    }
}

/// The keys reported and the errors after validating `ty` from the keys
/// and errors `s`: each unknown name met (the base of a generic type first,
/// then its arguments in order, an array through its element type) is
/// reported as an `UnknownType` error, once per name.
pub open spec fn validated(
    table: SymbolTable,
    ty: Type,
    params: Seq<Seq<char>>,
    s: (Set<Seq<char>>, Seq<TypeCheckError>),
) -> (Set<Seq<char>>, Seq<TypeCheckError>)
    decreases ty,
{
    match ty {
        Type::Array(a) => validated(table, a.element_type, params, s),
        Type::Generic(g) => {
            let sb = if table.type_named(g.base.name@) is Some {
                s
            } else {
                dedup_step(s.0, s.1, TypeCheckError::UnknownType { name: g.base.name, location: g.base.location })
            };
            arguments_validated(table, g.parameters@, params, g.parameters@.len() as int, sb)
        },
        Type::Custom(i) => if names_type(table, i.name@, params) {
            s
        } else {
            dedup_step(s.0, s.1, TypeCheckError::UnknownType { name: i.name, location: i.location })
        },
        _ => s,
    }
}

/// The keys and errors after validating the first `n` generic arguments
/// `args` from `s`.
pub open spec fn arguments_validated(
    table: SymbolTable,
    args: Seq<Identifier>,
    params: Seq<Seq<char>>,
    n: int,
    s: (Set<Seq<char>>, Seq<TypeCheckError>),
) -> (Set<Seq<char>>, Seq<TypeCheckError>)
    decreases n,
{
    if n <= 0 {
        s
    } else {
        let before = arguments_validated(table, args, params, n - 1, s);
        if names_type(table, args[n - 1].name@, params) {
            before
        } else {
            dedup_step(
                before.0,
                before.1,
                TypeCheckError::UnknownType { name: args[n - 1].name, location: args[n - 1].location },
            )
        }
    }
}

/// Every error from position `from` on reports an unknown type.
pub open spec fn only_unknown_types_from(errors: Seq<TypeCheckError>, from: int) -> bool {
    forall|i: int| from <= i < errors.len() ==> #[trigger] errors[i] is UnknownType
}

impl TypeChecker {
    /// Validates that a type reference is well-formed.
    ///
    /// Checks that:
    /// - Custom types exist in the symbol table
    /// - Generic type parameters are declared or known types
    /// - Array element types are valid
    ///
    /// Primitive builtin types are always valid and require no symbol table
    /// lookup. Unknown names are reported once each (see `unknown_type_keys`).
    pub fn validate_type(&mut self, ty: &Type, type_parameters: Option<&Vec<Identifier>>)
        requires
            old(self).wf(),
        ensures
            final(self).keeps_table(old(self)),
            only_unknown_types_from(final(self).errors@, old(self).errors@.len() as int),
            key_set_contents(final(self).reported_error_keys) == key_set_contents(old(self).reported_error_keys).union(
                unknown_type_keys(
                    old(self).symbol_table,
                    *ty,
                    match type_parameters {
                        Some(p) => identifier_names(p@),
                        None => Seq::empty(),
                    },
                ),
            ),
            (key_set_contents(final(self).reported_error_keys), final(self).errors@) == validated(
                old(self).symbol_table,
                *ty,
                match type_parameters {
                    Some(p) => identifier_names(p@),
                    None => Seq::empty(),
                },
                (key_set_contents(old(self).reported_error_keys), old(self).errors@),
            ),
        decreases ty,
    {
        let mut type_param_names: Vec<String> = Vec::new();
        if let Some(params) = type_parameters {
            let mut i: usize = 0;
            while i < params.len()
                invariant
                    i <= params@.len(),
                    type_param_names@.len() == i,
                    forall|k: int| 0 <= k < i ==> #[trigger] type_param_names@[k]@ == params@[k].name@,
                decreases params@.len() - i,
            {
                type_param_names.push(params[i].name.clone());
                i = i + 1;
            }
            proof {
                assert(crate::text::views(type_param_names@) =~= identifier_names(params@));
            }
        } else {
            proof {
                assert(crate::text::views(type_param_names@) =~= Seq::<Seq<char>>::empty());
            }
        }
        let ghost params_view = match type_parameters {
            Some(p) => identifier_names(p@),
            None => Seq::empty(),
        };
        match ty {
            Type::Array(type_array) => {
                self.validate_type(&type_array.element_type, type_parameters);
            },
            Type::Simple(_, _) => {
                proof {
                    assert(key_set_contents(self.reported_error_keys).union(Set::empty()) =~= key_set_contents(self.reported_error_keys));
                }
            },
            Type::Generic(generic_type) => {
                let ghost k0 = key_set_contents(self.reported_error_keys);
                let ghost base_keys = if self.symbol_table.type_named(generic_type.base.name@) is Some {
                    Set::<Seq<char>>::empty()
                } else {
                    set![unknown_type_key(generic_type.base.name@)]
                };
                if self.symbol_table.lookup_type(&generic_type.base.name).is_none() {
                    self.push_error_dedup(
                        TypeCheckError::UnknownType {
                            name: generic_type.base.name.clone(),
                            location: generic_type.base.location,
                        },
                    );
                }
                proof {
                    assert(key_set_contents(self.reported_error_keys) =~= k0.union(base_keys));
                }
                let ghost sb = (key_set_contents(self.reported_error_keys), self.errors@);
                let ghost table = self.symbol_table;
                let mut i: usize = 0;
                while i < generic_type.parameters.len()
                    invariant
                        self.wf(),
                        self.symbol_table == table,
                        scope_set_contents(self.glob_resolution_in_progress) == scope_set_contents(old(self).glob_resolution_in_progress),
                        extends(self.errors@, old(self).errors@),
                        only_unknown_types_from(self.errors@, old(self).errors@.len() as int),
                        i <= generic_type.parameters@.len(),
                        crate::text::views(type_param_names@) == params_view,
                        (key_set_contents(self.reported_error_keys), self.errors@) == arguments_validated(
                            table,
                            generic_type.parameters@,
                            params_view,
                            i as int,
                            sb,
                        ),
                        key_set_contents(self.reported_error_keys) == k0.union(base_keys).union(
                            Set::new(|k: Seq<char>| exists|j: int| 0 <= j < i
                                && !names_type(table, #[trigger] generic_type.parameters@[j].name@, params_view) && k
                                == unknown_type_key(generic_type.parameters@[j].name@)),
                        ),
                    decreases generic_type.parameters@.len() - i,
                {
                    let param = &generic_type.parameters[i];
                    let ghost before = key_set_contents(self.reported_error_keys);
                    let declared = crate::text::contains_string(&type_param_names, &param.name);
                    let known = declared || self.symbol_table.lookup_type(&param.name).is_some();
                    if !known {
                        self.push_error_dedup(
                            TypeCheckError::UnknownType { name: param.name.clone(), location: param.location },
                        );
                    }
                    proof {
                        let s_old = Set::new(|k: Seq<char>| exists|j: int| 0 <= j < i
                            && !names_type(table, #[trigger] generic_type.parameters@[j].name@, params_view) && k
                            == unknown_type_key(generic_type.parameters@[j].name@));
                        let s_new = Set::new(|k: Seq<char>| exists|j: int| 0 <= j < i + 1
                            && !names_type(table, #[trigger] generic_type.parameters@[j].name@, params_view) && k
                            == unknown_type_key(generic_type.parameters@[j].name@));
                        if known {
                            assert(s_new =~= s_old);
                        } else {
                            assert(s_new =~= s_old.insert(unknown_type_key(param.name@)));
                        }
                        assert(key_set_contents(self.reported_error_keys) =~= k0.union(base_keys).union(s_new));
                    }
                    i = i + 1;
                }
            },
            Type::Function(_) | Type::QualifiedName(_) | Type::Qualified(_) => {
                proof {
                    assert(key_set_contents(self.reported_error_keys).union(Set::empty()) =~= key_set_contents(self.reported_error_keys));
                }
            },
            Type::Custom(identifier) => {
                if crate::text::contains_string(&type_param_names, &identifier.name) {
                    proof {
                        assert(key_set_contents(self.reported_error_keys).union(Set::empty()) =~= key_set_contents(self.reported_error_keys));
                    }
                    return;
                }
                if self.symbol_table.lookup_type(&identifier.name).is_none() {
                    self.push_error_dedup(
                        TypeCheckError::UnknownType { name: identifier.name.clone(), location: identifier.location },
                    );
                    proof {
                        assert(key_set_contents(self.reported_error_keys) =~= key_set_contents(old(self).reported_error_keys).union(set![unknown_type_key(identifier.name@)]));
                    }
                } else {
                    proof {
                        assert(key_set_contents(self.reported_error_keys).union(Set::empty()) =~= key_set_contents(self.reported_error_keys));
                    }
                }
            },
        }
    }
}

/// What every step keeps, a sequence of steps keeps.
pub proof fn lemma_keeps_scope_trans(a: TypeChecker, b: TypeChecker, c: TypeChecker)
    requires
        b.keeps_scope(&a),
        c.keeps_scope(&b),
    ensures
        c.keeps_scope(&a),
{
    crate::symbol_table::lemma_grows_trans(a.symbol_table, b.symbol_table, c.symbol_table);
    assert forall|s: int| 0 <= s < a.symbol_table.scopes@.len() implies #[trigger] c.symbol_table.scopes@[s]
        == a.symbol_table.scopes@[s] by {
        assert(b.symbol_table.scopes@[s] == a.symbol_table.scopes@[s]);
    }
    assert forall|i: int| 0 <= i < a.errors@.len() implies #[trigger] c.errors@[i] == a.errors@[i] by {
        assert(b.errors@[i] == a.errors@[i]);
    }
}

} // verus!
