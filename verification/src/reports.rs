//! What inferring an expression reports: the errors it adds, in order, and
//! the keys under which repeated reports are suppressed.
use vstd::prelude::*;

use crate::ast::{
    ArrayIndexAccessExpression, ArrayLiteral, BinaryExpression, Expression, FunctionCallExpression, Literal,
    Location, MemberAccessExpression, OperatorKind, PrefixUnaryExpression, Type, TypeMemberAccessExpression,
    UnaryOperatorKind,
};
use crate::errors::{RegistrationKind, TypeCheckError, TypeMismatchContext, VisibilityContext};
use crate::fx::key_set_contents;
use crate::inference::{
    associated_owner_spec, element_of, inferred, is_enum_named, is_prefix_unary_spec, kept_outside,
    kept_outside_arguments, kept_outside_list, operand, receiver_struct, recorded, unary_accepts, bindings,
    param_models,
};
use crate::symbol_table::{FuncInfo, MethodInfo, Namespace, Symbol, SymbolTable};
use crate::type_checker::{dedup_step, visible, TypeChecker};
use crate::type_info::{type_of, KindModel, TypeModel};
use crate::typed_context::NodeTypes;

verus! {

/// An error that inference reports, with the types in it given by their
/// models and the names by their characters.
pub enum Report {
    /// Exactly this error.
    Exact(TypeCheckError),
    /// An array index of a type other than a number.
    IndexNotNumeric(TypeModel, Location),
    /// Indexing into a value of a type other than an array.
    NotArray(TypeModel, Location),
    /// Member access on a value of a type other than a struct.
    NotStruct(TypeModel, Location),
    /// `Owner::Variant` where the owner is no enum.
    NotEnum(TypeModel, Location),
    /// A field the struct does not have.
    FieldMissing(Seq<char>, Seq<char>, Location),
    /// A private field used where it is not visible.
    PrivateField(Seq<char>, Seq<char>, Location),
    /// A variant the enum does not have.
    VariantMissing(Seq<char>, Seq<char>, Location),
    /// A private enum used where it is not visible.
    PrivateEnum(Seq<char>, Location),
    /// A name that denotes no enum (reported once per name).
    UnknownEnum(Seq<char>, Location),
    /// A unary operator applied to an operand it does not accept.
    BadUnaryOperand(UnaryOperatorKind, TypeModel, Location),
    /// A binary operator applied to operands of different types.
    OperandMismatch(OperatorKind, TypeModel, TypeModel, Location),
    /// A logical operator on operands other than booleans, or an arithmetic
    /// or bitwise operator on operands other than numbers.
    BadBinaryOperands(OperatorKind, TypeModel, TypeModel, Location),
    /// An array element of another type than the first element's.
    ElementMismatch(TypeModel, TypeModel, Location),
    /// A method called on a value of a type other than a struct.
    MethodOnNonStruct(TypeModel, Location),
    /// A method the type does not have.
    MethodMissing(Seq<char>, Seq<char>, Location),
    /// A private method used where it is not visible.
    PrivateMethod(Seq<char>, Seq<char>, Location),
    /// A private function used where it is not visible.
    PrivateFunction(Seq<char>, Location),
    /// A method with `self` called as `Type::method`.
    InstanceAsAssociated(Seq<char>, Seq<char>, Location),
    /// A method without `self` called on a value.
    AssociatedAsMethod(Seq<char>, Seq<char>, Location),
    /// A call with another number of arguments than the callee has
    /// parameters: what the callee is, its name, the parameters, the
    /// arguments.
    ArgumentCount(Seq<char>, Seq<char>, usize, usize, Location),
    /// Explicit type arguments of another number than the function has type
    /// parameters.
    TypeArgumentCount(Seq<char>, usize, usize, Location),
    /// A generic function called with no type arguments given or inferred.
    MissingTypeArguments(Seq<char>, usize, Location),
    /// A type parameter of a function that no argument gave a type.
    CannotInfer(Seq<char>, Seq<char>, Location),
    /// Two arguments that gave a type parameter different types.
    ConflictingInference(Seq<char>, TypeModel, TypeModel, Location),
    /// A name that denotes no function (reported once per name).
    UnknownFunction(Seq<char>, Location),
    /// A value of another type than expected, in the given context.
    Mismatch(TypeModel, TypeModel, TypeMismatchContext, Location),
    /// A registration refused because the name is defined in the scope
    /// already: what was registered, the word for it, the name.
    Refused(RegistrationKind, Seq<char>, Seq<char>, Location),
}

/// What a unary operator's report says it accepts.
pub open spec fn unary_expected_text(op: UnaryOperatorKind) -> Seq<char> {
    match op {
        UnaryOperatorKind::Not => "booleans"@,
        UnaryOperatorKind::Neg => "signed integers (i8, i16, i32, i64)"@,
        UnaryOperatorKind::BitNot => "integers (i8, i16, i32, i64, u8, u16, u32, u64)"@,
    }
}

/// Whether a binary operator is `&&` or `||`.
pub open spec fn is_logical(op: OperatorKind) -> bool {
    op == OperatorKind::And || op == OperatorKind::Or
}

/// Whether a binary operator is a comparison.
pub open spec fn is_comparison(op: OperatorKind) -> bool {
    op == OperatorKind::Eq || op == OperatorKind::Ne || op == OperatorKind::Lt || op == OperatorKind::Le
        || op == OperatorKind::Gt || op == OperatorKind::Ge
}

/// Whether `e` is the error that `r` describes.
pub open spec fn is_report(e: TypeCheckError, r: Report) -> bool {
    match r {
        Report::Exact(x) => e == x,
        Report::IndexNotNumeric(m, l) => e matches TypeCheckError::ArrayIndexNotNumeric { found, location }
            && found@ == m && location == l,
        Report::NotArray(m, l) => e matches TypeCheckError::ExpectedArrayType { found, location } && found@ == m
            && location == l,
        Report::NotStruct(m, l) => e matches TypeCheckError::ExpectedStructType { found, location } && found@ == m
            && location == l,
        Report::NotEnum(m, l) => e matches TypeCheckError::ExpectedEnumType { found, location } && found@ == m
            && location == l,
        Report::FieldMissing(s, f, l) => e matches TypeCheckError::FieldNotFound {
            struct_name,
            field_name,
            location,
        } && struct_name@ == s && field_name@ == f && location == l,
        Report::PrivateField(s, f, l) => e matches TypeCheckError::PrivateAccessViolation { context, location }
            && context matches VisibilityContext::Field { struct_name, field_name } && struct_name@ == s
            && field_name@ == f && location == l,
        Report::VariantMissing(n, v, l) => e matches TypeCheckError::VariantNotFound {
            enum_name,
            variant_name,
            location,
        } && enum_name@ == n && variant_name@ == v && location == l,
        Report::PrivateEnum(n, l) => e matches TypeCheckError::PrivateAccessViolation { context, location }
            && context matches VisibilityContext::Enum { name } && name@ == n && location == l,
        Report::UnknownEnum(n, l) => e matches TypeCheckError::UndefinedEnum { name, location } && name@ == n
            && location == l,
        Report::BadUnaryOperand(op, m, l) => e matches TypeCheckError::InvalidUnaryOperand {
            operator,
            expected_type,
            found_type,
            location,
        } && operator == op && expected_type@ == unary_expected_text(op) && found_type@ == m && location == l,
        Report::OperandMismatch(op, a, b, l) => e matches TypeCheckError::BinaryOperandTypeMismatch {
            operator,
            left,
            right,
            location,
        } && operator == op && left@ == a && right@ == b && location == l,
        Report::BadBinaryOperands(op, a, b, l) => e matches TypeCheckError::InvalidBinaryOperand {
            operator,
            expected_kind,
            operand_desc,
            found_types,
            location,
        } && operator == op && expected_kind@ == (if is_logical(op) {
            "logical"@
        } else {
            "arithmetic"@
        }) && operand_desc@ == (if is_logical(op) {
            "non-boolean types"@
        } else {
            "non-number types"@
        }) && found_types.0@ == a && found_types.1@ == b && location == l,
        Report::ElementMismatch(x, y, l) => e matches TypeCheckError::ArrayElementTypeMismatch {
            expected,
            found,
            location,
        } && expected@ == x && found@ == y && location == l,
        Report::MethodOnNonStruct(m, l) => e matches TypeCheckError::MethodCallOnNonStruct { found, location }
            && found@ == m && location == l,
        Report::MethodMissing(o, m, l) => e matches TypeCheckError::MethodNotFound {
            owner_type,
            method_name,
            location,
        } && owner_type@ == o && method_name@ == m && location == l,
        Report::PrivateMethod(o, m, l) => e matches TypeCheckError::PrivateAccessViolation { context, location }
            && context matches VisibilityContext::Method { owner_type, method_name } && owner_type@ == o
            && method_name@ == m && location == l,
        Report::PrivateFunction(n, l) => e matches TypeCheckError::PrivateAccessViolation { context, location }
            && context matches VisibilityContext::Function { name } && name@ == n && location == l,
        Report::InstanceAsAssociated(o, m, l) => e matches TypeCheckError::InstanceMethodCalledAsAssociated {
            owner_type,
            method_name,
            location,
        } && owner_type@ == o && method_name@ == m && location == l,
        Report::AssociatedAsMethod(o, m, l) => e matches TypeCheckError::AssociatedFunctionCalledAsMethod {
            owner_type,
            method_name,
            location,
        } && owner_type@ == o && method_name@ == m && location == l,
        Report::ArgumentCount(k, n, x, y, l) => e matches TypeCheckError::ArgumentCountMismatch {
            kind,
            name,
            expected,
            found,
            location,
        } && kind@ == k && name@ == n && expected == x && found == y && location == l,
        Report::TypeArgumentCount(n, x, y, l) => e matches TypeCheckError::TypeParameterCountMismatch {
            name,
            expected,
            found,
            location,
        } && name@ == n && expected == x && found == y && location == l,
        Report::MissingTypeArguments(n, x, l) => e matches TypeCheckError::MissingTypeParameters {
            function_name,
            expected,
            location,
        } && function_name@ == n && expected == x && location == l,
        Report::CannotInfer(n, p, l) => e matches TypeCheckError::CannotInferTypeParameter {
            function_name,
            param_name,
            location,
        } && function_name@ == n && param_name@ == p && location == l,
        Report::ConflictingInference(p, x, y, l) => e matches TypeCheckError::ConflictingTypeInference {
            param_name,
            first,
            second,
            location,
        } && param_name@ == p && first@ == x && second@ == y && location == l,
        Report::UnknownFunction(n, l) => e matches TypeCheckError::UndefinedFunction { name, location } && name@ == n
            && location == l,
        Report::Mismatch(x, y, c, l) => e matches TypeCheckError::TypeMismatch { expected, found, context, location }
            && expected@ == x && found@ == y && context == c && location == l,
        Report::Refused(k, w, n, l) => e matches TypeCheckError::RegistrationFailed { kind, name, reason, location }
            && kind == k && name@ == n && location == l && (reason matches Some(m) && m@
            == crate::symbol_table::already_defined_text(w, n)),
    }
}

/// The key under which a report is made only once: an unknown enum's or
/// function's.
pub open spec fn report_key(r: Report) -> Option<Seq<char>> {
    match r {
        Report::UnknownEnum(n, _) => Some("UndefinedEnum:"@ + n),
        Report::UnknownFunction(n, _) => Some("UndefinedFunction:"@ + n),
        _ => None,
    }
}

/// The keys reported and the errors found (see `TypeChecker`).
pub open spec fn report_state(c: TypeChecker) -> (Set<Seq<char>>, Seq<TypeCheckError>) {
    (key_set_contents(c.reported_error_keys), c.errors@)
}

/// A state of the reports at some point of inference (the identity: it
/// names such a state in the statements below).
pub open spec fn stage(s: (Set<Seq<char>>, Seq<TypeCheckError>)) -> (Set<Seq<char>>, Seq<TypeCheckError>) {
    s
}

/// `s1` is `s0` with the reports `rs` made, in order, none of them keyed.
pub open spec fn pushes(
    s0: (Set<Seq<char>>, Seq<TypeCheckError>),
    rs: Seq<Report>,
    s1: (Set<Seq<char>>, Seq<TypeCheckError>),
) -> bool {
    &&& s1.0 == s0.0
    &&& s1.1.len() == s0.1.len() + rs.len()
    &&& s1.1.subrange(0, s0.1.len() as int) == s0.1
    &&& forall|k: int| 0 <= k < rs.len() ==> #[trigger] is_report(s1.1[s0.1.len() + k], rs[k])
}

/// `s1` is `s0` with the report `r` made: a keyed report only when its key
/// was not reported before.
pub open spec fn after_report(
    s0: (Set<Seq<char>>, Seq<TypeCheckError>),
    r: Report,
    s1: (Set<Seq<char>>, Seq<TypeCheckError>),
) -> bool {
    match report_key(r) {
        Some(k) => if s0.0.contains(k) {
            s1 == s0
        } else {
            &&& s1.0 == s0.0.insert(k)
            &&& s1.1.len() == s0.1.len() + 1
            &&& s1.1.drop_last() == s0.1
            &&& is_report(s1.1.last(), r)
        },
        None => pushes(s0, seq![r], s1),
    }
}

/// Nothing reported.
pub proof fn lemma_pushes_none(s: (Set<Seq<char>>, Seq<TypeCheckError>))
    ensures
        pushes(s, Seq::empty(), s),
{
    assert(s.1.subrange(0, s.1.len() as int) =~= s.1);
}

/// One report more.
pub proof fn lemma_pushes_more(
    s0: (Set<Seq<char>>, Seq<TypeCheckError>),
    rs: Seq<Report>,
    s1: (Set<Seq<char>>, Seq<TypeCheckError>),
    e: TypeCheckError,
    r: Report,
)
    requires
        pushes(s0, rs, s1),
        is_report(e, r),
    ensures
        pushes(s0, rs.push(r), (s1.0, s1.1.push(e))),
{
    let s2 = (s1.0, s1.1.push(e));
    assert(s2.1.subrange(0, s0.1.len() as int) =~= s1.1.subrange(0, s0.1.len() as int));
    assert forall|k: int| 0 <= k < rs.len() + 1 implies #[trigger] is_report(s2.1[s0.1.len() + k], rs.push(r)[k]) by {
        if k < rs.len() {
            assert(s2.1[s0.1.len() + k] == s1.1[s0.1.len() + k]);
        }
    }
}


/// The reports for `array[index]` once the array's type `at` and the
/// index's type `io` are known: an index of a type other than a number,
/// then an array of a type other than an array.
pub open spec fn index_reports(io: Option<TypeModel>, at: TypeModel, l: Location) -> Seq<Report> {
    (match io {
        Some(x) => if x.kind is Number {
            Seq::empty()
        } else {
            seq![Report::IndexNotNumeric(x, l)]
        },
        None => Seq::empty(),
    }) + (if element_of(at) is None {
        seq![Report::NotArray(at, l)]
    } else {
        Seq::empty()
    })
}

/// The reports for a binary operation on operands of types `l` and `r`:
/// operands of different types; then, for `&&` and `||`, operands other
/// than booleans; for the arithmetic and bitwise operators, operands other
/// than numbers. A mismatch is reported once.
pub open spec fn binary_reports(op: OperatorKind, l: TypeModel, r: TypeModel, at: Location) -> Seq<Report> {
    let mismatch = if l == r {
        Seq::<Report>::empty()
    } else {
        seq![Report::OperandMismatch(op, l, r, at)]
    };
    if is_logical(op) {
        mismatch + if l.kind is Bool && r.kind is Bool {
            Seq::<Report>::empty()
        } else {
            seq![Report::BadBinaryOperands(op, l, r, at)]
        }
    } else if is_comparison(op) {
        mismatch
    } else {
        mismatch + (if l.kind is Number && r.kind is Number {
            Seq::<Report>::empty()
        } else {
            seq![Report::BadBinaryOperands(op, l, r, at)]
        })
    }
}

/// What `s0` becomes when the field `field` of the struct that `n` names is
/// used at `at`: a field the struct does not have (or no struct) is
/// reported, and so is the first field of that name where it is private and
/// not visible from the current scope.
pub open spec fn field_reported(
    t: SymbolTable,
    n: Seq<char>,
    field: Seq<char>,
    at: Location,
    s0: (Set<Seq<char>>, Seq<TypeCheckError>),
    s1: (Set<Seq<char>>, Seq<TypeCheckError>),
) -> bool {
    match t.lookup(n, Namespace::Types) {
        Some(j) => match t.entries@[j].symbol {
            Symbol::Struct(info) => if exists|k: int|
                0 <= k < info.fields@.len() && #[trigger] info.fields@[k].name@ == field {
                exists|k: int|
                    0 <= k < info.fields@.len() && #[trigger] info.fields@[k].name@ == field && (forall|i: int|
                        0 <= i < k ==> info.fields@[i].name@ != field) && if visible(
                        t,
                        info.fields@[k].visibility,
                        info.definition_scope_id,
                        t.current,
                    ) {
                        s1 == s0
                    } else {
                        pushes(s0, seq![Report::PrivateField(n, field, at)], s1)
                    }
            } else {
                pushes(s0, seq![Report::FieldMissing(n, field, at)], s1)
            },
            _ => pushes(s0, seq![Report::FieldMissing(n, field, at)], s1),
        },
        None => pushes(s0, seq![Report::FieldMissing(n, field, at)], s1),
    }
}

/// What `s0` becomes when the variant `variant` of the enum that `n` names
/// is used at `at`: a name that denotes no enum is reported once, a variant
/// the enum does not have is reported, and so is a private enum that is not
/// visible from the current scope.
pub open spec fn enum_reported(
    t: SymbolTable,
    n: Seq<char>,
    variant: Seq<char>,
    at: Location,
    s0: (Set<Seq<char>>, Seq<TypeCheckError>),
    s1: (Set<Seq<char>>, Seq<TypeCheckError>),
) -> bool {
    match t.lookup(n, Namespace::Types) {
        Some(j) => match t.entries@[j].symbol {
            Symbol::Enum(info) => if crate::text::views(info.variants@).contains(variant) {
                if visible(t, info.visibility, info.definition_scope_id, t.current) {
                    s1 == s0
                } else {
                    pushes(s0, seq![Report::PrivateEnum(n, at)], s1)
                }
            } else {
                pushes(s0, seq![Report::VariantMissing(n, variant, at)], s1)
            },
            _ => after_report(s0, Report::UnknownEnum(n, at), s1),
        },
        None => after_report(s0, Report::UnknownEnum(n, at), s1),
    }
}

/// What inferring `array[index]` reports: nothing when its type was
/// recorded; else what the array reports and, when it has a type, what the
/// index reports, then `index_reports`.
pub open spec fn index_access_reported(
    t: SymbolTable,
    before: NodeTypes,
    a: ArrayIndexAccessExpression,
    s0: (Set<Seq<char>>, Seq<TypeCheckError>),
    s1: (Set<Seq<char>>, Seq<TypeCheckError>),
) -> bool
    decreases a, 0nat,
{
    match before.type_of_node(a.id) {
        Some(_) => s1 == s0,
        None => exists|ao: Option<TypeModel>, sa: (Set<Seq<char>>, Seq<TypeCheckError>)|
            #![trigger operand(ao), stage(sa)]
            inferred(t, before, a.array, operand(ao)) && reported(t, before, a.array, s0, stage(sa)) && match ao {
                None => s1 == sa,
                Some(at) => exists|
                    io: Option<TypeModel>,
                    mid: NodeTypes,
                    si: (Set<Seq<char>>, Seq<TypeCheckError>),
                |
                    #![trigger operand(io), recorded(mid), stage(si)]
                    kept_outside(recorded(mid), before, a.array) && inferred(t, recorded(mid), a.index, operand(io))
                        && reported(t, mid, a.index, sa, stage(si))
                        && pushes(si, index_reports(io, at, a.location), s1),
            },
    }
}

/// What inferring `expression.name` reports: nothing when its type was
/// recorded; else what the receiver reports and, when it has a type, a
/// receiver that is no struct, or what `field_reported` says.
pub open spec fn member_access_reported(
    t: SymbolTable,
    before: NodeTypes,
    m: MemberAccessExpression,
    s0: (Set<Seq<char>>, Seq<TypeCheckError>),
    s1: (Set<Seq<char>>, Seq<TypeCheckError>),
) -> bool
    decreases m, 0nat,
{
    match before.type_of_node(m.id) {
        Some(_) => s1 == s0,
        None => exists|ro: Option<TypeModel>, sr: (Set<Seq<char>>, Seq<TypeCheckError>)|
            #![trigger operand(ro), stage(sr)]
            inferred(t, before, m.expression, operand(ro)) && reported(t, before, m.expression, s0, stage(sr))
                && match ro {
                None => s1 == sr,
                Some(o) => match receiver_struct(t, o) {
                    None => pushes(sr, seq![Report::NotStruct(o, m.location)], s1),
                    Some(n) => field_reported(t, n, m.name.name@, m.location, sr, s1),
                },
            },
    }
}

/// What inferring `Owner::Variant` reports: nothing when its type was
/// recorded; else, for an owner written as a name, what `enum_reported`
/// says of that name; for another type, that it is no enum; for any other
/// owner, what the owner reports and, when it has a type, what
/// `enum_reported` says of its enum, or that it is no enum.
pub open spec fn variant_access_reported(
    t: SymbolTable,
    before: NodeTypes,
    tm: TypeMemberAccessExpression,
    s0: (Set<Seq<char>>, Seq<TypeCheckError>),
    s1: (Set<Seq<char>>, Seq<TypeCheckError>),
) -> bool
    decreases tm, 0nat,
{
    match before.type_of_node(tm.id) {
        Some(_) => s1 == s0,
        None => match tm.expression {
            Expression::Identifier(i) => enum_reported(t, i.name@, tm.name.name@, tm.location, s0, s1),
            Expression::Type(Type::Custom(i)) => enum_reported(t, i.name@, tm.name.name@, tm.location, s0, s1),
            Expression::Type(ty) => pushes(s0, seq![Report::NotEnum(type_of(ty, Seq::empty()), tm.location)], s1),
            _ => exists|o: Option<TypeModel>, so: (Set<Seq<char>>, Seq<TypeCheckError>)|
                #![trigger operand(o), stage(so)]
                inferred(t, before, tm.expression, operand(o)) && reported(t, before, tm.expression, s0, stage(so))
                    && match o {
                    None => s1 == so,
                    Some(x) => match x.kind {
                        KindModel::Enum(n) => enum_reported(t, n, tm.name.name@, tm.location, so, s1),
                        _ => pushes(so, seq![Report::NotEnum(x, tm.location)], s1),
                    },
                },
        },
    }
}

/// What inferring a unary operation reports: a unary operator applied to
/// another one; else what the operand reports and, when it has a type the
/// operator does not accept, that operand.
pub open spec fn unary_reported(
    t: SymbolTable,
    before: NodeTypes,
    p: PrefixUnaryExpression,
    s0: (Set<Seq<char>>, Seq<TypeCheckError>),
    s1: (Set<Seq<char>>, Seq<TypeCheckError>),
) -> bool
    decreases p, 0nat,
{
    if is_prefix_unary_spec(p.expression) {
        pushes(s0, seq![Report::Exact(TypeCheckError::CombinedUnaryOperators { location: p.location })], s1)
    } else {
        exists|o: Option<TypeModel>, so: (Set<Seq<char>>, Seq<TypeCheckError>)|
            #![trigger operand(o), stage(so)]
            inferred(t, before, p.expression, operand(o)) && reported(t, before, p.expression, s0, stage(so))
                && match o {
                None => s1 == so,
                Some(x) => if unary_accepts(p.operator, x) {
                    s1 == so
                } else {
                    pushes(so, seq![Report::BadUnaryOperand(p.operator, x, p.location)], s1)
                },
            }
    }
}

/// What inferring a binary operation reports: nothing when its type was
/// recorded; else what the left operand reports, then the right one (with
/// what the left one recorded, `mid`, which differs from `before` only
/// within the left operand), then, when both have types,
/// `binary_reports`.
pub open spec fn binary_reported(
    t: SymbolTable,
    before: NodeTypes,
    b: BinaryExpression,
    s0: (Set<Seq<char>>, Seq<TypeCheckError>),
    s1: (Set<Seq<char>>, Seq<TypeCheckError>),
) -> bool
    decreases b, 0nat,
{
    match before.type_of_node(b.id) {
        Some(_) => s1 == s0,
        None => exists|
            lo: Option<TypeModel>,
            ro: Option<TypeModel>,
            mid: NodeTypes,
            sl: (Set<Seq<char>>, Seq<TypeCheckError>),
            sr: (Set<Seq<char>>, Seq<TypeCheckError>),
        |
            #![trigger operand(lo), operand(ro), recorded(mid), stage(sl), stage(sr)]
            inferred(t, before, b.left, operand(lo)) && reported(t, before, b.left, s0, stage(sl)) && kept_outside(
                recorded(mid),
                before,
                b.left,
            ) && inferred(t, recorded(mid), b.right, operand(ro)) && reported(t, mid, b.right, sl, stage(sr))
                && match (lo, ro) {
                (Some(l), Some(r)) => pushes(sr, binary_reports(b.operator, l, r, b.location), s1),
                _ => s1 == sr,
            },
    }
}

/// What inferring the elements after the first of the array literal `a`,
/// up to element `n`, reports, taking the reports from `s0` to `s1`: each
/// element's own reports (with what the elements before it recorded,
/// `mid`, which differs from `before` only within them), then an element
/// whose type is not `x`, the first element's type.
pub open spec fn elements_reported(
    t: SymbolTable,
    before: NodeTypes,
    a: ArrayLiteral,
    n: int,
    x: TypeModel,
    s0: (Set<Seq<char>>, Seq<TypeCheckError>),
    s1: (Set<Seq<char>>, Seq<TypeCheckError>),
) -> bool
    decreases a, n,
{
    match a.elements {
        Some(els) => if 1 < n <= els@.len() {
            exists|
                mid: NodeTypes,
                o: Option<TypeModel>,
                sp: (Set<Seq<char>>, Seq<TypeCheckError>),
                so: (Set<Seq<char>>, Seq<TypeCheckError>),
            |
                #![trigger recorded(mid), operand(o), stage(sp), stage(so)]
                elements_reported(t, before, a, n - 1, x, s0, stage(sp)) && kept_outside_list(
                    recorded(mid),
                    before,
                    els@.take(n - 1),
                ) && inferred(t, recorded(mid), els@[n - 1], operand(o)) && reported(t, mid, els@[n - 1], sp, stage(so))
                    && match o {
                    Some(y) => if y == x {
                        s1 == so
                    } else {
                        pushes(so, seq![Report::ElementMismatch(x, y, a.location)], s1)
                    },
                    None => s1 == so,
                }
        } else {
            s1 == s0
        },
        None => s1 == s0,
    }
}

/// The number of elements of an array literal.
pub open spec fn element_count(a: ArrayLiteral) -> nat {
    match a.elements {
        Some(els) => els@.len(),
        None => 0,
    }
}

/// What inferring an array literal reports: nothing when its type was
/// recorded or it has no element list; else what the first element reports
/// and, when it has a type, what `elements_reported` says of the others.
pub open spec fn array_literal_reported(
    t: SymbolTable,
    before: NodeTypes,
    a: ArrayLiteral,
    s0: (Set<Seq<char>>, Seq<TypeCheckError>),
    s1: (Set<Seq<char>>, Seq<TypeCheckError>),
) -> bool
    decreases a, element_count(a) + 1,
{
    match before.type_of_node(a.id) {
        Some(_) => s1 == s0,
        None => match a.elements {
            Some(els) => els@.len() > 0 && exists|o: Option<TypeModel>, sf: (Set<Seq<char>>, Seq<TypeCheckError>)|
                #![trigger operand(o), stage(sf)]
                inferred(t, before, els@[0], operand(o)) && reported(t, before, els@[0], s0, stage(sf)) && match o {
                    Some(x) => elements_reported(t, before, a, els@.len() as int, x, sf, s1),
                    None => s1 == sf,
                },
            None => s1 == s0,
        },
    }
}

/// The number of arguments of a call.
pub open spec fn argument_count_of(f: FunctionCallExpression) -> nat {
    match f.arguments {
        Some(a) => a@.len(),
        None => 0,
    }
}

/// What inferring the first `n` arguments of `f`, in order, from the
/// recorded types `base`, reports, each with what was recorded before it
/// (`mid`, which differs from `base` only within the arguments before it).
pub open spec fn arguments_reported(
    t: SymbolTable,
    base: NodeTypes,
    f: FunctionCallExpression,
    n: int,
    s0: (Set<Seq<char>>, Seq<TypeCheckError>),
    s1: (Set<Seq<char>>, Seq<TypeCheckError>),
) -> bool
    decreases f, n,
{
    match f.arguments {
        Some(args) => if 0 < n <= args@.len() {
            exists|mid: NodeTypes, sp: (Set<Seq<char>>, Seq<TypeCheckError>)|
                #![trigger recorded(mid), stage(sp)]
                arguments_reported(t, base, f, n - 1, s0, stage(sp)) && kept_outside_arguments(
                    recorded(mid),
                    base,
                    f,
                    n - 1,
                ) && reported(t, recorded(mid), args@[n - 1].1, sp, s1)
        } else {
            s1 == s0
        },
        None => s1 == s0,
    }
}

/// What inferring type arguments from the first `n` arguments of `f` for
/// parameters of the types `params` gives: the bindings `m` of type parameters to
/// types and the reports. Each argument at a parameter whose type is a type
/// parameter is inferred (with what was recorded before it, `mid`); its
/// type binds that type parameter when none is bound yet, and a type other
/// than the one bound is reported as a conflict.
pub open spec fn type_arguments_inferred(
    t: SymbolTable,
    before: NodeTypes,
    f: FunctionCallExpression,
    params: Seq<TypeModel>,
    n: int,
    s0: (Set<Seq<char>>, Seq<TypeCheckError>),
    m: Map<Seq<char>, TypeModel>,
    s1: (Set<Seq<char>>, Seq<TypeCheckError>),
) -> bool
    decreases f, n,
{
    match f.arguments {
        Some(args) => if 0 < n <= args@.len() && n <= params.len() {
            exists|m0: Map<Seq<char>, TypeModel>, sp: (Set<Seq<char>>, Seq<TypeCheckError>)|
                #![trigger bindings(m0), stage(sp)]
                type_arguments_inferred(t, before, f, params, n - 1, s0, bindings(m0), stage(sp)) && match params[n
                    - 1].kind {
                    KindModel::Generic(k) => exists|
                        mid: NodeTypes,
                        o: Option<TypeModel>,
                        so: (Set<Seq<char>>, Seq<TypeCheckError>),
                    |
                        #![trigger recorded(mid), operand(o), stage(so)]
                        kept_outside_arguments(recorded(mid), before, f, n - 1) && inferred(
                            t,
                            recorded(mid),
                            args@[n - 1].1,
                            operand(o),
                        ) && reported(
                            t,
                            mid,
                            args@[n - 1].1,
                            sp,
                            stage(so),
                        ) && match o {
                            Some(y) => if m0.contains_key(k) {
                                m == m0 && if m0[k] == y {
                                    s1 == so
                                } else {
                                    pushes(so, seq![Report::ConflictingInference(k, m0[k], y, f.location)], s1)
                                }
                            } else {
                                m == m0.insert(k, y) && s1 == so
                            },
                            None => m == m0 && s1 == so,
                        },
                    _ => m == m0 && s1 == sp,
                }
        } else {
            m == Map::<Seq<char>, TypeModel>::empty() && s1 == s0
        },
        None => m == Map::<Seq<char>, TypeModel>::empty() && s1 == s0,
    }
}

/// The type parameters among `names` that `m` leaves without a type,
/// reported in order for the function `fname`.
pub open spec fn cannot_infer_reports(
    fname: Seq<char>,
    names: Seq<Seq<char>>,
    m: Map<Seq<char>, TypeModel>,
    l: Location,
) -> Seq<Report>
    decreases names.len(),
{
    if names.len() == 0 {
        Seq::empty()
    } else {
        cannot_infer_reports(fname, names.drop_last(), m, l) + if m.contains_key(names.last()) {
            Seq::<Report>::empty()
        } else {
            seq![Report::CannotInfer(fname, names.last(), l)]
        }
    }
}

/// What inferring the type arguments of a call `f` of the generic function
/// `g` without explicit ones reports: the reports of `type_arguments_inferred`
/// over the arguments, then every type parameter left without a type, then
/// the missing type arguments when inference gave no substitution.
pub open spec fn generic_inference_reported(
    t: SymbolTable,
    before: NodeTypes,
    f: FunctionCallExpression,
    g: FuncInfo,
    s0: (Set<Seq<char>>, Seq<TypeCheckError>),
    s1: (Set<Seq<char>>, Seq<TypeCheckError>),
) -> bool
    decreases f, argument_count_of(f) + 1,
{
    let missing = seq![Report::MissingTypeArguments(f.spec_callee_name(), g.type_params@.len() as usize, f.location)];
    match f.arguments {
        Some(args) => exists|m: Map<Seq<char>, TypeModel>, sm: (Set<Seq<char>>, Seq<TypeCheckError>)|
            #![trigger bindings(m), stage(sm)]
            type_arguments_inferred(
                t,
                before,
                f,
                param_models(g),
                if args@.len() <= g.param_types@.len() {
                    args@.len() as int
                } else {
                    g.param_types@.len() as int
                },
                s0,
                bindings(m),
                stage(sm),
            ) && pushes(
                sm,
                cannot_infer_reports(g.name@, crate::text::views(g.type_params@), m, f.location) + if crate::inference::kept_bindings(
                    crate::text::views(g.type_params@),
                    m,
                ).dom() == Set::<Seq<char>>::empty() {
                    missing
                } else {
                    Seq::<Report>::empty()
                },
                s1,
            ),
        None => pushes(s0, missing, s1),
    }
}

/// What calling the function that `f` names reports: a name that denotes no
/// function once, then the arguments' reports; else a function that is not
/// visible, then a wrong number of arguments (and the arguments' reports),
/// else for a generic function a wrong number of explicit type arguments,
/// or, without them, what `generic_inference_reported` says; then the
/// arguments' reports.
pub open spec fn function_call_reported(
    t: SymbolTable,
    before: NodeTypes,
    f: FunctionCallExpression,
    s0: (Set<Seq<char>>, Seq<TypeCheckError>),
    s1: (Set<Seq<char>>, Seq<TypeCheckError>),
) -> bool
    decreases f, argument_count_of(f) + 2,
{
    let name = f.spec_callee_name();
    let n = argument_count_of(f) as int;
    match t.lookup(name, Namespace::Functions) {
        None => exists|sx: (Set<Seq<char>>, Seq<TypeCheckError>)|
            #![trigger stage(sx)]
            after_report(s0, Report::UnknownFunction(name, f.location), stage(sx)) && arguments_reported(
                t,
                before,
                f,
                n,
                sx,
                s1,
            ),
        Some(j) => {
            let g = t.entries@[j].symbol->Function_0;
            let hidden = if visible(t, g.visibility, g.definition_scope_id, t.current) {
                Seq::<Report>::empty()
            } else {
                seq![Report::PrivateFunction(name, f.location)]
            };
            if f.arguments matches Some(a) && a@.len() != g.param_types@.len() {
                exists|sx: (Set<Seq<char>>, Seq<TypeCheckError>)|
                    #![trigger stage(sx)]
                    pushes(
                        s0,
                        hidden + seq![
                            Report::ArgumentCount(
                                "function"@,
                                name,
                                g.param_types@.len() as usize,
                                n as usize,
                                f.location,
                            ),
                        ],
                        stage(sx),
                    ) && arguments_reported(t, before, f, n, sx, s1)
            } else if g.type_params@.len() == 0 {
                exists|sx: (Set<Seq<char>>, Seq<TypeCheckError>)|
                    #![trigger stage(sx)]
                    pushes(s0, hidden, stage(sx)) && arguments_reported(t, before, f, n, sx, s1)
            } else {
                match f.type_parameters {
                    Some(tps) => exists|sx: (Set<Seq<char>>, Seq<TypeCheckError>)|
                        #![trigger stage(sx)]
                        pushes(
                            s0,
                            hidden + if tps@.len() != g.type_params@.len() {
                                seq![
                                    Report::TypeArgumentCount(
                                        name,
                                        g.type_params@.len() as usize,
                                        tps@.len() as usize,
                                        f.location,
                                    ),
                                ]
                            } else {
                                Seq::<Report>::empty()
                            },
                            stage(sx),
                        ) && arguments_reported(t, before, f, n, sx, s1),
                    None => exists|
                        sv: (Set<Seq<char>>, Seq<TypeCheckError>),
                        sx: (Set<Seq<char>>, Seq<TypeCheckError>),
                        mid: NodeTypes,
                    |
                        #![trigger stage(sv), stage(sx), recorded(mid)]
                        pushes(s0, hidden, stage(sv)) && generic_inference_reported(t, before, f, g, sv, stage(sx))
                            && kept_outside_arguments(recorded(mid), before, f, n) && arguments_reported(
                            t,
                            mid,
                            f,
                            n,
                            sx,
                            s1,
                        ),
                }
            }
        },
    }
}

/// The reports for calling the method `mi` of `owner` as `method`, at
/// `l`: through a value (`on_value`) a method without `self`, through the
/// type one with `self`; a method that is not visible; a wrong number of
/// arguments.
pub open spec fn method_reports(
    t: SymbolTable,
    owner: Seq<char>,
    method: Seq<char>,
    mi: MethodInfo,
    f: FunctionCallExpression,
    on_value: bool,
    l: Location,
) -> Seq<Report> {
    (if mi.has_self == on_value {
        Seq::<Report>::empty()
    } else if on_value {
        seq![Report::AssociatedAsMethod(owner, method, l)]
    } else {
        seq![Report::InstanceAsAssociated(owner, method, l)]
    }) + (if visible(t, mi.visibility, mi.scope_id, t.current) {
        Seq::<Report>::empty()
    } else {
        seq![Report::PrivateMethod(owner, method, l)]
    }) + (if argument_count_of(f) == mi.signature.param_types@.len() {
        Seq::<Report>::empty()
    } else {
        seq![
            Report::ArgumentCount(
                "method"@,
                owner + "::"@ + method,
                mi.signature.param_types@.len() as usize,
                argument_count_of(f) as usize,
                f.location,
            ),
        ]
    })
}

/// What inferring a call reports: for `Owner::method(..)` of a method of a
/// type that is no enum, `method_reports`, then the arguments' reports; for
/// `receiver.method(..)`, what the receiver reports, then, when it has a
/// type, a receiver that is no struct (and the arguments' reports), a
/// method its struct does not have (and nothing more), or `method_reports`
/// and the arguments' reports; for any other call what
/// `function_call_reported` says.
pub open spec fn call_reported(
    t: SymbolTable,
    before: NodeTypes,
    f: FunctionCallExpression,
    s0: (Set<Seq<char>>, Seq<TypeCheckError>),
    s1: (Set<Seq<char>>, Seq<TypeCheckError>),
) -> bool
    decreases f, argument_count_of(f) + 3,
{
    let n = argument_count_of(f) as int;
    match f.function {
        Expression::TypeMemberAccess(tma) => match associated_owner_spec(tma.expression) {
            Some(owner) => if !is_enum_named(t, owner) && t.method_from(t.current, owner, tma.name.name@) is Some {
                exists|sx: (Set<Seq<char>>, Seq<TypeCheckError>)|
                    #![trigger stage(sx)]
                    pushes(
                        s0,
                        method_reports(
                            t,
                            owner,
                            tma.name.name@,
                            t.methods@[t.method_from(t.current, owner, tma.name.name@)->0],
                            f,
                            false,
                            tma.location,
                        ),
                        stage(sx),
                    ) && arguments_reported(t, before, f, n, sx, s1)
            } else {
                function_call_reported(t, before, f, s0, s1)
            },
            None => function_call_reported(t, before, f, s0, s1),
        },
        Expression::MemberAccess(ma) => exists|
            ro: Option<TypeModel>,
            sr: (Set<Seq<char>>, Seq<TypeCheckError>),
            mid: NodeTypes,
        |
            #![trigger operand(ro), stage(sr), recorded(mid)]
            inferred(t, before, ma.expression, operand(ro)) && reported(t, before, ma.expression, s0, stage(sr))
                && kept_outside(recorded(mid), before, ma.expression) && match ro {
                None => arguments_reported(t, mid, f, n, sr, s1),
                Some(o) => match receiver_struct(t, o) {
                    None => exists|sx: (Set<Seq<char>>, Seq<TypeCheckError>)|
                        #![trigger stage(sx)]
                        pushes(sr, seq![Report::MethodOnNonStruct(o, f.location)], stage(sx)) && arguments_reported(
                            t,
                            mid,
                            f,
                            n,
                            sx,
                            s1,
                        ),
                    Some(owner) => match t.method_from(t.current, owner, ma.name.name@) {
                        None => pushes(sr, seq![Report::MethodMissing(owner, ma.name.name@, ma.location)], s1),
                        Some(j) => exists|sx: (Set<Seq<char>>, Seq<TypeCheckError>)|
                            #![trigger stage(sx)]
                            pushes(
                                sr,
                                method_reports(t, owner, ma.name.name@, t.methods@[j], f, true, ma.location),
                                stage(sx),
                            ) && arguments_reported(t, mid, f, n, sx, s1),
                    },
                },
            },
        _ => function_call_reported(t, before, f, s0, s1),
    }
}

/// What inferring `e` reports, given the symbol table `t` and the types
/// recorded before (`before`), taking the reports from `s0` to `s1`: an
/// undeclared variable, and a struct value whose type is not recorded and
/// whose name denotes no type, are reported once per name; parentheses
/// report what they enclose; an array type what its size reports (once
/// the type is recorded for the type's node); other
/// literals, types and `@` nothing; the other expressions what the
/// functions above say.
pub open spec fn reported(
    t: SymbolTable,
    before: NodeTypes,
    e: Expression,
    s0: (Set<Seq<char>>, Seq<TypeCheckError>),
    s1: (Set<Seq<char>>, Seq<TypeCheckError>),
) -> bool
    decreases e, 0nat,
{
    match e {
        Expression::ArrayIndexAccess(a) => index_access_reported(t, before, *a, s0, s1),
        Expression::MemberAccess(m) => member_access_reported(t, before, *m, s0, s1),
        Expression::TypeMemberAccess(tm) => variant_access_reported(t, before, *tm, s0, s1),
        Expression::FunctionCall(f) => call_reported(t, before, *f, s0, s1),
        Expression::Struct(s) => s1 == if before.type_of_node(s.id) is Some || t.type_named(s.name.name@) is Some {
            s0
        } else {
            dedup_step(s0.0, s0.1, TypeCheckError::UndefinedStruct { name: s.name.name, location: s.location })
        },
        Expression::PrefixUnary(p) => unary_reported(t, before, *p, s0, s1),
        Expression::Parenthesized(p) => reported(t, before, p.expression, s0, s1),
        Expression::Binary(b) => binary_reported(t, before, *b, s0, s1),
        Expression::Literal(Literal::Array(a)) => array_literal_reported(t, before, a, s0, s1),
        Expression::Literal(_) => s1 == s0,
        Expression::Identifier(i) => s1 == if t.variable_type(i.name@) is Some {
            s0
        } else {
            dedup_step(s0.0, s0.1, TypeCheckError::UnknownIdentifier { name: i.name, location: i.location })
        },
        Expression::Type(Type::Array(ta)) => exists|mid: NodeTypes|
            #![trigger recorded(mid)]
            recorded(mid).updated(&before, ta.id, type_of(Type::Array(ta), Seq::empty())) && reported(
                t,
                mid,
                ta.size,
                s0,
                s1,
            ),
        Expression::Type(_) => s1 == s0,
        Expression::Uzumaki(_) => s1 == s0,
    }
}


impl TypeChecker {
    /// Reports `error`, which `r` describes, after the reports `rs` made
    /// since `s0`.
    pub(crate) fn push_report(
        &mut self,
        error: TypeCheckError,
        Ghost(r): Ghost<Report>,
        Ghost(s0): Ghost<(Set<Seq<char>>, Seq<TypeCheckError>)>,
        Ghost(rs): Ghost<Seq<Report>>,
    )
        requires
            old(self).wf(),
            crate::type_checker::dedup_key(error) is None,
            is_report(error, r),
            pushes(s0, rs, report_state(*old(self))),
        ensures
            final(self).wf(),
            final(self).symbol_table == old(self).symbol_table,
            final(self).glob_resolution_in_progress == old(self).glob_resolution_in_progress,
            final(self).errors@ == old(self).errors@.push(error),
            pushes(s0, rs.push(r), report_state(*final(self))),
    {
        proof {
            lemma_pushes_more(s0, rs, report_state(*self), error, r);
        }
        self.push_error(error);
    }
}

} // verus!
