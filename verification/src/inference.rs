//! Type inference over expressions: each expression is given a type, which
//! is recorded for its node, and every problem found is reported.
use vstd::prelude::*;

use crate::ast::{
    Identifier,
    ArrayIndexAccessExpression, BinaryExpression, Expression, FunctionCallExpression, Literal,
    MemberAccessExpression, OperatorKind, PrefixUnaryExpression, Type, TypeMemberAccessExpression,
    UnaryOperatorKind,
};
use crate::errors::{TypeCheckError, VisibilityContext};
use crate::fx::{
    key_set_contents, substitution_contents, substitution_get, substitution_insert, substitution_is_empty,
    substitution_new, Substitutions, substitution_contains_key,
};
use crate::symbol_table::{FuncInfo, Namespace, Symbol, SymbolTable};
use crate::text::views;
use crate::type_checker::TypeChecker;
use crate::type_info::{plain, substituted, KindModel, NumberType, TypeInfo, TypeInfoKind, TypeModel, type_of};
use crate::typed_context::NodeTypes;
use crate::reports::{
    binary_reported, index_access_reported, lemma_pushes_none, member_access_reported, report_state, reported,
    stage, unary_reported, variant_access_reported, Report,
};

verus! {

/// Every array literal with an element list has at least one element, in
/// `e` and in every expression below it that inference visits.
pub open spec fn expr_wf(e: Expression) -> bool
    decreases e,
{
    match e {
        Expression::ArrayIndexAccess(a) => expr_wf(a.array) && expr_wf(a.index),
        Expression::MemberAccess(m) => expr_wf(m.expression),
        Expression::TypeMemberAccess(t) => expr_wf(t.expression),
        Expression::FunctionCall(f) => expr_wf(f.function) && match f.arguments {
            Some(args) => forall|i: int| 0 <= i < args@.len() ==> expr_wf(#[trigger] args@[i].1),
            None => true,
        },
        Expression::PrefixUnary(p) => expr_wf(p.expression),
        Expression::Parenthesized(p) => expr_wf(p.expression),
        Expression::Binary(b) => expr_wf(b.left) && expr_wf(b.right),
        Expression::Literal(Literal::Array(a)) => match a.elements {
            Some(els) => els@.len() > 0 && forall|i: int| 0 <= i < els@.len() ==> expr_wf(#[trigger] els@[i]),
            None => true,
        },
        Expression::Type(Type::Array(a)) => expr_wf(a.size),
        _ => true,
    }
}

/// Whether the expression, seen through parentheses, is a prefix unary
/// operation or a negative number literal.
pub open spec fn is_prefix_unary_spec(e: Expression) -> bool
    decreases e,
{
    match e {
        Expression::PrefixUnary(_) => true,
        Expression::Parenthesized(p) => is_prefix_unary_spec(p.expression),
        Expression::Literal(Literal::Number(n)) => n.value@.len() > 0 && n.value@[0] == '-',
        _ => false,
    }
}

fn is_prefix_unary(e: &Expression) -> (r: bool)
    ensures
        r == is_prefix_unary_spec(*e),
    decreases e,
{
    match e {
        Expression::PrefixUnary(_) => true,
        Expression::Parenthesized(p) => is_prefix_unary(&p.expression),
        Expression::Literal(Literal::Number(n)) => {
            let s = n.value.as_str();
            s.unicode_len() > 0 && s.get_char(0) == '-'
        },
        _ => false,
    }
}

/// The type for a member of an inferred receiver: the struct named by a
/// struct type, or by a named type that is a registered struct.
fn struct_name_of(table: &crate::symbol_table::SymbolTable, t: &TypeInfo) -> (r: Option<String>)
    requires
        table.wf(),
    ensures
        match r {
            Some(n) => match t@.kind {
                KindModel::Struct(s) => n@ == s,
                KindModel::Custom(s) => n@ == s && (table.lookup(s, crate::symbol_table::Namespace::Types) matches Some(j)
                    && table.entries@[j].symbol is Struct),
                _ => false,
            },
            None => match t@.kind {
                KindModel::Struct(_) => false,
                KindModel::Custom(s) => !(table.lookup(s, crate::symbol_table::Namespace::Types) matches Some(j)
                    && table.entries@[j].symbol is Struct),
                _ => true,
            },
        },
{
    match &t.kind {
        TypeInfoKind::Struct(name) => Some(name.clone()),
        TypeInfoKind::Custom(name) => {
            if table.lookup_struct(name).is_some() {
                Some(name.clone())
            } else {
                None
            }
        },
        _ => None,
    }
}

/// `owner::member`
fn path_text(owner: &String, member: &String) -> (r: String)
    ensures
        r@ == owner@ + "::"@ + member@,
{
    proof {
        reveal_strlit("::");
    }
    let mut s = owner.clone();
    s.append("::");
    s.append(member.as_str());
    s
}

/// Whether `id` is the node of `e` or of an expression or type within it:
/// the nodes whose recorded types inferring `e` may set.
pub open spec fn within(id: u32, e: Expression) -> bool
    decreases e,
{
    id == e.spec_node_id() || match e {
        Expression::ArrayIndexAccess(a) => within(id, a.array) || within(id, a.index),
        Expression::MemberAccess(m) => within(id, m.expression),
        Expression::TypeMemberAccess(tm) => within(id, tm.expression),
        Expression::FunctionCall(f) => within(id, f.function) || match f.arguments {
            Some(args) => within_pairs(id, args@),
            None => false,
        },
        Expression::PrefixUnary(p) => within(id, p.expression),
        Expression::Parenthesized(p) => within(id, p.expression),
        Expression::Binary(b) => within(id, b.left) || within(id, b.right),
        Expression::Literal(Literal::Array(a)) => match a.elements {
            Some(els) => within_list(id, els@),
            None => false,
        },
        Expression::Type(Type::Array(ta)) => within(id, ta.size),
        _ => false,
    }
}

/// Whether `id` is within one of the expressions `es`.
pub open spec fn within_list(id: u32, es: Seq<Expression>) -> bool
    decreases es,
{
    if es.len() == 0 {
        false
    } else {
        within(id, es.last()) || within_list(id, es.subrange(0, es.len() - 1))
    }
}

/// Whether `id` is within one of the arguments `ps`.
pub open spec fn within_pairs(id: u32, ps: Seq<(Option<Identifier>, Expression)>) -> bool
    decreases ps,
{
    if ps.len() == 0 {
        false
    } else {
        within(id, ps.last().1) || within_pairs(id, ps.subrange(0, ps.len() - 1))
    }
}

/// An expression among `es` lies within them.
proof fn lemma_within_list(id: u32, es: Seq<Expression>, k: int)
    requires
        0 <= k < es.len(),
        within(id, es[k]),
    ensures
        within_list(id, es),
    decreases es.len(),
{
    if k < es.len() - 1 {
        lemma_within_list(id, es.subrange(0, es.len() - 1), k);
    }
}

/// An argument among `ps` lies within them.
proof fn lemma_within_pairs(id: u32, ps: Seq<(Option<Identifier>, Expression)>, k: int)
    requires
        0 <= k < ps.len(),
        within(id, ps[k].1),
    ensures
        within_pairs(id, ps),
    decreases ps.len(),
{
    if k < ps.len() - 1 {
        lemma_within_pairs(id, ps.subrange(0, ps.len() - 1), k);
    }
}

/// The number of arguments of a call.
pub open spec fn argument_total(f: FunctionCallExpression) -> int {
    match f.arguments {
        Some(a) => a@.len() as int,
        None => 0,
    }
}

/// Whether `id` is within one of the first `n` arguments of `f`.
pub open spec fn within_arguments(id: u32, f: FunctionCallExpression, n: int) -> bool {
    f.arguments matches Some(a) && exists|i: int| 0 <= i < n && i < a@.len() && #[trigger] within(id, a@[i].1)
}

/// `after` records for every node outside `e` what `before` records.
pub open spec fn kept_outside(after: NodeTypes, before: NodeTypes, e: Expression) -> bool {
    forall|id: u32| !within(id, e) ==> #[trigger] after.type_of_node(id) == before.type_of_node(id)
}

/// `after` records for every node outside the first `n` arguments of `f`
/// what `before` records.
pub open spec fn kept_outside_arguments(after: NodeTypes, before: NodeTypes, f: FunctionCallExpression, n: int) -> bool {
    forall|id: u32| !within_arguments(id, f, n) ==> #[trigger] after.type_of_node(id) == before.type_of_node(id)
}

/// What `x` keeps of `b`, and `e` of `a`, `e` keeps of `a` when `x` lies
/// within `e`.
proof fn lemma_kept_trans(a: NodeTypes, b: NodeTypes, c: NodeTypes, x: Expression, e: Expression)
    requires
        kept_outside(b, a, e),
        kept_outside(c, b, x),
        forall|id: u32| within(id, x) ==> #[trigger] within(id, e),
    ensures
        kept_outside(c, a, e),
{
    assert forall|id: u32| !within(id, e) implies #[trigger] c.type_of_node(id) == a.type_of_node(id) by {
        assert(!within(id, x));
        assert(b.type_of_node(id) == a.type_of_node(id));
    }
}

/// Recording a type for a node within `e` keeps every node outside `e`.
proof fn lemma_kept_set(a: NodeTypes, b: NodeTypes, e: Expression, id0: u32, t: TypeModel)
    requires
        b.updated(&a, id0, t),
        within(id0, e),
    ensures
        kept_outside(b, a, e),
{
    assert forall|id: u32| !within(id, e) implies #[trigger] b.type_of_node(id) == a.type_of_node(id) by {
        assert(id != id0);
    }
}

/// The arguments kept outside, one argument further.
proof fn lemma_kept_arguments_step(a: NodeTypes, b: NodeTypes, c: NodeTypes, f: FunctionCallExpression, i: int)
    requires
        f.arguments is Some,
        0 <= i < f.arguments->0@.len(),
        kept_outside_arguments(b, a, f, i),
        kept_outside(c, b, f.arguments->0@[i].1),
    ensures
        kept_outside_arguments(c, a, f, i + 1),
{
    assert forall|id: u32| !within_arguments(id, f, i + 1) implies #[trigger] c.type_of_node(id) == a.type_of_node(id) by {
        if within(id, f.arguments->0@[i].1) {
            let args = f.arguments->0;
            assert(0 <= i < i + 1 && i < args@.len() && within(id, args@[i].1));
            assert(within_arguments(id, f, i + 1));
        }
        if within_arguments(id, f, i) {
            let k = choose|k: int| 0 <= k < i && k < f.arguments->0@.len() && #[trigger] within(id, f.arguments->0@[k].1);
            assert(within(id, f.arguments->0@[k].1));
        }
    }
}

/// What keeps nodes outside the first `i` arguments keeps those outside
/// the first `j >= i`, and those outside the whole call.
proof fn lemma_kept_arguments_more(a: NodeTypes, b: NodeTypes, f: FunctionCallExpression, i: int, j: int)
    requires
        0 <= i <= j,
        kept_outside_arguments(b, a, f, i),
    ensures
        kept_outside_arguments(b, a, f, j),
        j == argument_total(f) ==> kept_outside(b, a, Expression::FunctionCall(Box::new(f))),
{
    assert forall|id: u32| !within_arguments(id, f, j) implies #[trigger] b.type_of_node(id) == a.type_of_node(id) by {
        if within_arguments(id, f, i) {
            let k = choose|k: int| 0 <= k < i && k < f.arguments->0@.len() && #[trigger] within(id, f.arguments->0@[k].1);
            assert(within(id, f.arguments->0@[k].1));
        }
    }
    if j == argument_total(f) {
        assert forall|id: u32| !within(id, Expression::FunctionCall(Box::new(f))) implies #[trigger] b.type_of_node(id)
            == a.type_of_node(id) by {
            if within_arguments(id, f, j) {
                let k = choose|k: int| 0 <= k < j && k < f.arguments->0@.len() && #[trigger] within(id, f.arguments->0@[k].1);
                let e = Expression::FunctionCall(Box::new(f));
                assert(e->FunctionCall_0 == f);
                let args = f.arguments->0;
                lemma_within_pairs(id, args@, k);
                assert(within(id, e));
            }
        }
    }
}

/// Every node is kept.
proof fn lemma_kept_refl(a: NodeTypes, e: Expression)
    ensures
        kept_outside(a, a, e),
{
}

/// Every node within `x` lies within `e`.
pub open spec fn lies_within(x: Expression, e: Expression) -> bool {
    forall|id: u32| #[trigger] within(id, x) ==> within(id, e)
}

/// The parts of an expression lie within it.
proof fn lemma_parts_within(e: Expression)
    ensures
        e matches Expression::ArrayIndexAccess(a) ==> lies_within(a.array, e) && lies_within(a.index, e),
        e matches Expression::MemberAccess(m) ==> lies_within(m.expression, e),
        e matches Expression::TypeMemberAccess(tm) ==> lies_within(tm.expression, e),
        e matches Expression::FunctionCall(f) ==> lies_within(f.function, e),
        e matches Expression::PrefixUnary(p) ==> lies_within(p.expression, e),
        e matches Expression::Parenthesized(p) ==> lies_within(p.expression, e),
        e matches Expression::Binary(b) ==> lies_within(b.left, e) && lies_within(b.right, e),
        e matches Expression::Type(Type::Array(ta)) ==> lies_within(ta.size, e),
{
}

/// The `k`th argument of a call lies within it.
proof fn lemma_argument_within(f: FunctionCallExpression, k: int)
    requires
        f.arguments is Some,
        0 <= k < f.arguments->0@.len(),
    ensures
        lies_within(f.arguments->0@[k].1, Expression::FunctionCall(Box::new(f))),
{
    let e = Expression::FunctionCall(Box::new(f));
    assert forall|id: u32| #[trigger] within(id, f.arguments->0@[k].1) implies within(id, e) by {
        lemma_within_pairs(id, f.arguments->0@, k);
    }
}

/// The `k`th element of an array literal lies within it.
proof fn lemma_element_within(a: crate::ast::ArrayLiteral, k: int)
    requires
        a.elements is Some,
        0 <= k < a.elements->0@.len(),
    ensures
        lies_within(a.elements->0@[k], Expression::Literal(Literal::Array(a))),
{
    let e = Expression::Literal(Literal::Array(a));
    assert forall|id: u32| #[trigger] within(id, a.elements->0@[k]) implies within(id, e) by {
        lemma_within_list(id, a.elements->0@, k);
    }
}

/// What keeps `e` and, after it, what keeps a part `x` of `e`, keeps `e`.
proof fn lemma_kept_part(a: NodeTypes, b: NodeTypes, c: NodeTypes, x: Expression, e: Expression)
    requires
        kept_outside(b, a, e),
        kept_outside(c, b, x),
        lies_within(x, e),
    ensures
        kept_outside(c, a, e),
{
    assert forall|id: u32| !within(id, e) implies #[trigger] c.type_of_node(id) == a.type_of_node(id) by {
        if within(id, x) {
            assert(within(id, e));
        }
        assert(b.type_of_node(id) == a.type_of_node(id));
    }
}

/// What keeps `e` and, after it, a recorded type for a node within `e`,
/// keeps `e`.
proof fn lemma_kept_record(a: NodeTypes, b: NodeTypes, c: NodeTypes, e: Expression, id0: u32, t: TypeModel)
    requires
        kept_outside(b, a, e),
        c.updated(&b, id0, t),
        within(id0, e),
    ensures
        kept_outside(c, a, e),
{
    assert forall|id: u32| !within(id, e) implies #[trigger] c.type_of_node(id) == a.type_of_node(id) by {
        assert(id != id0);
        assert(b.type_of_node(id) == a.type_of_node(id));
    }
}

/// Lying within is transitive.
proof fn lemma_lies_trans(x: Expression, y: Expression, z: Expression)
    requires
        lies_within(x, y),
        lies_within(y, z),
    ensures
        lies_within(x, z),
{
    assert forall|id: u32| #[trigger] within(id, x) implies within(id, z) by {
        assert(within(id, y));
    }
}

/// What keeps a call and, after it, what keeps its arguments, keeps the call.
proof fn lemma_kept_after_arguments(a: NodeTypes, b: NodeTypes, c: NodeTypes, f: FunctionCallExpression)
    requires
        kept_outside(b, a, Expression::FunctionCall(Box::new(f))),
        kept_outside_arguments(c, b, f, argument_total(f)),
    ensures
        kept_outside(c, a, Expression::FunctionCall(Box::new(f))),
{
    let e = Expression::FunctionCall(Box::new(f));
    lemma_kept_arguments_more(b, c, f, argument_total(f), argument_total(f));
    assert(lies_within(e, e));
    lemma_kept_part(a, b, c, e, e);
}

/// `after` records for every node outside the expressions `es` what
/// `before` records.
pub open spec fn kept_outside_list(after: NodeTypes, before: NodeTypes, es: Seq<Expression>) -> bool {
    forall|id: u32| !within_list(id, es) ==> #[trigger] after.type_of_node(id) == before.type_of_node(id)
}

/// The expressions kept outside, one expression further.
proof fn lemma_kept_list_step(a: NodeTypes, b: NodeTypes, c: NodeTypes, es: Seq<Expression>, i: int)
    requires
        0 <= i < es.len(),
        kept_outside_list(b, a, es.take(i)),
        kept_outside(c, b, es[i]),
    ensures
        kept_outside_list(c, a, es.take(i + 1)),
{
    let next = es.take(i + 1);
    assert(next.subrange(0, next.len() - 1) =~= es.take(i));
    assert(next.last() == es[i]);
    assert forall|id: u32| !within_list(id, next) implies #[trigger] c.type_of_node(id) == a.type_of_node(id) by {
        assert(!within(id, es[i]));
        assert(!within_list(id, es.take(i)));
    }
}

/// The model of an inferred type, if there is one.
pub open spec fn model_of(r: Option<TypeInfo>) -> Option<TypeModel> {
    match r {
        Some(t) => Some(t@),
        None => None,
    }
}

/// Whether `name` denotes an enum from the current scope of `t`.
pub open spec fn is_enum_named(t: SymbolTable, name: Seq<char>) -> bool {
    match t.lookup(name, Namespace::Types) {
        Some(j) => t.entries@[j].symbol is Enum,
        None => false,
    }
}

/// The type of `name::variant`: the enum type `name`, when `name` denotes
/// an enum that has that variant.
pub open spec fn variant_type(t: SymbolTable, name: Seq<char>, variant: Seq<char>) -> Option<TypeModel> {
    match t.lookup(name, Namespace::Types) {
        Some(j) => match t.entries@[j].symbol {
            Symbol::Enum(info) => if views(info.variants@).contains(variant) {
                Some(plain(KindModel::Enum(name)))
            } else {
                None
            },
            _ => None,
        },
        None => None,
    }
}

/// The struct that a receiver of type `o` names: a struct type's name, or
/// a named type's name when it denotes a struct.
pub open spec fn receiver_struct(t: SymbolTable, o: TypeModel) -> Option<Seq<char>> {
    match o.kind {
        KindModel::Struct(s) => Some(s),
        KindModel::Custom(s) => match t.lookup(s, Namespace::Types) {
            Some(j) => if t.entries@[j].symbol is Struct {
                Some(s)
            } else {
                None
            },
            None => None,
        },
        _ => None,
    }
}

/// Whether the struct that `name` denotes has a field named `field`.
pub open spec fn has_field(t: SymbolTable, name: Seq<char>, field: Seq<char>) -> bool {
    match t.lookup(name, Namespace::Types) {
        Some(j) => match t.entries@[j].symbol {
            Symbol::Struct(info) => exists|k: int| 0 <= k < info.fields@.len() && #[trigger] info.fields@[k].name@ == field,
            _ => false,
        },
        None => false,
    }
}

/// `x` is the type of a field named `field` of the struct that `name` denotes.
pub open spec fn is_field_of(t: SymbolTable, name: Seq<char>, field: Seq<char>, x: TypeModel) -> bool {
    match t.lookup(name, Namespace::Types) {
        Some(j) => match t.entries@[j].symbol {
            Symbol::Struct(info) => exists|k: int|
                0 <= k < info.fields@.len() && #[trigger] info.fields@[k].name@ == field
                    && info.fields@[k].type_info@ == x,
            _ => false,
        },
        None => false,
    }
}

/// The return type of the method `method` of `owner`, as seen from the
/// current scope of `t`.
pub open spec fn method_return(t: SymbolTable, owner: Seq<char>, method: Seq<char>) -> Option<TypeModel> {
    match t.method_from(t.current, owner, method) {
        Some(j) => Some(t.methods@[j].signature.return_type@),
        None => None,
    }
}

/// The type an explicit type argument stands for: the type its name
/// denotes, else a named type of that name.
pub open spec fn type_argument(t: SymbolTable, i: Identifier) -> TypeModel {
    match t.type_named(i.name@) {
        Some(m) => m,
        None => plain(KindModel::Custom(i.name@)),
    }
}

/// The type parameters `names` bound, in order, to the types the explicit
/// type arguments `args` stand for (a later binding of a name wins).
pub open spec fn explicit_substitution(t: SymbolTable, names: Seq<Seq<char>>, args: Seq<Identifier>) -> Map<
    Seq<char>,
    TypeModel,
>
    decreases names.len(),
{
    if names.len() == 0 || args.len() == 0 {
        Map::empty()
    } else {
        explicit_substitution(t, names.drop_last(), args.drop_last()).insert(
            names.last(),
            type_argument(t, args.last()),
        )
    }
}

/// Bindings of type parameters at some point of inference (the identity:
/// it names such bindings in the statements below).
pub open spec fn bindings(m: Map<Seq<char>, TypeModel>) -> Map<Seq<char>, TypeModel> {
    m
}

/// What inferring type arguments gives from the bindings `m` found: `m`
/// when every type parameter in `names` is bound, nothing otherwise.
pub open spec fn kept_bindings(names: Seq<Seq<char>>, m: Map<Seq<char>, TypeModel>) -> Map<Seq<char>, TypeModel> {
    if forall|q: int| 0 <= q < names.len() ==> m.contains_key(#[trigger] names[q]) {
        m
    } else {
        Map::empty()
    }
}

/// The types of the parameters of a function.
pub open spec fn param_models(g: FuncInfo) -> Seq<TypeModel> {
    g.param_types@.map_values(|p: TypeInfo| p@)
}

/// The bindings `m` of type parameters to types that the first `n`
/// arguments of `f` give, for parameters of the types `params`: each
/// argument at a parameter whose type is a type parameter is inferred (with
/// what was recorded before it, `mid`, which differs from `before` only
/// within the arguments before it), and its type binds that type parameter
/// when none is bound yet.
pub open spec fn type_bindings(
    t: SymbolTable,
    before: NodeTypes,
    f: FunctionCallExpression,
    params: Seq<TypeModel>,
    n: int,
    m: Map<Seq<char>, TypeModel>,
) -> bool
    decreases f, n,
{
    match f.arguments {
        Some(args) => if 0 < n <= args@.len() && n <= params.len() {
            exists|m0: Map<Seq<char>, TypeModel>|
                #![trigger bindings(m0)]
                type_bindings(t, before, f, params, n - 1, bindings(m0)) && match params[n - 1].kind {
                    KindModel::Generic(k) => exists|mid: NodeTypes, o: Option<TypeModel>|
                        #![trigger recorded(mid), operand(o)]
                        kept_outside_arguments(recorded(mid), before, f, n - 1) && inferred(
                            t,
                            recorded(mid),
                            args@[n - 1].1,
                            operand(o),
                        ) && match o {
                            Some(y) => if m0.contains_key(k) {
                                m == m0
                            } else {
                                m == m0.insert(k, y)
                            },
                            None => m == m0,
                        },
                    _ => m == m0,
                }
        } else {
            m == Map::<Seq<char>, TypeModel>::empty()
        },
        None => m == Map::<Seq<char>, TypeModel>::empty(),
    }
}

/// How many arguments of `f` type inference looks at for `g`: as many as
/// there are of both.
pub open spec fn inference_reach(f: FunctionCallExpression, g: FuncInfo) -> int {
    if argument_total(f) <= g.param_types@.len() {
        argument_total(f)
    } else {
        g.param_types@.len() as int
    }
}

/// What the call `f` of the function that `name` denotes gives: nothing for
/// an unknown function or a wrong number of arguments (when the call has an
/// argument list); the return type for a function without type parameters;
/// for a generic function, the return type with its type parameters
/// replaced by the explicit type arguments when their number is right,
/// unchanged when it is wrong, and replaced by the types that
/// `type_bindings` gives when there are none.
pub open spec fn call_result(
    t: SymbolTable,
    before: NodeTypes,
    name: Seq<char>,
    f: FunctionCallExpression,
    r: Option<TypeModel>,
) -> bool
    decreases f, argument_total(f) + 1,
{
    match t.lookup(name, Namespace::Functions) {
        None => r is None,
        Some(j) => {
            let g = t.entries@[j].symbol->Function_0;
            if f.arguments matches Some(a) && a@.len() != g.param_types@.len() {
                r is None
            } else if g.type_params@.len() == 0 {
                r == Some(g.return_type@)
            } else {
                match f.type_parameters {
                    Some(tps) => if tps@.len() != g.type_params@.len() {
                        r == Some(g.return_type@)
                    } else {
                        r == Some(
                            substituted(g.return_type@, explicit_substitution(t, views(g.type_params@), tps@)),
                        )
                    },
                    None => exists|m: Map<Seq<char>, TypeModel>|
                        #![trigger bindings(m)]
                        type_bindings(t, before, f, param_models(g), inference_reach(f, g), bindings(m)) && r
                            == Some(substituted(g.return_type@, kept_bindings(views(g.type_params@), m))),
                }
            }
        },
    }
}

/// The name under which `Owner::f(..)` looks for a method of `Owner`: a
/// named type's name, `qualifier::name` for qualified names, or an
/// identifier.
pub open spec fn associated_owner_spec(e: Expression) -> Option<Seq<char>> {
    match e {
        Expression::Type(Type::Custom(i)) => Some(i.name@),
        Expression::Type(Type::QualifiedName(q)) => Some(q.qualifier.name@ + "::"@ + q.name.name@),
        Expression::Type(Type::Qualified(q)) => Some(q.alias.name@ + "::"@ + q.name.name@),
        Expression::Identifier(i) => Some(i.name@),
        _ => None,
    }
}

/// Whether a unary operator accepts an operand of type `x`: `!` a boolean,
/// `-` a signed integer, `~` any integer.
pub open spec fn unary_accepts(op: UnaryOperatorKind, x: TypeModel) -> bool {
    match op {
        UnaryOperatorKind::Not => x.kind is Bool,
        UnaryOperatorKind::Neg => x.kind == KindModel::Number(NumberType::I8) || x.kind == KindModel::Number(
            NumberType::I16,
        ) || x.kind == KindModel::Number(NumberType::I32) || x.kind == KindModel::Number(NumberType::I64),
        UnaryOperatorKind::BitNot => x.kind is Number,
    }
}

/// The type of a binary operation on operands of types `l` and `r`:
/// logical operators give a boolean for boolean operands and nothing
/// otherwise, comparisons give a boolean, the other operators the left
/// operand's type.
pub open spec fn binary_type(op: OperatorKind, l: TypeModel, r: TypeModel) -> Option<TypeModel> {
    match op {
        OperatorKind::And | OperatorKind::Or => if l.kind is Bool && r.kind is Bool {
            Some(plain(KindModel::Bool))
        } else {
            None
        },
        OperatorKind::Eq | OperatorKind::Ne | OperatorKind::Lt | OperatorKind::Le | OperatorKind::Gt
        | OperatorKind::Ge => Some(plain(KindModel::Bool)),
        _ => Some(l),
    }
}

/// The element type of an array type.
pub open spec fn element_of(a: TypeModel) -> Option<TypeModel> {
    match a.kind {
        KindModel::Array(e, _) => Some(*e),
        _ => None,
    }
}

/// The type inferred for an operand, as it enters the type of the
/// expression around it (the identity: it names operand types in the
/// statements below).
pub open spec fn operand(o: Option<TypeModel>) -> Option<TypeModel> {
    o
}

/// The types recorded for nodes at some point of inference (the identity:
/// it names such a state in the statements below).
pub open spec fn recorded(n: NodeTypes) -> NodeTypes {
    n
}

/// What `array[index]` is inferred to be: a type already recorded for the
/// node, else the element type of the array's type.
pub open spec fn index_access_inferred(
    t: SymbolTable,
    before: NodeTypes,
    a: ArrayIndexAccessExpression,
    r: Option<TypeModel>,
) -> bool
    decreases a, 0nat,
{
    match before.type_of_node(a.id) {
        Some(c) => r == Some(c),
        None => exists|ao: Option<TypeModel>|
            inferred(t, before, a.array, #[trigger] operand(ao)) && r == match ao {
                Some(x) => element_of(x),
                None => None,
            },
    }
}

/// What `expression.name` is inferred to be: a type already recorded for
/// the node, else the type of the field `name` of the struct that the
/// receiver's type names.
pub open spec fn member_access_inferred(
    t: SymbolTable,
    before: NodeTypes,
    m: MemberAccessExpression,
    r: Option<TypeModel>,
) -> bool
    decreases m, 0nat,
{
    match before.type_of_node(m.id) {
        Some(c) => r == Some(c),
        None => exists|ro: Option<TypeModel>|
            inferred(t, before, m.expression, #[trigger] operand(ro)) && match ro {
                Some(o) => match receiver_struct(t, o) {
                    Some(n) => match r {
                        Some(x) => is_field_of(t, n, m.name.name@, x),
                        None => !has_field(t, n, m.name.name@),
                    },
                    None => r is None,
                },
                None => r is None,
            },
    }
}

/// What `Enum::Variant` is inferred to be: a type already recorded for the
/// node, else the enum that the owner names (by a name, or by its inferred
/// enum type), when it has the variant.
pub open spec fn variant_access_inferred(
    t: SymbolTable,
    before: NodeTypes,
    tm: TypeMemberAccessExpression,
    r: Option<TypeModel>,
) -> bool
    decreases tm, 0nat,
{
    match before.type_of_node(tm.id) {
        Some(c) => r == Some(c),
        None => match tm.expression {
            Expression::Identifier(i) => r == variant_type(t, i.name@, tm.name.name@),
            Expression::Type(Type::Custom(i)) => r == variant_type(t, i.name@, tm.name.name@),
            Expression::Type(_) => r is None,
            _ => exists|o: Option<TypeModel>|
                inferred(t, before, tm.expression, #[trigger] operand(o)) && r == match o {
                    Some(x) => match x.kind {
                        KindModel::Enum(n) => variant_type(t, n, tm.name.name@),
                        _ => None,
                    },
                    None => None,
                },
        },
    }
}

/// What a call is inferred to be: for `receiver.method(..)` the return type
/// of that method of the receiver's struct; for `Owner::f(..)` the return
/// type of the method `f` of `Owner` when there is one (and `Owner` is no
/// enum), else what `call_result` says of the function `f`; for any other
/// call what `call_result` says of the function it names.
pub open spec fn call_inferred(
    t: SymbolTable,
    before: NodeTypes,
    f: FunctionCallExpression,
    r: Option<TypeModel>,
) -> bool
    decreases f, argument_total(f) + 2,
{
    match f.function {
        Expression::MemberAccess(m) => exists|ro: Option<TypeModel>|
            inferred(t, before, m.expression, #[trigger] operand(ro)) && r == match ro {
                Some(o) => match receiver_struct(t, o) {
                    Some(n) => method_return(t, n, m.name.name@),
                    None => None,
                },
                None => None,
            },
        Expression::TypeMemberAccess(m) => match associated_owner_spec(m.expression) {
            Some(owner) => if !is_enum_named(t, owner) && method_return(t, owner, m.name.name@) is Some {
                r == method_return(t, owner, m.name.name@)
            } else {
                call_result(t, before, m.name.name@, f, r)
            },
            None => call_result(t, before, m.name.name@, f, r),
        },
        _ => call_result(t, before, f.spec_callee_name(), f, r),
    }
}

/// What a unary operation is inferred to be: nothing for a unary operator
/// applied to another one, else the operand's type when the operator
/// accepts it.
pub open spec fn unary_inferred(t: SymbolTable, before: NodeTypes, p: PrefixUnaryExpression, r: Option<TypeModel>) -> bool
    decreases p, 0nat,
{
    if is_prefix_unary_spec(p.expression) {
        r is None
    } else {
        exists|o: Option<TypeModel>|
            inferred(t, before, p.expression, #[trigger] operand(o)) && r == match o {
                Some(x) => if unary_accepts(p.operator, x) {
                    Some(x)
                } else {
                    None
                },
                None => None,
            }
    }
}

/// What a binary operation is inferred to be: a type already recorded for
/// the node, else what `binary_type` says of the operands' types; the right
/// operand is inferred after the left, with what that recorded (`mid`,
/// which differs from `before` only within the left operand).
pub open spec fn binary_inferred(t: SymbolTable, before: NodeTypes, b: BinaryExpression, r: Option<TypeModel>) -> bool
    decreases b, 0nat,
{
    match before.type_of_node(b.id) {
        Some(c) => r == Some(c),
        None => exists|lo: Option<TypeModel>, ro: Option<TypeModel>, mid: NodeTypes|
            #![trigger operand(lo), operand(ro), recorded(mid)]
            inferred(t, before, b.left, operand(lo)) && kept_outside(recorded(mid), before, b.left) && inferred(
                t,
                recorded(mid),
                b.right,
                operand(ro),
            ) && r
                == match (lo, ro) {
                (Some(l), Some(x)) => binary_type(b.operator, l, x),
                _ => None,
            },
    }
}

/// What a literal is inferred to be: booleans, strings and unit their
/// builtin types; a number a type already recorded for it, else `i32`; an
/// array a type already recorded for it, else an array of its first
/// element's type and of its length (nothing without an element list).
pub open spec fn literal_inferred(t: SymbolTable, before: NodeTypes, l: Literal, r: Option<TypeModel>) -> bool
    decreases l, 0nat,
{
    match l {
        Literal::Array(a) => match before.type_of_node(a.id) {
            Some(c) => r == Some(c),
            None => match a.elements {
                Some(els) => els@.len() > 0 && exists|o: Option<TypeModel>|
                    inferred(t, before, els@[0], #[trigger] operand(o)) && r == match o {
                        Some(x) => Some(
                            TypeModel {
                                kind: KindModel::Array(Box::new(x), els@.len() as u32),
                                type_params: Seq::empty(),
                            },
                        ),
                        None => None,
                    },
                None => r is None,
            },
        },
        Literal::Bool(_) => r == Some(plain(KindModel::Bool)),
        Literal::String(_) => r == Some(plain(KindModel::Str)),
        Literal::Unit(_) => r == Some(plain(KindModel::Unit)),
        Literal::Number(n) => r == Some(
            match before.type_of_node(n.id) {
                Some(c) => c,
                None => plain(KindModel::Number(NumberType::I32)),
            },
        ),
    }
}

/// What the type inferred for `e` is, given the symbol table `t` and the
/// types recorded for nodes before inference (`before`): a variable has its
/// declared type; a type expression the type it denotes; `@` the type its
/// context gave it; a struct value a type already recorded for it, else the
/// type its name denotes; parentheses the type of what they enclose; the
/// other expressions what the functions above say.
pub open spec fn inferred(t: SymbolTable, before: NodeTypes, e: Expression, r: Option<TypeModel>) -> bool
    decreases e, 0nat,
{
    match e {
        Expression::ArrayIndexAccess(a) => index_access_inferred(t, before, *a, r),
        Expression::MemberAccess(m) => member_access_inferred(t, before, *m, r),
        Expression::TypeMemberAccess(tm) => variant_access_inferred(t, before, *tm, r),
        Expression::FunctionCall(f) => call_inferred(t, before, *f, r),
        Expression::Struct(s) => r == match before.type_of_node(s.id) {
            Some(c) => Some(c),
            None => t.type_named(s.name.name@),
        },
        Expression::PrefixUnary(p) => unary_inferred(t, before, *p, r),
        Expression::Parenthesized(p) => inferred(t, before, p.expression, r),
        Expression::Binary(b) => binary_inferred(t, before, *b, r),
        Expression::Literal(l) => literal_inferred(t, before, l, r),
        Expression::Identifier(i) => r == t.variable_type(i.name@),
        Expression::Type(te) => r == Some(type_of(te, Seq::empty())),
        Expression::Uzumaki(u) => r == before.type_of_node(u.id),
    }
}

/// The expressions whose inference reuses a type already recorded for
/// their node: binary operations, member, index and variant accesses,
/// struct values, number literals and array literals.
pub open spec fn reuses_recorded(e: Expression) -> bool {
    match e {
        Expression::Binary(_) | Expression::MemberAccess(_) | Expression::ArrayIndexAccess(_)
        | Expression::TypeMemberAccess(_) | Expression::Struct(_) => true,
        Expression::Literal(Literal::Number(_)) | Expression::Literal(Literal::Array(_)) => true,
        _ => false,
    }
}

impl TypeChecker {
    /// Infers the type of an expression, records it for the expression's
    /// node, and reports the problems found. The symbol table is not changed.
    pub fn infer_expression(&mut self, expression: &Expression, nodes: &mut NodeTypes) -> (r: Option<TypeInfo>)
        requires
            old(self).wf(),
            expr_wf(*expression),
        ensures
            kept_outside(*final(nodes), *old(nodes), *expression),
            final(self).keeps_table(old(self)),
            r matches Some(t) ==> !(expression is Type) ==> final(nodes).type_of_node(expression.spec_node_id())
                == Some(t@),
            reuses_recorded(*expression) && old(nodes).type_of_node(expression.spec_node_id()) is Some
                ==> *final(nodes) == *old(nodes),
            inferred(old(self).symbol_table, *old(nodes), *expression, model_of(r)),
            reported(
                old(self).symbol_table,
                *old(nodes),
                *expression,
                report_state(*old(self)),
                report_state(*final(self)),
            ),
        decreases expression, 3nat,
    {
        match expression {
            Expression::ArrayIndexAccess(e) => self.infer_array_index_access(e, nodes),
            Expression::MemberAccess(e) => self.infer_member_access(e, nodes),
            Expression::TypeMemberAccess(e) => self.infer_type_member_access(e, nodes),
            Expression::FunctionCall(e) => self.infer_function_call(e, nodes),
            Expression::Struct(struct_expression) => {
                if let Some(type_info) = nodes.get_node_typeinfo(struct_expression.id) {
                    return Some(type_info);
                }
                match self.symbol_table.lookup_type(&struct_expression.name.name) {
                    Some(struct_type) => {
                        nodes.set_node_typeinfo(struct_expression.id, struct_type.duplicate());
                        Some(struct_type)
                    },
                    None => {
                        self.push_error_dedup(
                            TypeCheckError::UndefinedStruct {
                                name: struct_expression.name.name.clone(),
                                location: struct_expression.location,
                            },
                        );
                        None
                    },
                }
            },
            Expression::PrefixUnary(e) => self.infer_prefix_unary(e, nodes),
            Expression::Parenthesized(parenthesized_expression) => {
                let inner_type = self.infer_expression(&parenthesized_expression.expression, nodes);
                if let Some(type_info) = &inner_type {
                    nodes.set_node_typeinfo(parenthesized_expression.id, type_info.duplicate());
                }
                inner_type
            },
            Expression::Binary(e) => self.infer_binary(e, nodes),
            Expression::Literal(literal) => self.infer_literal(literal, nodes),
            Expression::Identifier(identifier) => {
                match self.symbol_table.lookup_variable(&identifier.name) {
                    Some(var_ty) => {
                        nodes.set_node_typeinfo(identifier.id, var_ty.duplicate());
                        Some(var_ty)
                    },
                    None => {
                        self.push_error_dedup(
                            TypeCheckError::UnknownIdentifier {
                                name: identifier.name.clone(),
                                location: identifier.location,
                            },
                        );
                        None
                    },
                }
            },
            Expression::Type(type_expr) => {
                let type_info = TypeInfo::new(type_expr);
                nodes.set_node_typeinfo(type_expr.node_id(), type_info.duplicate());
                if let Type::Array(array_type) = type_expr {
                    let ghost mid = *nodes;
                    proof {
                        assert(recorded(mid) == mid);
                    }
                    self.infer_expression(&array_type.size, nodes);
                }
                Some(type_info)
            },
            Expression::Uzumaki(uzumaki) => nodes.get_node_typeinfo(uzumaki.id),
        }
    }

    /// `array[index]`: the element type of an array; the index must be a number.
    fn infer_array_index_access(&mut self, e: &ArrayIndexAccessExpression, nodes: &mut NodeTypes) -> (r: Option<TypeInfo>)
        requires
            old(self).wf(),
            expr_wf(e.array),
            expr_wf(e.index),
        ensures
            old(nodes).type_of_node(e.id) is Some ==> *final(nodes) == *old(nodes),
            kept_outside(*final(nodes), *old(nodes), Expression::ArrayIndexAccess(Box::new(*e))),
            final(self).keeps_table(old(self)),
            r matches Some(t) ==> final(nodes).type_of_node(e.id) == Some(t@),
            index_access_inferred(old(self).symbol_table, *old(nodes), *e, model_of(r)),
            index_access_reported(old(self).symbol_table, *old(nodes), *e, report_state(*old(self)), report_state(*final(self))),
        decreases e, 0nat,
    {
        if let Some(type_info) = nodes.get_node_typeinfo(e.id) {
            return Some(type_info);
        }
        let ghost n0 = *nodes;
        let ghost ee = Expression::ArrayIndexAccess(Box::new(*e));
        proof {
            lemma_kept_refl(n0, ee);
            lemma_parts_within(ee);
        }
        let array_result = self.infer_expression(&e.array, nodes);
        proof {
            lemma_kept_part(n0, n0, *nodes, e.array, ee);
        }
        let ghost sa = report_state(*self);
        proof {
            assert(operand(model_of(array_result)) == model_of(array_result));
            assert(stage(sa) == sa);
        }
        match array_result {
            Some(array_type) => {
                let ghost at = array_type@;
                let ghost mid = *nodes;
                let index_result = self.infer_expression(&e.index, nodes);
                proof {
                    lemma_kept_part(n0, mid, *nodes, e.index, ee);
                }
                let ghost si = report_state(*self);
                let ghost io = model_of(index_result);
                proof {
                    assert(operand(io) == io);
                    assert(recorded(mid) == mid);
                    assert(stage(si) == si);
                    lemma_pushes_none(si);
                }
                let ghost mut rs: Seq<Report> = Seq::empty();
                if let Some(index_type) = index_result {
                    if !index_type.is_number() {
                        let ghost r = Report::IndexNotNumeric(index_type@, e.location);
                        self.push_report(
                            TypeCheckError::ArrayIndexNotNumeric { found: index_type, location: e.location },
                            Ghost(r),
                            Ghost(si),
                            Ghost(rs),
                        );
                        proof {
                            rs = rs.push(r);
                        }
                    }
                }
                match &array_type.kind {
                    TypeInfoKind::Array(element_type, _) => {
                        let t = element_type.duplicate();
                        let ghost n1 = *nodes;
                        nodes.set_node_typeinfo(e.id, t.duplicate());
                        proof {
                            lemma_kept_record(n0, n1, *nodes, ee, e.id, t@);
                        }
                        proof {
                            assert(element_of(array_type@) == Some(t@));
                            assert(rs =~= crate::reports::index_reports(io, array_type@, e.location));
                        }
                        Some(t)
                    },
                    _ => {
                        let ghost r = Report::NotArray(array_type@, e.location);
                        self.push_report(
                            TypeCheckError::ExpectedArrayType { found: array_type, location: e.location },
                            Ghost(r),
                            Ghost(si),
                            Ghost(rs),
                        );
                        proof {
                            rs = rs.push(r);
                            assert(rs =~= crate::reports::index_reports(io, at, e.location));
                        }
                        None
                    },
                }
            },
            None => None,
        }
    }

    /// `expression.name`: the type of a field of a struct receiver.
    fn infer_member_access(&mut self, e: &MemberAccessExpression, nodes: &mut NodeTypes) -> (r: Option<TypeInfo>)
        requires
            old(self).wf(),
            expr_wf(e.expression),
        ensures
            old(nodes).type_of_node(e.id) is Some ==> *final(nodes) == *old(nodes),
            kept_outside(*final(nodes), *old(nodes), Expression::MemberAccess(Box::new(*e))),
            final(self).keeps_table(old(self)),
            r matches Some(t) ==> final(nodes).type_of_node(e.id) == Some(t@),
            member_access_inferred(old(self).symbol_table, *old(nodes), *e, model_of(r)),
            member_access_reported(old(self).symbol_table, *old(nodes), *e, report_state(*old(self)), report_state(*final(self))),
        decreases e, 0nat,
    {
        if let Some(type_info) = nodes.get_node_typeinfo(e.id) {
            return Some(type_info);
        }
        let ghost n0 = *nodes;
        let ghost ee = Expression::MemberAccess(Box::new(*e));
        proof {
            lemma_kept_refl(n0, ee);
            lemma_parts_within(ee);
        }
        let object_result = self.infer_expression(&e.expression, nodes);
        proof {
            lemma_kept_part(n0, n0, *nodes, e.expression, ee);
        }
        let ghost sr = report_state(*self);
        proof {
            assert(operand(model_of(object_result)) == model_of(object_result));
            assert(stage(sr) == sr);
            lemma_pushes_none(sr);
        }
        let object_type = match object_result {
            Some(t) => t,
            None => {
                return None;
            },
        };
        let struct_name = match struct_name_of(&self.symbol_table, &object_type) {
            Some(n) => n,
            None => {
                let ghost r = Report::NotStruct(object_type@, e.location);
                proof {
                    assert(Seq::<Report>::empty().push(r) =~= seq![r]);
                }
                self.push_report(
                    TypeCheckError::ExpectedStructType { found: object_type, location: e.location },
                    Ghost(r),
                    Ghost(sr),
                    Ghost(Seq::empty()),
                );
                return None;
            },
        };
        let field_name = &e.name.name;
        let ghost missing = Report::FieldMissing(struct_name@, field_name@, e.location);
        proof {
            assert(Seq::<Report>::empty().push(missing) =~= seq![missing]);
        }
        let j = match self.symbol_table.lookup_struct(&struct_name) {
            Some(j) => j,
            None => {
                self.push_report(
                    TypeCheckError::FieldNotFound {
                        struct_name,
                        field_name: field_name.clone(),
                        location: e.location,
                    },
                    Ghost(missing),
                    Ghost(sr),
                    Ghost(Seq::empty()),
                );
                return None;
            },
        };
        let info = self.symbol_table.struct_at(j);
        match info.field_index(field_name) {
            Some(fi) => {
                let visibility = info.fields[fi].visibility;
                let scope = info.definition_scope_id;
                let field_type = info.fields[fi].type_info.duplicate();
                let context = VisibilityContext::Field { struct_name: struct_name.clone(), field_name: field_name.clone() };
                let ghost private = TypeCheckError::PrivateAccessViolation { context, location: e.location };
                proof {
                    assert(crate::reports::is_report(private, Report::PrivateField(struct_name@, field_name@, e.location)));
                }
                let ghost t0 = self.symbol_table;
                self.check_and_report_visibility(visibility, scope, &e.location, context);
                proof {
                    let ghost k = fi as int;
                    assert(self.symbol_table.entries@[j as int].symbol->Struct_0.fields@[k].name@ == field_name@);
                    if self.errors@.len() > sr.1.len() {
                        crate::reports::lemma_pushes_more(
                            sr,
                            Seq::empty(),
                            sr,
                            private,
                            Report::PrivateField(struct_name@, field_name@, e.location),
                        );
                        assert(Seq::<Report>::empty().push(Report::PrivateField(struct_name@, field_name@, e.location))
                            =~= seq![Report::PrivateField(struct_name@, field_name@, e.location)]);
                    }
                }
                let ghost n1 = *nodes;
                nodes.set_node_typeinfo(e.id, field_type.duplicate());
                proof {
                    lemma_kept_record(n0, n1, *nodes, ee, e.id, field_type@);
                    let ghost k = fi as int;
                    assert(old(self).symbol_table.entries@[j as int].symbol->Struct_0.fields@[k].type_info@ == field_type@);
                    assert(is_field_of(old(self).symbol_table, struct_name@, field_name@, field_type@));
                    assert(member_access_inferred(old(self).symbol_table, *old(nodes), *e, Some(field_type@)));
                }
                Some(field_type)
            },
            None => {
                self.push_report(
                    TypeCheckError::FieldNotFound {
                        struct_name,
                        field_name: field_name.clone(),
                        location: e.location,
                    },
                    Ghost(missing),
                    Ghost(sr),
                    Ghost(Seq::empty()),
                );
                proof {
                    assert(!has_field(old(self).symbol_table, struct_name@, field_name@));
                    assert(member_access_inferred(old(self).symbol_table, *old(nodes), *e, None));
                }
                None
            },
        }
    }

    /// `Enum::Variant`: the enum's type, when it has that variant.
    fn infer_type_member_access(&mut self, e: &TypeMemberAccessExpression, nodes: &mut NodeTypes) -> (r: Option<TypeInfo>)
        requires
            old(self).wf(),
            expr_wf(e.expression),
        ensures
            old(nodes).type_of_node(e.id) is Some ==> *final(nodes) == *old(nodes),
            kept_outside(*final(nodes), *old(nodes), Expression::TypeMemberAccess(Box::new(*e))),
            final(self).keeps_table(old(self)),
            r matches Some(t) ==> final(nodes).type_of_node(e.id) == Some(t@),
            variant_access_inferred(old(self).symbol_table, *old(nodes), *e, model_of(r)),
            variant_access_reported(old(self).symbol_table, *old(nodes), *e, report_state(*old(self)), report_state(*final(self))),
        decreases e, 0nat,
    {
        if let Some(type_info) = nodes.get_node_typeinfo(e.id) {
            return Some(type_info);
        }
        let ghost s0 = report_state(*self);
        let ghost mut so = s0;
        let ghost n0 = *nodes;
        let ghost ee = Expression::TypeMemberAccess(Box::new(*e));
        proof {
            lemma_kept_refl(n0, ee);
            lemma_parts_within(ee);
        }
        proof {
            lemma_pushes_none(s0);
        }
        let enum_name = match &e.expression {
            Expression::Type(ty) => match ty {
                Type::Custom(ident) => ident.name.clone(),
                _ => {
                    let ghost r = Report::NotEnum(type_of(*ty, Seq::empty()), e.location);
                    proof {
                        assert(Seq::<Report>::empty().push(r) =~= seq![r]);
                    }
                    self.push_report(
                        TypeCheckError::ExpectedEnumType { found: TypeInfo::new(ty), location: e.location },
                        Ghost(r),
                        Ghost(s0),
                        Ghost(Seq::empty()),
                    );
                    return None;
                },
            },
            Expression::Identifier(id) => id.name.clone(),
            _ => {
                let owner_result = self.infer_expression(&e.expression, nodes);
                proof {
                    lemma_kept_part(n0, n0, *nodes, e.expression, ee);
                }
                proof {
                    so = report_state(*self);
                    assert(operand(model_of(owner_result)) == model_of(owner_result));
                    assert(stage(so) == so);
                    lemma_pushes_none(so);
                }
                match owner_result {
                    Some(expr_type) => match &expr_type.kind {
                        TypeInfoKind::Enum(name) => name.clone(),
                        _ => {
                            let ghost r = Report::NotEnum(expr_type@, e.location);
                            proof {
                                assert(Seq::<Report>::empty().push(r) =~= seq![r]);
                            }
                            self.push_report(
                                TypeCheckError::ExpectedEnumType { found: expr_type, location: e.location },
                                Ghost(r),
                                Ghost(so),
                                Ghost(Seq::empty()),
                            );
                            return None;
                        },
                    },
                    None => {
                        return None;
                    },
                }
            },
        };
        let variant_name = &e.name.name;
        match self.symbol_table.lookup_enum(&enum_name) {
            Some(j) => {
                let info = self.symbol_table.enum_at(j);
                if crate::text::contains_string(&info.variants, variant_name) {
                    let visibility = info.visibility;
                    let scope = info.definition_scope_id;
                    let context = VisibilityContext::Enum { name: enum_name.clone() };
                    let ghost r = Report::PrivateEnum(enum_name@, e.location);
                    let ghost private = TypeCheckError::PrivateAccessViolation { context, location: e.location };
                    proof {
                        assert(crate::reports::is_report(private, r));
                    }
                    self.check_and_report_visibility(visibility, scope, &e.location, context);
                    proof {
                        if self.errors@.len() > so.1.len() {
                            crate::reports::lemma_pushes_more(so, Seq::empty(), so, private, r);
                            assert(Seq::<Report>::empty().push(r) =~= seq![r]);
                        }
                    }
                    let enum_type = TypeInfo::of_kind(TypeInfoKind::Enum(enum_name));
                    let ghost n1 = *nodes;
                    nodes.set_node_typeinfo(e.id, enum_type.duplicate());
                    proof {
                        lemma_kept_record(n0, n1, *nodes, ee, e.id, enum_type@);
                    }
                    Some(enum_type)
                } else {
                    let ghost r = Report::VariantMissing(enum_name@, variant_name@, e.location);
                    proof {
                        assert(Seq::<Report>::empty().push(r) =~= seq![r]);
                    }
                    self.push_report(
                        TypeCheckError::VariantNotFound {
                            enum_name,
                            variant_name: variant_name.clone(),
                            location: e.location,
                        },
                        Ghost(r),
                        Ghost(so),
                        Ghost(Seq::empty()),
                    );
                    None
                }
            },
            None => {
                let ghost key = "UndefinedEnum:"@ + enum_name@;
                let ghost keys0 = key_set_contents(self.reported_error_keys);
                self.push_error_dedup(TypeCheckError::UndefinedEnum { name: enum_name, location: e.location });
                proof {
                    if keys0.contains(key) {
                        assert(keys0.insert(key) =~= keys0);
                    } else {
                        assert(self.errors@.drop_last() =~= so.1);
                    }
                }
                None
            },
        }
    }
}


/// The name that `Type::function` calls are looked up under: a custom type's
/// name, `qualifier::name` for qualified names, or an identifier.
fn associated_owner(e: &Expression) -> (r: Option<String>)
    ensures
        match r {
            Some(s) => associated_owner_spec(*e) == Some(s@),
            None => associated_owner_spec(*e) is None,
        },
{
    match e {
        Expression::Type(ty) => match ty {
            Type::Custom(ident) => Some(ident.name.clone()),
            Type::QualifiedName(qn) => Some(path_text(&qn.qualifier.name, &qn.name.name)),
            Type::Qualified(tqn) => Some(path_text(&tqn.alias.name, &tqn.name.name)),
            _ => None,
        },
        Expression::Identifier(id) => Some(id.name.clone()),
        _ => None,
    }
}

fn argument_count(f: &FunctionCallExpression) -> (r: usize)
    ensures
        r == match f.arguments {
            Some(a) => a@.len(),
            None => 0,
        },
{
    match &f.arguments {
        Some(a) => a.len(),
        None => 0,
    }
}

impl TypeChecker {
    /// Infers every argument of a call, for their types and errors.
    #[verifier::loop_isolation(false)]
    fn infer_arguments(&mut self, f: &FunctionCallExpression, nodes: &mut NodeTypes)
        requires
            old(self).wf(),
            expr_wf(Expression::FunctionCall(Box::new(*f))),
        ensures
            kept_outside_arguments(*final(nodes), *old(nodes), *f, argument_total(*f)),
            final(self).keeps_table(old(self)),
            crate::reports::arguments_reported(
                old(self).symbol_table,
                *old(nodes),
                *f,
                crate::reports::argument_count_of(*f) as int,
                report_state(*old(self)),
                report_state(*final(self)),
            ),
        decreases f, 0nat,
    {
        if let Some(arguments) = &f.arguments {
            let mut i: usize = 0;
            while i < arguments.len()
                invariant
                    i <= arguments@.len(),
                    self.keeps_table(old(self)),
                    crate::reports::arguments_reported(
                        old(self).symbol_table,
                        *old(nodes),
                        *f,
                        i as int,
                        report_state(*old(self)),
                        report_state(*self),
                    ),
                    kept_outside_arguments(*nodes, *old(nodes), *f, i as int),
                decreases arguments@.len() - i,
            {
                let ghost sp = report_state(*self);
                let ghost mid = *nodes;
                proof {
                    assert(stage(sp) == sp);
                    assert(recorded(mid) == mid);
                }
                proof {
                    let ghost a = arguments@[i as int];
                    assert(decreases_to!(*f => f.arguments));
                    assert(decreases_to!(f.arguments => *arguments));
                    assert(decreases_to!(*arguments => arguments@));
                    assert(decreases_to!(arguments@ => a));
                    assert(decreases_to!(a => a.1));
                }
                self.infer_expression(&arguments[i].1, nodes);
                proof {
                    lemma_kept_arguments_step(*old(nodes), mid, *nodes, *f, i as int);
                }
                i = i + 1;
            }
        }
    }

    /// A call `Type::method(..)` of a method registered on `Type`: its return
    /// type. `None` when the callee is not such a method, and the call is
    /// handled as an ordinary function call.
    fn infer_associated_call(&mut self, f: &FunctionCallExpression, tma: &TypeMemberAccessExpression, nodes: &mut NodeTypes) -> (r: Option<Option<TypeInfo>>)
        requires
            old(self).wf(),
            expr_wf(Expression::FunctionCall(Box::new(*f))),
            f.function == Expression::TypeMemberAccess(Box::new(*tma)),
        ensures
            kept_outside(*final(nodes), *old(nodes), Expression::FunctionCall(Box::new(*f))),
            final(self).keeps_table(old(self)),
            r is None ==> report_state(*final(self)) == report_state(*old(self)) && *final(nodes) == *old(nodes),
            r is Some ==> crate::reports::call_reported(
                old(self).symbol_table,
                *old(nodes),
                *f,
                report_state(*old(self)),
                report_state(*final(self)),
            ),
            r matches Some(Some(t)) ==> final(nodes).type_of_node(f.id) == Some(t@),
            match associated_owner_spec(tma.expression) {
                Some(owner) => if !is_enum_named(old(self).symbol_table, owner) && method_return(
                    old(self).symbol_table,
                    owner,
                    tma.name.name@,
                ) is Some {
                    r matches Some(x) && model_of(x) == method_return(old(self).symbol_table, owner, tma.name.name@)
                } else {
                    r is None
                },
                None => r is None,
            },
        decreases f, 1nat,
    {
        let ghost s0 = report_state(*self);
        let ghost n0 = *nodes;
        let ghost ee = Expression::FunctionCall(Box::new(*f));
        proof {
            lemma_kept_refl(n0, ee);
        }
        let owner = match associated_owner(&tma.expression) {
            Some(o) => o,
            None => {
                return None;
            },
        };
        let method_name = &tma.name.name;
        if self.symbol_table.lookup_enum(&owner).is_some() {
            return None;
        }
        let j = match self.symbol_table.lookup_method(&owner, method_name) {
            Some(j) => j,
            None => {
                return None;
            },
        };
        let info = self.symbol_table.method_at(j);
        let has_self = info.is_instance_method();
        let visibility = info.visibility;
        let scope = info.scope_id;
        let param_count = info.signature.param_types.len();
        let return_type = info.signature.return_type.duplicate();
        proof {
            lemma_pushes_none(s0);
        }
        let ghost mut rs: Seq<Report> = Seq::empty();
        if has_self {
            let ghost r = Report::InstanceAsAssociated(owner@, method_name@, tma.location);
            self.push_report(
                TypeCheckError::InstanceMethodCalledAsAssociated {
                    owner_type: owner.clone(),
                    method_name: method_name.clone(),
                    location: tma.location,
                },
                Ghost(r),
                Ghost(s0),
                Ghost(rs),
            );
            proof {
                rs = rs.push(r);
            }
        }
        let context = VisibilityContext::Method { owner_type: owner.clone(), method_name: method_name.clone() };
        let ghost hidden = Report::PrivateMethod(owner@, method_name@, tma.location);
        let ghost private = TypeCheckError::PrivateAccessViolation { context, location: tma.location };
        let ghost st = report_state(*self);
        let shown = self.check_and_report_visibility(visibility, scope, &tma.location, context);
        proof {
            if !shown {
                crate::reports::lemma_pushes_more(s0, rs, st, private, hidden);
                rs = rs.push(hidden);
            }
        }
        let arg_count = argument_count(f);
        if arg_count != param_count {
            let ghost r = Report::ArgumentCount("method"@, owner@ + "::"@ + method_name@, param_count, arg_count, f.location);
            self.push_report(
                TypeCheckError::ArgumentCountMismatch {
                    kind: "method",
                    name: path_text(&owner, method_name),
                    expected: param_count,
                    found: arg_count,
                    location: f.location,
                },
                Ghost(r),
                Ghost(s0),
                Ghost(rs),
            );
            proof {
                rs = rs.push(r);
            }
        }
        let ghost sx = report_state(*self);
        proof {
            assert(rs =~= crate::reports::method_reports(
                old(self).symbol_table,
                owner@,
                method_name@,
                old(self).symbol_table.methods@[j as int],
                *f,
                false,
                tma.location,
            ));
            assert(stage(sx) == sx);
        }
        self.infer_arguments(f, nodes);
        proof {
            lemma_kept_after_arguments(n0, n0, *nodes, *f);
        }
        let ghost n2 = *nodes;
        let function_type = TypeInfo::of_kind(TypeInfoKind::Function(path_text(&owner, method_name)));
        let ghost ft = function_type@;
        nodes.set_node_typeinfo(tma.id, function_type);
        let ghost n3 = *nodes;
        proof {
            assert(within(tma.id, f.function));
            lemma_parts_within(ee);
            lemma_kept_record(n0, n2, n3, ee, tma.id, ft);
        }
        nodes.set_node_typeinfo(f.id, return_type.duplicate());
        proof {
            lemma_kept_record(n0, n3, *nodes, ee, f.id, return_type@);
        }
        Some(Some(return_type))
    }

    /// A call `receiver.method(..)`: the method's return type.
    fn infer_method_call(&mut self, f: &FunctionCallExpression, ma: &MemberAccessExpression, nodes: &mut NodeTypes) -> (r: Option<TypeInfo>)
        requires
            old(self).wf(),
            expr_wf(Expression::FunctionCall(Box::new(*f))),
            f.function == Expression::MemberAccess(Box::new(*ma)),
        ensures
            kept_outside(*final(nodes), *old(nodes), Expression::FunctionCall(Box::new(*f))),
            final(self).keeps_table(old(self)),
            r matches Some(t) ==> final(nodes).type_of_node(f.id) == Some(t@),
            call_inferred(old(self).symbol_table, *old(nodes), *f, model_of(r)),
            crate::reports::call_reported(
                old(self).symbol_table,
                *old(nodes),
                *f,
                report_state(*old(self)),
                report_state(*final(self)),
            ),
        decreases f, 1nat,
    {
        proof {
            assert(decreases_to!(*f => f.function));
            assert(decreases_to!(f.function => f.function->MemberAccess_0));
            assert(f.function->MemberAccess_0 == *ma);
            assert(decreases_to!(*ma => ma.expression));
            assert(expr_wf(f.function));
            assert(expr_wf(ma.expression));
        }
        let ghost n0 = *nodes;
        let ghost ee = Expression::FunctionCall(Box::new(*f));
        proof {
            lemma_kept_refl(n0, ee);
            lemma_parts_within(ee);
            lemma_parts_within(f.function);
            lemma_lies_trans(ma.expression, f.function, ee);
        }
        let receiver_result = self.infer_expression(&ma.expression, nodes);
        proof {
            lemma_kept_part(n0, n0, *nodes, ma.expression, ee);
            assert(recorded(*nodes) == *nodes);
        }
        let ghost n1 = *nodes;
        let ghost sr = report_state(*self);
        proof {
            assert(operand(model_of(receiver_result)) == model_of(receiver_result));
            assert(stage(sr) == sr);
            lemma_pushes_none(sr);
        }
        let receiver_type = match receiver_result {
            Some(t) => t,
            None => {
                self.infer_arguments(f, nodes);
                proof {
                    lemma_kept_after_arguments(n0, n1, *nodes, *f);
                }
                return None;
            },
        };
        let owner = match struct_name_of(&self.symbol_table, &receiver_type) {
            Some(n) => n,
            None => {
                let ghost r = Report::MethodOnNonStruct(receiver_type@, f.location);
                proof {
                    assert(Seq::<Report>::empty().push(r) =~= seq![r]);
                }
                self.push_report(
                    TypeCheckError::MethodCallOnNonStruct { found: receiver_type, location: f.location },
                    Ghost(r),
                    Ghost(sr),
                    Ghost(Seq::empty()),
                );
                let ghost sx = report_state(*self);
                proof {
                    assert(stage(sx) == sx);
                }
                self.infer_arguments(f, nodes);
                proof {
                    lemma_kept_after_arguments(n0, n1, *nodes, *f);
                }
                return None;
            },
        };
        let method_name = &ma.name.name;
        let j = match self.symbol_table.lookup_method(&owner, method_name) {
            Some(j) => j,
            None => {
                let ghost r = Report::MethodMissing(owner@, method_name@, ma.location);
                proof {
                    assert(Seq::<Report>::empty().push(r) =~= seq![r]);
                }
                self.push_report(
                    TypeCheckError::MethodNotFound {
                        owner_type: owner,
                        method_name: method_name.clone(),
                        location: ma.location,
                    },
                    Ghost(r),
                    Ghost(sr),
                    Ghost(Seq::empty()),
                );
                return None;
            },
        };
        let info = self.symbol_table.method_at(j);
        let has_self = info.is_instance_method();
        let visibility = info.visibility;
        let scope = info.scope_id;
        let param_count = info.signature.param_types.len();
        let return_type = info.signature.return_type.duplicate();
        let ghost mut rs: Seq<Report> = Seq::empty();
        if !has_self {
            let ghost r = Report::AssociatedAsMethod(owner@, method_name@, ma.location);
            self.push_report(
                TypeCheckError::AssociatedFunctionCalledAsMethod {
                    owner_type: owner.clone(),
                    method_name: method_name.clone(),
                    location: ma.location,
                },
                Ghost(r),
                Ghost(sr),
                Ghost(rs),
            );
            proof {
                rs = rs.push(r);
            }
        }
        let context = VisibilityContext::Method { owner_type: owner.clone(), method_name: method_name.clone() };
        let ghost hidden = Report::PrivateMethod(owner@, method_name@, ma.location);
        let ghost private = TypeCheckError::PrivateAccessViolation { context, location: ma.location };
        let ghost st = report_state(*self);
        let shown = self.check_and_report_visibility(visibility, scope, &ma.location, context);
        proof {
            if !shown {
                crate::reports::lemma_pushes_more(sr, rs, st, private, hidden);
                rs = rs.push(hidden);
            }
        }
        let arg_count = argument_count(f);
        if arg_count != param_count {
            let ghost r = Report::ArgumentCount("method"@, owner@ + "::"@ + method_name@, param_count, arg_count, f.location);
            self.push_report(
                TypeCheckError::ArgumentCountMismatch {
                    kind: "method",
                    name: path_text(&owner, method_name),
                    expected: param_count,
                    found: arg_count,
                    location: f.location,
                },
                Ghost(r),
                Ghost(sr),
                Ghost(rs),
            );
            proof {
                rs = rs.push(r);
            }
        }
        let ghost sx = report_state(*self);
        proof {
            assert(rs =~= crate::reports::method_reports(
                old(self).symbol_table,
                owner@,
                method_name@,
                old(self).symbol_table.methods@[j as int],
                *f,
                true,
                ma.location,
            ));
            assert(stage(sx) == sx);
        }
        self.infer_arguments(f, nodes);
        proof {
            lemma_kept_after_arguments(n0, n1, *nodes, *f);
        }
        let ghost n2 = *nodes;
        let function_type = TypeInfo::of_kind(TypeInfoKind::Function(path_text(&owner, method_name)));
        let ghost ft = function_type@;
        nodes.set_node_typeinfo(ma.id, function_type);
        let ghost n3 = *nodes;
        proof {
            assert(within(ma.id, f.function));
            lemma_kept_record(n0, n2, n3, ee, ma.id, ft);
        }
        nodes.set_node_typeinfo(f.id, return_type.duplicate());
        proof {
            lemma_kept_record(n0, n3, *nodes, ee, f.id, return_type@);
        }
        Some(return_type)
    }

    /// A call: through `Type::method` or `receiver.method` to a method, else
    /// to the function of that name, whose return type, with its type
    /// parameters replaced by the explicit or inferred type arguments, is the
    /// call's type.
    fn infer_function_call(&mut self, f: &FunctionCallExpression, nodes: &mut NodeTypes) -> (r: Option<TypeInfo>)
        requires
            old(self).wf(),
            expr_wf(Expression::FunctionCall(Box::new(*f))),
        ensures
            kept_outside(*final(nodes), *old(nodes), Expression::FunctionCall(Box::new(*f))),
            final(self).keeps_table(old(self)),
            r matches Some(t) ==> final(nodes).type_of_node(f.id) == Some(t@),
            call_inferred(old(self).symbol_table, *old(nodes), *f, model_of(r)),
            crate::reports::call_reported(
                old(self).symbol_table,
                *old(nodes),
                *f,
                report_state(*old(self)),
                report_state(*final(self)),
            ),
        decreases f, 2nat,
    {
        let ghost s0 = report_state(*self);
        let ghost n0 = *nodes;
        let ghost ee = Expression::FunctionCall(Box::new(*f));
        proof {
            lemma_kept_refl(n0, ee);
        }
        if let Expression::TypeMemberAccess(tma) = &f.function {
            if let Some(result) = self.infer_associated_call(f, tma, nodes) {
                return result;
            }
        }
        let ghost n1 = *nodes;
        if let Expression::MemberAccess(ma) = &f.function {
            return self.infer_method_call(f, ma, nodes);
        }
        let name = f.name();
        proof {
            lemma_pushes_none(s0);
        }
        let j = match self.symbol_table.lookup_function(&name) {
            Some(j) => {
                let info = self.symbol_table.function_at(j);
                let visibility = info.visibility;
                let scope = info.definition_scope_id;
                let context = VisibilityContext::Function { name: name.clone() };
                let ghost private = TypeCheckError::PrivateAccessViolation { context, location: f.location };
                let shown = self.check_and_report_visibility(visibility, scope, &f.location, context);
                proof {
                    if !shown {
                        crate::reports::lemma_pushes_more(
                            s0,
                            Seq::empty(),
                            s0,
                            private,
                            Report::PrivateFunction(name@, f.location),
                        );
                    }
                }
                j
            },
            None => {
                let ghost key = "UndefinedFunction:"@ + name@;
                let ghost keys0 = key_set_contents(self.reported_error_keys);
                self.push_error_dedup(TypeCheckError::UndefinedFunction { name, location: f.location });
                let ghost sx = report_state(*self);
                proof {
                    assert(stage(sx) == sx);
                    if keys0.contains(key) {
                        assert(keys0.insert(key) =~= keys0);
                    } else {
                        assert(self.errors@.drop_last() =~= s0.1);
                    }
                }
                self.infer_arguments(f, nodes);
                proof {
                    lemma_kept_after_arguments(n0, n1, *nodes, *f);
                }
                return None;
            },
        };
        let ghost g = self.symbol_table.entries@[j as int].symbol->Function_0;
        let ghost hidden = if crate::type_checker::visible(
            self.symbol_table,
            g.visibility,
            g.definition_scope_id,
            self.symbol_table.current,
        ) {
            Seq::<Report>::empty()
        } else {
            seq![Report::PrivateFunction(name@, f.location)]
        };
        proof {
            if hidden.len() > 0 {
                assert(Seq::<Report>::empty().push(Report::PrivateFunction(name@, f.location)) =~= hidden);
            }
        }
        let ghost sv = report_state(*self);
        proof {
            assert(crate::reports::pushes(s0, hidden, sv));
        }
        let signature = self.symbol_table.function_at(j).duplicate();
        proof {
            assert(views(signature.type_params@).len() == signature.type_params@.len());
            assert(views(g.type_params@).len() == g.type_params@.len());
        }
        let param_count = signature.param_types.len();
        if let Some(arguments) = &f.arguments {
            if arguments.len() != param_count {
                let ghost r = Report::ArgumentCount("function"@, name@, param_count, arguments.len(), f.location);
                self.push_report(
                    TypeCheckError::ArgumentCountMismatch {
                        kind: "function",
                        name: f.name(),
                        expected: param_count,
                        found: arguments.len(),
                        location: f.location,
                    },
                    Ghost(r),
                    Ghost(s0),
                    Ghost(hidden),
                );
                let ghost sx = report_state(*self);
                proof {
                    assert(stage(sx) == sx);
                    assert(hidden.push(r) =~= hidden + seq![r]);
                }
                self.infer_arguments(f, nodes);
                proof {
                    lemma_kept_after_arguments(n0, n1, *nodes, *f);
                }
                return None;
            }
        }
        let ghost mut sx = sv;
        let substitutions = if signature.type_params.len() > 0 {
            if let Some(type_parameters) = &f.type_parameters {
                if type_parameters.len() != signature.type_params.len() {
                    let ghost r = Report::TypeArgumentCount(
                        name@,
                        signature.type_params.len(),
                        type_parameters.len(),
                        f.location,
                    );
                    self.push_report(
                        TypeCheckError::TypeParameterCountMismatch {
                            name: f.name(),
                            expected: signature.type_params.len(),
                            found: type_parameters.len(),
                            location: f.location,
                        },
                        Ghost(r),
                        Ghost(s0),
                        Ghost(hidden),
                    );
                    proof {
                        sx = report_state(*self);
                        assert(hidden.push(r) =~= hidden + seq![r]);
                    }
                    substitution_new()
                } else {
                    let mut subst = substitution_new();
                    let ghost names = views(signature.type_params@);
                    proof {
                        assert(substitution_contents(subst) =~= explicit_substitution(
                            self.symbol_table,
                            names.take(0),
                            type_parameters@.take(0),
                        ));
                    }
                    let mut i: usize = 0;
                    while i < type_parameters.len()
                        invariant
                            self.wf(),
                            i <= type_parameters@.len(),
                            type_parameters@.len() == signature.type_params@.len(),
                            names == views(signature.type_params@),
                            substitution_contents(subst) == explicit_substitution(
                                self.symbol_table,
                                names.take(i as int),
                                type_parameters@.take(i as int),
                            ),
                        decreases type_parameters@.len() - i,
                    {
                        let type_ident = &type_parameters[i];
                        let concrete_type = match self.symbol_table.lookup_type(&type_ident.name) {
                            Some(t) => t,
                            None => TypeInfo::of_kind(TypeInfoKind::Custom(type_ident.name.clone())),
                        };
                        proof {
                            let ghost n1 = names.take(i as int + 1);
                            let ghost a1 = type_parameters@.take(i as int + 1);
                            assert(n1.drop_last() =~= names.take(i as int));
                            assert(a1.drop_last() =~= type_parameters@.take(i as int));
                            assert(n1.last() == signature.type_params@[i as int]@);
                            assert(a1.last() == *type_ident);
                            assert(concrete_type@ == type_argument(self.symbol_table, *type_ident));
                        }
                        substitution_insert(&mut subst, signature.type_params[i].clone(), concrete_type);
                        i = i + 1;
                    }
                    proof {
                        assert(names.take(i as int) =~= names);
                        assert(type_parameters@.take(i as int) =~= type_parameters@);
                        assert(hidden + Seq::<Report>::empty() =~= hidden);
                    }
                    subst
                }
            } else {
                proof {
                    assert(stage(sv) == sv);
                }
                let ghost nb = *nodes;
                let inferred = self.infer_type_params_from_args(&signature, f, nodes);
                proof {
                    lemma_kept_after_arguments(n0, n1, *nodes, *f);
                }
                let ghost sm0 = report_state(*self);
                let ghost m = choose|m: Map<Seq<char>, TypeModel>|
                    #![trigger bindings(m)]
                    {
                        &&& type_bindings(
                            old(self).symbol_table,
                            nb,
                            *f,
                            param_models(signature),
                            if argument_total(*f) <= signature.param_types@.len() {
                                argument_total(*f)
                            } else {
                                signature.param_types@.len() as int
                            },
                            bindings(m),
                        )
                        &&& substitution_contents(inferred) == kept_bindings(views(signature.type_params@), m)
                        &&& forall|k: Seq<char>| #[trigger] m.contains_key(k) ==> exists|i: int|
                            0 <= i < signature.param_types@.len() && signature.param_types@[i]@.kind
                                == KindModel::Generic(k)
                        &&& f.arguments is None ==> m == Map::<Seq<char>, TypeModel>::empty() && sm0 == sv
                        &&& f.arguments matches Some(args) ==> exists|sm: (Set<Seq<char>>, Seq<TypeCheckError>)|
                            #![trigger stage(sm)]
                            crate::reports::type_arguments_inferred(
                                old(self).symbol_table,
                                nb,
                                *f,
                                param_models(signature),
                                if args@.len() <= signature.param_types@.len() {
                                    args@.len() as int
                                } else {
                                    signature.param_types@.len() as int
                                },
                                sv,
                                m,
                                stage(sm),
                            ) && crate::reports::pushes(
                                sm,
                                crate::reports::cannot_infer_reports(
                                    signature.name@,
                                    views(signature.type_params@),
                                    m,
                                    f.location,
                                ),
                                sm0,
                            )
                    };
                let ghost missing = Report::MissingTypeArguments(name@, signature.type_params.len(), f.location);
                proof {
                    assert(param_models(signature) =~= param_models(g));
                    assert(views(signature.type_params@).len() == signature.type_params@.len());
                    assert(views(g.type_params@).len() == g.type_params@.len());
                    assert(bindings(m) == m);
                    if f.arguments is None {
                        lemma_pushes_none(sv);
                    }
                }
                if substitution_is_empty(&inferred) {
                    let ghost rs = if f.arguments is None {
                        Seq::<Report>::empty()
                    } else {
                        crate::reports::cannot_infer_reports(signature.name@, views(signature.type_params@), m, f.location)
                    };
                    let ghost base = if f.arguments is None {
                        sv
                    } else {
                        choose|sm: (Set<Seq<char>>, Seq<TypeCheckError>)|
                            #![trigger stage(sm)]
                            crate::reports::type_arguments_inferred(
                                old(self).symbol_table,
                                *old(nodes),
                                *f,
                                param_models(signature),
                                if f.arguments->0@.len() <= signature.param_types@.len() {
                                    f.arguments->0@.len() as int
                                } else {
                                    signature.param_types@.len() as int
                                },
                                sv,
                                m,
                                stage(sm),
                            ) && crate::reports::pushes(sm, rs, sm0)
                    };
                    self.push_report(
                        TypeCheckError::MissingTypeParameters {
                            function_name: f.name(),
                            expected: signature.type_params.len(),
                            location: f.location,
                        },
                        Ghost(missing),
                        Ghost(base),
                        Ghost(rs),
                    );
                    proof {
                        assert(rs.push(missing) =~= rs + seq![missing]);
                        if f.arguments is None {
                            assert(Seq::<Report>::empty().push(missing) =~= seq![missing]);
                        }
                    }
                } else {
                    proof {
                        if f.arguments is Some {
                            let rs = crate::reports::cannot_infer_reports(
                                signature.name@,
                                views(signature.type_params@),
                                m,
                                f.location,
                            );
                            assert(rs + Seq::<Report>::empty() =~= rs);
                        }
                    }
                }
                proof {
                    sx = report_state(*self);
                }
                inferred
            }
        } else {
            proof {
                assert(hidden + Seq::<Report>::empty() =~= hidden);
            }
            substitution_new()
        };
        proof {
            assert(stage(sx) == sx);
            if signature.type_params@.len() == 0 {
                assert(crate::reports::pushes(s0, hidden, sx));
            } else if f.type_parameters is Some {
                assert(crate::reports::pushes(
                    s0,
                    hidden + if f.type_parameters->0@.len() != g.type_params@.len() {
                        seq![
                            Report::TypeArgumentCount(
                                name@,
                                g.type_params@.len() as usize,
                                f.type_parameters->0@.len() as usize,
                                f.location,
                            ),
                        ]
                    } else {
                        Seq::<Report>::empty()
                    },
                    sx,
                ));
            } else {
                assert(crate::reports::generic_inference_reported(old(self).symbol_table, *old(nodes), *f, g, sv, sx));
            }
        }
        let return_type = signature.return_type.substitute(&substitutions);
        proof {
            let ghost fi = self.symbol_table.entries@[j as int].symbol->Function_0;
            assert(views(signature.type_params@).len() == signature.type_params@.len());
            assert(views(fi.type_params@).len() == fi.type_params@.len());
            if substitution_contents(substitutions).dom() == Set::<Seq<char>>::empty() {
                assert(substitution_contents(substitutions) =~= Map::empty());
                crate::laws::law_substitute_nothing(signature.return_type@);
            }
        }
        let ghost n2 = *nodes;
        proof {
            assert(recorded(n2) == n2);
        }
        self.infer_arguments(f, nodes);
        proof {
            lemma_kept_after_arguments(n0, n2, *nodes, *f);
        }
        let ghost n3 = *nodes;
        nodes.set_node_typeinfo(f.id, return_type.duplicate());
        proof {
            lemma_kept_record(n0, n3, *nodes, ee, f.id, return_type@);
        }
        Some(return_type)
    }

    /// Attempt to infer type parameters from argument types.
    ///
    /// For each parameter whose type is a type parameter, the type of the
    /// corresponding argument is taken for it; a second, different type for
    /// the same parameter is reported as a conflict. Every type parameter
    /// left without a type is reported. Returns the substitutions found when
    /// every type parameter got a type, and no substitution otherwise.
    #[verifier::loop_isolation(false)]
    pub fn infer_type_params_from_args(&mut self, signature: &FuncInfo, f: &FunctionCallExpression, nodes: &mut NodeTypes) -> (r: Substitutions)
        requires
            old(self).wf(),
            expr_wf(Expression::FunctionCall(Box::new(*f))),
        ensures
            kept_outside_arguments(*final(nodes), *old(nodes), *f, argument_total(*f)),
            final(self).keeps_table(old(self)),
            exists|m: Map<Seq<char>, TypeModel>|
                #![trigger bindings(m)]
                {
                    &&& type_bindings(
                        old(self).symbol_table,
                        *old(nodes),
                        *f,
                        param_models(*signature),
                        if argument_total(*f) <= signature.param_types@.len() {
                            argument_total(*f)
                        } else {
                            signature.param_types@.len() as int
                        },
                        bindings(m),
                    )
                    &&& substitution_contents(r) == kept_bindings(views(signature.type_params@), m)
                    &&& forall|k: Seq<char>| #[trigger] m.contains_key(k) ==> exists|i: int|
                        0 <= i < signature.param_types@.len() && signature.param_types@[i]@.kind == KindModel::Generic(k)
                    &&& f.arguments is None ==> m == Map::<Seq<char>, TypeModel>::empty()
                        && report_state(*final(self)) == report_state(*old(self))
                    &&& f.arguments matches Some(args) ==> exists|sm: (Set<Seq<char>>, Seq<TypeCheckError>)|
                        #![trigger stage(sm)]
                        crate::reports::type_arguments_inferred(
                            old(self).symbol_table,
                            *old(nodes),
                            *f,
                            param_models(*signature),
                            if args@.len() <= signature.param_types@.len() {
                                args@.len() as int
                            } else {
                                signature.param_types@.len() as int
                            },
                            report_state(*old(self)),
                            m,
                            stage(sm),
                        ) && crate::reports::pushes(
                            sm,
                            crate::reports::cannot_infer_reports(
                                signature.name@,
                                views(signature.type_params@),
                                m,
                                f.location,
                            ),
                            report_state(*final(self)),
                        )
                },
        decreases f, 0nat,
    {
        let mut substitutions = substitution_new();
        proof {
            assert(substitution_contents(substitutions) =~= Map::<Seq<char>, TypeModel>::empty());
        }
        let args = match &f.arguments {
            Some(args) => args,
            None => {
                proof {
                    let ghost m = substitution_contents(substitutions);
                    assert(bindings(m) == m);
                    assert(kept_bindings(views(signature.type_params@), m) =~= m);
                }
                return substitutions;
            },
        };
        let ghost params = param_models(*signature);
        let ghost s0 = report_state(*self);
        let mut i: usize = 0;
        while i < signature.param_types.len() && i < args.len()
            invariant
                self.keeps_table(old(self)),
                i <= signature.param_types@.len(),
                i <= args@.len(),
                forall|k: Seq<char>| #[trigger] substitution_contents(substitutions).contains_key(k) ==> exists|m: int|
                    0 <= m < signature.param_types@.len() && signature.param_types@[m]@.kind == KindModel::Generic(k),
                crate::reports::type_arguments_inferred(
                    old(self).symbol_table,
                    *old(nodes),
                    *f,
                    params,
                    i as int,
                    s0,
                    substitution_contents(substitutions),
                    report_state(*self),
                ),
                kept_outside_arguments(*nodes, *old(nodes), *f, i as int),
                type_bindings(old(self).symbol_table, *old(nodes), *f, params, i as int, substitution_contents(substitutions)),
            decreases signature.param_types@.len() - i,
        {
            let ghost sp = report_state(*self);
            let ghost m0 = substitution_contents(substitutions);
            let ghost nb = *nodes;
            proof {
                assert(stage(sp) == sp);
                assert(bindings(m0) == m0);
                assert(params[i as int] == signature.param_types@[i as int]@);
            }
            if let TypeInfoKind::Generic(type_param_name) = &signature.param_types[i].kind {
                proof {
                    let ghost a = args@[i as int];
                    assert(decreases_to!(*f => f.arguments));
                    assert(decreases_to!(f.arguments => *args));
                    assert(decreases_to!(*args => args@));
                    assert(decreases_to!(args@ => a));
                    assert(decreases_to!(a => a.1));
                }
                let ghost mid = *nodes;
                let arg_type = self.infer_expression(&args[i].1, nodes);
                proof {
                    lemma_kept_arguments_step(*old(nodes), mid, *nodes, *f, i as int);
                }
                let ghost so = report_state(*self);
                proof {
                    assert(recorded(mid) == mid);
                    assert(operand(model_of(arg_type)) == model_of(arg_type));
                    assert(stage(so) == so);
                    lemma_pushes_none(so);
                }
                if let Some(arg_type) = arg_type {
                    match substitution_get(&substitutions, type_param_name) {
                        Some(existing) => {
                            if !existing.equals(&arg_type) {
                                let first = existing.duplicate();
                                let ghost r = Report::ConflictingInference(
                                    type_param_name@,
                                    m0[type_param_name@],
                                    arg_type@,
                                    f.location,
                                );
                                proof {
                                    assert(Seq::<Report>::empty().push(r) =~= seq![r]);
                                }
                                self.push_report(
                                    TypeCheckError::ConflictingTypeInference {
                                        param_name: type_param_name.clone(),
                                        first,
                                        second: arg_type,
                                        location: f.location,
                                    },
                                    Ghost(r),
                                    Ghost(so),
                                    Ghost(Seq::empty()),
                                );
                            }
                        },
                        None => {
                            let ghost before = substitution_contents(substitutions);
                            substitution_insert(&mut substitutions, type_param_name.clone(), arg_type);
                            proof {
                                assert forall|k: Seq<char>| #[trigger] substitution_contents(substitutions).contains_key(k)
                                    implies exists|m: int| 0 <= m < signature.param_types@.len()
                                        && signature.param_types@[m]@.kind == KindModel::Generic(k) by {
                                    if k == type_param_name@ {
                                        assert(signature.param_types@[i as int]@.kind == KindModel::Generic(k));
                                    } else {
                                        assert(before.contains_key(k));
                                    }
                                }
                            }
                        },
                    }
                }
            }
            proof {
                if *nodes == nb {
                    lemma_kept_arguments_more(*old(nodes), *nodes, *f, i as int, i as int + 1);
                }
            }
            i = i + 1;
        }
        proof {
            lemma_kept_arguments_more(*old(nodes), *nodes, *f, i as int, argument_total(*f));
        }
        let ghost sm = report_state(*self);
        let ghost names = views(signature.type_params@);
        proof {
            assert(stage(sm) == sm);
            assert(names.take(0) =~= Seq::<Seq<char>>::empty());
            lemma_pushes_none(sm);
        }
        let mut complete = true;
        let mut p: usize = 0;
        while p < signature.type_params.len()
            invariant
                self.keeps_table(old(self)),
                p <= signature.type_params@.len(),
                names == views(signature.type_params@),
                complete <==> forall|q: int| 0 <= q < p ==> substitution_contents(substitutions).contains_key(
                    #[trigger] names[q],
                ),
                crate::reports::pushes(
                    sm,
                    crate::reports::cannot_infer_reports(
                        signature.name@,
                        names.take(p as int),
                        substitution_contents(substitutions),
                        f.location,
                    ),
                    report_state(*self),
                ),
            decreases signature.type_params@.len() - p,
        {
            let type_param = &signature.type_params[p];
            let ghost rs = crate::reports::cannot_infer_reports(
                signature.name@,
                names.take(p as int),
                substitution_contents(substitutions),
                f.location,
            );
            proof {
                let ghost n1 = names.take(p as int + 1);
                assert(n1.drop_last() =~= names.take(p as int));
                assert(n1.last() == type_param@);
            }
            if !substitution_contains_key(&substitutions, type_param) {
                complete = false;
                let ghost r = Report::CannotInfer(signature.name@, type_param@, f.location);
                self.push_report(
                    TypeCheckError::CannotInferTypeParameter {
                        function_name: signature.name.clone(),
                        param_name: type_param.clone(),
                        location: f.location,
                    },
                    Ghost(r),
                    Ghost(sm),
                    Ghost(rs),
                );
                proof {
                    assert(rs.push(r) =~= rs + seq![r]);
                }
            } else {
                proof {
                    assert(rs + Seq::<Report>::empty() =~= rs);
                }
            }
            p = p + 1;
        }
        proof {
            assert(names.take(p as int) =~= names);
            let ghost m = substitution_contents(substitutions);
            assert(bindings(m) == m);
        }
        if complete {
            substitutions
        } else {
            let none = substitution_new();
            proof {
                assert(substitution_contents(none) =~= Map::<Seq<char>, TypeModel>::empty());
            }
            none
        }
    }

    /// A prefix unary operation: `!` needs a boolean, `-` a signed integer,
    /// `~` an integer, and the operand's type is the result; a unary operator
    /// applied to another unary operation or a negative literal is refused.
    fn infer_prefix_unary(&mut self, e: &PrefixUnaryExpression, nodes: &mut NodeTypes) -> (r: Option<TypeInfo>)
        requires
            old(self).wf(),
            expr_wf(e.expression),
        ensures
            kept_outside(*final(nodes), *old(nodes), Expression::PrefixUnary(Box::new(*e))),
            final(self).keeps_table(old(self)),
            r matches Some(t) ==> final(nodes).type_of_node(e.id) == Some(t@),
            unary_inferred(old(self).symbol_table, *old(nodes), *e, model_of(r)),
            unary_reported(old(self).symbol_table, *old(nodes), *e, report_state(*old(self)), report_state(*final(self))),
        decreases e, 0nat,
    {
        let ghost s0 = report_state(*self);
        if is_prefix_unary(&e.expression) {
            let ghost r = Report::Exact(TypeCheckError::CombinedUnaryOperators { location: e.location });
            proof {
                lemma_pushes_none(s0);
                assert(Seq::<Report>::empty().push(r) =~= seq![r]);
            }
            self.push_report(
                TypeCheckError::CombinedUnaryOperators { location: e.location },
                Ghost(r),
                Ghost(s0),
                Ghost(Seq::empty()),
            );
            return None;
        }
        let operand_result = self.infer_expression(&e.expression, nodes);
        let ghost so = report_state(*self);
        proof {
            assert(operand(model_of(operand_result)) == model_of(operand_result));
            assert(stage(so) == so);
        }
        let operand = match operand_result {
            Some(t) => t,
            None => {
                return None;
            },
        };
        let (accepted, expected_type): (bool, &'static str) = match e.operator {
            UnaryOperatorKind::Not => (operand.is_bool(), "booleans"),
            UnaryOperatorKind::Neg => (operand.is_signed_integer(), "signed integers (i8, i16, i32, i64)"),
            UnaryOperatorKind::BitNot => (operand.is_number(), "integers (i8, i16, i32, i64, u8, u16, u32, u64)"),
        };
        if accepted {
            nodes.set_node_typeinfo(e.id, operand.duplicate());
            return Some(operand);
        }
        let ghost r = Report::BadUnaryOperand(e.operator, operand@, e.location);
        proof {
            lemma_pushes_none(so);
            assert(Seq::<Report>::empty().push(r) =~= seq![r]);
        }
        self.push_report(
            TypeCheckError::InvalidUnaryOperand {
                operator: e.operator,
                expected_type,
                found_type: operand,
                location: e.location,
            },
            Ghost(r),
            Ghost(so),
            Ghost(Seq::empty()),
        );
        None
    }

    /// A binary operation: logical operators need booleans and give a
    /// boolean, comparisons give a boolean, arithmetic and bitwise operators
    /// need numbers and give the left operand's type; operands of different
    /// types are reported.
    fn infer_binary(&mut self, e: &BinaryExpression, nodes: &mut NodeTypes) -> (r: Option<TypeInfo>)
        requires
            old(self).wf(),
            expr_wf(e.left),
            expr_wf(e.right),
        ensures
            old(nodes).type_of_node(e.id) is Some ==> *final(nodes) == *old(nodes),
            kept_outside(*final(nodes), *old(nodes), Expression::Binary(Box::new(*e))),
            final(self).keeps_table(old(self)),
            r matches Some(t) ==> final(nodes).type_of_node(e.id) == Some(t@),
            binary_inferred(old(self).symbol_table, *old(nodes), *e, model_of(r)),
            binary_reported(old(self).symbol_table, *old(nodes), *e, report_state(*old(self)), report_state(*final(self))),
        decreases e, 0nat,
    {
        if let Some(type_info) = nodes.get_node_typeinfo(e.id) {
            return Some(type_info);
        }
        let left_type = self.infer_expression(&e.left, nodes);
        let ghost sl = report_state(*self);
        let ghost mid = *nodes;
        let right_type = self.infer_expression(&e.right, nodes);
        let ghost sr = report_state(*self);
        proof {
            assert(operand(model_of(left_type)) == model_of(left_type));
            assert(operand(model_of(right_type)) == model_of(right_type));
            assert(recorded(mid) == mid);
            assert(stage(sl) == sl);
            assert(stage(sr) == sr);
            lemma_pushes_none(sr);
        }
        let (left_type, right_type) = match (left_type, right_type) {
            (Some(l), Some(r)) => (l, r),
            _ => {
                return None;
            },
        };
        let ghost lm = left_type@;
        let ghost rm = right_type@;
        let ghost mismatch = Report::OperandMismatch(e.operator, lm, rm, e.location);
        let ghost bad = Report::BadBinaryOperands(e.operator, lm, rm, e.location);
        let ghost mut rs: Seq<Report> = Seq::empty();
        if !left_type.equals(&right_type) {
            self.push_report(
                TypeCheckError::BinaryOperandTypeMismatch {
                    operator: e.operator,
                    left: left_type.duplicate(),
                    right: right_type.duplicate(),
                    location: e.location,
                },
                Ghost(mismatch),
                Ghost(sr),
                Ghost(rs),
            );
            proof {
                rs = rs.push(mismatch);
            }
        }
        let res_type = match e.operator {
            OperatorKind::And | OperatorKind::Or => {
                if left_type.is_bool() && right_type.is_bool() {
                    TypeInfo::boolean()
                } else {
                    self.push_report(
                        TypeCheckError::InvalidBinaryOperand {
                            operator: e.operator,
                            expected_kind: "logical",
                            operand_desc: "non-boolean types",
                            found_types: (left_type, right_type),
                            location: e.location,
                        },
                        Ghost(bad),
                        Ghost(sr),
                        Ghost(rs),
                    );
                    proof {
                        rs = rs.push(bad);
                        assert(rs =~= crate::reports::binary_reports(e.operator, lm, rm, e.location));
                    }
                    return None;
                }
            },
            OperatorKind::Eq | OperatorKind::Ne | OperatorKind::Lt | OperatorKind::Le | OperatorKind::Gt
            | OperatorKind::Ge => TypeInfo::boolean(),
            _ => {
                if !left_type.is_number() || !right_type.is_number() {
                    self.push_report(
                        TypeCheckError::InvalidBinaryOperand {
                            operator: e.operator,
                            expected_kind: "arithmetic",
                            operand_desc: "non-number types",
                            found_types: (left_type.duplicate(), right_type.duplicate()),
                            location: e.location,
                        },
                        Ghost(bad),
                        Ghost(sr),
                        Ghost(rs),
                    );
                    proof {
                        rs = rs.push(bad);
                    }
                }
                left_type
            },
        };
        proof {
            assert(rs =~= crate::reports::binary_reports(e.operator, lm, rm, e.location));
        }
        nodes.set_node_typeinfo(e.id, res_type.duplicate());
        Some(res_type)
    }

    /// Literals: booleans, strings and unit have their builtin types, numbers
    /// are `i32` unless their node already has a type, and an array literal
    /// has its first element's type and its length; later elements of another
    /// type are reported.
    #[verifier::loop_isolation(false)]
    fn infer_literal(&mut self, literal: &Literal, nodes: &mut NodeTypes) -> (r: Option<TypeInfo>)
        requires
            old(self).wf(),
            expr_wf(Expression::Literal(*literal)),
        ensures
            (literal is Number || literal is Array) && old(nodes).type_of_node(literal.spec_node_id()) is Some
                ==> *final(nodes) == *old(nodes),
            kept_outside(*final(nodes), *old(nodes), Expression::Literal(*literal)),
            final(self).keeps_table(old(self)),
            r matches Some(t) ==> final(nodes).type_of_node(literal.spec_node_id()) == Some(t@),
            literal_inferred(old(self).symbol_table, *old(nodes), *literal, model_of(r)),
            !(literal is Array) ==> *final(self) == *old(self),
            *literal matches Literal::Array(a) ==> crate::reports::array_literal_reported(
                old(self).symbol_table,
                *old(nodes),
                a,
                report_state(*old(self)),
                report_state(*final(self)),
            ),
        decreases literal, 0nat,
    {
        match literal {
            Literal::Array(array_literal) => {
                if let Some(type_info) = nodes.get_node_typeinfo(array_literal.id) {
                    return Some(type_info);
                }
                let elements = match &array_literal.elements {
                    Some(elements) => elements,
                    None => {
                        return None;
                    },
                };
                proof {
                    let ghost e0 = elements@[0];
                    assert(decreases_to!(*literal => *array_literal));
                    assert(decreases_to!(*array_literal => array_literal.elements));
                    assert(decreases_to!(array_literal.elements => *elements));
                    assert(decreases_to!(*elements => elements@));
                    assert(decreases_to!(elements@ => e0));
                }
                let ghost n0 = *nodes;
                let ghost ee = Expression::Literal(*literal);
                proof {
                    lemma_kept_refl(n0, ee);
                    lemma_element_within(*array_literal, 0);
                }
                let first_result = self.infer_expression(&elements[0], nodes);
                proof {
                    lemma_kept_part(n0, n0, *nodes, elements@[0], ee);
                    assert(kept_outside_list(n0, n0, elements@.take(0)));
                    lemma_kept_list_step(n0, n0, *nodes, elements@, 0);
                }
                let ghost sf = report_state(*self);
                proof {
                    assert(operand(model_of(first_result)) == model_of(first_result));
                    assert(stage(sf) == sf);
                }
                let element_type_info = match first_result {
                    Some(t) => t,
                    None => {
                        return None;
                    },
                };
                let mut i: usize = 1;
                while i < elements.len()
                    invariant
                        1 <= i <= elements@.len(),
                        self.keeps_table(old(self)),
                        crate::reports::elements_reported(
                            old(self).symbol_table,
                            *old(nodes),
                            *array_literal,
                            i as int,
                            element_type_info@,
                            sf,
                            report_state(*self),
                        ),
                        kept_outside(*nodes, n0, ee),
                        kept_outside_list(*nodes, n0, elements@.take(i as int)),
                    decreases elements@.len() - i,
                {
                    proof {
                        let ghost ek = elements@[i as int];
                        assert(decreases_to!(*literal => *array_literal));
                        assert(decreases_to!(*array_literal => array_literal.elements));
                        assert(decreases_to!(array_literal.elements => *elements));
                        assert(decreases_to!(*elements => elements@));
                        assert(decreases_to!(elements@ => ek));
                    }
                    let ghost sp = report_state(*self);
                    let ghost mid = *nodes;
                    let element_result = self.infer_expression(&elements[i], nodes);
                    proof {
                        lemma_element_within(*array_literal, i as int);
                        lemma_kept_part(n0, mid, *nodes, elements@[i as int], ee);
                        lemma_kept_list_step(n0, mid, *nodes, elements@, i as int);
                    }
                    let ghost so = report_state(*self);
                    proof {
                        assert(operand(model_of(element_result)) == model_of(element_result));
                        assert(recorded(mid) == mid);
                        assert(stage(sp) == sp);
                        assert(stage(so) == so);
                        lemma_pushes_none(so);
                    }
                    if let Some(element_type) = element_result {
                        if !element_type.equals(&element_type_info) {
                            let ghost r = Report::ElementMismatch(element_type_info@, element_type@, array_literal.location);
                            proof {
                                assert(Seq::<Report>::empty().push(r) =~= seq![r]);
                            }
                            self.push_report(
                                TypeCheckError::ArrayElementTypeMismatch {
                                    expected: element_type_info.duplicate(),
                                    found: element_type,
                                    location: array_literal.location,
                                },
                                Ghost(r),
                                Ghost(so),
                                Ghost(Seq::empty()),
                            );
                        }
                    }
                    i = i + 1;
                }
                #[verifier::truncate]
                let length = elements.len() as u32;
                let array_type = TypeInfo::of_kind(TypeInfoKind::Array(Box::new(element_type_info), length));
                let ghost n1 = *nodes;
                nodes.set_node_typeinfo(array_literal.id, array_type.duplicate());
                proof {
                    lemma_kept_record(n0, n1, *nodes, ee, array_literal.id, array_type@);
                }
                Some(array_type)
            },
            Literal::Bool(b) => {
                nodes.set_node_typeinfo(b.id, TypeInfo::boolean());
                Some(TypeInfo::boolean())
            },
            Literal::String(sl) => {
                nodes.set_node_typeinfo(sl.id, TypeInfo::string());
                Some(TypeInfo::string())
            },
            Literal::Number(number_literal) => {
                if let Some(t) = nodes.get_node_typeinfo(number_literal.id) {
                    return Some(t);
                }
                let res_type = TypeInfo::of_kind(TypeInfoKind::Number(NumberType::I32));
                nodes.set_node_typeinfo(number_literal.id, res_type.duplicate());
                Some(res_type)
            },
            Literal::Unit(u) => {
                nodes.set_node_typeinfo(u.id, TypeInfo::unit());
                Some(TypeInfo::unit())
            },
        }
    }
}

} // verus!

