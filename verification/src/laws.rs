//! Properties of the library as a whole: what holds of every reachable
//! state, and how the parts relate.
use vstd::prelude::*;

use crate::ast::{Expression, Literal, Type, Visibility};
use crate::inference::{inferred, reuses_recorded};
use crate::reports::reported;
use crate::typed_context::NodeTypes;
use crate::errors::{error_message, location_text};
use crate::symbol_table::SymbolTable;
use crate::text::{decimal, digit_char};
use crate::type_checker::{dedup_key, dedup_step, distinct_keys, keys_of, types_equal_spec, visible, TypeChecker};
use crate::type_info::{decimal_value, digit_value, substituted, KindModel, TypeModel};
use crate::errors::TypeCheckError;

verus! {

proof fn lemma_key_in_keys_of(errors: Seq<TypeCheckError>, i: int, k: Seq<char>)
    requires
        0 <= i < errors.len(),
        dedup_key(errors[i]) == Some(k),
    ensures
        keys_of(errors).contains(k),
    decreases errors.len(),
{
    if i < errors.len() - 1 {
        assert(errors.drop_last()[i] == errors[i]);
        lemma_key_in_keys_of(errors.drop_last(), i, k);
    }
}

proof fn lemma_distinct_prefix(errors: Seq<TypeCheckError>, n: int)
    requires
        distinct_keys(errors),
        0 <= n <= errors.len(),
    ensures
        distinct_keys(errors.take(n)),
    decreases errors.len(),
{
    if n == errors.len() {
        assert(errors.take(n) =~= errors);
    } else {
        assert(errors.drop_last().take(n) =~= errors.take(n));
        lemma_distinct_prefix(errors.drop_last(), n);
    }
}

/// Errors are deduplicated: in every consistent checker, no two recorded
/// errors share a deduplication key (an unknown type, undefined function,
/// undeclared variable, undefined struct or undefined enum of the same name
/// is reported once).
pub proof fn law_errors_deduplicated(c: TypeChecker, i: int, j: int)
    requires
        c.wf(),
        0 <= i < j < c.errors@.len(),
        dedup_key(c.errors@[i]) is Some,
    ensures
        dedup_key(c.errors@[j]) != dedup_key(c.errors@[i]),
{
    let errors = c.errors@;
    let k = dedup_key(errors[i])->0;
    lemma_distinct_prefix(errors, j + 1);
    let p = errors.take(j + 1);
    assert(p.drop_last() =~= errors.take(j));
    assert(p.last() == errors[j]);
    assert(errors.take(j)[i] == errors[i]);
    lemma_key_in_keys_of(errors.take(j), i, k);
}

/// Reporting the same keyed error twice has the effect of reporting it once.
pub proof fn law_dedup_reports_once(keys: Set<Seq<char>>, errors: Seq<TypeCheckError>, e: TypeCheckError)
    requires
        dedup_key(e) is Some,
    ensures
        ({
            let once = dedup_step(keys, errors, e);
            dedup_step(once.0, once.1, e) == once
        }),
{
}

/// A public definition may be used from every scope.
pub proof fn law_public_visible_everywhere(t: SymbolTable, definition: u32, access: u32)
    ensures
        visible(t, Visibility::Public, definition, access),
{
}

/// A private definition may be used in the scope that makes it.
pub proof fn law_private_visible_in_own_scope(t: SymbolTable, s: u32)
    ensures
        visible(t, Visibility::Private, s, s),
{
}

/// A private definition may be used in every scope below the one that
/// makes it, at any depth.
pub proof fn law_private_visible_below(t: SymbolTable, a: u32, b: u32, c: u32)
    requires
        t.wf(),
        t.is_descendant(a, b),
        visible(t, Visibility::Private, c, b),
    ensures
        visible(t, Visibility::Private, c, a),
    decreases a,
{
    if a != b {
        let p = t.parent_of(a)->0;
        law_private_visible_below(t, p, b, c);
    }
}

/// A private definition is not visible from a scope that is neither its own
/// nor below it.
pub proof fn law_private_hidden_elsewhere(t: SymbolTable, definition: u32, access: u32)
    requires
        !t.is_descendant(access, definition),
    ensures
        !visible(t, Visibility::Private, definition, access),
{
}

/// Structural equality of type expressions is reflexive.
pub proof fn law_types_equal_reflexive(t: Type)
    ensures
        types_equal_spec(t, t),
    decreases t,
{
    match t {
        Type::Array(a) => {
            law_types_equal_reflexive(a.element_type);
        },
        Type::Function(f) => {
            if let Some(r) = f.returns {
                law_types_equal_reflexive(*r);
            }
            if let Some(ps) = f.parameters {
                assert forall|i: int| 0 <= i < ps@.len() implies types_equal_spec(#[trigger] ps@[i], ps@[i]) by {
                    assert(decreases_to!(t => f));
                    assert(decreases_to!(f => f.parameters));
                    assert(decreases_to!(f.parameters => ps));
                    assert(decreases_to!(ps => ps@));
                    assert(decreases_to!(ps@ => ps@[i]));
                    law_types_equal_reflexive(ps@[i]);
                }
            }
        },
        _ => {
        },
    }
}

/// Structural equality of type expressions is symmetric.
pub proof fn law_types_equal_symmetric(a: Type, b: Type)
    ensures
        types_equal_spec(a, b) == types_equal_spec(b, a),
    decreases a,
{
    match (a, b) {
        (Type::Array(x), Type::Array(y)) => {
            law_types_equal_symmetric(x.element_type, y.element_type);
        },
        (Type::Function(x), Type::Function(y)) => {
            if let (Some(xr), Some(yr)) = (x.returns, y.returns) {
                law_types_equal_symmetric(*xr, *yr);
            }
            if let (Some(xp), Some(yp)) = (x.parameters, y.parameters) {
                if xp@.len() == yp@.len() {
                    assert forall|i: int| 0 <= i < xp@.len() implies types_equal_spec(#[trigger] xp@[i], yp@[i])
                        == types_equal_spec(yp@[i], xp@[i]) by {
                        assert(decreases_to!(a => x));
                        assert(decreases_to!(x => x.parameters));
                        assert(decreases_to!(x.parameters => xp));
                        assert(decreases_to!(xp => xp@));
                        assert(decreases_to!(xp@ => xp@[i]));
                        law_types_equal_symmetric(xp@[i], yp@[i]);
                    }
                    if types_equal_spec(b, a) {
                        assert forall|i: int| 0 <= i < xp@.len() implies types_equal_spec(#[trigger] xp@[i], yp@[i]) by {
                            assert(types_equal_spec(yp@[i], xp@[i]));
                        }
                    }
                }
            }
        },
        _ => {
        },
    }
}

/// Substituting nothing leaves a type unchanged.
pub proof fn law_substitute_nothing(m: TypeModel)
    ensures
        substituted(m, Map::empty()) == m,
    decreases m,
{
    if let KindModel::Array(e, _) = m.kind {
        law_substitute_nothing(*e);
    }
}

proof fn lemma_decimal_nonempty(n: nat)
    ensures
        decimal(n).len() >= 1,
    decreases n,
{
    if n >= 10 {
        lemma_decimal_nonempty(n / 10);
    }
}

proof fn lemma_digit(d: nat)
    requires
        d < 10,
    ensures
        digit_value(digit_char(d)) == Some(d),
{
}

/// Reading back the decimal text of a number gives the number: the length
/// of an array type, as messages print it, is what a size literal with that
/// text denotes.
pub proof fn law_decimal_roundtrip(n: nat)
    ensures
        decimal_value(decimal(n)) == Some(n),
    decreases n,
{
    if n < 10 {
        lemma_digit(n);
    } else {
        law_decimal_roundtrip(n / 10);
        lemma_decimal_nonempty(n / 10);
        lemma_digit(n % 10);
        let s = decimal(n);
        assert(s.drop_last() =~= decimal(n / 10));
        assert(s.last() == digit_char(n % 10));
    }
}

/// Every error message begins with the location of the error: its line and
/// column, then `: `.
pub proof fn law_message_begins_with_location(e: TypeCheckError)
    ensures
        error_message(e).take(location_text(e.spec_location()).len() as int + 2) == location_text(
            e.spec_location(),
        ) + ": "@,
{
    reveal_strlit(": ");
    let prefix = location_text(e.spec_location()) + ": "@;
    assert(error_message(e).take(prefix.len() as int) =~= prefix);
}


/// Inferring again an expression whose node has a recorded type gives that
/// type and reports nothing.
pub proof fn law_cached_inference(
    t: SymbolTable,
    n: NodeTypes,
    e: Expression,
    x: TypeModel,
    r: Option<TypeModel>,
    s0: (Set<Seq<char>>, Seq<TypeCheckError>),
    s1: (Set<Seq<char>>, Seq<TypeCheckError>),
)
    requires
        reuses_recorded(e),
        n.type_of_node(e.spec_node_id()) == Some(x),
    ensures
        inferred(t, n, e, r) <==> r == Some(x),
        reported(t, n, e, s0, s1) <==> s1 == s0,
{
    match e {
        Expression::Binary(b) => {
            assert(crate::inference::binary_inferred(t, n, *b, r) <==> r == Some(x));
            assert(crate::reports::binary_reported(t, n, *b, s0, s1) <==> s1 == s0);
            assert(inferred(t, n, e, r) == crate::inference::binary_inferred(t, n, *b, r));
            assert(reported(t, n, e, s0, s1) == crate::reports::binary_reported(t, n, *b, s0, s1));
        },
        Expression::MemberAccess(m) => {
            assert(crate::inference::member_access_inferred(t, n, *m, r) <==> r == Some(x));
            assert(crate::reports::member_access_reported(t, n, *m, s0, s1) <==> s1 == s0);
            assert(inferred(t, n, e, r) == crate::inference::member_access_inferred(t, n, *m, r));
            assert(reported(t, n, e, s0, s1) == crate::reports::member_access_reported(t, n, *m, s0, s1));
        },
        Expression::ArrayIndexAccess(ia) => {
            assert(crate::inference::index_access_inferred(t, n, *ia, r) <==> r == Some(x));
            assert(crate::reports::index_access_reported(t, n, *ia, s0, s1) <==> s1 == s0);
            assert(inferred(t, n, e, r) == crate::inference::index_access_inferred(t, n, *ia, r));
            assert(reported(t, n, e, s0, s1) == crate::reports::index_access_reported(t, n, *ia, s0, s1));
        },
        Expression::TypeMemberAccess(v) => {
            assert(crate::inference::variant_access_inferred(t, n, *v, r) <==> r == Some(x));
            assert(crate::reports::variant_access_reported(t, n, *v, s0, s1) <==> s1 == s0);
            assert(inferred(t, n, e, r) == crate::inference::variant_access_inferred(t, n, *v, r));
            assert(reported(t, n, e, s0, s1) == crate::reports::variant_access_reported(t, n, *v, s0, s1));
        },
        Expression::Literal(Literal::Array(l)) => {
            assert(crate::inference::literal_inferred(t, n, Literal::Array(l), r) <==> r == Some(x));
            assert(crate::reports::array_literal_reported(t, n, l, s0, s1) <==> s1 == s0);
            assert(inferred(t, n, e, r) == crate::inference::literal_inferred(t, n, Literal::Array(l), r));
            assert(reported(t, n, e, s0, s1) == crate::reports::array_literal_reported(t, n, l, s0, s1));
        },
        Expression::Literal(Literal::Number(l)) => {
            assert(crate::inference::literal_inferred(t, n, Literal::Number(l), r) <==> r == Some(x));
            assert(inferred(t, n, e, r) == crate::inference::literal_inferred(t, n, Literal::Number(l), r));
        },
        _ => {},
    }
}

} // verus!
