//! Type checking of statements and function bodies: conditions must be
//! booleans, assigned and returned values must match their targets, and
//! definitions in a body are registered in its scope.
use vstd::prelude::*;

use crate::ast::{ArgumentType, Expression, FunctionDefinition, Location, Statement, Visibility};
use crate::errors::{RegistrationKind, TypeCheckError, TypeMismatchContext};
use crate::inference::{expr_wf, inferred, model_of, operand};
use crate::symbol_table::{Entry, Namespace, Symbol, SymbolTable};
use crate::type_checker::{extends, TypeChecker};
use crate::inference::{kept_outside, recorded, within};
use crate::reports::{pushes, report_state, reported, stage, Report};
use crate::symbol_table::already_defined_text;
use crate::type_info::{plain, type_of, KindModel, TypeInfo, TypeModel};
use crate::typed_context::NodeTypes;

verus! {

/// Every expression in the statement, and in the statements nested in it,
/// satisfies `expr_wf`.
pub open spec fn stmt_wf(s: Statement) -> bool
    decreases s,
{
    match s {
        Statement::Assign(a) => expr_wf(a.left) && expr_wf(a.right),
        Statement::Block(b) => forall|i: int| 0 <= i < b@.len() ==> stmt_wf(#[trigger] b@[i]),
        Statement::Expression(e) => expr_wf(e),
        Statement::Return(r) => expr_wf(r.expression),
        Statement::Loop(l) => (l.condition matches Some(c) ==> expr_wf(c)) && forall|i: int|
            0 <= i < l.body@.len() ==> stmt_wf(#[trigger] l.body@[i]),
        Statement::Break(_) => true,
        Statement::If(f) => expr_wf(f.condition) && (forall|i: int|
            0 <= i < f.if_arm@.len() ==> stmt_wf(#[trigger] f.if_arm@[i])) && match f.else_arm {
            Some(e) => forall|i: int| 0 <= i < e@.len() ==> stmt_wf(#[trigger] e@[i]),
            None => true,
        },
        Statement::VariableDefinition(v) => v.value matches Some(e) ==> expr_wf(e),
        Statement::TypeDefinition(_) => true,
        Statement::Assert(a) => expr_wf(a.expression),
        Statement::ConstantDefinition(_) => true,
    }
}

/// The type a checked value counts as: its inferred type, or the unit type
/// when none could be inferred.
pub open spec fn value_or_unit(v: Option<TypeModel>) -> TypeModel {
    match v {
        Some(x) => x,
        None => plain(KindModel::Unit),
    }
}

/// The errors at some point of checking (the identity: it names such a
/// list in the statements below).
pub open spec fn errors_then(e: Seq<TypeCheckError>) -> Seq<TypeCheckError> {
    e
}

/// `errors` is `before` followed by one type mismatch in `context` at
/// `location`, which expected `expected` and found `found`.
pub open spec fn one_mismatch_after(
    errors: Seq<TypeCheckError>,
    before: Seq<TypeCheckError>,
    expected: TypeModel,
    found: TypeModel,
    context: TypeMismatchContext,
    location: Location,
) -> bool {
    &&& errors.len() == before.len() + 1
    &&& extends(errors, before)
    &&& match errors.last() {
        TypeCheckError::TypeMismatch { expected: e, found: f, context: c, location: l } => e@ == expected && f@
            == found && c == context && l == location,
        _ => false,
    }
}

/// The errors after checking a value against `expected`: the errors `mid`
/// of its inference, and a type mismatch in `context` at `location` when
/// its type (`value_or_unit`) is another.
pub open spec fn checked_against(
    errors: Seq<TypeCheckError>,
    mid: Seq<TypeCheckError>,
    v: Option<TypeModel>,
    expected: TypeModel,
    context: TypeMismatchContext,
    location: Location,
) -> bool {
    if value_or_unit(v) == expected {
        errors == mid
    } else {
        one_mismatch_after(errors, mid, expected, value_or_unit(v), context, location)
    }
}

/// The errors after a condition was checked: the errors `mid` of its
/// inference, and a type mismatch at `location` when its type (`v`) is not
/// `Bool`.
pub open spec fn condition_checked(errors: Seq<TypeCheckError>, mid: Seq<TypeCheckError>, v: Option<TypeModel>, location: Location) -> bool {
    if v matches Some(x) && x.kind is Bool {
        errors == mid
    } else {
        one_mismatch_after(errors, mid, plain(KindModel::Bool), value_or_unit(v), TypeMismatchContext::Condition, location)
    }
}

/// `errors` is `before` followed by one refused registration of a variable
/// `name` at `location`, because a variable of that name is registered in
/// the scope already.
pub open spec fn variable_refused_after(errors: Seq<TypeCheckError>, before: Seq<TypeCheckError>, name: Seq<char>, location: Location) -> bool {
    &&& errors.len() == before.len() + 1
    &&& extends(errors, before)
    &&& match errors.last() {
        TypeCheckError::RegistrationFailed { kind, name: n, reason, location: l } => {
            &&& kind == RegistrationKind::Variable
            &&& n@ == name
            &&& l == location
            &&& reason matches Some(m) && m@ == already_defined_text("variable"@, name)
        },
        _ => false,
    }
}

/// `errors` is `before` followed by one refused registration of a type
/// alias `name` at `location`, because a type of that name is registered in
/// the scope already.
pub open spec fn type_refused_after(errors: Seq<TypeCheckError>, before: Seq<TypeCheckError>, name: Seq<char>, location: Location) -> bool {
    &&& errors.len() == before.len() + 1
    &&& extends(errors, before)
    &&& match errors.last() {
        TypeCheckError::RegistrationFailed { kind, name: n, reason, location: l } => {
            &&& kind == RegistrationKind::Type
            &&& n@ == name
            &&& l == location
            &&& reason matches Some(m) && m@ == already_defined_text("type"@, name)
        },
        _ => false,
    }
}

/// Every statement of the list satisfies `stmt_wf`.
pub open spec fn stmts_wf(ss: Seq<Statement>) -> bool {
    forall|i: int| 0 <= i < ss.len() ==> stmt_wf(#[trigger] ss[i])
}

/// Whether `id` is the node of a variable or constant that `st` defines, or
/// lies within an expression of `st` or of a statement nested in it: the
/// nodes whose recorded types checking `st` may set.
pub open spec fn within_statement(id: u32, st: Statement) -> bool
    decreases st,
{
    match st {
        Statement::Assign(a) => within(id, a.left) || within(id, a.right),
        Statement::Block(b) => within_statements(id, b@),
        Statement::Expression(e) => within(id, e),
        Statement::Return(r) => within(id, r.expression),
        Statement::Loop(l) => (match l.condition {
            Some(c) => within(id, c),
            None => false,
        }) || within_statements(id, l.body@),
        Statement::Break(_) => false,
        Statement::If(f) => within(id, f.condition) || within_statements(id, f.if_arm@) || match f.else_arm {
            Some(e) => within_statements(id, e@),
            None => false,
        },
        Statement::VariableDefinition(v) => id == v.id || id == v.name.id || match v.value {
            Some(e) => within(id, e),
            None => false,
        },
        Statement::TypeDefinition(_) => false,
        Statement::Assert(a) => within(id, a.expression),
        Statement::ConstantDefinition(c) => id == c.id || id == c.value.spec_node_id(),
    }
}

/// Whether `id` lies within one of the statements `ss`.
pub open spec fn within_statements(id: u32, ss: Seq<Statement>) -> bool
    decreases ss,
{
    if ss.len() == 0 {
        false
    } else {
        within_statement(id, ss.last()) || within_statements(id, ss.subrange(0, ss.len() - 1))
    }
}

/// `after` records for every node outside the statements `ss` what `before`
/// records.
pub open spec fn kept_outside_statements(after: NodeTypes, before: NodeTypes, ss: Seq<Statement>) -> bool {
    forall|id: u32| !within_statements(id, ss) ==> #[trigger] after.type_of_node(id) == before.type_of_node(id)
}

/// `after` records for every node outside the statement `st` what `before`
/// records.
pub open spec fn kept_outside_statement(after: NodeTypes, before: NodeTypes, st: Statement) -> bool {
    forall|id: u32| !within_statement(id, st) ==> #[trigger] after.type_of_node(id) == before.type_of_node(id)
}

/// The statements kept outside, one statement further.
proof fn lemma_kept_statements_step(a: NodeTypes, b: NodeTypes, c: NodeTypes, ss: Seq<Statement>, i: int)
    requires
        0 <= i < ss.len(),
        kept_outside_statements(b, a, ss.take(i)),
        kept_outside_statement(c, b, ss[i]),
    ensures
        kept_outside_statements(c, a, ss.take(i + 1)),
{
    let next = ss.take(i + 1);
    assert(next.subrange(0, next.len() - 1) =~= ss.take(i));
    assert(next.last() == ss[i]);
    assert forall|id: u32| !within_statements(id, next) implies #[trigger] c.type_of_node(id) == a.type_of_node(id) by {
        assert(!within_statement(id, ss[i]));
        assert(!within_statements(id, ss.take(i)));
    }
}

/// A symbol table at some point of checking (the identity: it names such
/// a table in the statements below).
pub open spec fn table_at(t: SymbolTable) -> SymbolTable {
    t
}

/// `t1` is `t0` with a new block scope below the current one made current,
/// when a scope identifier is left; else `t1` is `t0`.
pub open spec fn scope_opened(t0: SymbolTable, t1: SymbolTable) -> bool {
    if t0.scopes@.len() < u32::MAX {
        &&& t1.wf()
        &&& t1.entries@ == t0.entries@
        &&& t1.methods@ == t0.methods@
        &&& t1.imports@ == t0.imports@
        &&& t1.scopes@.len() == t0.scopes@.len() + 1
        &&& t1.scopes@.take(t0.scopes@.len() as int) == t0.scopes@
        &&& t1.current == t0.scopes@.len()
        &&& t1.scopes@.last().parent == Some(t0.current)
        &&& t1.scopes@.last().name@ == Seq::<char>::empty()
        &&& !t1.scopes@.last().is_module
        &&& t1.scopes@.last().visibility == Visibility::Private
    } else {
        t1 == t0
    }
}

/// `t1` is `t` with the current scope of `t0` current again.
pub open spec fn scope_closed(t: SymbolTable, t0: SymbolTable, t1: SymbolTable) -> bool {
    &&& t1.wf()
    &&& t1.entries@ == t.entries@
    &&& t1.scopes@ == t.scopes@
    &&& t1.methods@ == t.methods@
    &&& t1.imports@ == t.imports@
    &&& t1.current == t0.current
}

/// `t1` is `t0` with a variable `name` of type `ty` registered in the
/// current scope.
pub open spec fn variable_added(t0: SymbolTable, t1: SymbolTable, name: Seq<char>, ty: TypeModel) -> bool {
    exists|e: Entry|
        #[trigger] t1.appended_entry(&t0, e) && e.scope == t0.current && e.name@ == name && (e.symbol matches Symbol::Variable(
            v,
        ) && v@ == ty)
}

/// `t1` is `t0` with a type alias `name` for `ty` registered in the current
/// scope.
pub open spec fn alias_added(t0: SymbolTable, t1: SymbolTable, name: Seq<char>, ty: TypeModel) -> bool {
    exists|e: Entry|
        #[trigger] t1.appended_entry(&t0, e) && e.scope == t0.current && e.name@ == name && (e.symbol matches Symbol::TypeAlias(
            v,
        ) && v@ == ty)
}

/// Whether a condition of type `v` is accepted: a boolean.
pub open spec fn condition_accepted(v: Option<TypeModel>) -> bool {
    v matches Some(x) && x.kind is Bool
}

/// What checking the condition `c` at `at` reports: the condition's own
/// reports, then a condition whose type is not a boolean (no type counting
/// as unit); `n1` is what inferring the condition records.
pub open spec fn condition_reported(
    t: SymbolTable,
    n: NodeTypes,
    c: Expression,
    at: Location,
    s0: (Set<Seq<char>>, Seq<TypeCheckError>),
    s1: (Set<Seq<char>>, Seq<TypeCheckError>),
    n1: NodeTypes,
) -> bool {
    exists|v: Option<TypeModel>, sm: (Set<Seq<char>>, Seq<TypeCheckError>)|
        #![trigger operand(v), stage(sm)]
        inferred(t, n, c, operand(v)) && reported(t, n, c, s0, stage(sm)) && expr_recorded(n, c, v, n1) && pushes(
            sm,
            if condition_accepted(v) {
                Seq::<Report>::empty()
            } else {
                seq![Report::Mismatch(plain(KindModel::Bool), value_or_unit(v), TypeMismatchContext::Condition, at)]
            },
            s1,
        )
}

/// `n1` is `n0` with the expression `e` inferred to `v`: every node outside
/// `e` keeps its type, and when `v` is a type, the node of `e` records it.
pub open spec fn expr_recorded(n0: NodeTypes, e: Expression, v: Option<TypeModel>, n1: NodeTypes) -> bool {
    &&& kept_outside(n1, n0, e)
    &&& match v {
        Some(x) => !(e is Type) ==> n1.type_of_node(e.spec_node_id()) == Some(x),
        None => true,
    }
}

/// What checking the statement `st` in a function returning `rt` does,
/// from the table `t0`, the recorded types `n0` and the reports `s0`, to
/// the table `t1`, the recorded types `n1` and the reports `s1`:
/// assignments, returns and variable definitions report a value of another
/// type than their target; `@` assigned to a target without a type is
/// reported; conditions are checked; blocks, branches and loop bodies are
/// checked in scopes of their own; variable, constant and type alias
/// definitions are registered, or refused when their name is defined in the
/// scope already. Each expression's node records the type it is inferred
/// to; `@` records the type of its target; a variable's or constant's nodes
/// record its declared type.
pub open spec fn statement_checked(
    t0: SymbolTable,
    n0: NodeTypes,
    st: Statement,
    rt: TypeModel,
    s0: (Set<Seq<char>>, Seq<TypeCheckError>),
    t1: SymbolTable,
    n1: NodeTypes,
    s1: (Set<Seq<char>>, Seq<TypeCheckError>),
) -> bool
    decreases st, 0nat,
{
    match st {
        Statement::Assign(a) => t1 == t0 && match a.right {
            Expression::Uzumaki(u) => exists|tv: Option<TypeModel>, sm: (Set<Seq<char>>, Seq<TypeCheckError>), nl: NodeTypes|
                #![trigger operand(tv), stage(sm), recorded(nl)]
                inferred(t0, n0, a.left, operand(tv)) && reported(t0, n0, a.left, s0, stage(sm)) && expr_recorded(
                    n0,
                    a.left,
                    tv,
                    recorded(nl),
                ) && match tv {
                    Some(x) => s1 == sm && n1.updated(&nl, u.id, x),
                    None => n1 == nl && pushes(
                        sm,
                        seq![Report::Exact(TypeCheckError::CannotInferUzumakiType { location: u.location })],
                        s1,
                    ),
                },
            _ => exists|
                tv: Option<TypeModel>,
                vv: Option<TypeModel>,
                between: NodeTypes,
                sl: (Set<Seq<char>>, Seq<TypeCheckError>),
                sr: (Set<Seq<char>>, Seq<TypeCheckError>),
            |
                #![trigger operand(tv), operand(vv), recorded(between), stage(sl), stage(sr)]
                inferred(t0, n0, a.left, operand(tv)) && reported(t0, n0, a.left, s0, stage(sl)) && expr_recorded(
                    n0,
                    a.left,
                    tv,
                    recorded(between),
                ) && inferred(t0, recorded(between), a.right, operand(vv)) && reported(t0, between, a.right, sl, stage(sr))
                    && expr_recorded(between, a.right, vv, n1) && match (tv, vv) {
                    (Some(x), Some(y)) => if x != y {
                        pushes(sr, seq![Report::Mismatch(x, y, TypeMismatchContext::Assignment, a.location)], s1)
                    } else {
                        s1 == sr
                    },
                    _ => s1 == sr,
                },
        },
        Statement::Block(b) => scoped_checked(t0, n0, b@, rt, s0, t1, n1, s1),
        Statement::Expression(e) => t1 == t0 && reported(t0, n0, e, s0, s1) && exists|v: Option<TypeModel>|
            #![trigger operand(v)]
            inferred(t0, n0, e, operand(v)) && expr_recorded(n0, e, v, n1),
        Statement::Return(r) => t1 == t0 && match r.expression {
            Expression::Uzumaki(u) => s1 == s0 && n1.updated(&n0, u.id, rt),
            _ => exists|v: Option<TypeModel>, sm: (Set<Seq<char>>, Seq<TypeCheckError>)|
                #![trigger operand(v), stage(sm)]
                inferred(t0, n0, r.expression, operand(v)) && reported(t0, n0, r.expression, s0, stage(sm))
                    && expr_recorded(n0, r.expression, v, n1) && pushes(
                    sm,
                    if value_or_unit(v) == rt {
                        Seq::<Report>::empty()
                    } else {
                        seq![Report::Mismatch(rt, value_or_unit(v), TypeMismatchContext::Return, r.location)]
                    },
                    s1,
                ),
        },
        Statement::Loop(l) => match l.condition {
            Some(c) => exists|sc: (Set<Seq<char>>, Seq<TypeCheckError>), nc: NodeTypes|
                #![trigger stage(sc), recorded(nc)]
                condition_reported(t0, n0, c, l.location, s0, stage(sc), recorded(nc))
                    && scoped_checked(t0, nc, l.body@, rt, sc, t1, n1, s1),
            None => scoped_checked(t0, n0, l.body@, rt, s0, t1, n1, s1),
        },
        Statement::Break(_) => t1 == t0 && n1 == n0 && s1 == s0,
        Statement::If(f) => exists|
            sc: (Set<Seq<char>>, Seq<TypeCheckError>),
            nc: NodeTypes,
            ti: SymbolTable,
            si: (Set<Seq<char>>, Seq<TypeCheckError>),
            ni: NodeTypes,
        |
            #![trigger stage(sc), recorded(nc), table_at(ti), stage(si), recorded(ni)]
            condition_reported(t0, n0, f.condition, f.location, s0, stage(sc), recorded(nc)) && scoped_checked(t0, nc, f.if_arm@, rt, sc, table_at(ti), recorded(ni), stage(si)) && match f.else_arm {
                Some(e) => scoped_checked(ti, ni, e@, rt, si, t1, n1, s1),
                None => t1 == ti && n1 == ni && s1 == si,
            },
        Statement::VariableDefinition(d) => exists|sm: (Set<Seq<char>>, Seq<TypeCheckError>), nv: NodeTypes, nn: NodeTypes|
            #![trigger stage(sm), recorded(nv), recorded(nn)]
            (match d.value {
                Some(Expression::Uzumaki(u)) => sm == s0 && recorded(nv).updated(&n0, u.id, type_of(d.ty, Seq::empty())),
                None => sm == s0 && recorded(nv) == n0,
                Some(e) => exists|v: Option<TypeModel>, sv: (Set<Seq<char>>, Seq<TypeCheckError>)|
                    #![trigger operand(v), stage(sv)]
                    inferred(t0, n0, e, operand(v)) && reported(t0, n0, e, s0, stage(sv)) && expr_recorded(
                        n0,
                        e,
                        v,
                        recorded(nv),
                    ) && pushes(
                        sv,
                        match v {
                            Some(x) => if x != type_of(d.ty, Seq::empty()) {
                                seq![
                                    Report::Mismatch(
                                        type_of(d.ty, Seq::empty()),
                                        x,
                                        TypeMismatchContext::VariableDefinition,
                                        d.location,
                                    ),
                                ]
                            } else {
                                Seq::<Report>::empty()
                            },
                            None => Seq::<Report>::empty(),
                        },
                        stage(sm),
                    ),
            }) && recorded(nn).updated(&nv, d.name.id, type_of(d.ty, Seq::empty())) && n1.updated(
                &nn,
                d.id,
                type_of(d.ty, Seq::empty()),
            ) && if t0.defined_in(t0.current, d.name.name@, Namespace::Variables) {
                t1 == t0 && pushes(
                    sm,
                    seq![Report::Refused(RegistrationKind::Variable, "variable"@, d.name.name@, d.location)],
                    s1,
                )
            } else {
                variable_added(t0, t1, d.name.name@, type_of(d.ty, Seq::empty())) && s1 == sm
            },
        Statement::TypeDefinition(td) => n1 == n0 && if t0.defined_in(t0.current, td.name.name@, Namespace::Types) {
            t1 == t0 && pushes(s0, seq![Report::Refused(RegistrationKind::Type, "type"@, td.name.name@, td.location)], s1)
        } else {
            alias_added(t0, t1, td.name.name@, type_of(td.ty, Seq::empty())) && s1 == s0
        },
        Statement::Assert(a) => t1 == t0 && condition_reported(t0, n0, a.expression, a.location, s0, s1, n1),
        Statement::ConstantDefinition(c) => (exists|nn: NodeTypes|
            #![trigger recorded(nn)]
            recorded(nn).updated(&n0, Expression::Literal(c.value).spec_node_id(), type_of(c.ty, Seq::empty()))
                && n1.updated(&nn, c.id, type_of(c.ty, Seq::empty()))) && if t0.defined_in(
            t0.current,
            c.name.name@,
            Namespace::Variables,
        ) {
            t1 == t0 && pushes(
                s0,
                seq![Report::Refused(RegistrationKind::Variable, "variable"@, c.name.name@, c.location)],
                s1,
            )
        } else {
            variable_added(t0, t1, c.name.name@, type_of(c.ty, Seq::empty())) && s1 == s0
        },
    }
}

/// What checking the statements `ss` in order does: each statement is
/// checked with the table, the recorded types and the reports the ones
/// before it left.
pub open spec fn block_checked(
    t0: SymbolTable,
    n0: NodeTypes,
    ss: Seq<Statement>,
    rt: TypeModel,
    s0: (Set<Seq<char>>, Seq<TypeCheckError>),
    t1: SymbolTable,
    n1: NodeTypes,
    s1: (Set<Seq<char>>, Seq<TypeCheckError>),
) -> bool
    decreases ss, 0nat,
{
    if ss.len() == 0 {
        t1 == t0 && n1 == n0 && s1 == s0
    } else {
        exists|tm: SymbolTable, sm: (Set<Seq<char>>, Seq<TypeCheckError>), nm: NodeTypes|
            #![trigger table_at(tm), stage(sm), recorded(nm)]
            block_checked(t0, n0, ss.subrange(0, ss.len() - 1), rt, s0, table_at(tm), recorded(nm), stage(sm))
                && statement_checked(tm, nm, ss.last(), rt, sm, t1, n1, s1)
    }
}

/// What checking the statements `ss` in a scope of their own does: a scope
/// is opened, the statements are checked there, and the current scope is
/// current again.
pub open spec fn scoped_checked(
    t0: SymbolTable,
    n0: NodeTypes,
    ss: Seq<Statement>,
    rt: TypeModel,
    s0: (Set<Seq<char>>, Seq<TypeCheckError>),
    t1: SymbolTable,
    n1: NodeTypes,
    s1: (Set<Seq<char>>, Seq<TypeCheckError>),
) -> bool
    decreases ss, 1nat,
{
    exists|tin: SymbolTable, tout: SymbolTable|
        #![trigger table_at(tin), table_at(tout)]
        scope_opened(t0, table_at(tin)) && block_checked(tin, n0, ss, rt, s0, table_at(tout), n1, s1) && scope_closed(
            tout,
            t0,
            t1,
        )
}

impl TypeChecker {
    /// Checks the statements in order, in the current scope.
    #[verifier::loop_isolation(false)]
    pub fn infer_block(&mut self, statements: &Vec<Statement>, return_type: &TypeInfo, nodes: &mut NodeTypes)
        requires
            old(self).wf(),
            stmts_wf(statements@),
        ensures
            block_checked(
                old(self).symbol_table,
                *old(nodes),
                statements@,
                return_type@,
                report_state(*old(self)),
                final(self).symbol_table,
                *final(nodes),
                report_state(*final(self)),
            ),
            kept_outside_statements(*final(nodes), *old(nodes), statements@),
            final(self).keeps_scope(old(self)),
        decreases statements, 0nat,
    {
        let mut i: usize = 0;
        proof {
            assert(kept_outside_statements(*nodes, *old(nodes), statements@.take(0)));
            assert(statements@.take(0).len() == 0);
        }
        while i < statements.len()
            invariant
                i <= statements@.len(),
                self.keeps_scope(old(self)),
                kept_outside_statements(*nodes, *old(nodes), statements@.take(i as int)),
                block_checked(
                    old(self).symbol_table,
                    *old(nodes),
                    statements@.take(i as int),
                    return_type@,
                    report_state(*old(self)),
                    self.symbol_table,
                    *nodes,
                    report_state(*self),
                ),
            decreases statements@.len() - i,
        {
            proof {
                let ghost s = statements@[i as int];
                assert(decreases_to!(*statements => statements@));
                assert(decreases_to!(statements@ => s));
            }
            let ghost before = *nodes;
            let ghost tm = self.symbol_table;
            let ghost sm = report_state(*self);
            proof {
                assert(table_at(tm) == tm);
                assert(stage(sm) == sm);
                assert(recorded(before) == before);
            }
            self.infer_statement(&statements[i], return_type, nodes);
            proof {
                lemma_kept_statements_step(*old(nodes), before, *nodes, statements@, i as int);
                let ghost next = statements@.take(i as int + 1);
                assert(next.subrange(0, next.len() - 1) =~= statements@.take(i as int));
                assert(next.last() == statements@[i as int]);
            }
            i = i + 1;
        }
        proof {
            assert(statements@.take(i as int) =~= statements@);
        }
    }

    /// Checks the statements in a new scope below the current one, and
    /// returns to the current scope.
    pub fn infer_scoped_block(&mut self, statements: &Vec<Statement>, return_type: &TypeInfo, nodes: &mut NodeTypes)
        requires
            old(self).wf(),
            stmts_wf(statements@),
        ensures
            scoped_checked(
                old(self).symbol_table,
                *old(nodes),
                statements@,
                return_type@,
                report_state(*old(self)),
                final(self).symbol_table,
                *final(nodes),
                report_state(*final(self)),
            ),
            kept_outside_statements(*final(nodes), *old(nodes), statements@),
            final(self).keeps_scope(old(self)),
        decreases statements, 1nat,
    {
        let outer = self.symbol_table.current_scope_id();
        self.symbol_table.push_scope();
        let ghost tin = self.symbol_table;
        proof {
            assert(extends(self.errors@, old(self).errors@));
            assert(table_at(tin) == tin);
            if old(self).symbol_table.scopes@.len() < u32::MAX {
                assert(tin.scopes@.last() == tin.scopes@[tin.current as int]);
            }
        }
        self.infer_block(statements, return_type, nodes);
        let ghost tout = self.symbol_table;
        proof {
            assert(table_at(tout) == tout);
        }
        self.symbol_table.restore_scope(outer);
    }

    /// Reports a condition whose type is not `Bool`.
    fn check_condition(&mut self, condition_type: Option<TypeInfo>, location: &Location)
        requires
            old(self).wf(),
        ensures
            final(self).wf(),
            final(self).symbol_table == old(self).symbol_table,
            final(self).glob_resolution_in_progress == old(self).glob_resolution_in_progress,
            if condition_type matches Some(t) && t@.kind is Bool {
                final(self).errors@ == old(self).errors@
            } else {
                one_mismatch_after(
                    final(self).errors@,
                    old(self).errors@,
                    plain(KindModel::Bool),
                    value_or_unit(model_of(condition_type)),
                    TypeMismatchContext::Condition,
                    *location,
                )
            },
            pushes(
                report_state(*old(self)),
                if condition_accepted(model_of(condition_type)) {
                    Seq::<Report>::empty()
                } else {
                    seq![
                        Report::Mismatch(
                            plain(KindModel::Bool),
                            value_or_unit(model_of(condition_type)),
                            TypeMismatchContext::Condition,
                            *location,
                        ),
                    ]
                },
                report_state(*final(self)),
            ),
    {
        let ghost s0 = report_state(*self);
        proof {
            crate::reports::lemma_pushes_none(s0);
        }
        let is_bool = match &condition_type {
            Some(t) => t.is_bool(),
            None => false,
        };
        if !is_bool {
            let ghost r = Report::Mismatch(
                plain(KindModel::Bool),
                value_or_unit(model_of(condition_type)),
                TypeMismatchContext::Condition,
                *location,
            );
            let found = match condition_type {
                Some(t) => t,
                None => TypeInfo::unit(),
            };
            proof {
                assert(Seq::<Report>::empty().push(r) =~= seq![r]);
            }
            self.push_report(
                TypeCheckError::TypeMismatch {
                    expected: TypeInfo::boolean(),
                    found,
                    context: TypeMismatchContext::Condition,
                    location: *location,
                },
                Ghost(r),
                Ghost(s0),
                Ghost(Seq::empty()),
            );
        }
    }

    /// Checks a statement; `return_type` is the type the enclosing function
    /// returns. Blocks, loop bodies and branches are checked in scopes of
    /// their own; the current scope is the same afterwards. A variable
    /// definition that is not refused makes the variable visible with its
    /// declared type.
    pub fn infer_statement(&mut self, statement: &Statement, return_type: &TypeInfo, nodes: &mut NodeTypes)
        requires
            old(self).wf(),
            stmt_wf(*statement),
        ensures
            statement_checked(
                old(self).symbol_table,
                *old(nodes),
                *statement,
                return_type@,
                report_state(*old(self)),
                final(self).symbol_table,
                *final(nodes),
                report_state(*final(self)),
            ),
            kept_outside_statement(*final(nodes), *old(nodes), *statement),
            final(self).keeps_scope(old(self)),
            statement matches Statement::VariableDefinition(v) ==> (!old(self).symbol_table.defined_in(
                old(self).symbol_table.current,
                v.name.name@,
                Namespace::Variables,
            ) ==> final(self).symbol_table.variable_type(v.name.name@) == Some(type_of(v.ty, Seq::empty()))),
            statement matches Statement::VariableDefinition(v) ==> {
                &&& final(nodes).type_of_node(v.id) == Some(type_of(v.ty, Seq::empty()))
                &&& final(nodes).type_of_node(v.name.id) == Some(type_of(v.ty, Seq::empty()))
                &&& v.value matches Some(Expression::Uzumaki(u)) ==> final(nodes).type_of_node(u.id) == Some(
                    type_of(v.ty, Seq::empty()),
                )
            },
            statement matches Statement::ConstantDefinition(c) ==> {
                &&& final(nodes).type_of_node(c.id) == Some(type_of(c.ty, Seq::empty()))
                &&& final(nodes).type_of_node(Expression::Literal(c.value).spec_node_id()) == Some(
                    type_of(c.ty, Seq::empty()),
                )
            },
            statement matches Statement::Return(rs) ==> match rs.expression {
                Expression::Uzumaki(u) => {
                    &&& final(nodes).type_of_node(u.id) == Some(return_type@)
                    &&& final(self).errors@ == old(self).errors@
                },
                _ => exists|v: Option<TypeModel>, sm: (Set<Seq<char>>, Seq<TypeCheckError>)|
                    #![trigger operand(v), stage(sm)]
                    inferred(old(self).symbol_table, *old(nodes), rs.expression, operand(v)) && reported(
                        old(self).symbol_table,
                        *old(nodes),
                        rs.expression,
                        report_state(*old(self)),
                        stage(sm),
                    ) && checked_against(
                        final(self).errors@,
                        sm.1,
                        v,
                        return_type@,
                        TypeMismatchContext::Return,
                        rs.location,
                    ),
            },
            statement matches Statement::Expression(e) ==> reported(
                old(self).symbol_table,
                *old(nodes),
                *e,
                report_state(*old(self)),
                report_state(*final(self)),
            ),
            statement matches Statement::Assert(a) ==> exists|v: Option<TypeModel>, sm: (Set<Seq<char>>, Seq<TypeCheckError>)|
                #![trigger operand(v), stage(sm)]
                inferred(old(self).symbol_table, *old(nodes), a.expression, operand(v)) && reported(
                    old(self).symbol_table,
                    *old(nodes),
                    a.expression,
                    report_state(*old(self)),
                    stage(sm),
                ) && condition_checked(final(self).errors@, sm.1, v, a.location),
            statement matches Statement::If(f) ==> exists|
                v: Option<TypeModel>,
                sm: (Set<Seq<char>>, Seq<TypeCheckError>),
                checked: Seq<TypeCheckError>,
            |
                #![trigger operand(v), stage(sm), errors_then(checked)]
                inferred(old(self).symbol_table, *old(nodes), f.condition, operand(v)) && reported(
                    old(self).symbol_table,
                    *old(nodes),
                    f.condition,
                    report_state(*old(self)),
                    stage(sm),
                ) && condition_checked(errors_then(checked), sm.1, v, f.location) && extends(final(self).errors@, checked),
            statement matches Statement::Loop(l) ==> (l.condition matches Some(c) ==> exists|
                v: Option<TypeModel>,
                sm: (Set<Seq<char>>, Seq<TypeCheckError>),
                checked: Seq<TypeCheckError>,
            |
                #![trigger operand(v), stage(sm), errors_then(checked)]
                inferred(old(self).symbol_table, *old(nodes), c, operand(v)) && reported(
                    old(self).symbol_table,
                    *old(nodes),
                    c,
                    report_state(*old(self)),
                    stage(sm),
                ) && condition_checked(errors_then(checked), sm.1, v, l.location) && extends(final(self).errors@, checked)),
            statement matches Statement::Assign(a) ==> match a.right {
                Expression::Uzumaki(u) => exists|tv: Option<TypeModel>, sm: (Set<Seq<char>>, Seq<TypeCheckError>)|
                    #![trigger operand(tv), stage(sm)]
                    inferred(old(self).symbol_table, *old(nodes), a.left, operand(tv)) && reported(
                        old(self).symbol_table,
                        *old(nodes),
                        a.left,
                        report_state(*old(self)),
                        stage(sm),
                    ) && match tv {
                        Some(t) => final(nodes).type_of_node(u.id) == Some(t) && final(self).errors@ == sm.1,
                        None => final(self).errors@ == sm.1.push(
                            TypeCheckError::CannotInferUzumakiType { location: u.location },
                        ),
                    },
                _ => exists|
                    tv: Option<TypeModel>,
                    vv: Option<TypeModel>,
                    between: NodeTypes,
                    sl: (Set<Seq<char>>, Seq<TypeCheckError>),
                    sr: (Set<Seq<char>>, Seq<TypeCheckError>),
                |
                    #![trigger operand(tv), operand(vv), recorded(between), stage(sl), stage(sr)]
                    inferred(old(self).symbol_table, *old(nodes), a.left, operand(tv)) && reported(
                        old(self).symbol_table,
                        *old(nodes),
                        a.left,
                        report_state(*old(self)),
                        stage(sl),
                    ) && kept_outside(recorded(between), *old(nodes), a.left) && inferred(
                        old(self).symbol_table,
                        recorded(between),
                        a.right,
                        operand(vv),
                    ) && reported(old(self).symbol_table, between, a.right, sl, stage(sr)) && match (tv, vv) {
                        (Some(t), Some(x)) => if t != x {
                            one_mismatch_after(final(self).errors@, sr.1, t, x, TypeMismatchContext::Assignment, a.location)
                        } else {
                            final(self).errors@ == sr.1
                        },
                        _ => final(self).errors@ == sr.1,
                    },
            },
            statement matches Statement::VariableDefinition(d) ==> exists|
                v: Option<TypeModel>,
                sm: (Set<Seq<char>>, Seq<TypeCheckError>),
                checked: Seq<TypeCheckError>,
            |
                #![trigger operand(v), stage(sm), errors_then(checked)]
                match d.value {
                    Some(Expression::Uzumaki(_)) => checked == old(self).errors@,
                    None => checked == old(self).errors@,
                    Some(e) => inferred(old(self).symbol_table, *old(nodes), e, operand(v)) && reported(
                        old(self).symbol_table,
                        *old(nodes),
                        e,
                        report_state(*old(self)),
                        stage(sm),
                    ) && match v {
                        Some(x) => if x != type_of(d.ty, Seq::empty()) {
                            one_mismatch_after(
                                errors_then(checked),
                                sm.1,
                                type_of(d.ty, Seq::empty()),
                                x,
                                TypeMismatchContext::VariableDefinition,
                                d.location,
                            )
                        } else {
                            checked == sm.1
                        },
                        None => checked == sm.1,
                    },
                } && if old(self).symbol_table.defined_in(
                    old(self).symbol_table.current,
                    d.name.name@,
                    Namespace::Variables,
                ) {
                    variable_refused_after(final(self).errors@, checked, d.name.name@, d.location)
                } else {
                    final(self).errors@ == checked
                },
            statement matches Statement::TypeDefinition(td) ==> if old(self).symbol_table.defined_in(
                old(self).symbol_table.current,
                td.name.name@,
                Namespace::Types,
            ) {
                type_refused_after(final(self).errors@, old(self).errors@, td.name.name@, td.location)
            } else {
                final(self).errors@ == old(self).errors@
            },
            statement matches Statement::ConstantDefinition(c) ==> if old(self).symbol_table.defined_in(
                old(self).symbol_table.current,
                c.name.name@,
                Namespace::Variables,
            ) {
                variable_refused_after(final(self).errors@, old(self).errors@, c.name.name@, c.location)
            } else {
                final(self).errors@ == old(self).errors@
            },
            statement is Break ==> final(self).errors@ == old(self).errors@,
        decreases statement, 2nat,
    {
        let ghost s0 = report_state(*self);
        let ghost t0 = self.symbol_table;
        proof {
            crate::reports::lemma_pushes_none(s0);
        }
        match statement {
            Statement::Assign(assign_statement) => {
                let target_type = self.infer_expression(&assign_statement.left, nodes);
                let ghost between = *nodes;
                let ghost sl = report_state(*self);
                proof {
                    assert(operand(model_of(target_type)) == model_of(target_type));
                    assert(stage(sl) == sl);
                    assert(recorded(between) == between);
                    crate::reports::lemma_pushes_none(sl);
                }
                if let Expression::Uzumaki(uzumaki) = &assign_statement.right {
                    match target_type {
                        Some(target) => {
                            nodes.set_node_typeinfo(uzumaki.id, target);
                        },
                        None => {
                            let ghost r = Report::Exact(TypeCheckError::CannotInferUzumakiType { location: uzumaki.location });
                            proof {
                                assert(Seq::<Report>::empty().push(r) =~= seq![r]);
                            }
                            self.push_report(
                                TypeCheckError::CannotInferUzumakiType { location: uzumaki.location },
                                Ghost(r),
                                Ghost(sl),
                                Ghost(Seq::empty()),
                            );
                        },
                    }
                } else {
                    let value_type = self.infer_expression(&assign_statement.right, nodes);
                    let ghost sr = report_state(*self);
                    proof {
                        assert(operand(model_of(value_type)) == model_of(value_type));
                        assert(stage(sr) == sr);
                        crate::reports::lemma_pushes_none(sr);
                    }
                    if let (Some(target), Some(val)) = (target_type, value_type) {
                        if !target.equals(&val) {
                            let ghost r = Report::Mismatch(
                                target@,
                                val@,
                                TypeMismatchContext::Assignment,
                                assign_statement.location,
                            );
                            proof {
                                assert(Seq::<Report>::empty().push(r) =~= seq![r]);
                            }
                            self.push_report(
                                TypeCheckError::TypeMismatch {
                                    expected: target,
                                    found: val,
                                    context: TypeMismatchContext::Assignment,
                                    location: assign_statement.location,
                                },
                                Ghost(r),
                                Ghost(sr),
                                Ghost(Seq::empty()),
                            );
                        }
                    }
                }
            },
            Statement::Block(block) => {
                self.infer_scoped_block(block, return_type, nodes);
            },
            Statement::Expression(expression) => {
                let value = self.infer_expression(expression, nodes);
                proof {
                    assert(operand(model_of(value)) == model_of(value));
                }
            },
            Statement::Return(return_statement) => {
                if let Expression::Uzumaki(uzumaki) = &return_statement.expression {
                    nodes.set_node_typeinfo(uzumaki.id, return_type.duplicate());
                } else {
                    let value_result = self.infer_expression(&return_statement.expression, nodes);
                    let ghost sm = report_state(*self);
                    proof {
                        assert(operand(model_of(value_result)) == model_of(value_result));
                        assert(stage(sm) == sm);
                        crate::reports::lemma_pushes_none(sm);
                    }
                    let value_type = match value_result {
                        Some(t) => t,
                        None => TypeInfo::unit(),
                    };
                    if !return_type.equals(&value_type) {
                        let ghost r = Report::Mismatch(
                            return_type@,
                            value_type@,
                            TypeMismatchContext::Return,
                            return_statement.location,
                        );
                        proof {
                            assert(Seq::<Report>::empty().push(r) =~= seq![r]);
                        }
                        self.push_report(
                            TypeCheckError::TypeMismatch {
                                expected: return_type.duplicate(),
                                found: value_type,
                                context: TypeMismatchContext::Return,
                                location: return_statement.location,
                            },
                            Ghost(r),
                            Ghost(sm),
                            Ghost(Seq::empty()),
                        );
                    }
                }
            },
            Statement::Loop(loop_statement) => {
                if let Some(condition) = &loop_statement.condition {
                    let condition_type = self.infer_expression(condition, nodes);
                    let ghost sm = report_state(*self);
                    let ghost nc = *nodes;
                    self.check_condition(condition_type, &loop_statement.location);
                    let ghost checked = self.errors@;
                    let ghost sc = report_state(*self);
                    proof {
                        assert(operand(model_of(condition_type)) == model_of(condition_type));
                        assert(stage(sm) == sm);
                        assert(stage(sc) == sc);
                        assert(recorded(nc) == nc);
                        assert(errors_then(checked) == checked);
                        assert(condition_reported(t0, *old(nodes), *condition, loop_statement.location, s0, sc, nc));
                    }
                }
                self.infer_scoped_block(&loop_statement.body, return_type, nodes);
            },
            Statement::Break(_) => {},
            Statement::If(if_statement) => {
                let condition_type = self.infer_expression(&if_statement.condition, nodes);
                let ghost sm = report_state(*self);
                let ghost nc = *nodes;
                self.check_condition(condition_type, &if_statement.location);
                let ghost checked = self.errors@;
                let ghost sc = report_state(*self);
                proof {
                    assert(operand(model_of(condition_type)) == model_of(condition_type));
                    assert(stage(sm) == sm);
                    assert(stage(sc) == sc);
                    assert(recorded(nc) == nc);
                    assert(errors_then(checked) == checked);
                    assert(condition_reported(t0, *old(nodes), if_statement.condition, if_statement.location, s0, sc, nc));
                }
                self.infer_scoped_block(&if_statement.if_arm, return_type, nodes);
                let ghost ti = self.symbol_table;
                let ghost si = report_state(*self);
                let ghost ni = *nodes;
                proof {
                    assert(table_at(ti) == ti);
                    assert(stage(si) == si);
                    assert(recorded(ni) == ni);
                }
                if let Some(else_arm) = &if_statement.else_arm {
                    self.infer_scoped_block(else_arm, return_type, nodes);
                }
            },
            Statement::VariableDefinition(variable_definition) => {
                let ghost table0 = self.symbol_table;
                let target_type = TypeInfo::new(&variable_definition.ty);
                let ghost mut sm = report_state(*self);
                let ghost mut v: Option<TypeModel> = None;
                if let Some(initial_value) = &variable_definition.value {
                    if let Expression::Uzumaki(uzumaki) = initial_value {
                        nodes.set_node_typeinfo(uzumaki.id, target_type.duplicate());
                    } else {
                        let init_result = self.infer_expression(initial_value, nodes);
                        let ghost sv = report_state(*self);
                        proof {
                            v = model_of(init_result);
                            assert(operand(v) == v);
                            assert(stage(sv) == sv);
                            crate::reports::lemma_pushes_none(sv);
                        }
                        if let Some(init_type) = init_result {
                            if !init_type.equals(&target_type) {
                                let ghost r = Report::Mismatch(
                                    target_type@,
                                    init_type@,
                                    TypeMismatchContext::VariableDefinition,
                                    variable_definition.location,
                                );
                                proof {
                                    assert(Seq::<Report>::empty().push(r) =~= seq![r]);
                                }
                                self.push_report(
                                    TypeCheckError::TypeMismatch {
                                        expected: target_type.duplicate(),
                                        found: init_type,
                                        context: TypeMismatchContext::VariableDefinition,
                                        location: variable_definition.location,
                                    },
                                    Ghost(r),
                                    Ghost(sv),
                                    Ghost(Seq::empty()),
                                );
                            }
                        }
                        proof {
                            sm = report_state(*self);
                        }
                    }
                }
                let ghost checked = self.errors@;
                let ghost nv = *nodes;
                proof {
                    assert(operand(v) == v);
                    assert(stage(sm) == sm);
                    assert(recorded(nv) == nv);
                    assert(errors_then(checked) == checked);
                    crate::reports::lemma_pushes_none(sm);
                }
                let name = &variable_definition.name.name;
                let registered_type = target_type.duplicate();
                let ghost entry = crate::symbol_table::Entry {
                    scope: table0.current,
                    name: *name,
                    symbol: Symbol::Variable(registered_type),
                };
                let pushed = self.symbol_table.push_variable_to_scope(name, registered_type);
                proof {
                    assert(self.symbol_table.scopes@ == table0.scopes@);
                }
                match pushed {
                    Ok(()) => {
                        proof {
                            assert(self.symbol_table.appended_entry(&table0, entry));
                        }
                    },
                    Err(err) => {
                        let ghost r = Report::Refused(
                            RegistrationKind::Variable,
                            "variable"@,
                            name@,
                            variable_definition.location,
                        );
                        proof {
                            assert(Seq::<Report>::empty().push(r) =~= seq![r]);
                        }
                        self.push_report(
                            TypeCheckError::RegistrationFailed {
                                kind: RegistrationKind::Variable,
                                name: name.clone(),
                                reason: Some(err),
                                location: variable_definition.location,
                            },
                            Ghost(r),
                            Ghost(sm),
                            Ghost(Seq::empty()),
                        );
                    },
                }
                nodes.set_node_typeinfo(variable_definition.name.id, target_type.duplicate());
                let ghost nn = *nodes;
                proof {
                    assert(recorded(nn) == nn);
                }
                nodes.set_node_typeinfo(variable_definition.id, target_type);
            },
            Statement::TypeDefinition(type_definition) => {
                let name = &type_definition.name.name;
                let alias = TypeInfo::new(&type_definition.ty);
                let ghost entry = crate::symbol_table::Entry {
                    scope: t0.current,
                    name: *name,
                    symbol: Symbol::TypeAlias(alias),
                };
                let registered = self.symbol_table.register_type(name, alias);
                match registered {
                    Ok(()) => {
                        proof {
                            assert(self.symbol_table.appended_entry(&t0, entry));
                        }
                    },
                    Err(err) => {
                        let ghost r = Report::Refused(RegistrationKind::Type, "type"@, name@, type_definition.location);
                        proof {
                            assert(Seq::<Report>::empty().push(r) =~= seq![r]);
                        }
                        self.push_report(
                            TypeCheckError::RegistrationFailed {
                                kind: RegistrationKind::Type,
                                name: name.clone(),
                                reason: Some(err),
                                location: type_definition.location,
                            },
                            Ghost(r),
                            Ghost(s0),
                            Ghost(Seq::empty()),
                        );
                    },
                }
            },
            Statement::Assert(assert_statement) => {
                let condition_type = self.infer_expression(&assert_statement.expression, nodes);
                let ghost sm = report_state(*self);
                proof {
                    assert(operand(model_of(condition_type)) == model_of(condition_type));
                    assert(stage(sm) == sm);
                }
                self.check_condition(condition_type, &assert_statement.location);
            },
            Statement::ConstantDefinition(constant_definition) => {
                let constant_type = TypeInfo::new(&constant_definition.ty);
                let name = &constant_definition.name.name;
                let registered_type = constant_type.duplicate();
                let ghost entry = crate::symbol_table::Entry {
                    scope: t0.current,
                    name: *name,
                    symbol: Symbol::Variable(registered_type),
                };
                let pushed = self.symbol_table.push_variable_to_scope(name, registered_type);
                match pushed {
                    Ok(()) => {
                        proof {
                            assert(self.symbol_table.appended_entry(&t0, entry));
                        }
                    },
                    Err(err) => {
                        let ghost r = Report::Refused(
                            RegistrationKind::Variable,
                            "variable"@,
                            name@,
                            constant_definition.location,
                        );
                        proof {
                            assert(Seq::<Report>::empty().push(r) =~= seq![r]);
                        }
                        self.push_report(
                            TypeCheckError::RegistrationFailed {
                                kind: RegistrationKind::Variable,
                                name: name.clone(),
                                reason: Some(err),
                                location: constant_definition.location,
                            },
                            Ghost(r),
                            Ghost(s0),
                            Ghost(Seq::empty()),
                        );
                    },
                }
                nodes.set_node_typeinfo(constant_definition.value.node_id(), constant_type.duplicate());
                let ghost nn = *nodes;
                proof {
                    assert(recorded(nn) == nn);
                    assert(Expression::Literal(constant_definition.value).spec_node_id() == constant_definition.value.spec_node_id());
                }
                nodes.set_node_typeinfo(constant_definition.id, constant_type);
            },
        }
    }
}

} // verus!
