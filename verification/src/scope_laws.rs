//! What checking statements leaves in the symbol table: statements keep the
//! current scope and only add entries to it or to scopes they open, and a
//! block, loop body or branch adds none to the scope around it.
use vstd::prelude::*;

use crate::ast::Statement;
use crate::errors::TypeCheckError;
use crate::inference::recorded;
use crate::reports::stage;
use crate::statements::{block_checked, condition_reported, scoped_checked, statement_checked, table_at};
use crate::symbol_table::{first_match, lemma_first_match_prefix, Namespace, Symbol, SymbolTable};
use crate::type_info::TypeModel;
use crate::typed_context::NodeTypes;

verus! {

/// `t1` keeps every entry of `t0` in its place, and at least its scopes.
pub open spec fn entries_kept(t0: SymbolTable, t1: SymbolTable) -> bool {
    &&& t0.entries@.len() <= t1.entries@.len()
    &&& forall|q: int| 0 <= q < t0.entries@.len() ==> #[trigger] t1.entries@[q] == t0.entries@[q]
    &&& t0.scopes@.len() <= t1.scopes@.len()
}

/// The entries of `t1` that `t0` lacks are all in scope `s` or in scopes
/// made after `t0`'s.
pub open spec fn new_entries_in(t0: SymbolTable, t1: SymbolTable, s: u32) -> bool {
    forall|q: int|
        t0.entries@.len() <= q < t1.entries@.len() ==> (#[trigger] t1.entries@[q]).scope == s || t1.entries@[q].scope
            >= t0.scopes@.len()
}

/// The entries of `t1` that `t0` lacks are all in scopes made after
/// `t0`'s, unless no scope identifier was left, in which case they are in
/// the current scope of `t0`.
pub open spec fn new_entries_below(t0: SymbolTable, t1: SymbolTable) -> bool {
    forall|q: int|
        t0.entries@.len() <= q < t1.entries@.len() ==> (#[trigger] t1.entries@[q]).scope >= t0.scopes@.len() || (
        t0.scopes@.len() >= u32::MAX && t1.entries@[q].scope == t0.current)
}

proof fn lemma_kept_trans(a: SymbolTable, b: SymbolTable, c: SymbolTable)
    requires
        entries_kept(a, b),
        entries_kept(b, c),
    ensures
        entries_kept(a, c),
{
    assert forall|q: int| 0 <= q < a.entries@.len() implies #[trigger] c.entries@[q] == a.entries@[q] by {
        assert(b.entries@[q] == a.entries@[q]);
    }
}

/// Checking a statement keeps the current scope and the entries, and adds
/// entries only to the current scope or to scopes it opens.
pub proof fn lemma_statement_scopes(
    t0: SymbolTable,
    n0: NodeTypes,
    st: Statement,
    rt: TypeModel,
    s0: (Set<Seq<char>>, Seq<TypeCheckError>),
    t1: SymbolTable,
    n1: NodeTypes,
    s1: (Set<Seq<char>>, Seq<TypeCheckError>),
)
    requires
        statement_checked(t0, n0, st, rt, s0, t1, n1, s1),
    ensures
        entries_kept(t0, t1),
        t1.current == t0.current,
        new_entries_in(t0, t1, t0.current),
    decreases st, 0nat,
{
    match st {
        Statement::Block(b) => {
            lemma_scoped_scopes(t0, n0, b@, rt, s0, t1, n1, s1);
        },
        Statement::Loop(l) => {
            match l.condition {
                Some(c) => {
                    let (sc, nc) = choose|sc: (Set<Seq<char>>, Seq<TypeCheckError>), nc: NodeTypes|
                        #![trigger stage(sc), recorded(nc)]
                        condition_reported(t0, n0, c, l.location, s0, stage(sc), recorded(nc)) && scoped_checked(
                            t0,
                            nc,
                            l.body@,
                            rt,
                            sc,
                            t1,
                            n1,
                            s1,
                        );
                    lemma_scoped_scopes(t0, nc, l.body@, rt, sc, t1, n1, s1);
                },
                None => {
                    lemma_scoped_scopes(t0, n0, l.body@, rt, s0, t1, n1, s1);
                },
            }
        },
        Statement::If(f) => {
            let (sc, nc, ti, si, ni) = choose|
                sc: (Set<Seq<char>>, Seq<TypeCheckError>),
                nc: NodeTypes,
                ti: SymbolTable,
                si: (Set<Seq<char>>, Seq<TypeCheckError>),
                ni: NodeTypes,
            |
                #![trigger stage(sc), recorded(nc), table_at(ti), stage(si), recorded(ni)]
                condition_reported(t0, n0, f.condition, f.location, s0, stage(sc), recorded(nc)) && scoped_checked(
                    t0,
                    nc,
                    f.if_arm@,
                    rt,
                    sc,
                    table_at(ti),
                    recorded(ni),
                    stage(si),
                ) && match f.else_arm {
                    Some(e) => scoped_checked(ti, ni, e@, rt, si, t1, n1, s1),
                    None => t1 == ti && n1 == ni && s1 == si,
                };
            lemma_scoped_scopes(t0, nc, f.if_arm@, rt, sc, ti, ni, si);
            match f.else_arm {
                Some(e) => {
                    lemma_scoped_scopes(ti, ni, e@, rt, si, t1, n1, s1);
                    lemma_kept_trans(t0, ti, t1);
                    assert forall|q: int| t0.entries@.len() <= q < t1.entries@.len() implies (#[trigger] t1.entries@[q]).scope
                        == t0.current || t1.entries@[q].scope >= t0.scopes@.len() by {
                        if q < ti.entries@.len() {
                            assert(t1.entries@[q] == ti.entries@[q]);
                        }
                    }
                },
                None => {},
            }
        },
        _ => {},
    }
}

/// Checking statements in order keeps the current scope and the entries,
/// and adds entries only to the current scope or to scopes opened on the
/// way.
pub proof fn lemma_block_scopes(
    t0: SymbolTable,
    n0: NodeTypes,
    ss: Seq<Statement>,
    rt: TypeModel,
    s0: (Set<Seq<char>>, Seq<TypeCheckError>),
    t1: SymbolTable,
    n1: NodeTypes,
    s1: (Set<Seq<char>>, Seq<TypeCheckError>),
)
    requires
        block_checked(t0, n0, ss, rt, s0, t1, n1, s1),
    ensures
        entries_kept(t0, t1),
        t1.current == t0.current,
        new_entries_in(t0, t1, t0.current),
    decreases ss, 0nat,
{
    if ss.len() > 0 {
        let (tm, sm, nm) = choose|tm: SymbolTable, sm: (Set<Seq<char>>, Seq<TypeCheckError>), nm: NodeTypes|
            #![trigger table_at(tm), stage(sm), recorded(nm)]
            block_checked(t0, n0, ss.subrange(0, ss.len() - 1), rt, s0, table_at(tm), recorded(nm), stage(sm))
                && statement_checked(tm, nm, ss.last(), rt, sm, t1, n1, s1);
        lemma_block_scopes(t0, n0, ss.subrange(0, ss.len() - 1), rt, s0, tm, nm, sm);
        lemma_statement_scopes(tm, nm, ss.last(), rt, sm, t1, n1, s1);
        lemma_kept_trans(t0, tm, t1);
        assert forall|q: int| t0.entries@.len() <= q < t1.entries@.len() implies (#[trigger] t1.entries@[q]).scope
            == t0.current || t1.entries@[q].scope >= t0.scopes@.len() by {
            if q < tm.entries@.len() {
                assert(t1.entries@[q] == tm.entries@[q]);
            }
        }
    }
}

/// Checking statements in a scope of their own keeps the current scope and
/// the entries, and adds entries only to scopes made on the way (to the
/// current scope only when no scope identifier was left).
pub proof fn lemma_scoped_scopes(
    t0: SymbolTable,
    n0: NodeTypes,
    ss: Seq<Statement>,
    rt: TypeModel,
    s0: (Set<Seq<char>>, Seq<TypeCheckError>),
    t1: SymbolTable,
    n1: NodeTypes,
    s1: (Set<Seq<char>>, Seq<TypeCheckError>),
)
    requires
        scoped_checked(t0, n0, ss, rt, s0, t1, n1, s1),
    ensures
        entries_kept(t0, t1),
        t1.current == t0.current,
        new_entries_below(t0, t1),
        new_entries_in(t0, t1, t0.current),
    decreases ss, 1nat,
{
    let (tin, tout) = choose|tin: SymbolTable, tout: SymbolTable|
        #![trigger table_at(tin), table_at(tout)]
        crate::statements::scope_opened(t0, table_at(tin)) && block_checked(tin, n0, ss, rt, s0, table_at(tout), n1, s1)
            && crate::statements::scope_closed(tout, t0, t1);
    lemma_block_scopes(tin, n0, ss, rt, s0, tout, n1, s1);
    if t0.scopes@.len() < u32::MAX {
        assert(tin.scopes@.len() == t0.scopes@.len() + 1);
    }
    assert(entries_kept(t0, tin));
    lemma_kept_trans(t0, tin, tout);
}

/// New entries that are not in scope `s` leave what is defined in `s`.
proof fn lemma_first_match_tail(entries: Seq<crate::symbol_table::Entry>, n0: int, n1: int, s: u32, name: Seq<char>, ns: Namespace)
    requires
        0 <= n0 <= n1 <= entries.len(),
        forall|q: int| n0 <= q < n1 ==> (#[trigger] entries[q]).scope != s,
    ensures
        first_match(entries, n1, s, name, ns) == first_match(entries, n0, s, name, ns),
    decreases n1 - n0,
{
    if n1 > n0 {
        lemma_first_match_tail(entries, n0, n1 - 1, s, name, ns);
    }
}

/// An `if` statement, a loop or a block defines nothing in the scope
/// around it: what its branches or body define lives in scopes of their
/// own, so after it every name of the current scope is defined exactly when
/// it was before it (as long as scope identifiers last).
pub proof fn law_nested_statements_are_scoped(
    t0: SymbolTable,
    n0: NodeTypes,
    st: Statement,
    rt: TypeModel,
    s0: (Set<Seq<char>>, Seq<TypeCheckError>),
    t1: SymbolTable,
    n1: NodeTypes,
    s1: (Set<Seq<char>>, Seq<TypeCheckError>),
    name: Seq<char>,
    ns: Namespace,
)
    requires
        t0.wf(),
        t1.scopes@.len() < u32::MAX,
        st is If || st is Loop || st is Block,
        statement_checked(t0, n0, st, rt, s0, t1, n1, s1),
    ensures
        t1.current == t0.current,
        t1.defined_in(t1.current, name, ns) == t0.defined_in(t0.current, name, ns),
{
    match st {
        Statement::If(f) => {
            let (sc, nc, ti, si, ni) = choose|
                sc: (Set<Seq<char>>, Seq<TypeCheckError>),
                nc: NodeTypes,
                ti: SymbolTable,
                si: (Set<Seq<char>>, Seq<TypeCheckError>),
                ni: NodeTypes,
            |
                #![trigger stage(sc), recorded(nc), table_at(ti), stage(si), recorded(ni)]
                condition_reported(t0, n0, f.condition, f.location, s0, stage(sc), recorded(nc)) && scoped_checked(
                    t0,
                    nc,
                    f.if_arm@,
                    rt,
                    sc,
                    table_at(ti),
                    recorded(ni),
                    stage(si),
                ) && match f.else_arm {
                    Some(e) => scoped_checked(ti, ni, e@, rt, si, t1, n1, s1),
                    None => t1 == ti && n1 == ni && s1 == si,
                };
            lemma_scoped_scopes(t0, nc, f.if_arm@, rt, sc, ti, ni, si);
            if let Some(e) = f.else_arm {
                lemma_scoped_scopes(ti, ni, e@, rt, si, t1, n1, s1);
                lemma_kept_trans(t0, ti, t1);
                assert forall|q: int| t0.entries@.len() <= q < t1.entries@.len() implies (#[trigger] t1.entries@[q]).scope
                    != t0.current by {
                    if q < ti.entries@.len() {
                        assert(t1.entries@[q] == ti.entries@[q]);
                    } else {
                        assert(t1.entries@[q].scope >= ti.scopes@.len());
                    }
                }
            } else {
                assert(t1 == ti);
                assert(new_entries_below(t0, ti));
                assert forall|q: int| t0.entries@.len() <= q < t1.entries@.len() implies (#[trigger] t1.entries@[q]).scope
                    != t0.current by {
                    assert(ti.entries@[q].scope >= t0.scopes@.len());
                }
            }
        },
        Statement::Loop(l) => {
            match l.condition {
                Some(c) => {
                    let (sc, nc) = choose|sc: (Set<Seq<char>>, Seq<TypeCheckError>), nc: NodeTypes|
                        #![trigger stage(sc), recorded(nc)]
                        condition_reported(t0, n0, c, l.location, s0, stage(sc), recorded(nc)) && scoped_checked(
                            t0,
                            nc,
                            l.body@,
                            rt,
                            sc,
                            t1,
                            n1,
                            s1,
                        );
                    lemma_scoped_scopes(t0, nc, l.body@, rt, sc, t1, n1, s1);
                },
                None => {
                    lemma_scoped_scopes(t0, n0, l.body@, rt, s0, t1, n1, s1);
                },
            }
            assert forall|q: int| t0.entries@.len() <= q < t1.entries@.len() implies (#[trigger] t1.entries@[q]).scope
                != t0.current by {
                assert(t1.entries@[q].scope >= t0.scopes@.len());
            }
        },
        Statement::Block(b) => {
            lemma_scoped_scopes(t0, n0, b@, rt, s0, t1, n1, s1);
            assert forall|q: int| t0.entries@.len() <= q < t1.entries@.len() implies (#[trigger] t1.entries@[q]).scope
                != t0.current by {
                assert(t1.entries@[q].scope >= t0.scopes@.len());
            }
        },
        _ => {},
    }
    lemma_first_match_tail(t1.entries@, t0.entries@.len() as int, t1.entries@.len() as int, t0.current, name, ns);
    lemma_first_match_prefix(t0.entries@, t1.entries@, t0.entries@.len() as int, t0.current, name, ns);
}

} // verus!
