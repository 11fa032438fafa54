//! The properties the pass guarantees, stated and proved over the
//! mathematical model: disjointness of the three classification sets, the
//! emptiness of `unknown` when a body analysis ends, which element ids can
//! ever be classified, the stability of the result, and what the rewriter
//! can and cannot delete.

use vstd::prelude::*;

use crate::analyzer::{analyse_assignment_spec, analyse_init_one_spec, analyse_init_spec,
    analyse_stmt_spec, analyse_stmts_spec};
use crate::ast::StmtV;
use crate::info::{InfoV, has_id};
use crate::model::{EnvV, SetsV, StateModel, add_binding, all_records, env_has_var, env_lookup,
    exit_frame, frame_has_var, frame_lookup, kill_var, merge_sets, push_frame, record_assignment,
    record_reads, seed_state, sets_of, with_sets};
use crate::pass::{analysis_spec, useless_of};
use crate::rewriter::{drops, rewrite_stmt, rewrite_stmts};

verus! {

// ---------------------------------------------------------------------
// Shapes of the input tree the laws speak about.
// ---------------------------------------------------------------------

/// The element ids of the full variable substitutions of a statement: the
/// only substitutions the analysis ever classifies or the rewriter ever
/// deletes.
pub open spec fn full_sub_ids(s: StmtV) -> Set<usize>
    decreases s,
{
    match s {
        StmtV::Block { stmts, .. } => full_sub_ids_seq(stmts),
        StmtV::IfThenElse { if_case, else_case, .. } => full_sub_ids(*if_case).union(
            match else_case {
                Some(e) => full_sub_ids(*e),
                None => Set::empty(),
            },
        ),
        StmtV::While { stmt, .. } => full_sub_ids(*stmt),
        StmtV::InitializationBlock { initializations, .. } => full_sub_ids_seq(initializations),
        StmtV::Substitution { meta, access, .. } => if meta.reduces_to is Variable
            && access.len() == 0 {
            Set::<usize>::empty().insert(meta.elem_id)
        } else {
            Set::empty()
        },
        _ => Set::empty(),
    }
}

/// The full-variable-substitution ids of a statement sequence.
pub open spec fn full_sub_ids_seq(ss: Seq<StmtV>) -> Set<usize>
    decreases ss,
{
    if ss.len() == 0 {
        Set::empty()
    } else {
        full_sub_ids(ss[0]).union(full_sub_ids_seq(ss.drop_first()))
    }
}

/// The substitution nodes with a non-empty access path, in source order.
pub open spec fn partial_subs(s: StmtV) -> Seq<StmtV>
    decreases s,
{
    match s {
        StmtV::Block { stmts, .. } => partial_subs_seq(stmts),
        StmtV::IfThenElse { if_case, else_case, .. } => partial_subs(*if_case) + (
        match else_case {
            Some(e) => partial_subs(*e),
            None => Seq::empty(),
        }),
        StmtV::While { stmt, .. } => partial_subs(*stmt),
        StmtV::InitializationBlock { initializations, .. } => partial_subs_seq(initializations),
        StmtV::Substitution { access, .. } => if access.len() > 0 {
            seq![s]
        } else {
            Seq::empty()
        },
        _ => Seq::empty(),
    }
}

/// The partial substitution nodes of a statement sequence.
pub open spec fn partial_subs_seq(ss: Seq<StmtV>) -> Seq<StmtV>
    decreases ss,
{
    if ss.len() == 0 {
        Seq::empty()
    } else {
        partial_subs_seq(ss.drop_last()) + partial_subs(ss.last())
    }
}

// ---------------------------------------------------------------------
// Stability: the analysis is a function of the body alone.
// ---------------------------------------------------------------------

/// Stability under repetition: two runs of the analyzer over the same
/// parameters and body yield the same useless set. The executable entry
/// points guarantee that each run's result equals `useless_of`, so any two
/// runs agree.
pub proof fn lemma_analysis_stable(
    params: Seq<Seq<char>>,
    body: StmtV,
    first: Set<InfoV>,
    second: Set<InfoV>,
)
    requires
        first == useless_of(params, body),
        second == useless_of(params, body),
    ensures
        first == second,
{
}

// ---------------------------------------------------------------------
// Rewriter laws: partial substitutions survive, and rewriting twice with
// the same id set changes nothing more.
// ---------------------------------------------------------------------

/// Partial-assignment immunity: the rewriter deletes no substitution with a
/// non-empty access path. The rewritten statement holds exactly the
/// partial substitution nodes of the original, in the same order,
/// unchanged.
pub proof fn lemma_partial_assignment_immunity(s: StmtV, ids: Set<usize>)
    ensures
        partial_subs(rewrite_stmt(s, ids)) == partial_subs(s),
    decreases s, 1int,
{
    match s {
        StmtV::Block { stmts, .. } => {
            lemma_partial_subs_seq_rewrite(stmts, ids);
        },
        StmtV::IfThenElse { if_case, else_case, .. } => {
            lemma_partial_assignment_immunity(*if_case, ids);
            match else_case {
                Some(e) => {
                    lemma_partial_assignment_immunity(*e, ids);
                },
                None => {},
            }
        },
        StmtV::While { stmt, .. } => {
            lemma_partial_assignment_immunity(*stmt, ids);
        },
        StmtV::InitializationBlock { initializations, .. } => {
            lemma_partial_subs_seq_rewrite(initializations, ids);
        },
        _ => {},
    }
}

/// Partial-assignment immunity for the children of a block.
pub proof fn lemma_partial_subs_seq_rewrite(ss: Seq<StmtV>, ids: Set<usize>)
    ensures
        partial_subs_seq(rewrite_stmts(ss, ids)) == partial_subs_seq(ss),
    decreases ss, 0int,
{
    if ss.len() == 0 {
        assert(partial_subs_seq(rewrite_stmts(ss, ids)) =~= partial_subs_seq(ss));
    } else {
        let dl = ss.drop_last();
        let last = ss.last();
        lemma_partial_subs_seq_rewrite(dl, ids);
        lemma_partial_assignment_immunity(last, ids);
        if drops(last, ids) {
            assert(rewrite_stmts(ss, ids) =~= rewrite_stmts(dl, ids));
            assert(partial_subs(last) =~= Seq::<StmtV>::empty());
            assert(partial_subs_seq(ss) =~= partial_subs_seq(dl));
        } else {
            let r = rewrite_stmt(last, ids);
            let w = rewrite_stmts(ss, ids);
            assert(w == rewrite_stmts(dl, ids) + seq![r]);
            assert(w.drop_last() =~= rewrite_stmts(dl, ids));
            assert(w.last() == r);
            assert(partial_subs_seq(w) == partial_subs_seq(rewrite_stmts(dl, ids))
                + partial_subs(r));
        }
    }
}

/// Rewriting never changes what a second rewrite with the same ids would
/// delete: a kept substitution is returned unchanged, and no other shape
/// is deletable.
pub proof fn lemma_drops_of_rewrite(s: StmtV, ids: Set<usize>)
    ensures
        drops(rewrite_stmt(s, ids), ids) == drops(s, ids),
{
}

/// Rewrite idempotence for a fixed id set: deleting the same ids twice
/// yields the tree the first deletion yields. (Running the whole pass
/// twice can still delete more, because removing a substitution also
/// removes the reads its right-hand side performed.)
pub proof fn lemma_rewrite_idempotent(s: StmtV, ids: Set<usize>)
    ensures
        rewrite_stmt(rewrite_stmt(s, ids), ids) == rewrite_stmt(s, ids),
    decreases s, 1int,
{
    match s {
        StmtV::Block { stmts, .. } => {
            lemma_rewrite_stmts_idempotent(stmts, ids);
        },
        StmtV::IfThenElse { if_case, else_case, .. } => {
            lemma_rewrite_idempotent(*if_case, ids);
            match else_case {
                Some(e) => {
                    lemma_rewrite_idempotent(*e, ids);
                },
                None => {},
            }
        },
        StmtV::While { stmt, .. } => {
            lemma_rewrite_idempotent(*stmt, ids);
        },
        StmtV::InitializationBlock { initializations, .. } => {
            lemma_rewrite_stmts_idempotent(initializations, ids);
        },
        _ => {},
    }
}

/// Rewrite idempotence for the children of a block.
pub proof fn lemma_rewrite_stmts_idempotent(ss: Seq<StmtV>, ids: Set<usize>)
    ensures
        rewrite_stmts(rewrite_stmts(ss, ids), ids) == rewrite_stmts(ss, ids),
    decreases ss, 0int,
{
    if ss.len() == 0 {
        assert(rewrite_stmts(rewrite_stmts(ss, ids), ids) =~= rewrite_stmts(ss, ids));
    } else {
        let dl = ss.drop_last();
        let last = ss.last();
        lemma_rewrite_stmts_idempotent(dl, ids);
        if drops(last, ids) {
            assert(rewrite_stmts(ss, ids) =~= rewrite_stmts(dl, ids));
        } else {
            lemma_rewrite_idempotent(last, ids);
            lemma_drops_of_rewrite(last, ids);
            let r = rewrite_stmt(last, ids);
            let w = rewrite_stmts(ss, ids);
            assert(w == rewrite_stmts(dl, ids) + seq![r]);
            assert(w.drop_last() =~= rewrite_stmts(dl, ids));
            assert(w.last() == r);
            assert(rewrite_stmts(w, ids) == rewrite_stmts(rewrite_stmts(dl, ids), ids) + seq![
                rewrite_stmt(r, ids),
            ]);
            assert(rewrite_stmts(w, ids) =~= w);
        }
    }
}

/// Rewriting with no ids to delete changes nothing: in particular, a
/// second run of the whole pass leaves the tree alone exactly when its own
/// analysis finds nothing useless.
pub proof fn lemma_rewrite_nothing(s: StmtV)
    ensures
        rewrite_stmt(s, Set::empty()) == s,
    decreases s, 1int,
{
    match s {
        StmtV::Block { stmts, .. } => {
            lemma_rewrite_stmts_nothing(stmts);
        },
        StmtV::IfThenElse { if_case, else_case, .. } => {
            lemma_rewrite_nothing(*if_case);
            match else_case {
                Some(e) => {
                    lemma_rewrite_nothing(*e);
                },
                None => {},
            }
        },
        StmtV::While { stmt, .. } => {
            lemma_rewrite_nothing(*stmt);
        },
        StmtV::InitializationBlock { initializations, .. } => {
            lemma_rewrite_stmts_nothing(initializations);
        },
        _ => {},
    }
}

/// Rewriting the children of a block with no ids to delete changes nothing.
pub proof fn lemma_rewrite_stmts_nothing(ss: Seq<StmtV>)
    ensures
        rewrite_stmts(ss, Set::empty()) == ss,
    decreases ss, 0int,
{
    if ss.len() == 0 {
        assert(rewrite_stmts(ss, Set::empty()) =~= ss);
    } else {
        lemma_rewrite_stmts_nothing(ss.drop_last());
        lemma_rewrite_nothing(ss.last());
        assert(rewrite_stmts(ss, Set::empty()) =~= ss.drop_last() + seq![ss.last()]);
        assert(ss.drop_last() + seq![ss.last()] =~= ss);
    }
}

// ---------------------------------------------------------------------
// Invariants of the analysis state.
// ---------------------------------------------------------------------

/// The three classification sets are pairwise disjoint.
pub open spec fn sets_disjoint(m: StateModel) -> bool {
    &&& m.unknown.disjoint(m.useful)
    &&& m.unknown.disjoint(m.useless)
    &&& m.useful.disjoint(m.useless)
}

/// `b` is the environment `a` after some analysis: same depth, outer
/// frames untouched, the innermost frame possibly extended.
pub open spec fn env_extends(a: EnvV, b: EnvV) -> bool {
    &&& b.len() == a.len()
    &&& forall|d: int| 0 <= d < a.len() - 1 ==> a[d] == b[d]
    &&& a.len() > 0 ==> a.last().is_prefix_of(b.last())
}

/// Every pending record's variable is still bound somewhere.
pub open spec fn unknown_vars_bound(m: StateModel) -> bool {
    forall|i: InfoV| #[trigger] m.unknown.contains(i) ==> env_has_var(m.frames, i.var)
}

proof fn lemma_env_extends_refl(a: EnvV)
    ensures
        env_extends(a, a),
{
    if a.len() > 0 {
        assert(a.last() =~= a.last().subrange(0, a.last().len() as int));
    }
}

proof fn lemma_env_extends_trans(a: EnvV, b: EnvV, c: EnvV)
    requires
        env_extends(a, b),
        env_extends(b, c),
    ensures
        env_extends(a, c),
{
    if a.len() > 0 {
        let x = a.last();
        let y = b.last();
        let z = c.last();
        assert forall|j: int| 0 <= j < x.len() implies x[j] == z[j] by {
            assert(x[j] == x.subrange(0, x.len() as int)[j]);
            assert(y[j] == y.subrange(0, y.len() as int)[j]);
        }
        assert(x =~= z.subrange(0, x.len() as int));
    }
}

proof fn lemma_env_has_var_mono(a: EnvV, b: EnvV, v: u64)
    requires
        env_extends(a, b),
        env_has_var(a, v),
    ensures
        env_has_var(b, v),
{
    let d = choose|d: int| 0 <= d < a.len() && frame_has_var(#[trigger] a[d], v);
    if d < a.len() - 1 {
        assert(frame_has_var(b[d], v));
    } else {
        let f = a.last();
        let g = b.last();
        let j = choose|j: int| 0 <= j < f.len() && (#[trigger] f[j]).1 == v;
        assert(f[j] == f.subrange(0, f.len() as int)[j]);
        assert(g[j].1 == v);
        assert(frame_has_var(g, v));
        assert(frame_has_var(b[b.len() - 1], v));
    }
}

proof fn lemma_frame_lookup_has_var(f: crate::model::FrameV, name: Seq<char>, v: u64)
    requires
        frame_lookup(f, name) == Some(v),
    ensures
        frame_has_var(f, v),
    decreases f.len(),
{
    if f.len() > 0 {
        if f.last().0 == name {
            assert(f[f.len() - 1].1 == v);
        } else {
            lemma_frame_lookup_has_var(f.drop_last(), name, v);
            let j = choose|j: int|
                0 <= j < f.drop_last().len() && (#[trigger] f.drop_last()[j]).1 == v;
            assert(f[j].1 == v);
        }
    }
}

proof fn lemma_env_lookup_has_var(frames: EnvV, name: Seq<char>, v: u64)
    requires
        env_lookup(frames, name) == Some(v),
    ensures
        env_has_var(frames, v),
    decreases frames.len(),
{
    if frames.len() > 0 {
        match frame_lookup(frames.last(), name) {
            Some(w) => {
                lemma_frame_lookup_has_var(frames.last(), name, v);
                assert(frame_has_var(frames[frames.len() - 1], v));
            },
            None => {
                lemma_env_lookup_has_var(frames.drop_last(), name, v);
                let d = choose|d: int|
                    0 <= d < frames.drop_last().len() && frame_has_var(
                        #[trigger] frames.drop_last()[d],
                        v,
                    );
                assert(frame_has_var(frames[d], v));
            },
        }
    }
}

// ---------------------------------------------------------------------
// What each model operation does to the invariants.
// ---------------------------------------------------------------------

proof fn lemma_record_reads_op(m: StateModel, names: Set<Seq<char>>)
    ensures
        record_reads(m, names).frames == m.frames,
        record_reads(m, names).next_var == m.next_var,
        all_records(record_reads(m, names)) == all_records(m),
        sets_disjoint(m) ==> sets_disjoint(record_reads(m, names)),
        record_reads(m, names).unknown.subset_of(m.unknown),
        record_reads(m, names).useless == m.useless,
{
    assert(all_records(record_reads(m, names)) =~= all_records(m));
}

proof fn lemma_kill_var_op(m: StateModel, v: u64)
    ensures
        kill_var(m, v).frames == m.frames,
        kill_var(m, v).next_var == m.next_var,
        all_records(kill_var(m, v)) == all_records(m),
        sets_disjoint(m) ==> sets_disjoint(kill_var(m, v)),
        kill_var(m, v).unknown.subset_of(m.unknown),
{
    assert(all_records(kill_var(m, v)) =~= all_records(m));
}

proof fn lemma_exit_frame_op(m: StateModel)
    ensures
        all_records(exit_frame(m)) == all_records(m),
        sets_disjoint(m) ==> sets_disjoint(exit_frame(m)),
        exit_frame(m).unknown.subset_of(m.unknown),
        m.frames.len() > 0 ==> exit_frame(m).frames == m.frames.drop_last(),
        exit_frame(m).next_var == m.next_var,
        forall|i: InfoV| #[trigger]
            exit_frame(m).unknown.contains(i) ==> (m.frames.len() > 0 ==> !frame_has_var(
                m.frames.last(),
                i.var,
            )),
{
    if m.frames.len() > 0 {
        assert(all_records(exit_frame(m)) =~= all_records(m));
    }
}

proof fn lemma_record_assignment_op(m: StateModel, info: InfoV)
    ensures
        record_assignment(m, info).frames == m.frames,
        record_assignment(m, info).next_var == m.next_var,
        sets_disjoint(m) ==> sets_disjoint(record_assignment(m, info)),
        record_assignment(m, info).unknown.subset_of(m.unknown.insert(info)),
        forall|x: usize| #[trigger]
            has_id(all_records(record_assignment(m, info)), x) ==> has_id(all_records(m), x) || x
                == info.id,
{
    let m1 = kill_var(m, info.var);
    lemma_kill_var_op(m, info.var);
    if !crate::model::state_has_id(m1, info.id) {
        let m2 = record_assignment(m, info);
        assert(sets_disjoint(m) ==> sets_disjoint(m2)) by {
            if sets_disjoint(m) {
                if m1.useful.contains(info) {
                    assert(has_id(m1.useful, info.id));
                }
                if m1.useless.contains(info) {
                    assert(has_id(m1.useless, info.id));
                }
            }
        }
        assert forall|x: usize| #[trigger]
            has_id(all_records(m2), x) implies has_id(all_records(m), x) || x == info.id by {
            let i = choose|i: InfoV| all_records(m2).contains(i) && i.id == x;
            if i == info {
            } else {
                assert(all_records(m1).contains(i));
            }
        }
    } else {
        assert forall|x: usize| #[trigger]
            has_id(all_records(record_assignment(m, info)), x) implies has_id(all_records(m), x)
            || x == info.id by {
            let i = choose|i: InfoV| all_records(m1).contains(i) && i.id == x;
            assert(all_records(m).contains(i));
        }
    }
}

proof fn lemma_merge_op(a: SetsV, b: SetsV)
    ensures
        merge_sets(a, b).unknown.disjoint(merge_sets(a, b).useful),
        merge_sets(a, b).unknown.disjoint(merge_sets(a, b).useless),
        merge_sets(a, b).useful.disjoint(merge_sets(a, b).useless),
        merge_sets(a, b).unknown.subset_of(a.unknown.union(b.unknown)),
        merge_sets(a, b).useful == a.useful.union(b.useful),
        merge_sets(a, b).useless.subset_of(a.useless.union(b.useless)),
{
    let g = merge_sets(a, b);
    assert forall|i: InfoV| g.unknown.contains(i) implies !g.useful.contains(i) by {
        if g.useful.contains(i) {
            assert(has_id(g.useful, i.id));
        }
    }
    assert forall|i: InfoV| g.useless.contains(i) implies !g.useful.contains(i)
        && !g.unknown.contains(i) by {
        if g.useful.contains(i) {
            assert(has_id(g.useful, i.id));
        }
        if g.unknown.contains(i) {
            assert(has_id(g.unknown, i.id));
        }
    }
}

/// Records of a merge come from one of the two sides.
proof fn lemma_merge_records(a: SetsV, b: SetsV)
    ensures
        forall|i: InfoV|
            (#[trigger] merge_sets(a, b).unknown.contains(i) || #[trigger] merge_sets(a, b).useful.contains(i)
                || #[trigger] merge_sets(a, b).useless.contains(i)) ==> (a.unknown.contains(i)
                || a.useful.contains(i) || a.useless.contains(i) || b.unknown.contains(i)
                || b.useful.contains(i) || b.useless.contains(i)),
{
}

// ---------------------------------------------------------------------
// The main preservation argument, by induction over the tree.
// ---------------------------------------------------------------------

/// The invariants every statement analysis preserves: the environment only
/// grows inside the current frames, disjointness of the three sets is
/// kept, pending records stay bound, and any new element id belongs to a
/// full variable substitution of the statement.
pub proof fn lemma_analyse_invariants(m: StateModel, s: StmtV)
    ensures
        env_extends(m.frames, analyse_stmt_spec(m, s).frames),
        sets_disjoint(m) ==> sets_disjoint(analyse_stmt_spec(m, s)),
        sets_disjoint(m) && unknown_vars_bound(m) ==> unknown_vars_bound(analyse_stmt_spec(m, s)),
        forall|x: usize| #[trigger]
            has_id(all_records(analyse_stmt_spec(m, s)), x) ==> has_id(all_records(m), x)
                || full_sub_ids(s).contains(x),
    decreases s, 1int,
{
    let r = analyse_stmt_spec(m, s);
    match s {
        StmtV::Block { stmts, .. } => {
            let m1 = push_frame(m);
            let m2 = analyse_stmts_spec(m1, stmts);
            lemma_analyse_seq_invariants(m1, stmts);
            lemma_exit_frame_op(m2);
            assert(all_records(m1) =~= all_records(m));
            assert(r.frames =~= m.frames);
            lemma_env_extends_refl(m.frames);
            assert(env_extends(m.frames, r.frames));
            if sets_disjoint(m) && unknown_vars_bound(m) {
                assert(unknown_vars_bound(m1)) by {
                    assert forall|i: InfoV| #[trigger] m1.unknown.contains(i) implies env_has_var(
                        m1.frames,
                        i.var,
                    ) by {
                        let d = choose|d: int|
                            0 <= d < m.frames.len() && frame_has_var(#[trigger] m.frames[d], i.var);
                        assert(frame_has_var(m1.frames[d], i.var));
                    }
                }
                assert(unknown_vars_bound(r)) by {
                    assert forall|i: InfoV| #[trigger] r.unknown.contains(i) implies env_has_var(
                        r.frames,
                        i.var,
                    ) by {
                        assert(m2.unknown.contains(i));
                        assert(env_has_var(m2.frames, i.var));
                        let d = choose|d: int|
                            0 <= d < m2.frames.len() && frame_has_var(
                                #[trigger] m2.frames[d],
                                i.var,
                            );
                        assert(!frame_has_var(m2.frames.last(), i.var));
                        assert(d < m2.frames.len() - 1);
                        assert(m2.frames[d] == m1.frames[d]);
                        if d < m.frames.len() {
                            assert(m1.frames[d] == m.frames[d]);
                            assert(r.frames[d] == m.frames[d]);
                            assert(frame_has_var(r.frames[d], i.var));
                        }
                    }
                }
            }
            assert forall|x: usize| #[trigger]
                has_id(all_records(r), x) implies has_id(all_records(m), x) || full_sub_ids(
                s,
            ).contains(x) by {
                assert(has_id(all_records(m2), x));
                assert(has_id(all_records(m1), x) || full_sub_ids_seq(stmts).contains(x));
            }
        },
        StmtV::IfThenElse { cond, if_case, else_case, .. } => {
            let ma = record_reads(m, crate::scanner::expr_reads(cond));
            lemma_record_reads_op(m, crate::scanner::expr_reads(cond));
            let mt = analyse_stmt_spec(ma, *if_case);
            lemma_analyse_invariants(ma, *if_case);
            match else_case {
                Some(e) => {
                    let me_in = with_sets(mt, sets_of(ma));
                    let me = analyse_stmt_spec(me_in, *e);
                    lemma_analyse_invariants(me_in, *e);
                    lemma_merge_op(sets_of(mt), sets_of(me));
                    lemma_merge_records(sets_of(mt), sets_of(me));
                    lemma_env_extends_trans(m.frames, mt.frames, me.frames);
                    assert(env_extends(m.frames, r.frames));
                    if sets_disjoint(m) {
                        assert(sets_disjoint(r));
                        if unknown_vars_bound(m) {
                            assert(unknown_vars_bound(me_in)) by {
                                assert forall|i: InfoV| #[trigger] me_in.unknown.contains(i)
                                    implies env_has_var(me_in.frames, i.var) by {
                                    assert(ma.unknown.contains(i));
                                    assert(env_has_var(ma.frames, i.var));
                                    lemma_env_has_var_mono(ma.frames, mt.frames, i.var);
                                }
                            }
                            assert(unknown_vars_bound(r)) by {
                                assert forall|i: InfoV| #[trigger] r.unknown.contains(i) implies env_has_var(
                                    r.frames,
                                    i.var,
                                ) by {
                                    if mt.unknown.contains(i) {
                                        assert(env_has_var(mt.frames, i.var));
                                        lemma_env_has_var_mono(mt.frames, me.frames, i.var);
                                    } else {
                                        assert(me.unknown.contains(i));
                                    }
                                }
                            }
                        }
                    }
                    assert forall|x: usize| #[trigger]
                        has_id(all_records(r), x) implies has_id(all_records(m), x)
                        || full_sub_ids(s).contains(x) by {
                        let i = choose|i: InfoV| all_records(r).contains(i) && i.id == x;
                        assert(all_records(mt).contains(i) || all_records(me).contains(i));
                        assert(has_id(all_records(mt), x) || has_id(all_records(me), x));
                        assert(all_records(me_in) =~= all_records(ma));
                        assert(has_id(all_records(ma), x) || full_sub_ids(*if_case).contains(x)
                            || full_sub_ids(*e).contains(x));
                    }
                },
                None => {
                    lemma_merge_op(sets_of(ma), sets_of(mt));
                    lemma_merge_records(sets_of(ma), sets_of(mt));
                    assert(env_extends(m.frames, r.frames));
                    if sets_disjoint(m) {
                        assert(sets_disjoint(r));
                        if unknown_vars_bound(m) {
                            assert(unknown_vars_bound(r)) by {
                                assert forall|i: InfoV| #[trigger] r.unknown.contains(i) implies env_has_var(
                                    r.frames,
                                    i.var,
                                ) by {
                                    if ma.unknown.contains(i) {
                                        assert(env_has_var(ma.frames, i.var));
                                        lemma_env_has_var_mono(ma.frames, mt.frames, i.var);
                                    } else {
                                        assert(mt.unknown.contains(i));
                                    }
                                }
                            }
                        }
                    }
                    assert forall|x: usize| #[trigger]
                        has_id(all_records(r), x) implies has_id(all_records(m), x)
                        || full_sub_ids(s).contains(x) by {
                        let i = choose|i: InfoV| all_records(r).contains(i) && i.id == x;
                        assert(all_records(ma).contains(i) || all_records(mt).contains(i));
                        assert(has_id(all_records(ma), x) || has_id(all_records(mt), x));
                    }
                },
            }
        },
        StmtV::While { cond, stmt, .. } => {
            let reads = crate::scanner::expr_reads(cond);
            let m0 = record_reads(m, reads);
            lemma_record_reads_op(m, reads);
            let s1a = analyse_stmt_spec(m0, *stmt);
            lemma_analyse_invariants(m0, *stmt);
            let s1 = record_reads(s1a, reads);
            lemma_record_reads_op(s1a, reads);
            let s2a = analyse_stmt_spec(s1, *stmt);
            lemma_analyse_invariants(s1, *stmt);
            let s2 = record_reads(s2a, reads);
            lemma_record_reads_op(s2a, reads);
            let sets1 = merge_sets(sets_of(s1), sets_of(m0));
            let sets2 = merge_sets(sets_of(s2), sets1);
            lemma_merge_op(sets_of(s1), sets_of(m0));
            lemma_merge_records(sets_of(s1), sets_of(m0));
            lemma_merge_op(sets_of(s2), sets1);
            lemma_merge_records(sets_of(s2), sets1);
            lemma_env_extends_trans(m.frames, s1a.frames, s2a.frames);
            assert(env_extends(m.frames, r.frames));
            if sets_disjoint(m) {
                assert(sets_disjoint(r));
                if unknown_vars_bound(m) {
                    assert(unknown_vars_bound(r)) by {
                        assert forall|i: InfoV| #[trigger] r.unknown.contains(i) implies env_has_var(
                            r.frames,
                            i.var,
                        ) by {
                            if s2.unknown.contains(i) {
                                assert(env_has_var(s2.frames, i.var));
                            } else if s1.unknown.contains(i) {
                                assert(env_has_var(s1.frames, i.var));
                                lemma_env_has_var_mono(s1.frames, s2a.frames, i.var);
                            } else {
                                assert(m0.unknown.contains(i));
                                assert(env_has_var(m0.frames, i.var));
                                lemma_env_has_var_mono(m0.frames, s1a.frames, i.var);
                                lemma_env_has_var_mono(s1a.frames, s2a.frames, i.var);
                            }
                        }
                    }
                }
            }
            assert forall|x: usize| #[trigger]
                has_id(all_records(r), x) implies has_id(all_records(m), x) || full_sub_ids(
                s,
            ).contains(x) by {
                let i = choose|i: InfoV| all_records(r).contains(i) && i.id == x;
                assert(all_records(s2).contains(i) || all_records(s1).contains(i) || all_records(
                    m0,
                ).contains(i));
                assert(has_id(all_records(s2), x) || has_id(all_records(s1), x) || has_id(
                    all_records(m0),
                    x,
                ));
            }
        },
        StmtV::Return { value, .. } => {
            lemma_record_reads_op(m, crate::scanner::expr_reads(value));
            lemma_env_extends_refl(m.frames);
        },
        StmtV::InitializationBlock { initializations, .. } => {
            lemma_analyse_init_invariants(m, initializations, crate::analyzer::const_names(
                initializations,
            ));
        },
        StmtV::Declaration { xtype, name, .. } => {
            if xtype is Var {
                lemma_add_binding_op(m, name);
            } else {
                lemma_env_extends_refl(m.frames);
            }
        },
        StmtV::Substitution { meta, var, access, rhe, is_artificial } => {
            lemma_assignment_invariants(m, meta, var, access, rhe, is_artificial, false);
            assert forall|x: usize| #[trigger]
                has_id(all_records(r), x) implies has_id(all_records(m), x) || full_sub_ids(
                s,
            ).contains(x) by {
                if !has_id(all_records(m), x) {
                    assert(x == meta.elem_id && meta.reduces_to is Variable && access.len() == 0);
                }
            }
        },
        StmtV::UnderscoreSubstitution { .. } => {
            lemma_env_extends_refl(m.frames);
        },
        StmtV::ConstraintEquality { lhe, rhe, .. } => {
            lemma_record_reads_op(
                m,
                crate::scanner::expr_reads(lhe).union(crate::scanner::expr_reads(rhe)),
            );
            lemma_env_extends_refl(m.frames);
        },
        StmtV::LogCall { args, .. } => {
            lemma_record_reads_op(m, crate::scanner::logargs_reads(args));
            lemma_env_extends_refl(m.frames);
        },
        StmtV::Assert { arg, .. } => {
            lemma_record_reads_op(m, crate::scanner::expr_reads(arg));
            lemma_env_extends_refl(m.frames);
        },
    }
}

proof fn lemma_add_binding_op(m: StateModel, name: Seq<char>)
    ensures
        env_extends(m.frames, add_binding(m, name).frames),
        add_binding(m, name).unknown == m.unknown,
        add_binding(m, name).useful == m.useful,
        add_binding(m, name).useless == m.useless,
        all_records(add_binding(m, name)) == all_records(m),
        sets_disjoint(m) ==> sets_disjoint(add_binding(m, name)),
        unknown_vars_bound(m) ==> unknown_vars_bound(add_binding(m, name)),
{
    let r = add_binding(m, name);
    if m.frames.len() > 0 {
        let f = m.frames.last();
        let g = r.frames.last();
        assert(g == f.push((name, m.next_var)));
        assert(f =~= g.subrange(0, f.len() as int));
        assert(f.is_prefix_of(g));
        if unknown_vars_bound(m) {
            assert forall|i: InfoV| #[trigger] r.unknown.contains(i) implies env_has_var(
                r.frames,
                i.var,
            ) by {
                assert(m.unknown.contains(i));
                lemma_env_has_var_mono(m.frames, r.frames, i.var);
            }
        }
    } else {
        lemma_env_extends_refl(m.frames);
    }
}

proof fn lemma_assignment_invariants(
    m: StateModel,
    meta: crate::ast::Meta,
    var: Seq<char>,
    access: Seq<crate::ast::AccessV>,
    rhe: crate::ast::ExprV,
    is_artificial: bool,
    is_constant: bool,
)
    ensures
        analyse_assignment_spec(m, meta, var, access, rhe, is_artificial, is_constant).frames
            == m.frames,
        analyse_assignment_spec(m, meta, var, access, rhe, is_artificial, is_constant).next_var
            == m.next_var,
        sets_disjoint(m) ==> sets_disjoint(
            analyse_assignment_spec(m, meta, var, access, rhe, is_artificial, is_constant),
        ),
        sets_disjoint(m) && unknown_vars_bound(m) ==> unknown_vars_bound(
            analyse_assignment_spec(m, meta, var, access, rhe, is_artificial, is_constant),
        ),
        forall|x: usize| #[trigger]
            has_id(
                all_records(
                    analyse_assignment_spec(m, meta, var, access, rhe, is_artificial, is_constant),
                ),
                x,
            ) ==> has_id(all_records(m), x) || (x == meta.elem_id && meta.reduces_to is Variable
                && access.len() == 0),
{
    let names = crate::analyzer::assignment_reads(access, rhe);
    let m1 = record_reads(m, names);
    lemma_record_reads_op(m, names);
    let r = analyse_assignment_spec(m, meta, var, access, rhe, is_artificial, is_constant);
    if meta.reduces_to is Variable && access.len() == 0 {
        match env_lookup(m1.frames, var) {
            Some(v) => {
                let info = InfoV {
                    id: meta.elem_id,
                    var: v,
                    var_name: var,
                    start: meta.start,
                    end: meta.end,
                    file_id: meta.file_id,
                    contains_signal: crate::scanner::expr_has_signal(rhe),
                    is_artificial,
                    is_constant,
                };
                lemma_record_assignment_op(m1, info);
                if sets_disjoint(m) && unknown_vars_bound(m) {
                    assert forall|i: InfoV| #[trigger] r.unknown.contains(i) implies env_has_var(
                        r.frames,
                        i.var,
                    ) by {
                        if i == info {
                            lemma_env_lookup_has_var(m1.frames, var, v);
                        } else {
                            assert(m.unknown.contains(i));
                        }
                    }
                }
                assert forall|x: usize| #[trigger]
                    has_id(all_records(r), x) implies has_id(all_records(m), x) || (x
                    == meta.elem_id && meta.reduces_to is Variable && access.len() == 0) by {
                    assert(has_id(all_records(m1), x) || x == info.id);
                }
            },
            None => {
                assert forall|x: usize| #[trigger]
                    has_id(all_records(r), x) implies has_id(all_records(m), x) by {}
            },
        }
    } else {
        assert forall|x: usize| #[trigger]
            has_id(all_records(r), x) implies has_id(all_records(m), x) by {}
    }
}

/// The invariants, for the children of a block.
pub proof fn lemma_analyse_seq_invariants(m: StateModel, ss: Seq<StmtV>)
    ensures
        env_extends(m.frames, analyse_stmts_spec(m, ss).frames),
        sets_disjoint(m) ==> sets_disjoint(analyse_stmts_spec(m, ss)),
        sets_disjoint(m) && unknown_vars_bound(m) ==> unknown_vars_bound(analyse_stmts_spec(m, ss)),
        forall|x: usize| #[trigger]
            has_id(all_records(analyse_stmts_spec(m, ss)), x) ==> has_id(all_records(m), x)
                || full_sub_ids_seq(ss).contains(x),
    decreases ss, 0int,
{
    if ss.len() == 0 {
        lemma_env_extends_refl(m.frames);
    } else {
        let m1 = analyse_stmt_spec(m, ss[0]);
        lemma_analyse_invariants(m, ss[0]);
        lemma_analyse_seq_invariants(m1, ss.drop_first());
        lemma_env_extends_trans(m.frames, m1.frames, analyse_stmts_spec(m, ss).frames);
    }
}

/// The invariants, for the children of an initialization block.
pub proof fn lemma_analyse_init_invariants(m: StateModel, ss: Seq<StmtV>, consts: Set<Seq<char>>)
    ensures
        env_extends(m.frames, analyse_init_spec(m, ss, consts).frames),
        sets_disjoint(m) ==> sets_disjoint(analyse_init_spec(m, ss, consts)),
        sets_disjoint(m) && unknown_vars_bound(m) ==> unknown_vars_bound(
            analyse_init_spec(m, ss, consts),
        ),
        forall|x: usize| #[trigger]
            has_id(all_records(analyse_init_spec(m, ss, consts)), x) ==> has_id(
                all_records(m),
                x,
            ) || full_sub_ids_seq(ss).contains(x),
    decreases ss,
{
    if ss.len() == 0 {
        lemma_env_extends_refl(m.frames);
    } else {
        let m1 = analyse_init_one_spec(m, ss[0], consts);
        match ss[0] {
            StmtV::Declaration { xtype, name, .. } => {
                if xtype is Var {
                    lemma_add_binding_op(m, name);
                } else {
                    lemma_env_extends_refl(m.frames);
                }
            },
            StmtV::Substitution { meta, var, access, rhe, is_artificial } => {
                lemma_assignment_invariants(
                    m,
                    meta,
                    var,
                    access,
                    rhe,
                    is_artificial,
                    consts.contains(var),
                );
                lemma_env_extends_refl(m.frames);
                assert(env_extends(m.frames, m1.frames));
            },
            _ => {
                lemma_env_extends_refl(m.frames);
            },
        }
        lemma_analyse_init_invariants(m1, ss.drop_first(), consts);
        lemma_env_extends_trans(m.frames, m1.frames, analyse_init_spec(m, ss, consts).frames);
        assert forall|x: usize| #[trigger]
            has_id(all_records(analyse_init_spec(m, ss, consts)), x) implies has_id(
            all_records(m),
            x,
        ) || full_sub_ids_seq(ss).contains(x) by {
            if !has_id(all_records(m), x) {
                if has_id(all_records(m1), x) {
                    assert(full_sub_ids(ss[0]).contains(x));
                } else {
                    assert(full_sub_ids_seq(ss.drop_first()).contains(x));
                }
            }
        }
    }
}

// ---------------------------------------------------------------------
// The laws of a whole body analysis.
// ---------------------------------------------------------------------

/// The state a body analysis is seeded with: empty sets, one frame.
proof fn lemma_seed_state(params: Seq<Seq<char>>)
    ensures
        seed_state(params).unknown == Set::<InfoV>::empty(),
        seed_state(params).useful == Set::<InfoV>::empty(),
        seed_state(params).useless == Set::<InfoV>::empty(),
        seed_state(params).frames.len() == 1,
    decreases params.len(),
{
    if params.len() > 0 {
        lemma_seed_state(params.drop_last());
    }
}

/// Disjointness: the three classification sets of a finished body analysis
/// are pairwise disjoint. (They are also disjoint at every statement
/// boundary: `lemma_analyse_invariants` shows every statement preserves
/// disjointness.)
pub proof fn lemma_disjointness(params: Seq<Seq<char>>, body: StmtV)
    ensures
        sets_disjoint(analysis_spec(params, body)),
{
    let m0 = seed_state(params);
    lemma_seed_state(params);
    lemma_analyse_invariants(m0, body);
    lemma_exit_frame_op(analyse_stmt_spec(m0, body));
}

/// Coverage, first half: when a body analysis ends nothing is left
/// unclassified — every recorded substitution has become useful or
/// useless.
pub proof fn lemma_unknown_empty(params: Seq<Seq<char>>, body: StmtV)
    ensures
        analysis_spec(params, body).unknown == Set::<InfoV>::empty(),
{
    let m0 = seed_state(params);
    lemma_seed_state(params);
    lemma_analyse_invariants(m0, body);
    let m1 = analyse_stmt_spec(m0, body);
    lemma_exit_frame_op(m1);
    assert(unknown_vars_bound(m0));
    assert(sets_disjoint(m0));
    assert(unknown_vars_bound(m1));
    assert(m1.frames.len() == 1);
    assert forall|i: InfoV| !analysis_spec(params, body).unknown.contains(i) by {
        if analysis_spec(params, body).unknown.contains(i) {
            assert(m1.unknown.contains(i));
            assert(env_has_var(m1.frames, i.var));
            let d = choose|d: int|
                0 <= d < m1.frames.len() && frame_has_var(#[trigger] m1.frames[d], i.var);
            assert(d == 0);
            assert(!frame_has_var(m1.frames.last(), i.var));
        }
    }
    assert(analysis_spec(params, body).unknown =~= Set::<InfoV>::empty());
}

/// Type-selectivity and coverage, second half: every element id the
/// analysis ever classifies — in particular every id in the final useless
/// set — is the id of a full variable substitution of the body: one whose
/// left side reduces to a variable and carries no access path. No signal,
/// component or tag substitution, and no partial substitution, is ever
/// recorded in any of the three sets.
pub proof fn lemma_type_selectivity(params: Seq<Seq<char>>, body: StmtV)
    ensures
        forall|i: InfoV| #[trigger]
            all_records(analysis_spec(params, body)).contains(i) ==> full_sub_ids(body).contains(
                i.id,
            ),
{
    let m0 = seed_state(params);
    lemma_seed_state(params);
    lemma_analyse_invariants(m0, body);
    let m1 = analyse_stmt_spec(m0, body);
    lemma_exit_frame_op(m1);
    assert forall|i: InfoV| #[trigger]
        all_records(analysis_spec(params, body)).contains(i) implies full_sub_ids(body).contains(
        i.id,
    ) by {
        assert(all_records(m1).contains(i));
        assert(has_id(all_records(m1), i.id));
        assert(!has_id(all_records(m0), i.id));
    }
}

// ---------------------------------------------------------------------
// Identity of records by element id, under the upstream invariant that
// element ids are unique within a body.
// ---------------------------------------------------------------------

/// No two distinct records of the state share an element id.
pub open spec fn ids_unique(m: StateModel) -> bool {
    forall|a: InfoV, b: InfoV|
        all_records(m).contains(a) && all_records(m).contains(b) && (#[trigger] a.id)
            == (#[trigger] b.id) ==> a == b
}

/// The upstream guarantee the laws below rely on: within the statement,
/// every full variable substitution carries its own element id.
pub open spec fn uniq_cands(s: StmtV) -> bool
    decreases s, 1int,
{
    match s {
        StmtV::Block { stmts, .. } => uniq_cands_seq(stmts),
        StmtV::IfThenElse { if_case, else_case, .. } => uniq_cands(*if_case) && (match else_case {
            Some(e) => uniq_cands(*e) && full_sub_ids(*if_case).disjoint(full_sub_ids(*e)),
            None => true,
        }),
        StmtV::While { stmt, .. } => uniq_cands(*stmt),
        StmtV::InitializationBlock { initializations, .. } => uniq_cands_seq(initializations),
        _ => true,
    }
}

/// Uniqueness of candidate ids across a statement sequence.
pub open spec fn uniq_cands_seq(ss: Seq<StmtV>) -> bool
    decreases ss, 0int,
{
    if ss.len() == 0 {
        true
    } else {
        uniq_cands(ss[0]) && uniq_cands_seq(ss.drop_first()) && full_sub_ids(ss[0]).disjoint(
            full_sub_ids_seq(ss.drop_first()),
        )
    }
}

/// All records a sets snapshot holds.
pub open spec fn recs(s: SetsV) -> Set<InfoV> {
    s.unknown.union(s.useful).union(s.useless)
}

/// When no element id is shared by two distinct records of the two sides,
/// a merge loses no record: it only reshuffles the union.
proof fn lemma_merge_compat(a: SetsV, b: SetsV)
    requires
        forall|x: InfoV, y: InfoV|
            recs(a).union(recs(b)).contains(x) && recs(a).union(recs(b)).contains(y)
                && (#[trigger] x.id) == (#[trigger] y.id) ==> x == y,
    ensures
        recs(merge_sets(a, b)) == recs(a).union(recs(b)),
{
    let g = merge_sets(a, b);
    let u = recs(a).union(recs(b));
    assert forall|i: InfoV| u.contains(i) implies recs(g).contains(i) by {
        if g.useful.contains(i) {
        } else if a.useful.contains(i) || b.useful.contains(i) {
        } else if a.unknown.contains(i) || b.unknown.contains(i) {
            if has_id(g.useful, i.id) {
                let y = choose|y: InfoV| g.useful.contains(y) && y.id == i.id;
                assert(u.contains(y));
                assert(y == i);
            } else {
                assert(g.unknown.contains(i));
            }
        } else {
            assert(a.useless.contains(i) || b.useless.contains(i));
            if has_id(g.useful, i.id) {
                let y = choose|y: InfoV| g.useful.contains(y) && y.id == i.id;
                assert(u.contains(y));
                assert(y == i);
            } else if has_id(g.unknown, i.id) {
                let y = choose|y: InfoV| g.unknown.contains(y) && y.id == i.id;
                assert(a.unknown.contains(y) || b.unknown.contains(y));
                assert(u.contains(y));
                assert(y == i);
                assert(g.unknown.contains(i));
            } else {
                assert(g.useless.contains(i));
            }
        }
    }
    assert(recs(g) =~= u);
}

/// The record-identity invariants every statement analysis preserves when
/// the statement's candidate ids are unique: records are never lost, any
/// new record's id is a fresh candidate id, and no id is ever shared by
/// two distinct records.
pub proof fn lemma_analyse_identity(m: StateModel, s: StmtV)
    requires
        ids_unique(m),
        uniq_cands(s),
    ensures
        forall|i: InfoV| #[trigger]
            all_records(m).contains(i) ==> all_records(analyse_stmt_spec(m, s)).contains(i),
        forall|i: InfoV| #[trigger]
            all_records(analyse_stmt_spec(m, s)).contains(i) ==> all_records(m).contains(i) || (
            full_sub_ids(s).contains(i.id) && !has_id(all_records(m), i.id)),
        ids_unique(analyse_stmt_spec(m, s)),
    decreases s, 1int,
{
    let r = analyse_stmt_spec(m, s);
    match s {
        StmtV::Block { stmts, .. } => {
            let m1 = push_frame(m);
            let m2 = analyse_stmts_spec(m1, stmts);
            assert(all_records(m1) =~= all_records(m));
            lemma_analyse_seq_identity(m1, stmts);
            lemma_exit_frame_op(m2);
        },
        StmtV::IfThenElse { cond, if_case, else_case, .. } => {
            let ma = record_reads(m, crate::scanner::expr_reads(cond));
            lemma_record_reads_op(m, crate::scanner::expr_reads(cond));
            let mt = analyse_stmt_spec(ma, *if_case);
            lemma_analyse_invariants(ma, *if_case);
            lemma_analyse_identity(ma, *if_case);
            match else_case {
                Some(e) => {
                    let me_in = with_sets(mt, sets_of(ma));
                    let me = analyse_stmt_spec(me_in, *e);
                    assert(all_records(me_in) =~= all_records(ma));
                    lemma_analyse_identity(me_in, *e);
                    assert(recs(sets_of(mt)) =~= all_records(mt));
                    assert(recs(sets_of(me)) =~= all_records(me));
                    assert forall|x: InfoV, y: InfoV|
                        all_records(mt).union(all_records(me)).contains(x) && all_records(
                            mt,
                        ).union(all_records(me)).contains(y) && (#[trigger] x.id) == (
                        #[trigger] y.id) implies x == y by {
                        if all_records(mt).contains(x) && all_records(mt).contains(y) {
                        } else if all_records(me).contains(x) && all_records(me).contains(y) {
                        } else {
                            let p = if all_records(mt).contains(x) {
                                x
                            } else {
                                y
                            };
                            let q = if all_records(mt).contains(x) {
                                y
                            } else {
                                x
                            };
                            assert(all_records(mt).contains(p) && all_records(me).contains(q));
                            if all_records(ma).contains(p) {
                                if all_records(ma).contains(q) {
                                } else {
                                    assert(!has_id(all_records(ma), q.id));
                                    assert(has_id(all_records(ma), p.id));
                                }
                            } else {
                                assert(full_sub_ids(*if_case).contains(p.id));
                                if all_records(ma).contains(q) {
                                    assert(!has_id(all_records(ma), p.id));
                                    assert(has_id(all_records(ma), q.id));
                                } else {
                                    assert(full_sub_ids(*e).contains(q.id));
                                    assert(full_sub_ids(*if_case).disjoint(full_sub_ids(*e)));
                                }
                            }
                        }
                    }
                    lemma_merge_compat(sets_of(mt), sets_of(me));
                    assert(all_records(r) =~= all_records(mt).union(all_records(me)));
                },
                None => {
                    assert(recs(sets_of(ma)) =~= all_records(ma));
                    assert(recs(sets_of(mt)) =~= all_records(mt));
                    assert forall|x: InfoV, y: InfoV|
                        all_records(ma).union(all_records(mt)).contains(x) && all_records(
                            ma,
                        ).union(all_records(mt)).contains(y) && (#[trigger] x.id) == (
                        #[trigger] y.id) implies x == y by {
                        assert(all_records(mt).contains(x) && all_records(mt).contains(y));
                    }
                    lemma_merge_compat(sets_of(ma), sets_of(mt));
                    assert(all_records(r) =~= all_records(ma).union(all_records(mt)));
                    assert(all_records(r) =~= all_records(mt));
                },
            }
        },
        StmtV::While { cond, stmt, .. } => {
            let reads = crate::scanner::expr_reads(cond);
            let m0 = record_reads(m, reads);
            lemma_record_reads_op(m, reads);
            let s1a = analyse_stmt_spec(m0, *stmt);
            lemma_analyse_identity(m0, *stmt);
            let s1 = record_reads(s1a, reads);
            lemma_record_reads_op(s1a, reads);
            let s2a = analyse_stmt_spec(s1, *stmt);
            lemma_analyse_identity(s1, *stmt);
            let s2 = record_reads(s2a, reads);
            lemma_record_reads_op(s2a, reads);
            let sets1 = merge_sets(sets_of(s1), sets_of(m0));
            assert(recs(sets_of(s1)) =~= all_records(s1));
            assert(recs(sets_of(m0)) =~= all_records(m0));
            assert(recs(sets_of(s2)) =~= all_records(s2));
            assert forall|x: InfoV, y: InfoV|
                all_records(s1).union(all_records(m0)).contains(x) && all_records(s1).union(
                    all_records(m0),
                ).contains(y) && (#[trigger] x.id) == (#[trigger] y.id) implies x == y by {
                assert(all_records(s1).contains(x) && all_records(s1).contains(y));
            }
            lemma_merge_compat(sets_of(s1), sets_of(m0));
            assert(recs(sets1) =~= all_records(s1));
            assert forall|x: InfoV, y: InfoV|
                recs(sets_of(s2)).union(recs(sets1)).contains(x) && recs(sets_of(s2)).union(
                    recs(sets1),
                ).contains(y) && (#[trigger] x.id) == (#[trigger] y.id) implies x == y by {
                assert(all_records(s2).contains(x) && all_records(s2).contains(y));
            }
            lemma_merge_compat(sets_of(s2), sets1);
            assert(all_records(r) =~= recs(sets_of(s2)).union(recs(sets1)));
            assert(all_records(r) =~= all_records(s2));
        },
        StmtV::Return { value, .. } => {
            lemma_record_reads_op(m, crate::scanner::expr_reads(value));
        },
        StmtV::InitializationBlock { initializations, .. } => {
            lemma_analyse_init_identity(m, initializations, crate::analyzer::const_names(
                initializations,
            ));
        },
        StmtV::Declaration { xtype, name, .. } => {
            if xtype is Var {
                lemma_add_binding_op(m, name);
            }
        },
        StmtV::Substitution { meta, var, access, rhe, is_artificial } => {
            lemma_assignment_identity(m, meta, var, access, rhe, is_artificial, false);
        },
        StmtV::UnderscoreSubstitution { .. } => {},
        StmtV::ConstraintEquality { lhe, rhe, .. } => {
            lemma_record_reads_op(
                m,
                crate::scanner::expr_reads(lhe).union(crate::scanner::expr_reads(rhe)),
            );
        },
        StmtV::LogCall { args, .. } => {
            lemma_record_reads_op(m, crate::scanner::logargs_reads(args));
        },
        StmtV::Assert { arg, .. } => {
            lemma_record_reads_op(m, crate::scanner::expr_reads(arg));
        },
    }
}

proof fn lemma_assignment_identity(
    m: StateModel,
    meta: crate::ast::Meta,
    var: Seq<char>,
    access: Seq<crate::ast::AccessV>,
    rhe: crate::ast::ExprV,
    is_artificial: bool,
    is_constant: bool,
)
    requires
        ids_unique(m),
    ensures
        forall|i: InfoV| #[trigger]
            all_records(m).contains(i) ==> all_records(
                analyse_assignment_spec(m, meta, var, access, rhe, is_artificial, is_constant),
            ).contains(i),
        forall|i: InfoV| #[trigger]
            all_records(
                analyse_assignment_spec(m, meta, var, access, rhe, is_artificial, is_constant),
            ).contains(i) ==> all_records(m).contains(i) || ((meta.reduces_to is Variable
            && access.len() == 0 && i.id == meta.elem_id) && !has_id(all_records(m), i.id)),
        ids_unique(analyse_assignment_spec(m, meta, var, access, rhe, is_artificial, is_constant)),
{
    let names = crate::analyzer::assignment_reads(access, rhe);
    let m1 = record_reads(m, names);
    lemma_record_reads_op(m, names);
    let r = analyse_assignment_spec(m, meta, var, access, rhe, is_artificial, is_constant);
    if meta.reduces_to is Variable && access.len() == 0 {
        match env_lookup(m1.frames, var) {
            Some(v) => {
                let m2 = kill_var(m1, v);
                lemma_kill_var_op(m1, v);
                assert(all_records(m2) =~= all_records(m));
                if !crate::model::state_has_id(m2, meta.elem_id) {
                    assert forall|i: InfoV| #[trigger]
                        all_records(r).contains(i) implies all_records(m).contains(i) || ((
                        meta.reduces_to is Variable && access.len() == 0 && i.id == meta.elem_id)
                            && !has_id(all_records(m), i.id)) by {
                        if !all_records(m).contains(i) {
                            assert(i.id == meta.elem_id);
                            if has_id(all_records(m), i.id) {
                                let y = choose|y: InfoV|
                                    all_records(m).contains(y) && y.id == i.id;
                                assert(crate::model::state_has_id(m2, meta.elem_id));
                            }
                        }
                    }
                }
            },
            None => {},
        }
    }
}

/// Record identity for the children of a block.
pub proof fn lemma_analyse_seq_identity(m: StateModel, ss: Seq<StmtV>)
    requires
        ids_unique(m),
        uniq_cands_seq(ss),
    ensures
        forall|i: InfoV| #[trigger]
            all_records(m).contains(i) ==> all_records(analyse_stmts_spec(m, ss)).contains(i),
        forall|i: InfoV| #[trigger]
            all_records(analyse_stmts_spec(m, ss)).contains(i) ==> all_records(m).contains(i) || (
            full_sub_ids_seq(ss).contains(i.id) && !has_id(all_records(m), i.id)),
        ids_unique(analyse_stmts_spec(m, ss)),
    decreases ss, 0int,
{
    if ss.len() > 0 {
        let m1 = analyse_stmt_spec(m, ss[0]);
        lemma_analyse_identity(m, ss[0]);
        lemma_analyse_seq_identity(m1, ss.drop_first());
        assert forall|i: InfoV| #[trigger]
            all_records(analyse_stmts_spec(m, ss)).contains(i) implies all_records(m).contains(i)
            || (full_sub_ids_seq(ss).contains(i.id) && !has_id(all_records(m), i.id)) by {
            if !all_records(m).contains(i) {
                if all_records(m1).contains(i) {
                    assert(full_sub_ids(ss[0]).contains(i.id));
                    assert(!has_id(all_records(m), i.id));
                } else {
                    assert(full_sub_ids_seq(ss.drop_first()).contains(i.id));
                    assert(!has_id(all_records(m1), i.id));
                    assert forall|y: InfoV|
                        all_records(m).contains(y) implies y.id != i.id by {
                        assert(all_records(m1).contains(y));
                    }
                }
            }
        }
    }
}

/// Record identity for the children of an initialization block.
pub proof fn lemma_analyse_init_identity(m: StateModel, ss: Seq<StmtV>, consts: Set<Seq<char>>)
    requires
        ids_unique(m),
        uniq_cands_seq(ss),
    ensures
        forall|i: InfoV| #[trigger]
            all_records(m).contains(i) ==> all_records(analyse_init_spec(m, ss, consts)).contains(
                i,
            ),
        forall|i: InfoV| #[trigger]
            all_records(analyse_init_spec(m, ss, consts)).contains(i) ==> all_records(m).contains(
                i,
            ) || (full_sub_ids_seq(ss).contains(i.id) && !has_id(all_records(m), i.id)),
        ids_unique(analyse_init_spec(m, ss, consts)),
    decreases ss,
{
    if ss.len() > 0 {
        let m1 = analyse_init_one_spec(m, ss[0], consts);
        match ss[0] {
            StmtV::Declaration { xtype, name, .. } => {
                if xtype is Var {
                    lemma_add_binding_op(m, name);
                }
            },
            StmtV::Substitution { meta, var, access, rhe, is_artificial } => {
                lemma_assignment_identity(
                    m,
                    meta,
                    var,
                    access,
                    rhe,
                    is_artificial,
                    consts.contains(var),
                );
            },
            _ => {},
        }
        lemma_analyse_init_identity(m1, ss.drop_first(), consts);
        assert forall|i: InfoV| #[trigger]
            all_records(analyse_init_spec(m, ss, consts)).contains(i) implies all_records(
            m,
        ).contains(i) || (full_sub_ids_seq(ss).contains(i.id) && !has_id(all_records(m), i.id)) by {
            if !all_records(m).contains(i) {
                if all_records(m1).contains(i) {
                    assert(full_sub_ids(ss[0]).contains(i.id));
                } else {
                    assert(full_sub_ids_seq(ss.drop_first()).contains(i.id));
                    assert(!has_id(all_records(m1), i.id));
                    assert forall|y: InfoV|
                        all_records(m).contains(y) implies y.id != i.id by {
                        assert(all_records(m1).contains(y));
                    }
                }
            }
        }
    }
}

// ---------------------------------------------------------------------
// Once recorded, an element id never leaves the state.
// ---------------------------------------------------------------------

/// A merge holds an element id exactly when one of the two sides held it.
proof fn lemma_merge_ids(a: SetsV, b: SetsV)
    ensures
        forall|x: usize| #[trigger]
            has_id(recs(merge_sets(a, b)), x) <==> has_id(recs(a), x) || has_id(recs(b), x),
{
    let g = merge_sets(a, b);
    assert forall|x: usize|
        has_id(recs(g), x) <==> has_id(recs(a), x) || has_id(recs(b), x) by {
        if has_id(recs(g), x) {
            let i = choose|i: InfoV| recs(g).contains(i) && i.id == x;
            if a.unknown.contains(i) || a.useful.contains(i) || a.useless.contains(i) {
                assert(recs(a).contains(i));
            } else {
                assert(recs(b).contains(i));
            }
        }
        if has_id(recs(a), x) || has_id(recs(b), x) {
            let i = choose|i: InfoV| (recs(a).contains(i) || recs(b).contains(i)) && i.id == x;
            if g.useful.contains(i) {
                assert(recs(g).contains(i));
            } else if a.useful.contains(i) || b.useful.contains(i) {
                assert(recs(g).contains(i));
            } else if a.unknown.contains(i) || b.unknown.contains(i) {
                if has_id(g.useful, x) {
                    let y = choose|y: InfoV| g.useful.contains(y) && y.id == x;
                    assert(recs(g).contains(y));
                } else {
                    assert(g.unknown.contains(i));
                    assert(recs(g).contains(i));
                }
            } else {
                if has_id(g.useful, x) {
                    let y = choose|y: InfoV| g.useful.contains(y) && y.id == x;
                    assert(recs(g).contains(y));
                } else if has_id(g.unknown, x) {
                    let y = choose|y: InfoV| g.unknown.contains(y) && y.id == x;
                    assert(recs(g).contains(y));
                } else {
                    assert(g.useless.contains(i));
                    assert(recs(g).contains(i));
                }
            }
        }
    }
}

/// Ids already recorded survive the analysis of any statement.
pub proof fn lemma_analyse_ids_monotone(m: StateModel, s: StmtV)
    ensures
        forall|x: usize| #[trigger]
            has_id(all_records(m), x) ==> has_id(all_records(analyse_stmt_spec(m, s)), x),
    decreases s, 1int,
{
    let r = analyse_stmt_spec(m, s);
    match s {
        StmtV::Block { stmts, .. } => {
            let m1 = push_frame(m);
            let m2 = analyse_stmts_spec(m1, stmts);
            assert(all_records(m1) =~= all_records(m));
            lemma_analyse_seq_ids_monotone(m1, stmts);
            lemma_exit_frame_op(m2);
        },
        StmtV::IfThenElse { cond, if_case, else_case, .. } => {
            let ma = record_reads(m, crate::scanner::expr_reads(cond));
            lemma_record_reads_op(m, crate::scanner::expr_reads(cond));
            let mt = analyse_stmt_spec(ma, *if_case);
            lemma_analyse_ids_monotone(ma, *if_case);
            match else_case {
                Some(e) => {
                    let me_in = with_sets(mt, sets_of(ma));
                    let me = analyse_stmt_spec(me_in, *e);
                    assert(all_records(me_in) =~= all_records(ma));
                    lemma_analyse_ids_monotone(me_in, *e);
                    lemma_merge_ids(sets_of(mt), sets_of(me));
                    assert forall|x: usize| #[trigger]
                        has_id(all_records(m), x) implies has_id(all_records(r), x) by {
                        assert(has_id(all_records(mt), x));
                        assert(recs(sets_of(mt)) =~= all_records(mt));
                        assert(all_records(r) =~= recs(merge_sets(sets_of(mt), sets_of(me))));
                    }
                },
                None => {
                    lemma_merge_ids(sets_of(ma), sets_of(mt));
                    assert forall|x: usize| #[trigger]
                        has_id(all_records(m), x) implies has_id(all_records(r), x) by {
                        assert(has_id(all_records(ma), x));
                        assert(recs(sets_of(ma)) =~= all_records(ma));
                        assert(all_records(r) =~= recs(merge_sets(sets_of(ma), sets_of(mt))));
                    }
                },
            }
        },
        StmtV::While { cond, stmt, .. } => {
            let reads = crate::scanner::expr_reads(cond);
            let m0 = record_reads(m, reads);
            lemma_record_reads_op(m, reads);
            let s1a = analyse_stmt_spec(m0, *stmt);
            lemma_analyse_ids_monotone(m0, *stmt);
            let s1 = record_reads(s1a, reads);
            lemma_record_reads_op(s1a, reads);
            let s2a = analyse_stmt_spec(s1, *stmt);
            lemma_analyse_ids_monotone(s1, *stmt);
            let s2 = record_reads(s2a, reads);
            lemma_record_reads_op(s2a, reads);
            let sets1 = merge_sets(sets_of(s1), sets_of(m0));
            lemma_merge_ids(sets_of(s1), sets_of(m0));
            lemma_merge_ids(sets_of(s2), sets1);
            assert forall|x: usize| #[trigger]
                has_id(all_records(m), x) implies has_id(all_records(r), x) by {
                assert(has_id(all_records(s1), x));
                assert(recs(sets_of(s1)) =~= all_records(s1));
                assert(has_id(recs(sets1), x));
                assert(all_records(r) =~= recs(merge_sets(sets_of(s2), sets1)));
            }
        },
        StmtV::Return { value, .. } => {
            lemma_record_reads_op(m, crate::scanner::expr_reads(value));
        },
        StmtV::InitializationBlock { initializations, .. } => {
            lemma_analyse_init_ids_monotone(m, initializations, crate::analyzer::const_names(
                initializations,
            ));
        },
        StmtV::Declaration { xtype, name, .. } => {
            if xtype is Var {
                lemma_add_binding_op(m, name);
            }
        },
        StmtV::Substitution { meta, var, access, rhe, is_artificial } => {
            lemma_assignment_ids_monotone(m, meta, var, access, rhe, is_artificial, false);
        },
        StmtV::UnderscoreSubstitution { .. } => {},
        StmtV::ConstraintEquality { lhe, rhe, .. } => {
            lemma_record_reads_op(
                m,
                crate::scanner::expr_reads(lhe).union(crate::scanner::expr_reads(rhe)),
            );
        },
        StmtV::LogCall { args, .. } => {
            lemma_record_reads_op(m, crate::scanner::logargs_reads(args));
        },
        StmtV::Assert { arg, .. } => {
            lemma_record_reads_op(m, crate::scanner::expr_reads(arg));
        },
    }
}

proof fn lemma_assignment_ids_monotone(
    m: StateModel,
    meta: crate::ast::Meta,
    var: Seq<char>,
    access: Seq<crate::ast::AccessV>,
    rhe: crate::ast::ExprV,
    is_artificial: bool,
    is_constant: bool,
)
    ensures
        forall|x: usize| #[trigger]
            has_id(all_records(m), x) ==> has_id(
                all_records(
                    analyse_assignment_spec(m, meta, var, access, rhe, is_artificial, is_constant),
                ),
                x,
            ),
{
    let names = crate::analyzer::assignment_reads(access, rhe);
    let m1 = record_reads(m, names);
    lemma_record_reads_op(m, names);
    let r = analyse_assignment_spec(m, meta, var, access, rhe, is_artificial, is_constant);
    if meta.reduces_to is Variable && access.len() == 0 {
        match env_lookup(m1.frames, var) {
            Some(v) => {
                let m2 = kill_var(m1, v);
                lemma_kill_var_op(m1, v);
                assert forall|x: usize| #[trigger]
                    has_id(all_records(m), x) implies has_id(all_records(r), x) by {
                    let i = choose|i: InfoV| all_records(m2).contains(i) && i.id == x;
                    assert(all_records(r).contains(i));
                }
            },
            None => {},
        }
    }
}

/// Ids survive the analysis of a statement sequence.
pub proof fn lemma_analyse_seq_ids_monotone(m: StateModel, ss: Seq<StmtV>)
    ensures
        forall|x: usize| #[trigger]
            has_id(all_records(m), x) ==> has_id(all_records(analyse_stmts_spec(m, ss)), x),
    decreases ss, 0int,
{
    if ss.len() > 0 {
        lemma_analyse_ids_monotone(m, ss[0]);
        lemma_analyse_seq_ids_monotone(analyse_stmt_spec(m, ss[0]), ss.drop_first());
    }
}

/// Ids survive the analysis of an initialization block.
pub proof fn lemma_analyse_init_ids_monotone(m: StateModel, ss: Seq<StmtV>, consts: Set<Seq<char>>)
    ensures
        forall|x: usize| #[trigger]
            has_id(all_records(m), x) ==> has_id(all_records(analyse_init_spec(m, ss, consts)), x),
    decreases ss,
{
    if ss.len() > 0 {
        let m1 = analyse_init_one_spec(m, ss[0], consts);
        match ss[0] {
            StmtV::Declaration { xtype, name, .. } => {
                if xtype is Var {
                    lemma_add_binding_op(m, name);
                }
            },
            StmtV::Substitution { meta, var, access, rhe, is_artificial } => {
                lemma_assignment_ids_monotone(
                    m,
                    meta,
                    var,
                    access,
                    rhe,
                    is_artificial,
                    consts.contains(var),
                );
            },
            _ => {},
        }
        lemma_analyse_init_ids_monotone(m1, ss.drop_first(), consts);
    }
}

/// Disjointness by element id: when the body's full variable substitutions
/// carry unique ids — the upstream numbering invariant — no element id
/// ends up in two of the three sets, so with `lemma_unknown_empty` every
/// classified substitution is in exactly one of `useful` and `useless`.
pub proof fn lemma_disjointness_by_id(params: Seq<Seq<char>>, body: StmtV)
    requires
        uniq_cands(body),
    ensures
        forall|a: InfoV, b: InfoV|
            analysis_spec(params, body).useful.contains(a) && analysis_spec(
                params,
                body,
            ).useless.contains(b) ==> (#[trigger] a.id) != (#[trigger] b.id),
        ids_unique(analysis_spec(params, body)),
{
    let m0 = seed_state(params);
    lemma_seed_state(params);
    let m1 = analyse_stmt_spec(m0, body);
    lemma_analyse_invariants(m0, body);
    lemma_analyse_identity(m0, body);
    lemma_exit_frame_op(m1);
    let r = analysis_spec(params, body);
    assert(all_records(r) =~= all_records(m1));
    assert forall|a: InfoV, b: InfoV|
        r.useful.contains(a) && r.useless.contains(b) implies (#[trigger] a.id) != (
    #[trigger] b.id) by {
        if a.id == b.id {
            assert(all_records(r).contains(a));
            assert(all_records(r).contains(b));
            assert(a == b);
            assert(sets_disjoint(r));
        }
    }
}

// ---------------------------------------------------------------------
// Coverage: in a well-scoped body every full variable substitution is
// classified.
// ---------------------------------------------------------------------

/// The names bound by one frame.
pub open spec fn frame_names(f: crate::model::FrameV) -> Set<Seq<char>> {
    Set::new(|n: Seq<char>| exists|j: int| 0 <= j < f.len() && (#[trigger] f[j]).0 == n)
}

/// The names bound anywhere in the environment. Whether a lookup succeeds
/// depends only on this set.
pub open spec fn env_names(frames: EnvV) -> Set<Seq<char>> {
    Set::new(
        |n: Seq<char>|
            exists|d: int| 0 <= d < frames.len() && frame_names(#[trigger] frames[d]).contains(n),
    )
}

/// The names visible after a statement has been analysed, given the names
/// visible before: blocks are balanced, declarations add their name.
pub open spec fn names_after(names: Set<Seq<char>>, s: StmtV) -> Set<Seq<char>>
    decreases s, 1int,
{
    match s {
        StmtV::IfThenElse { if_case, else_case, .. } => match else_case {
            Some(e) => names_after(names_after(names, *if_case), *e),
            None => names_after(names, *if_case),
        },
        StmtV::While { stmt, .. } => names_after(names_after(names, *stmt), *stmt),
        StmtV::InitializationBlock { initializations, .. } => names_after_init(
            names,
            initializations,
        ),
        StmtV::Declaration { xtype, name, .. } => if xtype is Var {
            names.insert(name)
        } else {
            names
        },
        _ => names,
    }
}

/// The names visible after the children of an initialization block, which
/// share the enclosing scope: only variable declarations add a name.
pub open spec fn names_after_init(names: Set<Seq<char>>, ss: Seq<StmtV>) -> Set<Seq<char>>
    decreases ss, 0int,
{
    if ss.len() == 0 {
        names
    } else {
        names_after_init(names_after_init_one(names, ss[0]), ss.drop_first())
    }
}

/// The names visible after one child of an initialization block.
pub open spec fn names_after_init_one(names: Set<Seq<char>>, s: StmtV) -> Set<Seq<char>> {
    match s {
        StmtV::Declaration { xtype, name, .. } => if xtype is Var {
            names.insert(name)
        } else {
            names
        },
        _ => names,
    }
}

/// Well-scopedness: with `names` visible, every full variable substitution
/// assigns a bound name, and initialization blocks hold only declarations
/// and substitutions. This is the invariant upstream scope checking
/// guarantees for the trees the pass receives.
pub open spec fn scoped(names: Set<Seq<char>>, s: StmtV) -> bool
    decreases s, 1int,
{
    match s {
        StmtV::Block { stmts, .. } => scoped_seq(names, stmts),
        StmtV::IfThenElse { if_case, else_case, .. } => scoped(names, *if_case)
            && (match else_case {
            Some(e) => scoped(names_after(names, *if_case), *e),
            None => true,
        }),
        StmtV::While { stmt, .. } => scoped(names, *stmt),
        StmtV::InitializationBlock { initializations, .. } => scoped_init(
            names,
            initializations,
        ),
        StmtV::Substitution { meta, var, access, .. } => (meta.reduces_to is Variable
            && access.len() == 0) ==> names.contains(var),
        _ => true,
    }
}

/// Well-scopedness of a statement sequence, threading the declared names.
pub open spec fn scoped_seq(names: Set<Seq<char>>, ss: Seq<StmtV>) -> bool
    decreases ss, 0int,
{
    if ss.len() == 0 {
        true
    } else {
        scoped(names, ss[0]) && scoped_seq(names_after(names, ss[0]), ss.drop_first())
    }
}

/// Well-scopedness of the children of an initialization block.
pub open spec fn scoped_init(names: Set<Seq<char>>, ss: Seq<StmtV>) -> bool
    decreases ss,
{
    if ss.len() == 0 {
        true
    } else {
        (ss[0] is Declaration || ss[0] is Substitution) && scoped(names, ss[0]) && scoped_init(
            names_after_init_one(names, ss[0]),
            ss.drop_first(),
        )
    }
}

proof fn lemma_frame_lookup_names(f: crate::model::FrameV, n: Seq<char>)
    ensures
        frame_lookup(f, n) is Some <==> frame_names(f).contains(n),
    decreases f.len(),
{
    if f.len() > 0 {
        if f.last().0 == n {
            assert(f[f.len() - 1].0 == n);
        } else {
            lemma_frame_lookup_names(f.drop_last(), n);
            if frame_names(f).contains(n) {
                let j = choose|j: int| 0 <= j < f.len() && (#[trigger] f[j]).0 == n;
                assert(f.drop_last()[j].0 == n);
            }
            if frame_names(f.drop_last()).contains(n) {
                let j = choose|j: int|
                    0 <= j < f.drop_last().len() && (#[trigger] f.drop_last()[j]).0 == n;
                assert(f[j].0 == n);
            }
        }
    }
}

proof fn lemma_env_lookup_names(frames: EnvV, n: Seq<char>)
    ensures
        env_lookup(frames, n) is Some <==> env_names(frames).contains(n),
    decreases frames.len(),
{
    if frames.len() > 0 {
        lemma_frame_lookup_names(frames.last(), n);
        lemma_env_lookup_names(frames.drop_last(), n);
        if frame_lookup(frames.last(), n) is Some {
            assert(frame_names(frames[frames.len() - 1]).contains(n));
        } else {
            if env_names(frames.drop_last()).contains(n) {
                let d = choose|d: int|
                    0 <= d < frames.drop_last().len() && frame_names(
                        #[trigger] frames.drop_last()[d],
                    ).contains(n);
                assert(frame_names(frames[d]).contains(n));
            }
            if env_names(frames).contains(n) {
                let d = choose|d: int|
                    0 <= d < frames.len() && frame_names(#[trigger] frames[d]).contains(n);
                if d < frames.len() - 1 {
                    assert(frame_names(frames.drop_last()[d]).contains(n));
                }
            }
        }
    }
}

proof fn lemma_push_frame_names(m: StateModel)
    ensures
        env_names(push_frame(m).frames) == env_names(m.frames),
{
    let a = m.frames;
    let b = push_frame(m).frames;
    assert forall|n: Seq<char>| env_names(b).contains(n) <==> env_names(a).contains(n) by {
        if env_names(b).contains(n) {
            let d = choose|d: int| 0 <= d < b.len() && frame_names(#[trigger] b[d]).contains(n);
            if d == a.len() {
                let j = choose|j: int| 0 <= j < b[d].len() && (#[trigger] b[d][j]).0 == n;
            } else {
                assert(frame_names(a[d]).contains(n));
            }
        }
        if env_names(a).contains(n) {
            let d = choose|d: int| 0 <= d < a.len() && frame_names(#[trigger] a[d]).contains(n);
            assert(frame_names(b[d]).contains(n));
        }
    }
    assert(env_names(b) =~= env_names(a));
}

proof fn lemma_add_binding_names(m: StateModel, name: Seq<char>)
    requires
        m.frames.len() > 0,
    ensures
        env_names(add_binding(m, name).frames) == env_names(m.frames).insert(name),
        add_binding(m, name).frames.len() == m.frames.len(),
{
    let a = m.frames;
    let b = add_binding(m, name).frames;
    let fa = a.last();
    let fb = b.last();
    assert(fb == fa.push((name, m.next_var)));
    assert forall|n: Seq<char>|
        env_names(b).contains(n) <==> env_names(a).insert(name).contains(n) by {
        if env_names(b).contains(n) {
            let d = choose|d: int| 0 <= d < b.len() && frame_names(#[trigger] b[d]).contains(n);
            if d == a.len() - 1 {
                let j = choose|j: int| 0 <= j < fb.len() && (#[trigger] fb[j]).0 == n;
                if j < fa.len() {
                    assert(fa[j].0 == n);
                    assert(frame_names(a[d]).contains(n));
                } else {
                    assert(n == name);
                }
            } else {
                assert(frame_names(a[d]).contains(n));
            }
        }
        if env_names(a).contains(n) {
            let d = choose|d: int| 0 <= d < a.len() && frame_names(#[trigger] a[d]).contains(n);
            if d == a.len() - 1 {
                let j = choose|j: int| 0 <= j < fa.len() && (#[trigger] fa[j]).0 == n;
                assert(fb[j].0 == n);
                assert(frame_names(b[d]).contains(n));
            } else {
                assert(frame_names(b[d]).contains(n));
            }
        }
        if n == name {
            assert(fb[fa.len() as int].0 == n);
            assert(frame_names(b[a.len() - 1]).contains(n));
        }
    }
    assert(env_names(b) =~= env_names(a).insert(name));
}

/// How the visible names evolve over one statement analysis.
pub proof fn lemma_env_names_evolution(m: StateModel, s: StmtV)
    requires
        m.frames.len() > 0,
    ensures
        env_names(analyse_stmt_spec(m, s).frames) == names_after(env_names(m.frames), s),
        analyse_stmt_spec(m, s).frames.len() == m.frames.len(),
    decreases s, 1int,
{
    let r = analyse_stmt_spec(m, s);
    lemma_analyse_invariants(m, s);
    match s {
        StmtV::Block { stmts, .. } => {
            let m1 = push_frame(m);
            let m2 = analyse_stmts_spec(m1, stmts);
            lemma_analyse_seq_invariants(m1, stmts);
            lemma_exit_frame_op(m2);
            assert(r.frames =~= m.frames);
        },
        StmtV::IfThenElse { cond, if_case, else_case, .. } => {
            let ma = record_reads(m, crate::scanner::expr_reads(cond));
            lemma_record_reads_op(m, crate::scanner::expr_reads(cond));
            let mt = analyse_stmt_spec(ma, *if_case);
            lemma_env_names_evolution(ma, *if_case);
            match else_case {
                Some(e) => {
                    let me_in = with_sets(mt, sets_of(ma));
                    lemma_env_names_evolution(me_in, *e);
                },
                None => {},
            }
        },
        StmtV::While { cond, stmt, .. } => {
            let reads = crate::scanner::expr_reads(cond);
            let m0 = record_reads(m, reads);
            lemma_record_reads_op(m, reads);
            let s1a = analyse_stmt_spec(m0, *stmt);
            lemma_env_names_evolution(m0, *stmt);
            let s1 = record_reads(s1a, reads);
            lemma_record_reads_op(s1a, reads);
            lemma_env_names_evolution(s1, *stmt);
        },
        StmtV::Return { value, .. } => {
            lemma_record_reads_op(m, crate::scanner::expr_reads(value));
        },
        StmtV::InitializationBlock { initializations, .. } => {
            lemma_env_names_init(m, initializations, crate::analyzer::const_names(
                initializations,
            ));
        },
        StmtV::Declaration { xtype, name, .. } => {
            if xtype is Var {
                lemma_add_binding_names(m, name);
            }
        },
        StmtV::Substitution { meta, var, access, rhe, is_artificial } => {
            lemma_assignment_invariants(m, meta, var, access, rhe, is_artificial, false);
        },
        StmtV::UnderscoreSubstitution { .. } => {},
        StmtV::ConstraintEquality { lhe, rhe, .. } => {
            lemma_record_reads_op(
                m,
                crate::scanner::expr_reads(lhe).union(crate::scanner::expr_reads(rhe)),
            );
        },
        StmtV::LogCall { args, .. } => {
            lemma_record_reads_op(m, crate::scanner::logargs_reads(args));
        },
        StmtV::Assert { arg, .. } => {
            lemma_record_reads_op(m, crate::scanner::expr_reads(arg));
        },
    }
}

/// How the visible names evolve over an initialization block.
pub proof fn lemma_env_names_init(m: StateModel, ss: Seq<StmtV>, consts: Set<Seq<char>>)
    requires
        m.frames.len() > 0,
    ensures
        env_names(analyse_init_spec(m, ss, consts).frames) == names_after_init(
            env_names(m.frames),
            ss,
        ),
        analyse_init_spec(m, ss, consts).frames.len() == m.frames.len(),
    decreases ss,
{
    if ss.len() > 0 {
        let m1 = analyse_init_one_spec(m, ss[0], consts);
        match ss[0] {
            StmtV::Declaration { xtype, name, .. } => {
                if xtype is Var {
                    lemma_add_binding_names(m, name);
                }
            },
            StmtV::Substitution { meta, var, access, rhe, is_artificial } => {
                lemma_assignment_invariants(
                    m,
                    meta,
                    var,
                    access,
                    rhe,
                    is_artificial,
                    consts.contains(var),
                );
            },
            _ => {},
        }
        lemma_env_names_init(m1, ss.drop_first(), consts);
    }
}

/// Coverage of one statement: with the visible names matching the scope
/// environment, every full variable substitution of a well-scoped
/// statement ends up recorded in one of the three sets.
pub proof fn lemma_analyse_coverage(m: StateModel, s: StmtV)
    requires
        m.frames.len() > 0,
        scoped(env_names(m.frames), s),
    ensures
        forall|x: usize|
            full_sub_ids(s).contains(x) ==> #[trigger] has_id(
                all_records(analyse_stmt_spec(m, s)),
                x,
            ),
    decreases s, 1int,
{
    let r = analyse_stmt_spec(m, s);
    match s {
        StmtV::Block { stmts, .. } => {
            let m1 = push_frame(m);
            let m2 = analyse_stmts_spec(m1, stmts);
            lemma_push_frame_names(m);
            lemma_analyse_seq_coverage(m1, stmts);
            lemma_exit_frame_op(m2);
            assert(all_records(r) =~= all_records(m2));
        },
        StmtV::IfThenElse { cond, if_case, else_case, .. } => {
            let names = env_names(m.frames);
            let ma = record_reads(m, crate::scanner::expr_reads(cond));
            lemma_record_reads_op(m, crate::scanner::expr_reads(cond));
            let mt = analyse_stmt_spec(ma, *if_case);
            lemma_analyse_coverage(ma, *if_case);
            lemma_env_names_evolution(ma, *if_case);
            match else_case {
                Some(e) => {
                    let me_in = with_sets(mt, sets_of(ma));
                    let me = analyse_stmt_spec(me_in, *e);
                    lemma_analyse_ids_monotone(me_in, *e);
                    lemma_analyse_coverage(me_in, *e);
                    lemma_merge_ids(sets_of(mt), sets_of(me));
                    assert forall|x: usize|
                        full_sub_ids(s).contains(x) implies #[trigger] has_id(
                        all_records(r),
                        x,
                    ) by {
                        assert(recs(sets_of(mt)) =~= all_records(mt));
                        assert(recs(sets_of(me)) =~= all_records(me));
                        assert(all_records(r) =~= recs(merge_sets(sets_of(mt), sets_of(me))));
                        if full_sub_ids(*if_case).contains(x) {
                            assert(has_id(all_records(mt), x));
                            assert(has_id(all_records(me_in), x) ==> has_id(
                                all_records(me),
                                x,
                            ));
                            if !has_id(all_records(me), x) {
                                assert(has_id(recs(sets_of(mt)), x));
                            }
                        } else {
                            assert(full_sub_ids(*e).contains(x));
                            assert(has_id(all_records(me), x));
                        }
                    }
                },
                None => {
                    lemma_merge_ids(sets_of(ma), sets_of(mt));
                    assert forall|x: usize|
                        full_sub_ids(s).contains(x) implies #[trigger] has_id(
                        all_records(r),
                        x,
                    ) by {
                        assert(full_sub_ids(*if_case).contains(x));
                        assert(has_id(all_records(mt), x));
                        assert(recs(sets_of(mt)) =~= all_records(mt));
                        assert(all_records(r) =~= recs(merge_sets(sets_of(ma), sets_of(mt))));
                    }
                },
            }
        },
        StmtV::While { cond, stmt, .. } => {
            let reads = crate::scanner::expr_reads(cond);
            let m0 = record_reads(m, reads);
            lemma_record_reads_op(m, reads);
            let s1a = analyse_stmt_spec(m0, *stmt);
            lemma_analyse_coverage(m0, *stmt);
            let s1 = record_reads(s1a, reads);
            lemma_record_reads_op(s1a, reads);
            let s2a = analyse_stmt_spec(s1, *stmt);
            lemma_analyse_ids_monotone(s1, *stmt);
            let s2 = record_reads(s2a, reads);
            lemma_record_reads_op(s2a, reads);
            let sets1 = merge_sets(sets_of(s1), sets_of(m0));
            lemma_merge_ids(sets_of(s1), sets_of(m0));
            lemma_merge_ids(sets_of(s2), sets1);
            assert forall|x: usize|
                full_sub_ids(s).contains(x) implies #[trigger] has_id(all_records(r), x) by {
                assert(has_id(all_records(s1a), x));
                assert(has_id(all_records(s1), x));
                assert(has_id(all_records(s2a), x));
                assert(has_id(all_records(s2), x));
                assert(recs(sets_of(s2)) =~= all_records(s2));
                assert(all_records(r) =~= recs(merge_sets(sets_of(s2), sets1)));
            }
        },
        StmtV::InitializationBlock { initializations, .. } => {
            lemma_analyse_init_coverage(m, initializations, crate::analyzer::const_names(
                initializations,
            ));
        },
        StmtV::Substitution { meta, var, access, rhe, is_artificial } => {
            lemma_assignment_coverage(m, meta, var, access, rhe, is_artificial, false);
        },
        _ => {},
    }
}

proof fn lemma_assignment_coverage(
    m: StateModel,
    meta: crate::ast::Meta,
    var: Seq<char>,
    access: Seq<crate::ast::AccessV>,
    rhe: crate::ast::ExprV,
    is_artificial: bool,
    is_constant: bool,
)
    requires
        (meta.reduces_to is Variable && access.len() == 0) ==> env_names(m.frames).contains(var),
    ensures
        (meta.reduces_to is Variable && access.len() == 0) ==> has_id(
            all_records(
                analyse_assignment_spec(m, meta, var, access, rhe, is_artificial, is_constant),
            ),
            meta.elem_id,
        ),
{
    let names = crate::analyzer::assignment_reads(access, rhe);
    let m1 = record_reads(m, names);
    lemma_record_reads_op(m, names);
    let r = analyse_assignment_spec(m, meta, var, access, rhe, is_artificial, is_constant);
    if meta.reduces_to is Variable && access.len() == 0 {
        lemma_env_lookup_names(m1.frames, var);
        let v = env_lookup(m1.frames, var)->Some_0;
        let m2 = kill_var(m1, v);
        lemma_kill_var_op(m1, v);
        if crate::model::state_has_id(m2, meta.elem_id) {
            if has_id(m2.unknown, meta.elem_id) {
                let i = choose|i: InfoV| m2.unknown.contains(i) && i.id == meta.elem_id;
                assert(all_records(r).contains(i));
            } else if has_id(m2.useful, meta.elem_id) {
                let i = choose|i: InfoV| m2.useful.contains(i) && i.id == meta.elem_id;
                assert(all_records(r).contains(i));
            } else {
                let i = choose|i: InfoV| m2.useless.contains(i) && i.id == meta.elem_id;
                assert(all_records(r).contains(i));
            }
        } else {
            let info = InfoV {
                id: meta.elem_id,
                var: v,
                var_name: var,
                start: meta.start,
                end: meta.end,
                file_id: meta.file_id,
                contains_signal: crate::scanner::expr_has_signal(rhe),
                is_artificial,
                is_constant,
            };
            assert(r.unknown.contains(info));
            assert(all_records(r).contains(info));
        }
    }
}

/// Coverage for the children of a block.
pub proof fn lemma_analyse_seq_coverage(m: StateModel, ss: Seq<StmtV>)
    requires
        m.frames.len() > 0,
        scoped_seq(env_names(m.frames), ss),
    ensures
        forall|x: usize|
            full_sub_ids_seq(ss).contains(x) ==> #[trigger] has_id(
                all_records(analyse_stmts_spec(m, ss)),
                x,
            ),
    decreases ss, 0int,
{
    if ss.len() > 0 {
        let m1 = analyse_stmt_spec(m, ss[0]);
        lemma_analyse_coverage(m, ss[0]);
        lemma_env_names_evolution(m, ss[0]);
        lemma_analyse_seq_ids_monotone(m1, ss.drop_first());
        lemma_analyse_seq_coverage(m1, ss.drop_first());
        assert forall|x: usize|
            full_sub_ids_seq(ss).contains(x) implies #[trigger] has_id(
            all_records(analyse_stmts_spec(m, ss)),
            x,
        ) by {
            if full_sub_ids(ss[0]).contains(x) {
                assert(has_id(all_records(m1), x));
            } else {
                assert(full_sub_ids_seq(ss.drop_first()).contains(x));
            }
        }
    }
}

/// Coverage for the children of an initialization block.
pub proof fn lemma_analyse_init_coverage(m: StateModel, ss: Seq<StmtV>, consts: Set<Seq<char>>)
    requires
        m.frames.len() > 0,
        scoped_init(env_names(m.frames), ss),
    ensures
        forall|x: usize|
            full_sub_ids_seq(ss).contains(x) ==> #[trigger] has_id(
                all_records(analyse_init_spec(m, ss, consts)),
                x,
            ),
    decreases ss,
{
    if ss.len() > 0 {
        let m1 = analyse_init_one_spec(m, ss[0], consts);
        assert(scoped(env_names(m.frames), ss[0]));
        match ss[0] {
            StmtV::Declaration { xtype, name, .. } => {
                if xtype is Var {
                    lemma_add_binding_names(m, name);
                    lemma_add_binding_op(m, name);
                }
            },
            StmtV::Substitution { meta, var, access, rhe, is_artificial } => {
                assert((meta.reduces_to is Variable && access.len() == 0) ==> env_names(
                    m.frames,
                ).contains(var));
                lemma_assignment_coverage(
                    m,
                    meta,
                    var,
                    access,
                    rhe,
                    is_artificial,
                    consts.contains(var),
                );
                lemma_assignment_invariants(
                    m,
                    meta,
                    var,
                    access,
                    rhe,
                    is_artificial,
                    consts.contains(var),
                );
            },
            _ => {},
        }
        lemma_analyse_init_ids_monotone(m1, ss.drop_first(), consts);
        lemma_analyse_init_coverage(m1, ss.drop_first(), consts);
        assert forall|x: usize|
            full_sub_ids_seq(ss).contains(x) implies #[trigger] has_id(
            all_records(analyse_init_spec(m, ss, consts)),
            x,
        ) by {
            let rest_final = analyse_init_spec(m1, ss.drop_first(), consts);
            assert(analyse_init_spec(m, ss, consts) == rest_final);
            if full_sub_ids(ss[0]).contains(x) {
                match ss[0] {
                    StmtV::Substitution { meta, .. } => {
                        assert(x == meta.elem_id);
                        assert(has_id(all_records(m1), x));
                    },
                    _ => {
                        assert(false);
                    },
                }
                assert(has_id(all_records(rest_final), x));
            } else {
                assert(full_sub_ids_seq(ss.drop_first()).contains(x));
                assert(has_id(all_records(rest_final), x));
            }
        }
    }
}

proof fn lemma_seed_names(params: Seq<Seq<char>>)
    ensures
        env_names(seed_state(params).frames) == params.to_set(),
    decreases params.len(),
{
    if params.len() == 0 {
        let a = seed_state(params).frames;
        assert forall|n: Seq<char>| !env_names(a).contains(n) by {
            if env_names(a).contains(n) {
                let d = choose|d: int|
                    0 <= d < a.len() && frame_names(#[trigger] a[d]).contains(n);
                let j = choose|j: int| 0 <= j < a[d].len() && (#[trigger] a[d][j]).0 == n;
            }
        }
        assert(env_names(a) =~= params.to_set());
    } else {
        lemma_seed_names(params.drop_last());
        lemma_seed_state(params.drop_last());
        lemma_add_binding_names(seed_state(params.drop_last()), params.last());
        assert(params.drop_last().to_set().insert(params.last()) =~= params.to_set()) by {
            assert forall|n: Seq<char>|
                params.to_set().contains(n) <==> params.drop_last().to_set().insert(
                    params.last(),
                ).contains(n) by {
                if params.to_set().contains(n) {
                    let j = choose|j: int| 0 <= j < params.len() && params[j] == n;
                    if j < params.len() - 1 {
                        assert(params.drop_last()[j] == n);
                    }
                }
                if params.drop_last().to_set().contains(n) {
                    let j = choose|j: int|
                        0 <= j < params.drop_last().len() && params.drop_last()[j] == n;
                    assert(params[j] == n);
                }
            }
        }
    }
}

/// Coverage: in a well-scoped body — one where every full variable
/// substitution assigns a name that is in scope, as upstream scope
/// checking guarantees — every full variable substitution is classified:
/// its element id ends up in `useful` or in `useless`, and with
/// `lemma_unknown_empty` and `lemma_disjointness` in exactly one of them.
pub proof fn lemma_coverage(params: Seq<Seq<char>>, body: StmtV)
    requires
        scoped(params.to_set(), body),
    ensures
        forall|x: usize|
            full_sub_ids(body).contains(x) ==> #[trigger] has_id(
                analysis_spec(params, body).useful.union(analysis_spec(params, body).useless),
                x,
            ),
{
    let m0 = seed_state(params);
    lemma_seed_state(params);
    lemma_seed_names(params);
    let m1 = analyse_stmt_spec(m0, body);
    lemma_analyse_coverage(m0, body);
    lemma_exit_frame_op(m1);
    lemma_unknown_empty(params, body);
    let r = analysis_spec(params, body);
    assert forall|x: usize|
        full_sub_ids(body).contains(x) implies #[trigger] has_id(
        r.useful.union(r.useless),
        x,
    ) by {
        assert(has_id(all_records(m1), x));
        assert(all_records(r) =~= all_records(m1));
        let i = choose|i: InfoV| all_records(r).contains(i) && i.id == x;
        assert(!r.unknown.contains(i));
        assert(r.useful.union(r.useless).contains(i));
    }
}

/// One statement's analysis classifies every candidate exactly once: under
/// the upstream invariants — a frame is open, the statement is well-scoped,
/// its candidate ids are unique, and the incoming state is disjoint with
/// unique ids — every full variable substitution of the statement has its
/// element id in one of the three sets afterwards, and in no two of them.
pub proof fn lemma_statement_classifies_once(m: StateModel, s: StmtV)
    requires
        m.frames.len() > 0,
        scoped(env_names(m.frames), s),
        sets_disjoint(m),
        ids_unique(m),
        uniq_cands(s),
    ensures
        forall|x: usize|
            full_sub_ids(s).contains(x) ==> #[trigger] has_id(
                all_records(analyse_stmt_spec(m, s)),
                x,
            ),
        forall|a: InfoV, b: InfoV|
            analyse_stmt_spec(m, s).unknown.contains(a) && analyse_stmt_spec(
                m,
                s,
            ).useful.contains(b) ==> (#[trigger] a.id) != (#[trigger] b.id),
        forall|a: InfoV, b: InfoV|
            analyse_stmt_spec(m, s).unknown.contains(a) && analyse_stmt_spec(
                m,
                s,
            ).useless.contains(b) ==> (#[trigger] a.id) != (#[trigger] b.id),
        forall|a: InfoV, b: InfoV|
            analyse_stmt_spec(m, s).useful.contains(a) && analyse_stmt_spec(
                m,
                s,
            ).useless.contains(b) ==> (#[trigger] a.id) != (#[trigger] b.id),
{
    let r = analyse_stmt_spec(m, s);
    lemma_analyse_coverage(m, s);
    lemma_analyse_invariants(m, s);
    lemma_analyse_identity(m, s);
    assert forall|a: InfoV, b: InfoV|
        all_records(r).contains(a) && all_records(r).contains(b) && (#[trigger] a.id) == (
    #[trigger] b.id) implies a == b by {}
    assert(sets_disjoint(r));
}

/// A whole body analysis classifies every candidate exactly once: under
/// the upstream invariants, every full variable substitution ends up in
/// `useful` or `useless`, never in both, and nothing stays unknown.
pub proof fn lemma_classified_exactly_once(params: Seq<Seq<char>>, body: StmtV)
    requires
        scoped(params.to_set(), body),
        uniq_cands(body),
    ensures
        forall|x: usize|
            full_sub_ids(body).contains(x) ==> #[trigger] has_id(
                analysis_spec(params, body).useful.union(analysis_spec(params, body).useless),
                x,
            ),
        forall|a: InfoV, b: InfoV|
            analysis_spec(params, body).useful.contains(a) && analysis_spec(
                params,
                body,
            ).useless.contains(b) ==> (#[trigger] a.id) != (#[trigger] b.id),
        analysis_spec(params, body).unknown == Set::<InfoV>::empty(),
{
    lemma_coverage(params, body);
    lemma_disjointness_by_id(params, body);
    lemma_unknown_empty(params, body);
}

/// The useless set in particular only ever holds full variable
/// substitutions of the body.
pub proof fn lemma_useless_only_full_subs(params: Seq<Seq<char>>, body: StmtV)
    ensures
        forall|i: InfoV| #[trigger]
            useless_of(params, body).contains(i) ==> full_sub_ids(body).contains(i.id),
{
    lemma_type_selectivity(params, body);
    assert forall|i: InfoV| #[trigger]
        useless_of(params, body).contains(i) implies full_sub_ids(body).contains(i.id) by {
        assert(all_records(analysis_spec(params, body)).contains(i));
    }
}

} // verus!
