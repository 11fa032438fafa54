//! The analyser: a recursive walk over a statement tree that classifies
//! every full variable substitution as useful or useless.
//!
//! The executable walk is specified as equal to the spec function
//! [`analyse_stmt_spec`], a closed mathematical description of the whole
//! analysis over the model of [`crate::model`].

use vstd::prelude::*;

use crate::ast::{Access, Expression, Meta, Statement, StmtV, TypeReduction, VariableType,
    lemma_view_stmt_seq_index, lemma_view_stmt_seq_len, view_access_seq, view_stmt_seq};
use crate::info::{InfoV, SubsInfo};
use crate::model::{StateModel, add_binding, env_lookup, exit_frame, merge_sets, push_frame,
    record_assignment, record_reads, sets_of, with_sets};
use crate::scanner::{access_reads, expr_has_signal, expr_reads, logargs_reads, names_set};
use crate::state::Analysis;

verus! {

/// The names a substitution reads: its right-hand side and the indices of
/// its access path.
pub open spec fn assignment_reads(access: Seq<crate::ast::AccessV>, rhe: crate::ast::ExprV) -> Set<
    Seq<char>,
> {
    expr_reads(rhe).union(access_reads(access))
}

/// The effect of one substitution statement on the state: record its reads,
/// then, if it fully assigns a variable-typed identifier that is in scope,
/// record the assignment.
pub open spec fn analyse_assignment_spec(
    m: StateModel,
    meta: Meta,
    var: Seq<char>,
    access: Seq<crate::ast::AccessV>,
    rhe: crate::ast::ExprV,
    is_artificial: bool,
    is_constant: bool,
) -> StateModel {
    let m1 = record_reads(m, assignment_reads(access, rhe));
    if meta.reduces_to is Variable && access.len() == 0 {
        match env_lookup(m1.frames, var) {
            Some(v) => record_assignment(
                m1,
                InfoV {
                    id: meta.elem_id,
                    var: v,
                    var_name: var,
                    start: meta.start,
                    end: meta.end,
                    file_id: meta.file_id,
                    contains_signal: expr_has_signal(rhe),
                    is_artificial,
                    is_constant,
                },
            ),
            None => m1,
        }
    } else {
        m1
    }
}

/// The names of the declarations an initialization block marks constant.
pub open spec fn const_names(ss: Seq<StmtV>) -> Set<Seq<char>>
    decreases ss,
{
    if ss.len() == 0 {
        Set::empty()
    } else {
        const_names(ss.drop_last()).union(
            match ss.last() {
                StmtV::Declaration { name, is_constant, .. } => if is_constant {
                    Set::<Seq<char>>::empty().insert(name)
                } else {
                    Set::empty()
                },
                _ => Set::empty(),
            },
        )
    }
}

/// The effect of one statement on the state.
///
/// An underscore substitution is left untouched: its right-hand side is
/// evaluated for its effect elsewhere in the pipeline and counts as no read
/// here, so a preceding assignment can still be found useless.
pub open spec fn analyse_stmt_spec(m: StateModel, s: StmtV) -> StateModel
    decreases s, 1int,
{
    match s {
        StmtV::Block { stmts, .. } => exit_frame(analyse_stmts_spec(push_frame(m), stmts)),
        StmtV::IfThenElse { cond, if_case, else_case, .. } => {
            let ma = record_reads(m, expr_reads(cond));
            let mt = analyse_stmt_spec(ma, *if_case);
            match else_case {
                Some(e) => {
                    let me = analyse_stmt_spec(with_sets(mt, sets_of(ma)), *e);
                    with_sets(me, merge_sets(sets_of(mt), sets_of(me)))
                },
                None => with_sets(mt, merge_sets(sets_of(ma), sets_of(mt))),
            }
        },
        StmtV::While { cond, stmt, .. } => {
            let m0 = record_reads(m, expr_reads(cond));
            let s1 = record_reads(analyse_stmt_spec(m0, *stmt), expr_reads(cond));
            let s2 = record_reads(analyse_stmt_spec(s1, *stmt), expr_reads(cond));
            let sets1 = merge_sets(sets_of(s1), sets_of(m0));
            let sets2 = merge_sets(sets_of(s2), sets1);
            with_sets(s2, sets2)
        },
        StmtV::Return { value, .. } => record_reads(m, expr_reads(value)),
        StmtV::InitializationBlock { initializations, .. } => analyse_init_spec(
            m,
            initializations,
            const_names(initializations),
        ),
        StmtV::Declaration { xtype, name, .. } => if xtype is Var {
            add_binding(m, name)
        } else {
            m
        },
        StmtV::Substitution { meta, var, access, rhe, is_artificial } => analyse_assignment_spec(
            m,
            meta,
            var,
            access,
            rhe,
            is_artificial,
            false,
        ),
        StmtV::UnderscoreSubstitution { .. } => m,
        StmtV::ConstraintEquality { lhe, rhe, .. } => record_reads(
            m,
            expr_reads(lhe).union(expr_reads(rhe)),
        ),
        StmtV::LogCall { args, .. } => record_reads(m, logargs_reads(args)),
        StmtV::Assert { arg, .. } => record_reads(m, expr_reads(arg)),
    }
}

/// The effect of a statement sequence, first statement first.
pub open spec fn analyse_stmts_spec(m: StateModel, ss: Seq<StmtV>) -> StateModel
    decreases ss, 0int,
{
    if ss.len() == 0 {
        m
    } else {
        analyse_stmts_spec(analyse_stmt_spec(m, ss[0]), ss.drop_first())
    }
}

/// The effect of the children of an initialization block: declarations
/// advance the environment, substitutions are analysed with the constant
/// flag, anything else is ignored.
pub open spec fn analyse_init_spec(m: StateModel, ss: Seq<StmtV>, consts: Set<Seq<char>>) -> StateModel
    decreases ss,
{
    if ss.len() == 0 {
        m
    } else {
        let m1 = analyse_init_one_spec(m, ss[0], consts);
        analyse_init_spec(m1, ss.drop_first(), consts)
    }
}

/// The effect of one child of an initialization block.
pub open spec fn analyse_init_one_spec(m: StateModel, s: StmtV, consts: Set<Seq<char>>) -> StateModel {
    match s {
        StmtV::Declaration { xtype, name, .. } => if xtype is Var {
            add_binding(m, name)
        } else {
            m
        },
        StmtV::Substitution { meta, var, access, rhe, is_artificial } => analyse_assignment_spec(
            m,
            meta,
            var,
            access,
            rhe,
            is_artificial,
            consts.contains(var),
        ),
        _ => m,
    }
}

/// Folding one more statement onto a sequence analysis.
pub proof fn lemma_stmts_spec_snoc(m: StateModel, ss: Seq<StmtV>, x: StmtV)
    ensures
        analyse_stmts_spec(m, ss.push(x)) == analyse_stmt_spec(analyse_stmts_spec(m, ss), x),
    decreases ss.len(),
{
    reveal_with_fuel(analyse_stmts_spec, 3);
    if ss.len() == 0 {
        assert(ss.push(x)[0] == x);
        assert(ss.push(x).drop_first() =~= Seq::<StmtV>::empty());
    } else {
        assert(ss.push(x)[0] == ss[0]);
        assert(ss.push(x).drop_first() =~= ss.drop_first().push(x));
        lemma_stmts_spec_snoc(analyse_stmt_spec(m, ss[0]), ss.drop_first(), x);
    }
}

/// Folding one more child onto an initialization-block analysis.
pub proof fn lemma_init_spec_snoc(m: StateModel, ss: Seq<StmtV>, x: StmtV, consts: Set<Seq<char>>)
    ensures
        analyse_init_spec(m, ss.push(x), consts) == analyse_init_one_spec(
            analyse_init_spec(m, ss, consts),
            x,
            consts,
        ),
    decreases ss.len(),
{
    reveal_with_fuel(analyse_init_spec, 3);
    if ss.len() == 0 {
        assert(ss.push(x)[0] == x);
        assert(ss.push(x).drop_first() =~= Seq::<StmtV>::empty());
    } else {
        assert(ss.push(x)[0] == ss[0]);
        assert(ss.push(x).drop_first() =~= ss.drop_first().push(x));
        lemma_init_spec_snoc(analyse_init_one_spec(m, ss[0], consts), ss.drop_first(), x, consts);
    }
}

/// Scan a name vector for a name.
fn contains_name(v: &Vec<String>, name: &String) -> (r: bool)
    ensures
        r == names_set(v@).contains(name@),
{
    proof {
        crate::scanner::lemma_names_set_contains(v@, name@);
    }
    let mut j: usize = 0;
    while j < v.len()
        invariant
            j <= v@.len(),
            forall|k: int| 0 <= k < j ==> v@[k]@ != name@,
        decreases v@.len() - j,
    {
        if v[j] == *name {
            return true;
        }
        j += 1;
    }
    false
}

/// Analyse one substitution statement: record the reads of its right-hand
/// side and access indices, then record the assignment itself when it fully
/// assigns a variable-typed identifier that is in scope.
pub fn analyse_assignment(
    state: &mut Analysis,
    meta: &Meta,
    var: &String,
    access: &Vec<Access>,
    rhe: &Expression,
    is_artificial: bool,
    is_constant: bool,
)
    ensures
        final(state)@ == analyse_assignment_spec(
            old(state)@,
            *meta,
            var@,
            view_access_seq(access@),
            rhe@,
            is_artificial,
            is_constant,
        ),
{
    let mut read_vars: Vec<String> = Vec::new();
    proof {
        assert(names_set(read_vars@) =~= Set::<Seq<char>>::empty());
    }
    crate::scanner::analyse_expression(rhe, &mut read_vars);
    crate::scanner::analyse_accesses(access, &mut read_vars);
    proof {
        assert(names_set(read_vars@) =~= assignment_reads(view_access_seq(access@), rhe@));
    }
    state.analyse_reader(&read_vars);
    if let TypeReduction::Variable = meta.reduces_to {
        if access.len() == 0 {
            proof {
                assert(view_access_seq(access@).len() == 0) by {
                    crate::ast::lemma_view_access_seq_len(access@);
                }
            }
            match state.get_variable(var) {
                Some(v) => {
                    let contains_signal = crate::scanner::expression_contains_signals(rhe);
                    let info = SubsInfo {
                        id: meta.elem_id,
                        var: v,
                        var_name: var.clone(),
                        start: meta.start,
                        end: meta.end,
                        file_id: meta.file_id,
                        contains_signal,
                        is_artificial,
                        is_constant,
                    };
                    state.record_assignment(info);
                },
                None => {},
            }
        }
    }
}

/// Analyse one statement, dispatching on its kind.
#[verifier::rlimit(100)]
#[verifier::spinoff_prover]
pub fn analyse_statement(state: &mut Analysis, stmt: &Statement)
    ensures
        final(state)@ == analyse_stmt_spec(old(state)@, stmt@),
    decreases *stmt,
{
    match stmt {
        Statement::Block { stmts, .. } => {
            let ghost m0 = state@;
            state.add_variable_block();
            let ghost vs = view_stmt_seq(stmts@);
            proof {
                lemma_view_stmt_seq_len(stmts@);
                assert(vs.take(0) =~= Seq::<StmtV>::empty());
            }
            let mut j: usize = 0;
            while j < stmts.len()
                invariant
                    j <= stmts@.len(),
                    state@ == analyse_stmts_spec(push_frame(m0), vs.take(j as int)),
                decreases stmts@.len() - j,
            {
                proof {
                    assert(decreases_to!(*stmt => stmts@[j as int]));
                }
                analyse_statement(state, &stmts[j]);
                proof {
                    lemma_view_stmt_seq_index(stmts@, j as int);
                    assert(vs.take(j + 1).drop_last() =~= vs.take(j as int));
                    assert(vs.take(j as int).push(vs[j as int]) =~= vs.take(j + 1));
                    lemma_stmts_spec_snoc(push_frame(m0), vs.take(j as int), vs[j as int]);
                }
                j += 1;
            }
            proof {
                assert(vs.take(vs.len() as int) =~= vs);
            }
            state.remove_variable_block();
        },
        Statement::IfThenElse { cond, if_case, else_case, .. } => {
            let mut read_vars: Vec<String> = Vec::new();
            proof {
                assert(names_set(read_vars@) =~= Set::<Seq<char>>::empty());
            }
            crate::scanner::analyse_expression(cond, &mut read_vars);
            proof {
                assert(names_set(read_vars@) =~= expr_reads(cond@));
            }
            state.analyse_reader(&read_vars);
            let snap = state.snapshot_sets();
            proof {
                assert(decreases_to!(*stmt => **if_case));
            }
            analyse_statement(state, if_case);
            match else_case {
                Some(e) => {
                    let then_sets = state.swap_sets(snap);
                    proof {
                        assert(decreases_to!(*stmt => **e));
                    }
                    analyse_statement(state, e);
                    state.merge_branches(then_sets);
                },
                None => {
                    state.merge_branches(snap);
                },
            }
        },
        Statement::While { cond, stmt: body, .. } => {
            let mut read_vars: Vec<String> = Vec::new();
            proof {
                assert(names_set(read_vars@) =~= Set::<Seq<char>>::empty());
            }
            crate::scanner::analyse_expression(cond, &mut read_vars);
            proof {
                assert(names_set(read_vars@) =~= expr_reads(cond@));
            }
            state.analyse_reader(&read_vars);
            let snap0 = state.snapshot_sets();
            proof {
                assert(decreases_to!(*stmt => **body));
            }
            analyse_statement(state, body);
            state.analyse_reader(&read_vars);
            let snap1 = state.snapshot_sets();
            analyse_statement(state, body);
            state.analyse_reader(&read_vars);
            let s2_sets = state.swap_sets(snap0);
            state.merge_branches(snap1);
            state.merge_branches(s2_sets);
        },
        Statement::Return { value, .. } => {
            let mut read_vars: Vec<String> = Vec::new();
            proof {
                assert(names_set(read_vars@) =~= Set::<Seq<char>>::empty());
            }
            crate::scanner::analyse_expression(value, &mut read_vars);
            proof {
                assert(names_set(read_vars@) =~= expr_reads(value@));
            }
            state.analyse_reader(&read_vars);
        },
        Statement::InitializationBlock { initializations, .. } => {
            let ghost m0 = state@;
            let ghost vs = view_stmt_seq(initializations@);
            proof {
                lemma_view_stmt_seq_len(initializations@);
            }
            let mut constants: Vec<String> = Vec::new();
            proof {
                assert(vs.take(0) =~= Seq::<StmtV>::empty());
                assert(names_set(constants@) =~= const_names(vs.take(0)));
            }
            let mut j: usize = 0;
            while j < initializations.len()
                invariant
                    j <= initializations@.len(),
                    state@ == m0,
                    names_set(constants@) == const_names(vs.take(j as int)),
                decreases initializations@.len() - j,
            {
                match &initializations[j] {
                    Statement::Declaration { name, is_constant, .. } => {
                        if *is_constant {
                            let ghost c0 = constants@;
                            constants.push(name.clone());
                            proof {
                                crate::scanner::lemma_names_set_push(c0, *name);
                            }
                        }
                    },
                    _ => {},
                }
                proof {
                    lemma_view_stmt_seq_index(initializations@, j as int);
                    assert(vs.take(j + 1).drop_last() =~= vs.take(j as int));
                    assert(vs.take(j + 1).last() == vs[j as int]);
                    assert(names_set(constants@) =~= const_names(vs.take(j + 1)));
                }
                j += 1;
            }
            proof {
                assert(vs.take(vs.len() as int) =~= vs);
            }
            let ghost consts = const_names(vs);
            let mut k: usize = 0;
            while k < initializations.len()
                invariant
                    k <= initializations@.len(),
                    names_set(constants@) == consts,
                    state@ == analyse_init_spec(m0, vs.take(k as int), consts),
                decreases initializations@.len() - k,
            {
                match &initializations[k] {
                    Statement::Declaration { xtype, name, .. } => {
                        if let VariableType::Var = xtype {
                            state.add_variable(name);
                        }
                    },
                    Statement::Substitution { meta, var, access, rhe, is_artificial } => {
                        let is_c = contains_name(&constants, var);
                        analyse_assignment(state, meta, var, access, rhe, *is_artificial, is_c);
                    },
                    _ => {},
                }
                proof {
                    lemma_view_stmt_seq_index(initializations@, k as int);
                    assert(vs.take(k as int).push(vs[k as int]) =~= vs.take(k + 1));
                    lemma_init_spec_snoc(m0, vs.take(k as int), vs[k as int], consts);
                }
                k += 1;
            }
            proof {
                assert(vs.take(vs.len() as int) =~= vs);
            }
        },
        Statement::Declaration { xtype, name, .. } => {
            if let VariableType::Var = xtype {
                state.add_variable(name);
            }
        },
        Statement::Substitution { meta, var, access, rhe, is_artificial } => {
            analyse_assignment(state, meta, var, access, rhe, *is_artificial, false);
        },
        Statement::UnderscoreSubstitution { .. } => {},
        Statement::ConstraintEquality { lhe, rhe, .. } => {
            let mut read_vars: Vec<String> = Vec::new();
            proof {
                assert(names_set(read_vars@) =~= Set::<Seq<char>>::empty());
            }
            crate::scanner::analyse_expression(lhe, &mut read_vars);
            crate::scanner::analyse_expression(rhe, &mut read_vars);
            proof {
                assert(names_set(read_vars@) =~= expr_reads(lhe@).union(expr_reads(rhe@)));
            }
            state.analyse_reader(&read_vars);
        },
        Statement::LogCall { args, .. } => {
            let mut read_vars: Vec<String> = Vec::new();
            proof {
                assert(names_set(read_vars@) =~= Set::<Seq<char>>::empty());
            }
            crate::scanner::analyse_log_arguments(args, &mut read_vars);
            proof {
                assert(names_set(read_vars@) =~= logargs_reads(
                    crate::ast::view_logarg_seq(args@),
                ));
            }
            state.analyse_reader(&read_vars);
        },
        Statement::Assert { arg, .. } => {
            let mut read_vars: Vec<String> = Vec::new();
            proof {
                assert(names_set(read_vars@) =~= Set::<Seq<char>>::empty());
            }
            crate::scanner::analyse_expression(arg, &mut read_vars);
            proof {
                assert(names_set(read_vars@) =~= expr_reads(arg@));
            }
            state.analyse_reader(&read_vars);
        },
    }
}

} // verus!
