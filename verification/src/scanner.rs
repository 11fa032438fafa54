//! The expression scanner: a read-set walk collecting every variable-typed
//! identifier an expression reads, and a signal walk deciding whether a
//! signal-typed identifier occurs anywhere in an expression.
//!
//! Both walks are pure; their results are specified by the spec functions
//! [`expr_reads`] and [`expr_has_signal`].

use vstd::prelude::*;

use crate::ast::{Access, AccessV, Expression, ExprV, LogArgument, LogArgV, TypeReduction,
    lemma_view_access_seq_index, lemma_view_access_seq_len, lemma_view_expr_seq_index,
    lemma_view_expr_seq_len, lemma_view_logarg_seq_index, lemma_view_logarg_seq_len,
    view_access_seq, view_expr_seq, view_logarg_seq};

verus! {

/// The set of name views held by a vector of names.
pub open spec fn names_set(v: Seq<String>) -> Set<Seq<char>> {
    v.map_values(|s: String| s@).to_set()
}

/// Membership in `names_set` is existence of an element with that view.
pub broadcast proof fn lemma_names_set_contains(v: Seq<String>, n: Seq<char>)
    ensures
        #[trigger] names_set(v).contains(n) <==> exists|j: int| 0 <= j < v.len() && v[j]@ == n,
{
    let m = v.map_values(|s: String| s@);
    if exists|j: int| 0 <= j < v.len() && v[j]@ == n {
        let j = choose|j: int| 0 <= j < v.len() && v[j]@ == n;
        assert(m[j] == n);
    }
}

/// Pushing a name inserts its view into the set.
pub broadcast proof fn lemma_names_set_push(v: Seq<String>, s: String)
    ensures
        #[trigger] names_set(v.push(s)) == names_set(v).insert(s@),
{
    let w = v.push(s);
    assert forall|x: Seq<char>|
        names_set(w).contains(x) <==> names_set(v).insert(s@).contains(x) by {
        lemma_names_set_contains(w, x);
        lemma_names_set_contains(v, x);
        if names_set(v).insert(s@).contains(x) {
            if names_set(v).contains(x) {
                let j = choose|j: int| 0 <= j < v.len() && v[j]@ == x;
                assert(w[j]@ == x);
            } else {
                assert(w[v.len() as int]@ == x);
            }
        }
    }
    assert(names_set(w) =~= names_set(v).insert(s@));
}

/// The names of variable-typed identifiers an expression reads. Indices of
/// access paths count as reads.
pub open spec fn expr_reads(e: ExprV) -> Set<Seq<char>>
    decreases e,
{
    match e {
        ExprV::Number(_) => Set::empty(),
        ExprV::Variable { meta, name, access } => {
            let base: Set<Seq<char>> = if meta.reduces_to is Variable {
                Set::empty().insert(name)
            } else {
                Set::empty()
            };
            base.union(access_reads(access))
        },
        ExprV::InfixOp { lhe, rhe, .. } => expr_reads(*lhe).union(expr_reads(*rhe)),
        ExprV::PrefixOp { rhe, .. } => expr_reads(*rhe),
        ExprV::InlineSwitchOp { cond, if_true, if_false, .. } => expr_reads(*cond).union(
            expr_reads(*if_true),
        ).union(expr_reads(*if_false)),
        ExprV::ParallelOp { rhe, .. } => expr_reads(*rhe),
        ExprV::Call { args, .. } => exprs_reads(args),
        ExprV::AnonymousComp { params, signals, .. } => exprs_reads(params).union(
            exprs_reads(signals),
        ),
        ExprV::ArrayInLine { values, .. } => exprs_reads(values),
        ExprV::Tuple { values, .. } => exprs_reads(values),
        ExprV::UniformArray { value, dimension, .. } => expr_reads(*value).union(
            expr_reads(*dimension),
        ),
    }
}

/// The names read by a sequence of expressions.
pub open spec fn exprs_reads(es: Seq<ExprV>) -> Set<Seq<char>>
    decreases es,
{
    if es.len() == 0 {
        Set::empty()
    } else {
        exprs_reads(es.drop_last()).union(expr_reads(es.last()))
    }
}

/// The names read by the array indices of an access path.
pub open spec fn access_reads(accs: Seq<AccessV>) -> Set<Seq<char>>
    decreases accs,
{
    if accs.len() == 0 {
        Set::empty()
    } else {
        access_reads(accs.drop_last()).union(
            match accs.last() {
                AccessV::ArrayAccess(e) => expr_reads(e),
                AccessV::ComponentAccess(_) => Set::empty(),
            },
        )
    }
}

/// The names read by the expression arguments of a log call.
pub open spec fn logargs_reads(args: Seq<LogArgV>) -> Set<Seq<char>>
    decreases args,
{
    if args.len() == 0 {
        Set::empty()
    } else {
        logargs_reads(args.drop_last()).union(
            match args.last() {
                LogArgV::LogExp(e) => expr_reads(e),
                LogArgV::LogStr(_) => Set::empty(),
            },
        )
    }
}

/// Whether a signal-typed identifier occurs anywhere in the expression,
/// access-path indices included.
pub open spec fn expr_has_signal(e: ExprV) -> bool
    decreases e,
{
    match e {
        ExprV::Number(_) => false,
        ExprV::Variable { meta, access, .. } => meta.reduces_to is Signal || access_has_signal(
            access,
        ),
        ExprV::InfixOp { lhe, rhe, .. } => expr_has_signal(*lhe) || expr_has_signal(*rhe),
        ExprV::PrefixOp { rhe, .. } => expr_has_signal(*rhe),
        ExprV::InlineSwitchOp { cond, if_true, if_false, .. } => expr_has_signal(*cond)
            || expr_has_signal(*if_true) || expr_has_signal(*if_false),
        ExprV::ParallelOp { rhe, .. } => expr_has_signal(*rhe),
        ExprV::Call { args, .. } => exprs_have_signal(args),
        ExprV::AnonymousComp { params, signals, .. } => exprs_have_signal(params)
            || exprs_have_signal(signals),
        ExprV::ArrayInLine { values, .. } => exprs_have_signal(values),
        ExprV::Tuple { values, .. } => exprs_have_signal(values),
        ExprV::UniformArray { value, dimension, .. } => expr_has_signal(*value)
            || expr_has_signal(*dimension),
    }
}

/// Whether any expression of the sequence holds a signal-typed identifier.
pub open spec fn exprs_have_signal(es: Seq<ExprV>) -> bool
    decreases es,
{
    if es.len() == 0 {
        false
    } else {
        exprs_have_signal(es.drop_last()) || expr_has_signal(es.last())
    }
}

/// Whether any array index of the access path holds a signal-typed
/// identifier.
pub open spec fn access_has_signal(accs: Seq<AccessV>) -> bool
    decreases accs,
{
    if accs.len() == 0 {
        false
    } else {
        access_has_signal(accs.drop_last()) || (match accs.last() {
            AccessV::ArrayAccess(e) => expr_has_signal(e),
            AccessV::ComponentAccess(_) => false,
        })
    }
}

/// Collect into `read_vars` the name of every variable-typed identifier the
/// expression reads.
pub fn analyse_expression(exp: &Expression, read_vars: &mut Vec<String>)
    ensures
        names_set(final(read_vars)@) == names_set(old(read_vars)@).union(expr_reads(exp@)),
    decreases *exp,
{
    let ghost rv0 = read_vars@;
    match exp {
        Expression::Number(_) => {
            proof {
                assert(names_set(read_vars@) =~= names_set(rv0).union(expr_reads(exp@)));
            }
        },
        Expression::Variable { meta, name, access } => {
            if let TypeReduction::Variable = meta.reduces_to {
                let ghost before = read_vars@;
                read_vars.push(name.clone());
                proof {
                    lemma_names_set_push(before, *name);
                }
            }
            analyse_accesses(access, read_vars);
            proof {
                assert(names_set(read_vars@) =~= names_set(rv0).union(expr_reads(exp@)));
            }
        },
        Expression::InfixOp { lhe, rhe, .. } => {
            analyse_expression(lhe, read_vars);
            analyse_expression(rhe, read_vars);
            proof {
                assert(names_set(read_vars@) =~= names_set(rv0).union(expr_reads(exp@)));
            }
        },
        Expression::PrefixOp { rhe, .. } => {
            analyse_expression(rhe, read_vars);
        },
        Expression::InlineSwitchOp { cond, if_true, if_false, .. } => {
            analyse_expression(cond, read_vars);
            analyse_expression(if_true, read_vars);
            analyse_expression(if_false, read_vars);
            proof {
                assert(names_set(read_vars@) =~= names_set(rv0).union(expr_reads(exp@)));
            }
        },
        Expression::ParallelOp { rhe, .. } => {
            analyse_expression(rhe, read_vars);
        },
        Expression::Call { args, .. } => {
            analyse_expressions(args, read_vars);
        },
        Expression::AnonymousComp { params, signals, .. } => {
            analyse_expressions(params, read_vars);
            analyse_expressions(signals, read_vars);
            proof {
                assert(names_set(read_vars@) =~= names_set(rv0).union(expr_reads(exp@)));
            }
        },
        Expression::ArrayInLine { values, .. } => {
            analyse_expressions(values, read_vars);
        },
        Expression::Tuple { values, .. } => {
            analyse_expressions(values, read_vars);
        },
        Expression::UniformArray { value, dimension, .. } => {
            analyse_expression(value, read_vars);
            analyse_expression(dimension, read_vars);
            proof {
                assert(names_set(read_vars@) =~= names_set(rv0).union(expr_reads(exp@)));
            }
        },
    }
}

/// Collect the reads of every expression of a vector.
fn analyse_expressions(es: &Vec<Expression>, read_vars: &mut Vec<String>)
    ensures
        names_set(final(read_vars)@) == names_set(old(read_vars)@).union(
            exprs_reads(view_expr_seq(es@)),
        ),
    decreases es@,
{
    let ghost rv0 = read_vars@;
    let ghost vs = view_expr_seq(es@);
    proof {
        lemma_view_expr_seq_len(es@);
    }
    let mut j: usize = 0;
    proof {
        assert(vs.take(0) =~= Seq::<ExprV>::empty());
        assert(names_set(read_vars@) =~= names_set(rv0).union(exprs_reads(vs.take(0))));
    }
    while j < es.len()
        invariant
            j <= es@.len(),
            vs == view_expr_seq(es@),
            vs.len() == es@.len(),
            names_set(read_vars@) == names_set(rv0).union(exprs_reads(vs.take(j as int))),
        decreases es@.len() - j,
    {
        proof {
            assert(decreases_to!(es@ => es@[j as int]));
        }
        analyse_expression(&es[j], read_vars);
        proof {
            lemma_view_expr_seq_index(es@, j as int);
            assert(vs.take(j + 1).drop_last() =~= vs.take(j as int));
            assert(vs.take(j + 1).last() == vs[j as int]);
            assert(names_set(read_vars@) =~= names_set(rv0).union(exprs_reads(vs.take(j + 1))));
        }
        j += 1;
    }
    proof {
        assert(vs.take(vs.len() as int) =~= vs);
    }
}

/// Collect the reads of every array index of an access path.
pub fn analyse_accesses(accs: &Vec<Access>, read_vars: &mut Vec<String>)
    ensures
        names_set(final(read_vars)@) == names_set(old(read_vars)@).union(
            access_reads(view_access_seq(accs@)),
        ),
    decreases accs@,
{
    let ghost rv0 = read_vars@;
    let ghost vs = view_access_seq(accs@);
    proof {
        lemma_view_access_seq_len(accs@);
    }
    let mut j: usize = 0;
    proof {
        assert(vs.take(0) =~= Seq::<AccessV>::empty());
        assert(names_set(read_vars@) =~= names_set(rv0).union(access_reads(vs.take(0))));
    }
    while j < accs.len()
        invariant
            j <= accs@.len(),
            vs == view_access_seq(accs@),
            vs.len() == accs@.len(),
            names_set(read_vars@) == names_set(rv0).union(access_reads(vs.take(j as int))),
        decreases accs@.len() - j,
    {
        match &accs[j] {
            Access::ArrayAccess(e) => {
                proof {
                    assert(decreases_to!(accs@ => accs@[j as int]));
                }
                analyse_expression(e, read_vars);
            },
            Access::ComponentAccess(_) => {},
        }
        proof {
            lemma_view_access_seq_index(accs@, j as int);
            assert(vs.take(j + 1).drop_last() =~= vs.take(j as int));
            assert(vs.take(j + 1).last() == vs[j as int]);
            assert(names_set(read_vars@) =~= names_set(rv0).union(access_reads(vs.take(j + 1))));
        }
        j += 1;
    }
    proof {
        assert(vs.take(vs.len() as int) =~= vs);
    }
}

/// Collect the reads of the expression arguments of a log call.
pub fn analyse_log_arguments(args: &Vec<LogArgument>, read_vars: &mut Vec<String>)
    ensures
        names_set(final(read_vars)@) == names_set(old(read_vars)@).union(
            logargs_reads(view_logarg_seq(args@)),
        ),
{
    let ghost rv0 = read_vars@;
    let ghost vs = view_logarg_seq(args@);
    proof {
        lemma_view_logarg_seq_len(args@);
    }
    let mut j: usize = 0;
    proof {
        assert(vs.take(0) =~= Seq::<LogArgV>::empty());
        assert(names_set(read_vars@) =~= names_set(rv0).union(logargs_reads(vs.take(0))));
    }
    while j < args.len()
        invariant
            j <= args@.len(),
            vs == view_logarg_seq(args@),
            vs.len() == args@.len(),
            names_set(read_vars@) == names_set(rv0).union(logargs_reads(vs.take(j as int))),
        decreases args@.len() - j,
    {
        match &args[j] {
            LogArgument::LogExp(e) => {
                analyse_expression(e, read_vars);
            },
            LogArgument::LogStr(_) => {},
        }
        proof {
            lemma_view_logarg_seq_index(args@, j as int);
            assert(vs.take(j + 1).drop_last() =~= vs.take(j as int));
            assert(vs.take(j + 1).last() == vs[j as int]);
            assert(names_set(read_vars@) =~= names_set(rv0).union(logargs_reads(vs.take(j + 1))));
        }
        j += 1;
    }
    proof {
        assert(vs.take(vs.len() as int) =~= vs);
    }
}

/// Decide whether a signal-typed identifier occurs anywhere in the
/// expression.
pub fn expression_contains_signals(exp: &Expression) -> (r: bool)
    ensures
        r == expr_has_signal(exp@),
    decreases *exp,
{
    match exp {
        Expression::Number(_) => false,
        Expression::Variable { meta, access, .. } => {
            if let TypeReduction::Signal = meta.reduces_to {
                true
            } else {
                accesses_contain_signals(access)
            }
        },
        Expression::InfixOp { lhe, rhe, .. } => {
            expression_contains_signals(lhe) || expression_contains_signals(rhe)
        },
        Expression::PrefixOp { rhe, .. } => expression_contains_signals(rhe),
        Expression::InlineSwitchOp { cond, if_true, if_false, .. } => {
            expression_contains_signals(cond) || expression_contains_signals(if_true)
                || expression_contains_signals(if_false)
        },
        Expression::ParallelOp { rhe, .. } => expression_contains_signals(rhe),
        Expression::Call { args, .. } => expressions_contain_signals(args),
        Expression::AnonymousComp { params, signals, .. } => {
            expressions_contain_signals(params) || expressions_contain_signals(signals)
        },
        Expression::ArrayInLine { values, .. } => expressions_contain_signals(values),
        Expression::Tuple { values, .. } => expressions_contain_signals(values),
        Expression::UniformArray { value, dimension, .. } => {
            expression_contains_signals(value) || expression_contains_signals(dimension)
        },
    }
}

/// Decide whether any expression of a vector holds a signal-typed
/// identifier.
fn expressions_contain_signals(es: &Vec<Expression>) -> (r: bool)
    ensures
        r == exprs_have_signal(view_expr_seq(es@)),
    decreases es@,
{
    let ghost vs = view_expr_seq(es@);
    proof {
        lemma_view_expr_seq_len(es@);
    }
    let mut j: usize = 0;
    while j < es.len()
        invariant
            j <= es@.len(),
            vs == view_expr_seq(es@),
            vs.len() == es@.len(),
            !exprs_have_signal(vs.take(j as int)),
        decreases es@.len() - j,
    {
        proof {
            assert(decreases_to!(es@ => es@[j as int]));
        }
        let found = expression_contains_signals(&es[j]);
        proof {
            lemma_view_expr_seq_index(es@, j as int);
            assert(vs.take(j + 1).drop_last() =~= vs.take(j as int));
            assert(vs.take(j + 1).last() == vs[j as int]);
        }
        if found {
            proof {
                lemma_exprs_have_signal_extend(vs, j as int);
            }
            return true;
        }
        j += 1;
    }
    proof {
        assert(vs.take(vs.len() as int) =~= vs);
    }
    false
}

/// A signal in a visited element makes the whole sequence signal-bearing.
proof fn lemma_exprs_have_signal_extend(vs: Seq<ExprV>, j: int)
    requires
        0 <= j < vs.len(),
        expr_has_signal(vs[j]),
    ensures
        exprs_have_signal(vs),
    decreases vs.len(),
{
    if j == vs.len() - 1 {
        assert(vs.drop_last() =~= vs.take(vs.len() - 1));
    } else {
        lemma_exprs_have_signal_extend(vs.drop_last(), j);
    }
}

/// A signal in a visited index makes the whole access path signal-bearing.
proof fn lemma_access_has_signal_extend(vs: Seq<AccessV>, j: int)
    requires
        0 <= j < vs.len(),
        (vs[j] matches AccessV::ArrayAccess(e) && expr_has_signal(e)),
    ensures
        access_has_signal(vs),
    decreases vs.len(),
{
    if j < vs.len() - 1 {
        lemma_access_has_signal_extend(vs.drop_last(), j);
    }
}

/// Decide whether any array index of an access path holds a signal-typed
/// identifier.
fn accesses_contain_signals(accs: &Vec<Access>) -> (r: bool)
    ensures
        r == access_has_signal(view_access_seq(accs@)),
    decreases accs@,
{
    let ghost vs = view_access_seq(accs@);
    proof {
        lemma_view_access_seq_len(accs@);
    }
    let mut j: usize = 0;
    while j < accs.len()
        invariant
            j <= accs@.len(),
            vs == view_access_seq(accs@),
            vs.len() == accs@.len(),
            !access_has_signal(vs.take(j as int)),
        decreases accs@.len() - j,
    {
        let found = match &accs[j] {
            Access::ArrayAccess(e) => {
                proof {
                    assert(decreases_to!(accs@ => accs@[j as int]));
                }
                expression_contains_signals(e)
            },
            Access::ComponentAccess(_) => false,
        };
        proof {
            lemma_view_access_seq_index(accs@, j as int);
            assert(vs.take(j + 1).drop_last() =~= vs.take(j as int));
            assert(vs.take(j + 1).last() == vs[j as int]);
        }
        if found {
            proof {
                lemma_access_has_signal_extend(vs, j as int);
            }
            return true;
        }
        j += 1;
    }
    proof {
        assert(vs.take(vs.len() as int) =~= vs);
    }
    false
}

} // verus!
