//! The rewriter: a second walk that deletes from the tree every full
//! variable substitution whose element id was classified useless.
//!
//! Only the direct children of blocks and initialization blocks are ever
//! deleted; all other shapes are kept and rewritten recursively.

use vstd::prelude::*;

use crate::ast::{Statement, StmtV, lemma_view_stmt_seq_index, lemma_view_stmt_seq_len,
    view_stmt_seq};

verus! {

/// Whether the rewrite deletes this statement when it stands in a block: a
/// substitution without access path whose element id was found useless.
pub open spec fn drops(s: StmtV, ids: Set<usize>) -> bool {
    &&& s matches StmtV::Substitution { meta, access, .. }
    &&& s->Substitution_access.len() == 0
    &&& ids.contains(s->Substitution_meta.elem_id)
}

/// The rewritten statement: blocks and initialization blocks lose the
/// children in `ids`, branches and loop bodies are rewritten in place, and
/// every other statement is kept as it is.
pub open spec fn rewrite_stmt(s: StmtV, ids: Set<usize>) -> StmtV
    decreases s,
{
    match s {
        StmtV::Block { meta, stmts } => StmtV::Block { meta, stmts: rewrite_stmts(stmts, ids) },
        StmtV::IfThenElse { meta, cond, if_case, else_case } => StmtV::IfThenElse {
            meta,
            cond,
            if_case: Box::new(rewrite_stmt(*if_case, ids)),
            else_case: match else_case {
                Some(e) => Some(Box::new(rewrite_stmt(*e, ids))),
                None => None,
            },
        },
        StmtV::While { meta, cond, stmt } => StmtV::While {
            meta,
            cond,
            stmt: Box::new(rewrite_stmt(*stmt, ids)),
        },
        StmtV::InitializationBlock { meta, initializations } => StmtV::InitializationBlock {
            meta,
            initializations: rewrite_stmts(initializations, ids),
        },
        _ => s,
    }
}

/// The rewritten children of a block: deleted children disappear, the rest
/// are rewritten in order.
pub open spec fn rewrite_stmts(ss: Seq<StmtV>, ids: Set<usize>) -> Seq<StmtV>
    decreases ss,
{
    if ss.len() == 0 {
        Seq::empty()
    } else {
        rewrite_stmts(ss.drop_last(), ids) + (if drops(ss.last(), ids) {
            Seq::<StmtV>::empty()
        } else {
            seq![rewrite_stmt(ss.last(), ids)]
        })
    }
}

/// Scan an id vector for an id.
fn contains_usize(v: &Vec<usize>, x: usize) -> (r: bool)
    ensures
        r == v@.contains(x),
{
    let mut j: usize = 0;
    while j < v.len()
        invariant
            j <= v@.len(),
            forall|k: int| 0 <= k < j ==> v@[k] != x,
        decreases v@.len() - j,
    {
        if v[j] == x {
            return true;
        }
        j += 1;
    }
    false
}

/// Rewrite one statement. The flag says whether a block should delete this
/// statement; a statement that is not the child of a block is kept even
/// when the flag is set.
#[verifier::rlimit(100)]
#[verifier::spinoff_prover]
pub fn remove_useless_subs(stmt: Statement, to_remove: &Vec<usize>) -> (r: (Statement, bool))
    ensures
        r.0@ == rewrite_stmt(stmt@, to_remove@.to_set()),
        r.1 == drops(stmt@, to_remove@.to_set()),
    decreases stmt,
{
    let ghost g = stmt;
    let ghost ids = to_remove@.to_set();
    match stmt {
        Statement::Block { meta, stmts } => {
            let mut rest = stmts;
            let ghost ss0 = rest@;
            let ghost vs = view_stmt_seq(ss0);
            proof {
                lemma_view_stmt_seq_len(ss0);
            }
            let mut kept: Vec<Statement> = Vec::new();
            let ghost i: int = 0;
            proof {
                assert(rest@ =~= ss0.skip(0));
                assert(vs.take(0) =~= Seq::<StmtV>::empty());
                assert(view_stmt_seq(kept@) =~= rewrite_stmts(vs.take(0), ids));
            }
            while rest.len() > 0
                invariant
                    0 <= i <= ss0.len(),
                    rest@ == ss0.skip(i),
                    view_stmt_seq(kept@) == rewrite_stmts(vs.take(i), ids),
                decreases rest@.len(),
            {
                let s = rest.remove(0);
                proof {
                    assert(s == ss0[i]);
                    assert(decreases_to!(g => g->Block_stmts));
                    assert(decreases_to!(g->Block_stmts => ss0[i]));
                    assert(ss0.skip(i).remove(0) =~= ss0.skip(i + 1));
                }
                let (s2, drop_it) = remove_useless_subs(s, to_remove);
                if !drop_it {
                    let ghost k0 = kept@;
                    kept.push(s2);
                    proof {
                        assert(kept@.drop_last() =~= k0);
                        assert(kept@.last() == s2);
                        assert(view_stmt_seq(kept@) == view_stmt_seq(k0).push(s2@));
                    }
                }
                proof {
                    lemma_view_stmt_seq_index(ss0, i);
                    assert(vs.take(i + 1).drop_last() =~= vs.take(i));
                    assert(vs.take(i + 1).last() == vs[i]);
                    assert(view_stmt_seq(kept@) =~= rewrite_stmts(vs.take(i + 1), ids));
                    i = i + 1;
                }
            }
            proof {
                assert(vs.take(vs.len() as int) =~= vs);
            }
            (Statement::Block { meta, stmts: kept }, false)
        },
        Statement::IfThenElse { meta, cond, if_case, else_case } => {
            proof {
                assert(decreases_to!(g => *if_case));
            }
            let (new_if, _) = remove_useless_subs(*if_case, to_remove);
            let new_else = match else_case {
                Some(e) => {
                    proof {
                        assert(decreases_to!(g => *e));
                    }
                    let (new_e, _) = remove_useless_subs(*e, to_remove);
                    Some(Box::new(new_e))
                },
                None => None,
            };
            (
                Statement::IfThenElse {
                    meta,
                    cond,
                    if_case: Box::new(new_if),
                    else_case: new_else,
                },
                false,
            )
        },
        Statement::While { meta, cond, stmt: body } => {
            proof {
                assert(decreases_to!(g => *body));
            }
            let (new_body, _) = remove_useless_subs(*body, to_remove);
            (Statement::While { meta, cond, stmt: Box::new(new_body) }, false)
        },
        Statement::InitializationBlock { meta, initializations } => {
            let mut rest = initializations;
            let ghost ss0 = rest@;
            let ghost vs = view_stmt_seq(ss0);
            proof {
                lemma_view_stmt_seq_len(ss0);
            }
            let mut kept: Vec<Statement> = Vec::new();
            let ghost i: int = 0;
            proof {
                assert(rest@ =~= ss0.skip(0));
                assert(vs.take(0) =~= Seq::<StmtV>::empty());
                assert(view_stmt_seq(kept@) =~= rewrite_stmts(vs.take(0), ids));
            }
            while rest.len() > 0
                invariant
                    0 <= i <= ss0.len(),
                    rest@ == ss0.skip(i),
                    view_stmt_seq(kept@) == rewrite_stmts(vs.take(i), ids),
                decreases rest@.len(),
            {
                let s = rest.remove(0);
                proof {
                    assert(s == ss0[i]);
                    assert(decreases_to!(g => g->InitializationBlock_initializations));
                    assert(decreases_to!(g->InitializationBlock_initializations => ss0[i]));
                    assert(ss0.skip(i).remove(0) =~= ss0.skip(i + 1));
                }
                let (s2, drop_it) = remove_useless_subs(s, to_remove);
                if !drop_it {
                    let ghost k0 = kept@;
                    kept.push(s2);
                    proof {
                        assert(kept@.drop_last() =~= k0);
                        assert(kept@.last() == s2);
                        assert(view_stmt_seq(kept@) == view_stmt_seq(k0).push(s2@));
                    }
                }
                proof {
                    lemma_view_stmt_seq_index(ss0, i);
                    assert(vs.take(i + 1).drop_last() =~= vs.take(i));
                    assert(vs.take(i + 1).last() == vs[i]);
                    assert(view_stmt_seq(kept@) =~= rewrite_stmts(vs.take(i + 1), ids));
                    i = i + 1;
                }
            }
            proof {
                assert(vs.take(vs.len() as int) =~= vs);
            }
            (Statement::InitializationBlock { meta, initializations: kept }, false)
        },
        Statement::Substitution { meta, var, access, rhe, is_artificial } => {
            let drop_it = if access.len() == 0 {
                contains_usize(to_remove, meta.elem_id)
            } else {
                false
            };
            proof {
                crate::ast::lemma_view_access_seq_len(access@);
            }
            (Statement::Substitution { meta, var, access, rhe, is_artificial }, drop_it)
        },
        other => (other, false),
    }
}

} // verus!
