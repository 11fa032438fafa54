//! The entry points of the pass: run the analysis over a function or
//! template body, emit the warnings, and delete the useless substitutions
//! from the body.

use vstd::prelude::*;

use crate::analyzer::{analyse_statement, analyse_stmt_spec};
use crate::ast::{Meta, Statement, StmtV, TypeReduction};
use crate::info::{InfoV, has_id, info_set, lemma_has_id_vec};
use crate::model::{StateModel, exit_frame, seed_state};
use crate::laws::scoped;
use crate::report::{Report, ReportV, add_warnings, expected_reports, report_set, report_views};
use crate::rewriter::{remove_useless_subs, rewrite_stmt};
use crate::state::Analysis;

verus! {

/// A function descriptor: what the pass reads and rewrites of a function.
pub struct FunctionData {
    /// The function's name, used only as a label.
    pub name: String,
    /// The parameter names, in order.
    pub params: Vec<String>,
    /// The function body.
    pub body: Statement,
}

/// A template descriptor: what the pass reads and rewrites of a template.
pub struct TemplateData {
    /// The template's name, used only as a label.
    pub name: String,
    /// The parameter names, in order.
    pub params: Vec<String>,
    /// The template body.
    pub body: Statement,
}

/// The views of a parameter list.
pub open spec fn params_view(ps: Seq<String>) -> Seq<Seq<char>> {
    ps.map_values(|s: String| s@)
}

/// The final state of one body analysis: seed the environment with the
/// parameters, analyse the body, then retire the parameter frame, so that
/// nothing is left unclassified.
pub open spec fn analysis_spec(params: Seq<Seq<char>>, body: StmtV) -> StateModel {
    exit_frame(analyse_stmt_spec(seed_state(params), body))
}

/// The set of records found useless for this body.
pub open spec fn useless_of(params: Seq<Seq<char>>, body: StmtV) -> Set<InfoV> {
    analysis_spec(params, body).useless
}

/// The element ids of a record set.
pub open spec fn ids_of(s: Set<InfoV>) -> Set<usize> {
    Set::new(|id: usize| has_id(s, id))
}

/// Seed the environment with the parameters and analyse the body.
fn run_analysis(params: &Vec<String>, body: &Statement) -> (state: Analysis)
    ensures
        state@ == analysis_spec(params_view(params@), body@),
{
    let ghost pv = params_view(params@);
    let mut state = Analysis::new();
    state.add_variable_block();
    proof {
        assert(pv.take(0) =~= Seq::<Seq<char>>::empty());
        assert(state@.frames =~= seed_state(pv.take(0)).frames);
        assert(state@ == seed_state(pv.take(0)));
    }
    let mut j: usize = 0;
    while j < params.len()
        invariant
            j <= params@.len(),
            pv.len() == params@.len(),
            state@ == seed_state(pv.take(j as int)),
        decreases params@.len() - j,
    {
        state.add_variable(&params[j]);
        proof {
            assert(pv.take(j + 1).drop_last() =~= pv.take(j as int));
            assert(pv.take(j + 1).last() == params@[j as int]@);
        }
        j += 1;
    }
    proof {
        assert(pv.take(pv.len() as int) =~= pv);
    }
    analyse_statement(&mut state, body);
    state.remove_variable_block();
    state
}

/// Run the whole pass over one body: analyse, warn, rewrite.
fn run_pass(params: &Vec<String>, body: &mut Statement) -> (reports: Vec<Report>)
    ensures
        final(body)@ == rewrite_stmt(
            old(body)@,
            ids_of(useless_of(params_view(params@), old(body)@)),
        ),
        report_set(reports@) == expected_reports(
            useless_of(params_view(params@), old(body)@),
        ),
        report_views(reports@).no_duplicates(),
{
    let state = run_analysis(params, body);
    let mut reports: Vec<Report> = Vec::new();
    proof {
        assert(report_views(Seq::<Report>::empty()) =~= Seq::<ReportV>::empty());
        assert(report_set(Seq::<Report>::empty()) =~= Set::<ReportV>::empty());
    }
    add_warnings(&state.useless, &mut reports);
    proof {
        assert(report_set(reports@) =~= expected_reports(info_set(state.useless@)));
    }
    let mut to_remove: Vec<usize> = Vec::new();
    let mut j: usize = 0;
    while j < state.useless.len()
        invariant
            j <= state.useless@.len(),
            to_remove@.len() == j,
            forall|k: int| 0 <= k < j ==> to_remove@[k] == state.useless@[k]@.id,
        decreases state.useless@.len() - j,
    {
        to_remove.push(state.useless[j].id);
        j += 1;
    }
    proof {
        assert forall|x: usize|
            to_remove@.to_set().contains(x) <==> ids_of(state@.useless).contains(x) by {
            lemma_has_id_vec(state.useless@, x);
            if to_remove@.to_set().contains(x) {
                let k = choose|k: int| 0 <= k < to_remove@.len() && to_remove@[k] == x;
                assert(state.useless@[k]@.id == x);
            }
            if has_id(info_set(state.useless@), x) {
                let k = choose|k: int|
                    0 <= k < state.useless@.len() && state.useless@[k]@.id == x;
                assert(to_remove@[k] == x);
            }
        }
        assert(to_remove@.to_set() =~= ids_of(state@.useless));
    }
    let mut taken = Statement::Block {
        meta: Meta {
            elem_id: 0,
            start: 0,
            end: 0,
            file_id: None,
            reduces_to: TypeReduction::Variable,
        },
        stmts: Vec::new(),
    };
    core::mem::swap(body, &mut taken);
    let (new_body, _) = remove_useless_subs(taken, &to_remove);
    *body = new_body;
    reports
}

/// Find and delete the useless substitutions of a function body.
///
/// A substitution of a variable is useless when a later full substitution
/// of the same variable happens before any read of it, or when the variable
/// leaves its scope without being read. Only full substitutions — a bare
/// identifier on the left, no array index and no field selector — are
/// candidates for deletion. The returned reports warn about each deleted
/// substitution that mentions signals or was written by the programmer;
/// each owed warning is returned once, in no promised order.
///
/// The precondition is the upstream invariant that scope checking
/// guarantees for every tree this pass receives: each full variable
/// substitution assigns a name that is in scope, and initialization blocks
/// hold only declarations and substitutions. The surrounding compiler
/// treats a tree that breaks it as a fatal internal error.
pub fn function_substitution_analysis(function_data: &mut FunctionData) -> (reports: Vec<Report>)
    requires
        scoped(
            params_view(old(function_data).params@).to_set(),
            old(function_data).body@,
        ),
    ensures
        final(function_data).name == old(function_data).name,
        final(function_data).params == old(function_data).params,
        final(function_data).body@ == rewrite_stmt(
            old(function_data).body@,
            ids_of(
                useless_of(params_view(old(function_data).params@), old(function_data).body@),
            ),
        ),
        report_set(reports@) == expected_reports(
            useless_of(params_view(old(function_data).params@), old(function_data).body@),
        ),
        report_views(reports@).no_duplicates(),
{
    run_pass(&function_data.params, &mut function_data.body)
}

/// Find and delete the useless substitutions of a template body.
///
/// The analysis is the same as for functions: a substitution is useless
/// when it is overwritten before any read or the variable leaves scope
/// unread, and only full variable substitutions are deleted. The
/// precondition is the same upstream scoping invariant.
pub fn template_substitution_analysis(template_data: &mut TemplateData) -> (reports: Vec<Report>)
    requires
        scoped(
            params_view(old(template_data).params@).to_set(),
            old(template_data).body@,
        ),
    ensures
        final(template_data).name == old(template_data).name,
        final(template_data).params == old(template_data).params,
        final(template_data).body@ == rewrite_stmt(
            old(template_data).body@,
            ids_of(
                useless_of(params_view(old(template_data).params@), old(template_data).body@),
            ),
        ),
        report_set(reports@) == expected_reports(
            useless_of(params_view(old(template_data).params@), old(template_data).body@),
        ),
        report_views(reports@).no_duplicates(),
{
    run_pass(&template_data.params, &mut template_data.body)
}

} // verus!
