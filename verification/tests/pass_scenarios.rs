//! End-to-end scenarios for the dead-store pass: whole bodies run through
//! the public entry points, checking the warnings and the rewritten tree.

use substitution_analysis::ast::{Access, Expression, Meta, Statement, TypeReduction, VariableType};
use substitution_analysis::pass::{FunctionData, TemplateData};
use substitution_analysis::{function_substitution_analysis, template_substitution_analysis};

fn meta(id: usize) -> Meta {
    Meta { elem_id: id, start: 10 * id, end: 10 * id + 5, file_id: Some(0), reduces_to: TypeReduction::Variable }
}

fn meta_red(id: usize, red: TypeReduction) -> Meta {
    Meta { elem_id: id, start: 10 * id, end: 10 * id + 5, file_id: Some(0), reduces_to: red }
}

fn var(name: &str, id: usize) -> Expression {
    Expression::Variable { meta: meta(id), name: name.to_string(), access: vec![] }
}

fn signal(name: &str, id: usize) -> Expression {
    Expression::Variable {
        meta: meta_red(id, TypeReduction::Signal),
        name: name.to_string(),
        access: vec![],
    }
}

fn num(id: usize) -> Expression {
    Expression::Number(meta(id))
}

fn add(id: usize, lhe: Expression, rhe: Expression) -> Expression {
    Expression::InfixOp { meta: meta(id), lhe: Box::new(lhe), rhe: Box::new(rhe) }
}

fn decl(name: &str, id: usize) -> Statement {
    Statement::Declaration {
        meta: meta(id),
        xtype: VariableType::Var,
        name: name.to_string(),
        is_constant: false,
    }
}

fn assign(name: &str, id: usize, rhe: Expression) -> Statement {
    Statement::Substitution {
        meta: meta(id),
        var: name.to_string(),
        access: vec![],
        rhe,
        is_artificial: false,
    }
}

fn assign_indexed(name: &str, id: usize, index: Expression, rhe: Expression) -> Statement {
    Statement::Substitution {
        meta: meta(id),
        var: name.to_string(),
        access: vec![Access::ArrayAccess(index)],
        rhe,
        is_artificial: false,
    }
}

fn ret(id: usize, value: Expression) -> Statement {
    Statement::Return { meta: meta(id), value }
}

fn block(id: usize, stmts: Vec<Statement>) -> Statement {
    Statement::Block { meta: meta(id), stmts }
}

fn while_loop(id: usize, cond: Expression, body: Statement) -> Statement {
    Statement::While { meta: meta(id), cond, stmt: Box::new(body) }
}

fn if_else(id: usize, cond: Expression, then: Statement, els: Option<Statement>) -> Statement {
    Statement::IfThenElse {
        meta: meta(id),
        cond,
        if_case: Box::new(then),
        else_case: els.map(Box::new),
    }
}

fn run_function(params: &[&str], body: Statement) -> (FunctionData, Vec<substitution_analysis::Report>) {
    let mut data = FunctionData {
        name: "f".to_string(),
        params: params.iter().map(|p| p.to_string()).collect(),
        body,
    };
    let reports = function_substitution_analysis(&mut data);
    (data, reports)
}

fn body_stmts(data: &FunctionData) -> &Vec<Statement> {
    match &data.body {
        Statement::Block { stmts, .. } => stmts,
        _ => panic!("body is not a block"),
    }
}

fn sub_ids(stmts: &[Statement]) -> Vec<usize> {
    stmts
        .iter()
        .filter_map(|s| match s {
            Statement::Substitution { meta, .. } => Some(meta.elem_id),
            _ => None,
        })
        .collect()
}

#[test]
fn immediate_overwrite() {
    // var x; x = 0; x = 1; return x;  =>  x = 0 is useless and dropped.
    let body = block(
        100,
        vec![
            decl("x", 1),
            assign("x", 2, num(50)),
            assign("x", 3, num(51)),
            ret(4, var("x", 52)),
        ],
    );
    let (data, reports) = run_function(&[], body);
    assert_eq!(reports.len(), 1);
    assert_eq!(reports[0].subs_id, 2);
    assert_eq!(reports[0].var_name, "x");
    let stmts = body_stmts(&data);
    assert_eq!(stmts.len(), 3);
    assert_eq!(sub_ids(stmts), vec![3]);
}

#[test]
fn dead_at_scope_exit() {
    // function f() { var x; x = 7; return 0; }  =>  x = 7 is dropped.
    let body = block(
        100,
        vec![decl("x", 1), assign("x", 2, num(50)), ret(3, num(51))],
    );
    let (data, reports) = run_function(&[], body);
    assert_eq!(reports.len(), 1);
    assert_eq!(reports[0].subs_id, 2);
    let stmts = body_stmts(&data);
    assert_eq!(stmts.len(), 2);
    assert!(sub_ids(stmts).is_empty());
}

#[test]
fn branch_join_keeps_unknown() {
    // var x; x = 1; if (c) { y = x; } else { }; x = 2; return x;
    // with y a signal. The read of x on the then-branch makes x = 1
    // useful: nothing is deleted.
    let sub_to_signal = Statement::Substitution {
        meta: meta_red(5, TypeReduction::Signal),
        var: "y".to_string(),
        access: vec![],
        rhe: var("x", 54),
        is_artificial: false,
    };
    let body = block(
        100,
        vec![
            decl("x", 1),
            assign("x", 2, num(50)),
            if_else(
                3,
                var("c", 53),
                block(101, vec![sub_to_signal]),
                Some(block(102, vec![])),
            ),
            assign("x", 6, num(51)),
            ret(7, var("x", 55)),
        ],
    );
    let (data, reports) = run_function(&["c"], body);
    assert!(reports.is_empty());
    let stmts = body_stmts(&data);
    assert_eq!(stmts.len(), 5);
}

#[test]
fn both_branches_overwrite() {
    // var x; x = 1; if (c) { x = 2; } else { x = 3; }; return x;
    // x = 1 is overwritten on both paths and is deleted.
    let body = block(
        100,
        vec![
            decl("x", 1),
            assign("x", 2, num(50)),
            if_else(
                3,
                var("c", 53),
                block(101, vec![assign("x", 4, num(51))]),
                Some(block(102, vec![assign("x", 5, num(52))])),
            ),
            ret(6, var("x", 55)),
        ],
    );
    let (data, reports) = run_function(&["c"], body);
    assert_eq!(reports.len(), 1);
    assert_eq!(reports[0].subs_id, 2);
    let stmts = body_stmts(&data);
    assert_eq!(stmts.len(), 3);
    // The branch assignments both survive.
    match &stmts[1] {
        Statement::IfThenElse { if_case, else_case, .. } => {
            match if_case.as_ref() {
                Statement::Block { stmts, .. } => assert_eq!(sub_ids(stmts), vec![4]),
                _ => panic!("then branch is not a block"),
            }
            match else_case.as_ref().map(|b| b.as_ref()) {
                Some(Statement::Block { stmts, .. }) => assert_eq!(sub_ids(stmts), vec![5]),
                _ => panic!("else branch is not a block"),
            }
        },
        _ => panic!("second statement is not the branch"),
    }
}

#[test]
fn loop_re_execution() {
    // var s; s = 0; var i; i = 0; while (i < n) { s = s + i; i = i + 1; };
    // return s;  =>  every assignment is read in some unrolling.
    let body = block(
        100,
        vec![
            decl("s", 1),
            assign("s", 2, num(50)),
            decl("i", 3),
            assign("i", 4, num(51)),
            while_loop(
                5,
                add(52, var("i", 53), var("n", 54)),
                block(
                    101,
                    vec![
                        assign("s", 6, add(55, var("s", 56), var("i", 57))),
                        assign("i", 7, add(58, var("i", 59), num(60))),
                    ],
                ),
            ),
            ret(8, var("s", 61)),
        ],
    );
    let (data, reports) = run_function(&["n"], body);
    assert!(reports.is_empty());
    let stmts = body_stmts(&data);
    assert_eq!(stmts.len(), 6);
    assert_eq!(sub_ids(stmts), vec![2, 4]);
}

#[test]
fn loop_dead_store_inside_body() {
    // while (c) { var t; t = 5; log(0); }  =>  t retires unread at every
    // block exit: t = 5 is useless and dropped.
    let body = block(
        100,
        vec![while_loop(
            1,
            var("c", 50),
            block(
                101,
                vec![
                    decl("t", 2),
                    assign("t", 3, num(51)),
                    Statement::LogCall {
                        meta: meta(4),
                        args: vec![substitution_analysis::ast::LogArgument::LogExp(num(52))],
                    },
                ],
            ),
        )],
    );
    let (data, reports) = run_function(&["c"], body);
    assert_eq!(reports.len(), 1);
    assert_eq!(reports[0].subs_id, 3);
    let stmts = body_stmts(&data);
    match &stmts[0] {
        Statement::While { stmt, .. } => match stmt.as_ref() {
            Statement::Block { stmts, .. } => {
                assert_eq!(stmts.len(), 2);
                assert!(sub_ids(stmts).is_empty());
            },
            _ => panic!("loop body is not a block"),
        },
        _ => panic!("first statement is not the loop"),
    }
}

#[test]
fn signal_substitution_never_touched() {
    // A substitution whose left side reduces to a signal is no candidate:
    // it is kept and produces no report, even though it is never read.
    let mut sub = assign("out", 2, num(50));
    if let Statement::Substitution { meta, .. } = &mut sub {
        meta.reduces_to = TypeReduction::Signal;
    }
    let body = block(100, vec![sub, ret(3, num(51))]);
    let (data, reports) = run_function(&[], body);
    assert!(reports.is_empty());
    let stmts = body_stmts(&data);
    assert_eq!(stmts.len(), 2);
    assert_eq!(sub_ids(stmts), vec![2]);
}

#[test]
fn partial_assignment_never_deleted() {
    // var x; x[0] = 5;  =>  a substitution with an access path is kept.
    let body = block(
        100,
        vec![decl("x", 1), assign_indexed("x", 2, num(50), num(51))],
    );
    let (data, reports) = run_function(&[], body);
    assert!(reports.is_empty());
    let stmts = body_stmts(&data);
    assert_eq!(stmts.len(), 2);
    assert_eq!(sub_ids(stmts), vec![2]);
}

#[test]
fn underscore_substitution_reads_nothing() {
    // var x; x = 1; _ = x;  =>  the underscore substitution's right side
    // counts as no read, so x = 1 still dies at scope exit.
    let body = block(
        100,
        vec![
            decl("x", 1),
            assign("x", 2, num(50)),
            Statement::UnderscoreSubstitution { meta: meta(3), rhe: var("x", 51) },
        ],
    );
    let (data, reports) = run_function(&[], body);
    assert_eq!(reports.len(), 1);
    assert_eq!(reports[0].subs_id, 2);
    let stmts = body_stmts(&data);
    assert_eq!(stmts.len(), 2);
    assert!(sub_ids(stmts).is_empty());
}

#[test]
fn artificial_substitution_deleted_silently() {
    // An artificial dead store is deleted but produces no warning.
    let mut sub = assign("x", 2, num(50));
    if let Statement::Substitution { is_artificial, .. } = &mut sub {
        *is_artificial = true;
    }
    let body = block(100, vec![decl("x", 1), sub]);
    let (data, reports) = run_function(&[], body);
    assert!(reports.is_empty());
    let stmts = body_stmts(&data);
    assert_eq!(stmts.len(), 1);
}

#[test]
fn signal_bearing_dead_store_warns_twice() {
    // A dead store whose right side holds a signal warns both that it
    // contains signals and that it is not artificial.
    let body = block(
        100,
        vec![decl("x", 1), assign("x", 2, signal("s", 50))],
    );
    let (data, reports) = run_function(&[], body);
    assert_eq!(reports.len(), 2);
    assert!(reports.iter().all(|r| r.subs_id == 2));
    let messages: Vec<String> = reports.iter().map(|r| r.message()).collect();
    assert!(messages.contains(
        &"x variable substitution is never read and contains signals".to_string()
    ));
    assert!(messages.contains(
        &"x variable substitution is useless but not artificial".to_string()
    ));
    assert_eq!(body_stmts(&data).len(), 1);
}

#[test]
fn constant_initialization_notes_the_constant() {
    // An initialization block that declares a constant and initialises it
    // without any later read warns with the constant suffix.
    let init = Statement::InitializationBlock {
        meta: meta(10),
        initializations: vec![
            Statement::Declaration {
                meta: meta(1),
                xtype: VariableType::Var,
                name: "k".to_string(),
                is_constant: true,
            },
            assign("k", 2, num(50)),
        ],
    };
    let body = block(100, vec![init, ret(3, num(51))]);
    let (_data, reports) = run_function(&[], body);
    assert_eq!(reports.len(), 1);
    assert_eq!(
        reports[0].message(),
        "k variable substitution is useless but not artificial. However, it is a constant"
    );
}

#[test]
fn assigned_parameter_dies_at_body_end() {
    // A parameter assigned and never read afterwards is a dead store too.
    let body = block(100, vec![assign("p", 2, num(50)), ret(3, num(51))]);
    let (data, reports) = run_function(&["p"], body);
    assert_eq!(reports.len(), 1);
    assert_eq!(reports[0].subs_id, 2);
    assert_eq!(body_stmts(&data).len(), 1);
}

#[test]
fn template_analysis_matches_function_analysis() {
    let body = block(
        100,
        vec![
            decl("x", 1),
            assign("x", 2, num(50)),
            assign("x", 3, num(51)),
            ret(4, var("x", 52)),
        ],
    );
    let mut data = TemplateData { name: "t".to_string(), params: vec![], body };
    let reports = template_substitution_analysis(&mut data);
    assert_eq!(reports.len(), 1);
    assert_eq!(reports[0].subs_id, 2);
    match &data.body {
        Statement::Block { stmts, .. } => assert_eq!(stmts.len(), 3),
        _ => panic!("body is not a block"),
    }
}

#[test]
fn empty_body_yields_nothing() {
    let (data, reports) = run_function(&[], block(100, vec![]));
    assert!(reports.is_empty());
    assert!(body_stmts(&data).is_empty());
}

#[test]
fn second_pass_changes_nothing_here() {
    // After the pass has deleted x = 0, running it again on the rewritten
    // body deletes nothing more.
    let body = block(
        100,
        vec![
            decl("x", 1),
            assign("x", 2, num(50)),
            assign("x", 3, num(51)),
            ret(4, var("x", 52)),
        ],
    );
    let (mut data, first) = run_function(&[], body);
    assert_eq!(first.len(), 1);
    let second = function_substitution_analysis(&mut data);
    assert!(second.is_empty());
    let stmts = body_stmts(&data);
    assert_eq!(stmts.len(), 3);
    assert_eq!(sub_ids(stmts), vec![3]);
}

#[test]
fn analysis_is_stable_across_runs() {
    // Two runs over the same body report the same useless substitution.
    let make = || {
        block(
            100,
            vec![decl("x", 1), assign("x", 2, num(50)), ret(3, num(51))],
        )
    };
    let (_d1, r1) = run_function(&[], make());
    let (_d2, r2) = run_function(&[], make());
    let ids1: Vec<usize> = r1.iter().map(|r| r.subs_id).collect();
    let ids2: Vec<usize> = r2.iter().map(|r| r.subs_id).collect();
    assert_eq!(ids1, ids2);
}

#[test]
fn shadowed_variable_dies_with_its_block() {
    // var x; x = 1; { var x; x = 2; } return x;
    // The inner x = 2 dies with the inner block; the outer x = 1 is read.
    let body = block(
        100,
        vec![
            decl("x", 1),
            assign("x", 2, num(50)),
            block(101, vec![decl("x", 3), assign("x", 4, num(51))]),
            ret(5, var("x", 52)),
        ],
    );
    let (data, reports) = run_function(&[], body);
    assert_eq!(reports.len(), 1);
    assert_eq!(reports[0].subs_id, 4);
    let stmts = body_stmts(&data);
    assert_eq!(stmts.len(), 4);
    assert_eq!(sub_ids(stmts), vec![2]);
    match &stmts[2] {
        Statement::Block { stmts, .. } => assert_eq!(stmts.len(), 1),
        _ => panic!("third statement is not a block"),
    }
}

#[test]
fn loop_assignment_read_after_the_loop_survives() {
    // var x; x = 9; while (c) { x = 1; } return x;
    // Both assignments can reach the final read: nothing is deleted.
    let body = block(
        100,
        vec![
            decl("x", 1),
            assign("x", 2, num(49)),
            while_loop(3, var("c", 50), block(101, vec![assign("x", 4, num(51))])),
            ret(5, var("x", 52)),
        ],
    );
    let (data, reports) = run_function(&["c"], body);
    assert!(reports.is_empty());
    assert_eq!(body_stmts(&data).len(), 4);
}

#[test]
fn loop_assignment_never_read_dies() {
    // var x; while (c) { x = 1; } return 0;  =>  x = 1 is never read on any
    // unrolling and dies when x leaves scope.
    let body = block(
        100,
        vec![
            decl("x", 1),
            while_loop(2, var("c", 50), block(101, vec![assign("x", 3, num(51))])),
            ret(4, num(52)),
        ],
    );
    let (data, reports) = run_function(&["c"], body);
    assert_eq!(reports.len(), 1);
    assert_eq!(reports[0].subs_id, 3);
    let stmts = body_stmts(&data);
    match &stmts[1] {
        Statement::While { stmt, .. } => match stmt.as_ref() {
            Statement::Block { stmts, .. } => assert!(stmts.is_empty()),
            _ => panic!("loop body is not a block"),
        },
        _ => panic!("second statement is not the loop"),
    }
}

#[test]
fn branch_condition_counts_as_a_read() {
    // var x; x = 1; if (x) { } return 0;  =>  the condition reads x.
    let body = block(
        100,
        vec![
            decl("x", 1),
            assign("x", 2, num(50)),
            if_else(3, var("x", 51), block(101, vec![]), None),
            ret(4, num(52)),
        ],
    );
    let (data, reports) = run_function(&[], body);
    assert!(reports.is_empty());
    assert_eq!(body_stmts(&data).len(), 4);
}

#[test]
fn assert_and_constraint_count_as_reads() {
    // var x; x = 1; assert(x); var y; y = 2; y === y;
    let eq = Statement::ConstraintEquality { meta: meta(6), lhe: var("y", 53), rhe: var("y", 54) };
    let body = block(
        100,
        vec![
            decl("x", 1),
            assign("x", 2, num(50)),
            Statement::Assert { meta: meta(3), arg: var("x", 51) },
            decl("y", 4),
            assign("y", 5, num(52)),
            eq,
        ],
    );
    let (data, reports) = run_function(&[], body);
    assert!(reports.is_empty());
    assert_eq!(body_stmts(&data).len(), 6);
}
