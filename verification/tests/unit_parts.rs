//! Tests of the pass's parts: the expression scanner, the analysis state,
//! the warning records, and the report codes.

use substitution_analysis::ast::{Access, Expression, Meta, Statement, TypeReduction, VariableType};
use substitution_analysis::analyzer::analyse_statement;
use substitution_analysis::error_code::ReportCode;
use substitution_analysis::info::SubsInfo;
use substitution_analysis::scanner::{analyse_expression, expression_contains_signals};
use substitution_analysis::state::Analysis;

fn meta(id: usize) -> Meta {
    Meta { elem_id: id, start: 10 * id, end: 10 * id + 5, file_id: Some(7), reduces_to: TypeReduction::Variable }
}

fn meta_red(id: usize, red: TypeReduction) -> Meta {
    Meta { elem_id: id, start: 10 * id, end: 10 * id + 5, file_id: Some(7), reduces_to: red }
}

fn var(name: &str, id: usize) -> Expression {
    Expression::Variable { meta: meta(id), name: name.to_string(), access: vec![] }
}

fn component(name: &str, id: usize) -> Expression {
    Expression::Variable {
        meta: meta_red(id, TypeReduction::Component),
        name: name.to_string(),
        access: vec![],
    }
}

fn signal(name: &str, id: usize) -> Expression {
    Expression::Variable {
        meta: meta_red(id, TypeReduction::Signal),
        name: name.to_string(),
        access: vec![],
    }
}

fn info(id: usize, var: u64, name: &str) -> SubsInfo {
    SubsInfo {
        id,
        var,
        var_name: name.to_string(),
        start: 0,
        end: 1,
        file_id: Some(0),
        contains_signal: false,
        is_artificial: false,
        is_constant: false,
    }
}

#[test]
fn scanner_collects_variable_reads_only() {
    // (a + s) with a variable-typed a and signal-typed s reads only a.
    let e = Expression::InfixOp {
        meta: meta(1),
        lhe: Box::new(var("a", 2)),
        rhe: Box::new(signal("s", 3)),
    };
    let mut reads: Vec<String> = Vec::new();
    analyse_expression(&e, &mut reads);
    assert_eq!(reads, vec!["a".to_string()]);
}

#[test]
fn scanner_walks_access_indices() {
    // m[i].f reads i (the array index) besides nothing else: m itself is a
    // component.
    let e = Expression::Variable {
        meta: meta_red(1, TypeReduction::Component),
        name: "m".to_string(),
        access: vec![
            Access::ArrayAccess(var("i", 2)),
            Access::ComponentAccess("f".to_string()),
        ],
    };
    let mut reads: Vec<String> = Vec::new();
    analyse_expression(&e, &mut reads);
    assert_eq!(reads, vec!["i".to_string()]);
}

#[test]
fn scanner_walks_call_arguments() {
    let e = Expression::Call {
        meta: meta(1),
        id: "g".to_string(),
        args: vec![var("a", 2), var("b", 3)],
    };
    let mut reads: Vec<String> = Vec::new();
    analyse_expression(&e, &mut reads);
    assert_eq!(reads, vec!["a".to_string(), "b".to_string()]);
}

#[test]
fn signal_walk_sees_nested_signals() {
    let e = Expression::InfixOp {
        meta: meta(1),
        lhe: Box::new(Expression::Number(meta(2))),
        rhe: Box::new(Expression::Tuple { meta: meta(3), values: vec![signal("s", 4)] }),
    };
    assert!(expression_contains_signals(&e));
    let plain = Expression::InfixOp {
        meta: meta(5),
        lhe: Box::new(var("a", 6)),
        rhe: Box::new(component("c", 7)),
    };
    assert!(!expression_contains_signals(&plain));
}

#[test]
fn signal_walk_sees_signals_in_indices() {
    // x[s] with a signal index holds a signal.
    let e = Expression::Variable {
        meta: meta(1),
        name: "x".to_string(),
        access: vec![Access::ArrayAccess(signal("s", 2))],
    };
    assert!(expression_contains_signals(&e));
}

#[test]
fn reader_moves_pending_records_to_useful() {
    let mut st = Analysis::new();
    st.add_variable_block();
    st.add_variable(&"x".to_string());
    st.record_assignment(info(1, 0, "x"));
    assert_eq!(st.unknown.len(), 1);
    st.analyse_reader(&vec!["x".to_string()]);
    assert!(st.unknown.is_empty());
    assert_eq!(st.useful.len(), 1);
    assert!(st.useless.is_empty());
}

#[test]
fn reader_ignores_unbound_names() {
    let mut st = Analysis::new();
    st.add_variable_block();
    st.analyse_reader(&vec!["nobody".to_string()]);
    assert!(st.unknown.is_empty());
    assert!(st.useful.is_empty());
    assert!(st.useless.is_empty());
}

#[test]
fn overwrite_retires_the_pending_record() {
    let mut st = Analysis::new();
    st.add_variable_block();
    st.add_variable(&"x".to_string());
    st.record_assignment(info(1, 0, "x"));
    st.record_assignment(info(2, 0, "x"));
    assert_eq!(st.unknown.len(), 1);
    assert_eq!(st.unknown[0].id, 2);
    assert_eq!(st.useless.len(), 1);
    assert_eq!(st.useless[0].id, 1);
}

#[test]
fn duplicate_element_ids_are_recorded_once() {
    let mut st = Analysis::new();
    st.add_variable_block();
    st.add_variable(&"x".to_string());
    st.record_assignment(info(1, 0, "x"));
    st.analyse_reader(&vec!["x".to_string()]);
    // The same element id seen again — as a loop revisit would — is not
    // recorded a second time.
    st.record_assignment(info(1, 0, "x"));
    assert!(st.unknown.is_empty());
    assert_eq!(st.useful.len(), 1);
}

#[test]
fn scope_exit_retires_only_the_inner_frame() {
    let mut st = Analysis::new();
    st.add_variable_block();
    st.add_variable(&"x".to_string());
    st.add_variable_block();
    st.add_variable(&"y".to_string());
    st.record_assignment(info(1, 0, "x"));
    st.record_assignment(info(2, 1, "y"));
    st.remove_variable_block();
    assert_eq!(st.useless.len(), 1);
    assert_eq!(st.useless[0].id, 2);
    assert_eq!(st.unknown.len(), 1);
    assert_eq!(st.unknown[0].id, 1);
}

#[test]
fn lookup_prefers_the_innermost_binding() {
    let mut st = Analysis::new();
    st.add_variable_block();
    st.add_variable(&"x".to_string());
    st.add_variable_block();
    st.add_variable(&"x".to_string());
    assert_eq!(st.get_variable(&"x".to_string()), Some(1));
    st.remove_variable_block();
    assert_eq!(st.get_variable(&"x".to_string()), Some(0));
    assert_eq!(st.get_variable(&"y".to_string()), None);
}

#[test]
fn merge_keeps_a_read_on_either_path() {
    let mut st = Analysis::new();
    st.add_variable_block();
    st.add_variable(&"x".to_string());
    st.record_assignment(info(1, 0, "x"));
    let snapshot = st.snapshot_sets();
    // On one path the record is read; on the cloned path it stays pending.
    st.analyse_reader(&vec!["x".to_string()]);
    st.merge_branches(snapshot);
    assert_eq!(st.useful.len(), 1);
    assert!(st.unknown.is_empty());
    assert!(st.useless.is_empty());
}

#[test]
fn merge_protects_a_pending_record_from_useless() {
    let mut st = Analysis::new();
    st.add_variable_block();
    st.add_variable(&"x".to_string());
    st.record_assignment(info(1, 0, "x"));
    let snapshot = st.snapshot_sets();
    // On one path the record is overwritten; on the other it stays
    // pending, so the join may not call it useless.
    st.record_assignment(info(2, 0, "x"));
    st.merge_branches(snapshot);
    assert!(st.useless.is_empty());
    let mut pending: Vec<usize> = st.unknown.iter().map(|i| i.id).collect();
    pending.sort();
    assert_eq!(pending, vec![1, 2]);
}

#[test]
fn classification_sets_stay_disjoint_and_settled() {
    // Drive a whole body through the analyzer and check the invariants on
    // the resulting state: nothing unknown, no id in two sets, and only
    // full variable substitutions classified.
    let body = Statement::Block {
        meta: meta(100),
        stmts: vec![
            Statement::Declaration {
                meta: meta(1),
                xtype: VariableType::Var,
                name: "x".to_string(),
                is_constant: false,
            },
            Statement::Substitution {
                meta: meta(2),
                var: "x".to_string(),
                access: vec![],
                rhe: Expression::Number(meta(50)),
                is_artificial: false,
            },
            Statement::IfThenElse {
                meta: meta(3),
                cond: var("c", 51),
                if_case: Box::new(Statement::Block {
                    meta: meta(101),
                    stmts: vec![Statement::Substitution {
                        meta: meta(4),
                        var: "x".to_string(),
                        access: vec![],
                        rhe: Expression::Number(meta(52)),
                        is_artificial: false,
                    }],
                }),
                else_case: None,
            },
            Statement::Return { meta: meta(5), value: var("x", 53) },
        ],
    };
    let mut st = Analysis::new();
    st.add_variable_block();
    st.add_variable(&"c".to_string());
    analyse_statement(&mut st, &body);
    st.remove_variable_block();
    assert!(st.unknown.is_empty());
    let useful: Vec<usize> = st.useful.iter().map(|i| i.id).collect();
    let useless: Vec<usize> = st.useless.iter().map(|i| i.id).collect();
    for id in &useful {
        assert!(!useless.contains(id));
    }
    for id in useful.iter().chain(useless.iter()) {
        assert!(*id == 2 || *id == 4);
    }
    // x = 1 stayed pending on the empty else path and was read at the end.
    assert!(useful.contains(&2));
    assert!(useful.contains(&4));
}

#[test]
fn report_codes_render_to_their_short_strings() {
    assert_eq!(ReportCode::UselessSubstitution.as_code_str(), "????");
    assert_eq!(ReportCode::NoMainFoundInProject.as_code_str(), "P1001");
    assert_eq!(ReportCode::UnconstrainedSignal.as_code_str(), "CA01");
    assert_eq!(ReportCode::WrongNumberOfArguments(2, 3).as_code_str(), "T20465");
}

#[test]
fn report_carries_location_and_title() {
    let body = Statement::Block {
        meta: meta(100),
        stmts: vec![
            Statement::Declaration {
                meta: meta(1),
                xtype: VariableType::Var,
                name: "x".to_string(),
                is_constant: false,
            },
            Statement::Substitution {
                meta: meta(2),
                var: "x".to_string(),
                access: vec![],
                rhe: Expression::Number(meta(50)),
                is_artificial: false,
            },
        ],
    };
    let mut data = substitution_analysis::pass::FunctionData {
        name: "f".to_string(),
        params: vec![],
        body,
    };
    let reports = substitution_analysis::function_substitution_analysis(&mut data);
    assert_eq!(reports.len(), 1);
    assert_eq!(reports[0].start, 20);
    assert_eq!(reports[0].end, 25);
    assert_eq!(reports[0].file_id, Some(7));
    assert_eq!(reports[0].title(), "Useless substitution");
    assert!(matches!(reports[0].code, ReportCode::UselessSubstitution));
}

#[test]
fn scanner_walks_switch_and_anonymous_components() {
    let e = Expression::InlineSwitchOp {
        meta: meta(1),
        cond: Box::new(var("c", 2)),
        if_true: Box::new(Expression::AnonymousComp {
            meta: meta(3),
            id: "A".to_string(),
            params: vec![var("p", 4)],
            signals: vec![var("q", 5)],
        }),
        if_false: Box::new(Expression::UniformArray {
            meta: meta(6),
            value: Box::new(var("v", 7)),
            dimension: Box::new(var("d", 8)),
        }),
    };
    let mut reads: Vec<String> = Vec::new();
    analyse_expression(&e, &mut reads);
    assert_eq!(
        reads,
        vec!["c".to_string(), "p".to_string(), "q".to_string(), "v".to_string(), "d".to_string()]
    );
}

#[test]
fn variable_ids_follow_declaration_order() {
    let mut st = Analysis::new();
    st.add_variable_block();
    st.add_variable(&"a".to_string());
    st.add_variable(&"b".to_string());
    assert_eq!(st.get_variable(&"a".to_string()), Some(0));
    assert_eq!(st.get_variable(&"b".to_string()), Some(1));
    assert_eq!(st.next_var, 2);
}
