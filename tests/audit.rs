use taurus::analyzer::{AuditReport, TaurusAnalyzer};
use taurus::summaries::{DepEdge, MarkedItem, Marking, SourceLocation};

fn loc(line: usize) -> SourceLocation {
    SourceLocation { file: "src/lib.rs".to_string(), line_no: line }
}

fn call(callee: &str, line: usize) -> DepEdge {
    DepEdge { callee_def: callee.to_string(), is_lang_item: false, type_params: Vec::new(), src_loc: loc(line) }
}

fn glue_call(callee: &str, line: usize) -> DepEdge {
    DepEdge { callee_def: callee.to_string(), is_lang_item: true, type_params: Vec::new(), src_loc: loc(line) }
}

fn mark(name: &str, require: Option<&str>, audited: Option<&str>, entry: bool) -> (String, MarkedItem) {
    (
        name.to_string(),
        MarkedItem {
            marking: Marking {
                require_audit: require.map(|s| s.to_string()),
                audited: audited.map(|s| s.to_string()),
                is_entry_point: entry,
            },
            src_loc: loc(1),
        },
    )
}

fn entry(name: &str) -> (String, MarkedItem) {
    mark(name, None, None, true)
}

fn targets(p: &taurus::analyzer::DepPath) -> Vec<String> {
    p.points().iter().map(|pp| pp.0.clone()).collect()
}

fn run(markings: Vec<(String, MarkedItem)>, edges: Vec<(String, Vec<DepEdge>)>) -> AuditReport {
    let a = TaurusAnalyzer::new(markings, edges);
    assert!(a.within_index_limits());
    a.audit()
}

fn node_names(a: &TaurusAnalyzer) -> Vec<String> {
    let (g, _) = a.get_depgraph();
    let mut names: Vec<String> = g.node_indices().map(|n| g[n].clone()).collect();
    names.sort();
    names
}

#[test]
fn escorted_call_is_audited() {
    let report = run(
        vec![entry("main"), mark("escort", None, Some("crypto"), false), mark("sign", Some("crypto"), None, false)],
        vec![
            ("main<>".to_string(), vec![call("escort", 10)]),
            ("escort<>".to_string(), vec![call("sign", 20)]),
        ],
    );
    assert_eq!(report.audited.len(), 1);
    assert_eq!(report.unaudited.len(), 0);
    assert_eq!(report.audited[0].0, "escort<>");
    assert_eq!(targets(&report.audited[0].1), vec!["escort<>".to_string(), "sign<>".to_string()]);
    assert_eq!(report.audited[0].1.points()[1].1.line_no, 20);
}

#[test]
fn direct_call_is_unaudited() {
    let report = run(
        vec![entry("main"), mark("escort", None, Some("crypto"), false), mark("sign", Some("crypto"), None, false)],
        vec![("main<>".to_string(), vec![call("sign", 11)])],
    );
    assert_eq!(report.audited.len(), 0);
    assert_eq!(report.unaudited.len(), 1);
    assert_eq!(targets(&report.unaudited[0]), vec!["sign<>".to_string()]);
}

#[test]
fn glue_only_callee_is_pruned() {
    let a = TaurusAnalyzer::new(
        vec![entry("main")],
        vec![
            ("__drop_glue<>".to_string(), vec![glue_call("helper", 3)]),
            ("main<>".to_string(), vec![call("work", 4)]),
        ],
    );
    let names = node_names(&a);
    assert!(!names.contains(&"helper<>".to_string()));
    assert!(!names.contains(&"__drop_glue<>".to_string()));
    assert_eq!(names, vec!["main<>".to_string(), "work<>".to_string()]);
}

#[test]
fn callee_with_user_caller_survives_pruning() {
    let a = TaurusAnalyzer::new(
        vec![entry("main")],
        vec![
            ("__drop_glue<>".to_string(), vec![glue_call("helper", 3)]),
            ("main<>".to_string(), vec![call("helper", 4)]),
        ],
    );
    let names = node_names(&a);
    assert_eq!(names, vec!["helper<>".to_string(), "main<>".to_string()]);
}

#[test]
fn chain_below_glue_is_pruned() {
    let a = TaurusAnalyzer::new(
        vec![entry("main")],
        vec![
            ("glue<>".to_string(), vec![glue_call("a", 1)]),
            ("a<>".to_string(), vec![call("b", 2), call("b", 3)]),
            ("b<>".to_string(), vec![call("c", 4)]),
            ("main<>".to_string(), vec![call("c", 5)]),
        ],
    );
    let names = node_names(&a);
    assert_eq!(names, vec!["c<>".to_string(), "main<>".to_string()]);
}

#[test]
fn glue_fed_cycle_is_kept() {
    let a = TaurusAnalyzer::new(
        vec![],
        vec![
            ("glue<>".to_string(), vec![glue_call("a", 1)]),
            ("a<>".to_string(), vec![call("b", 2)]),
            ("b<>".to_string(), vec![call("a", 3)]),
        ],
    );
    let names = node_names(&a);
    assert_eq!(names, vec!["a<>".to_string(), "b<>".to_string()]);
}

#[test]
fn auditor_does_not_leak_to_sibling_branch() {
    let report = run(
        vec![entry("main"), mark("a", None, Some("g"), false), mark("c", Some("g"), None, false)],
        vec![
            ("main<>".to_string(), vec![call("a", 1), call("c", 2)]),
            ("a<>".to_string(), vec![call("b", 3)]),
            ("b<>".to_string(), vec![call("c", 4)]),
        ],
    );
    assert_eq!(report.audited.len(), 1);
    assert_eq!(report.audited[0].0, "a<>");
    assert_eq!(targets(&report.audited[0].1), vec!["a<>".to_string(), "b<>".to_string(), "c<>".to_string()]);
    assert_eq!(report.unaudited.len(), 1);
    assert_eq!(targets(&report.unaudited[0]), vec!["c<>".to_string()]);
}

#[test]
fn auditor_requiring_its_own_group_is_judged_by_callers() {
    let report = run(
        vec![entry("main"), mark("s", Some("g"), Some("g"), false), mark("t", Some("g"), None, false)],
        vec![("main<>".to_string(), vec![call("s", 1)]), ("s<>".to_string(), vec![call("t", 2)])],
    );
    assert_eq!(report.unaudited.len(), 1);
    assert_eq!(targets(&report.unaudited[0]), vec!["s<>".to_string()]);
    assert_eq!(report.audited.len(), 0);
}

#[test]
fn auditor_requiring_its_own_group_escorts_its_callees() {
    let report = run(
        vec![
            entry("main"),
            mark("a", None, Some("g"), false),
            mark("s", Some("g"), Some("g"), false),
            mark("t", Some("g"), None, false),
        ],
        vec![
            ("main<>".to_string(), vec![call("a", 1)]),
            ("a<>".to_string(), vec![call("s", 2)]),
            ("s<>".to_string(), vec![call("t", 3)]),
        ],
    );
    assert_eq!(report.unaudited.len(), 0);
    let mut escorts: Vec<(String, usize)> = report.audited.iter().map(|(e, p)| (e.clone(), p.points().len())).collect();
    escorts.sort();
    assert_eq!(escorts, vec![("a<>".to_string(), 2), ("s<>".to_string(), 3)]);
}

#[test]
fn nothing_below_a_violation_is_reported() {
    let report = run(
        vec![entry("main"), mark("sign", Some("g"), None, false), mark("deeper", Some("g"), None, false)],
        vec![("main<>".to_string(), vec![call("sign", 1)]), ("sign<>".to_string(), vec![call("deeper", 2)])],
    );
    assert_eq!(report.audited.len(), 0);
    assert_eq!(report.unaudited.len(), 1);
    assert_eq!(targets(&report.unaudited[0]), vec!["sign<>".to_string()]);
}

#[test]
fn audit_twice_gives_same_report() {
    let a = TaurusAnalyzer::new(
        vec![entry("main"), mark("a", None, Some("g"), false), mark("c", Some("g"), None, false)],
        vec![
            ("main<>".to_string(), vec![call("a", 1), call("c", 2)]),
            ("a<>".to_string(), vec![call("c", 3)]),
        ],
    );
    let first = a.audit();
    let second = a.audit();
    let mut n1 = first.notes();
    let mut n2 = second.notes();
    n1.sort();
    n2.sort();
    assert_eq!(n1, n2);
    let mut w1 = first.warnings();
    let mut w2 = second.warnings();
    w1.sort();
    w2.sort();
    assert_eq!(w1, w2);
    assert_eq!(n1.len(), 1);
    assert_eq!(w1.len(), 1);
}

#[test]
fn cycles_terminate() {
    let report = run(
        vec![entry("main"), mark("c", Some("g"), None, false)],
        vec![
            ("main<>".to_string(), vec![call("a", 1)]),
            ("a<>".to_string(), vec![call("b", 2)]),
            ("b<>".to_string(), vec![call("a", 3), call("c", 4)]),
        ],
    );
    assert_eq!(report.unaudited.len(), 1);
    assert_eq!(targets(&report.unaudited[0]), vec!["a<>".to_string(), "b<>".to_string(), "c<>".to_string()]);
}

#[test]
fn instantiated_callees_are_looked_up_without_type_arguments() {
    let mut e = call("sign", 7);
    e.type_params = vec!["u8".to_string()];
    let report = run(vec![entry("main"), mark("sign", Some("g"), None, false)], vec![("main<>".to_string(), vec![e])]);
    assert_eq!(report.unaudited.len(), 1);
    assert_eq!(targets(&report.unaudited[0]), vec!["sign<u8,>".to_string()]);
}

#[test]
fn no_entry_point_means_empty_report() {
    let report = run(
        vec![mark("sign", Some("g"), None, false)],
        vec![("main<>".to_string(), vec![call("sign", 1)])],
    );
    assert!(report.audited.is_empty());
    assert!(report.unaudited.is_empty());
}

#[test]
fn entry_points_come_from_markings() {
    let a = TaurusAnalyzer::new(
        vec![entry("main"), entry("other")],
        vec![("main<>".to_string(), vec![call("other", 1)]), ("x<>".to_string(), vec![])],
    );
    let (g, entries) = a.get_depgraph();
    let mut names: Vec<String> = entries.iter().map(|&n| g[petgraph::stable_graph::NodeIndex::new(n)].clone()).collect();
    names.sort();
    assert_eq!(names, vec!["main<>".to_string(), "other<>".to_string()]);
}

#[test]
fn report_text() {
    let report = run(
        vec![entry("main"), mark("escort", None, Some("crypto"), false), mark("sign", Some("crypto"), None, false)],
        vec![
            ("main<>".to_string(), vec![call("escort", 10), call("sign", 12)]),
            ("escort<>".to_string(), vec![call("sign", 20)]),
        ],
    );
    assert_eq!(
        report.notes(),
        vec!["Audited use of insecure functions:\n   escort<>\n-> escort<> at src/lib.rs:10\n-> sign<> at src/lib.rs:20\n".to_string()]
    );
    assert_eq!(
        report.warnings(),
        vec!["Unaudited use of insecure functions:\n-> sign<> at src/lib.rs:12\n".to_string()]
    );
}

#[test]
fn dot_dump_lists_surviving_nodes() {
    let a = TaurusAnalyzer::new(
        vec![entry("main")],
        vec![
            ("__drop_glue<>".to_string(), vec![glue_call("helper", 3)]),
            ("main<>".to_string(), vec![call("work", 4)]),
        ],
    );
    let dot = a.get_depgraph_dot();
    assert!(dot.contains("main<>"));
    assert!(dot.contains("work<>"));
    assert!(!dot.contains("helper"));
}
