use rootmap::analysis::impact::{analyze_impact, parse_node_ref};
use rootmap::analysis::incident::{
    analyze, assess_candidate, display_path, distinct_candidates, is_critical_service,
    is_failed_status, join_strings,
};
use rootmap::models::{ImpactNode, IncidentCandidate};

fn row(t: &str, id: &str, rel: &str, depth: i64) -> (String, String, String, i64) {
    (t.to_string(), id.to_string(), rel.to_string(), depth)
}

#[test]
fn node_refs_split_at_first_colon() {
    assert_eq!(parse_node_ref("Service:postgresql"), ("Service", "postgresql"));
    assert_eq!(parse_node_ref("Port:tcp:22"), ("Port", "tcp:22"));
    assert_eq!(parse_node_ref("nginx"), ("Service", "nginx"));
    assert_eq!(parse_node_ref(":x"), ("", "x"));
    assert_eq!(parse_node_ref("Host:"), ("Host", ""));
}

#[test]
fn node_ref_round_trip_on_values() {
    let text = format!("{}:{}", "Process", "systemd:1");
    assert_eq!(parse_node_ref(&text), ("Process", "systemd:1"));
}

#[test]
fn impact_tree_keeps_first_of_each_node() {
    let rows = vec![
        row("Service", "app", "DEPENDS_ON", 1),
        row("Port", "tcp:80", "LISTENS_ON", 2),
        row("Service", "app", "DEPENDS_ON", 1),
        row("Service", "web", "DEPENDS_ON", 1),
        row("Port", "tcp:80", "LISTENS_ON", 2),
        row("Service", "far", "DEPENDS_ON", 3),
    ];
    let tree = analyze_impact("Service:postgresql", &rows);
    assert_eq!(tree.node_type, "Service");
    assert_eq!(tree.node_id, "postgresql");
    assert_eq!(tree.relation, "ROOT");
    assert_eq!(tree.children.len(), 2);
    assert_eq!(tree.children[0].node_id, "app");
    assert_eq!(tree.children[1].node_id, "web");
    for child in &tree.children {
        assert_eq!(child.children.len(), 1);
        assert_eq!(child.children[0].node_id, "tcp:80");
        assert_eq!(child.children[0].relation, "LISTENS_ON");
    }
    assert_eq!(tree.count_all(), 5);
    assert_eq!(tree.flatten().len(), tree.count_all());
}

#[test]
fn impact_tree_without_rows_is_a_root() {
    let tree = analyze_impact("nginx", &[]);
    assert_eq!(tree.node_type, "Service");
    assert!(tree.children.is_empty());
    assert_eq!(tree.count_all(), 1);
}

#[test]
fn flatten_lists_nodes_in_pre_order_with_depths() {
    let mut root = ImpactNode::leaf("db".into(), "Service".into(), "ROOT".into());
    let mut a = ImpactNode::leaf("a".into(), "Service".into(), "DEPENDS_ON".into());
    a.children.push(ImpactNode::leaf("x".into(), "Port".into(), "LISTENS_ON".into()));
    root.children.push(a);
    root.children.push(ImpactNode::leaf("b".into(), "Service".into(), "DEPENDS_ON".into()));
    let flat = root.flatten();
    let expected = vec![
        ("Service:db".to_string(), 0usize),
        ("Service:a".to_string(), 1),
        ("Port:x".to_string(), 2),
        ("Service:b".to_string(), 1),
    ];
    assert_eq!(flat, expected);
    assert_eq!(root.count_all(), 4);
}

fn cand(node: &str, score: u32) -> IncidentCandidate {
    IncidentCandidate { node: node.to_string(), score, reason: String::new(), path: vec![] }
}

#[test]
fn analysis_ranks_stably_and_keeps_five() {
    let cands = vec![
        cand("a", 40),
        cand("b", 77),
        cand("c", 40),
        cand("d", 90),
        cand("e", 10),
        cand("f", 77),
        cand("g", 55),
    ];
    let r = analyze("site down", "Service:nginx", cands);
    assert_eq!(r.symptom, "site down");
    assert_eq!(r.affected, "Service:nginx");
    let order: Vec<&str> = r.candidates.iter().map(|c| c.node.as_str()).collect();
    assert_eq!(order, vec!["d", "b", "f", "g", "a"]);
}

#[test]
fn analysis_of_no_candidates() {
    let r = analyze("s", "a", vec![]);
    assert!(r.candidates.is_empty());
}

#[test]
fn assessment_of_a_failed_critical_neighbour() {
    let r = row("Service", "PostgreSQL", "failed (Result: exit-code)", 1);
    let a = assess_candidate("Service:nginx", &r, 3);
    assert_eq!(a.node, "Service:PostgreSQL");
    assert_eq!(a.terms, vec![30, 20, 15, 10, 10]);
    assert_eq!(
        a.reason,
        "upstream node of Service:nginx; direct dependency (depth=1); status is 'failed (Result: exit-code)'; 3 downstream dependents; critical infrastructure service"
    );
}

#[test]
fn assessment_of_a_distant_healthy_node() {
    let r = row("Process", "cron:77", "active", 4);
    let a = assess_candidate("Service:nginx", &r, 2);
    assert_eq!(a.terms, vec![30, 3]);
    assert_eq!(a.reason, "upstream node of Service:nginx");
    let r = row("Process", "cron:77", "Dead", 2);
    let a = assess_candidate("X:y", &r, 0);
    assert_eq!(a.terms, vec![30, 12, 15]);
    let r = row("Process", "cron:77", "exited", 3);
    let a = assess_candidate("X:y", &r, -1);
    assert_eq!(a.terms, vec![30, 8, 15]);
    let r = row("Process", "cron", "up", -2);
    let a = assess_candidate("X:y", &r, 0);
    assert_eq!(a.reason, "upstream node of X:y; direct dependency (depth=-2)");
}

#[test]
fn failure_and_critical_words() {
    assert!(is_failed_status("UNHEALTHY"));
    assert!(!is_failed_status("running"));
    assert!(is_critical_service("my-Redis-cache"));
    assert!(!is_critical_service("cron"));
}

#[test]
fn joined_reasons() {
    assert_eq!(join_strings(&vec![], "; "), "");
    assert_eq!(join_strings(&vec!["a".to_string()], "; "), "a");
    assert_eq!(join_strings(&vec!["a".to_string(), "b".to_string()], "; "), "a; b");
}

#[test]
fn candidates_are_assessed_once_each() {
    let rows = vec![
        row("Service", "db", "active", 1),
        row("Service", "db", "active", 2),
        row("Host", "h", "unknown", 2),
    ];
    assert_eq!(distinct_candidates(&rows), vec![0, 2]);
}

#[test]
fn display_path_reverses_or_falls_back() {
    let p = display_path("Service", "nginx", "Service", "db", vec!["Service:db".into(), "Service:app".into(), "Service:nginx".into()]);
    assert_eq!(p, vec!["Service:nginx".to_string(), "Service:app".to_string(), "Service:db".to_string()]);
    let p = display_path("Service", "nginx", "Service", "db", vec![]);
    assert_eq!(p, vec!["Service:nginx".to_string(), "Service:db".to_string()]);
}
