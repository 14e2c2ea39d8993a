use rootmap::graph::cypher::{count_downstream_query, dependency_merge_query, impact_downstream_query};
use rootmap::graph::{
    plan_stats, sync_plan, GraphParam, WriteKind, CONTAINER_MERGE, HOST_MERGE, PORT_MERGE, PROCESS_LINK,
    PROCESS_MERGE, SERVICE_MERGE,
};
use rootmap::models::{default_origin, ImpactNode, IncidentCandidate, SyncData, SyncDependency, SystemdService};
use rootmap::output::ascii::{build_prefix, build_prefix_with_parent, path_lines, render_tree};
use rootmap::output::table::{
    candidate_lines, component_role, container_status, impact_rows, port_status, score_band, score_text,
    service_status, ScoreBand,
};
use rootmap::storage::{incident_title, service_node_id, sqlite_url};
use rootmap::config::Config;
use rootmap::text::{lines_of, remove_all_str, trim_str, words_of};

fn sample_tree() -> ImpactNode {
    let mut root = ImpactNode::leaf("db".into(), "Service".into(), "ROOT".into());
    let mut a = ImpactNode::leaf("a".into(), "Service".into(), "DEPENDS_ON".into());
    a.children.push(ImpactNode::leaf("x".into(), "Port".into(), "LISTENS_ON".into()));
    let mut y = ImpactNode::leaf("y".into(), "Port".into(), "LISTENS_ON".into());
    y.children.push(ImpactNode::leaf("z".into(), "Host".into(), "RUNS".into()));
    a.children.push(y);
    root.children.push(a);
    root.children.push(ImpactNode::leaf("b".into(), "Service".into(), "DEPENDS_ON".into()));
    root
}

#[test]
fn tree_drawing() {
    let lines = render_tree(&sample_tree(), 0);
    let expected = vec![
        "Service:db",
        "├── Service:a",
        "│   ├── Port:x",
        "│   └── Port:y",
        "│       └── Host:z",
        "└── Service:b",
    ];
    assert_eq!(lines, expected);
    assert_eq!(lines.len(), sample_tree().count_all());
}

#[test]
fn tree_drawing_below_the_top() {
    let lines = render_tree(&sample_tree(), 1);
    assert_eq!(lines[0], "    ├── Service:a");
    assert_eq!(lines[1], "    │   ├── Port:x");
    assert_eq!(lines.len(), 5);
}

#[test]
fn prefixes() {
    assert_eq!(build_prefix(0, true), "");
    assert_eq!(build_prefix(2, false), "        ");
    assert_eq!(build_prefix_with_parent(1, "│   "), "    │   ");
}

#[test]
fn path_drawing() {
    let lines = path_lines(&["Service:nginx".to_string(), "Service:db".to_string()]);
    assert_eq!(lines, vec!["  Service:nginx".to_string(), "  → Service:db".to_string()]);
    assert!(path_lines(&[]).is_empty());
}

#[test]
fn impact_table_rows() {
    let rows = impact_rows(&sample_tree());
    assert_eq!(rows.len(), 6);
    assert_eq!(rows[0], ("Service:db".to_string(), "SOURCE", 0));
    assert_eq!(rows[1], ("  Service:a".to_string(), "DIRECT", 1));
    assert_eq!(rows[2], ("    Port:x".to_string(), "INDIRECT", 2));
    assert_eq!(rows[4], ("      Host:z".to_string(), "INDIRECT", 3));
}

fn svc(active: &str) -> SystemdService {
    SystemdService {
        name: "x.service".into(),
        load_state: "loaded".into(),
        active_state: active.into(),
        sub_state: "running".into(),
        description: String::new(),
    }
}

#[test]
fn summary_statuses() {
    assert_eq!(service_status(&[]), "⚠ systemctl not available");
    assert_eq!(service_status(&[svc("active"), svc("failed"), svc("active"), svc("inactive")]), "✓ 2 active, 1 failed");
    assert_eq!(container_status(0), "⚠ Docker not available or no containers");
    assert_eq!(container_status(3), "✓ collected");
    assert_eq!(port_status(0), "⚠ ss not available or no ports");
    assert_eq!(port_status(1), "✓ collected");
}

#[test]
fn component_roles() {
    assert_eq!(component_role("postmaster"), "PostgreSQL Database");
    assert_eq!(component_role("httpd"), "Apache Web Server");
    assert_eq!(component_role("nginx"), "Web Server / Reverse Proxy");
    assert_eq!(component_role("weird"), "Service");
}

#[test]
fn score_display() {
    assert_eq!(score_text(77), "0.77");
    assert_eq!(score_text(5), "0.05");
    assert_eq!(score_text(120), "1.20");
    assert_eq!(score_band(70), ScoreBand::High);
    assert_eq!(score_band(69), ScoreBand::Medium);
    assert_eq!(score_band(40), ScoreBand::Medium);
    assert_eq!(score_band(39), ScoreBand::Low);
}

#[test]
fn query_texts() {
    assert_eq!(
        count_downstream_query("Service"),
        "MATCH (n:Service {id: $id})-[*1..10]->(target)\n             RETURN count(DISTINCT target) AS cnt"
    );
    assert!(impact_downstream_query("Port").starts_with("MATCH path = (source:Port {id: $id})"));
    assert!(dependency_merge_query("Service", "Port", "LISTENS_ON").contains("MERGE (a)-[r:LISTENS_ON]->(b)"));
}

fn s(x: &str) -> String {
    x.to_string()
}

fn sample_sync_data() -> SyncData {
    SyncData {
        hosts: vec![(s("h-1"), s("web01"), s("Ubuntu"), s("6.1"))],
        processes: vec![(s("web01"), s("nginx"), 42, s("Running"))],
        services: vec![(s("web01"), s("nginx"), s("active"), s("running"))],
        containers: vec![(s("web01"), s("db"), s("postgres:16"), s("Up 2 hours"))],
        ports: vec![
            (s("web01"), s("tcp"), 80, s("nginx")),
            (s("web01"), s("tcp"), 5432, s("docker-proxy")),
        ],
        dependencies: vec![SyncDependency {
            source_type: s("Service"),
            source_id: s("nginx"),
            target_type: s("Port"),
            target_id: s("tcp:80"),
            relation_type: s("LISTENS_ON"),
            confidence_bits: 0.9f64.to_bits(),
            origin: s("auto_scan"),
        }],
    }
}

#[test]
fn sync_counts() {
    let data = sample_sync_data();
    let plan = sync_plan(&data);
    assert_eq!(plan.len(), 10);
    let stats = plan_stats(&plan);
    assert_eq!(stats.nodes, 6);
    assert_eq!(stats.relations, 4);
}

#[test]
fn sync_plan_statements() {
    let data = sample_sync_data();
    let plan = sync_plan(&data);
    assert_eq!(plan[0].statement, HOST_MERGE);
    assert_eq!(plan[0].kind, WriteKind::Node);
    assert_eq!(plan[1].statement, PROCESS_MERGE);
    assert_eq!(plan[1].params[0].0, "id");
    assert!(matches!(&plan[1].params[0].1, GraphParam::Text(t) if t == "nginx:42"));
    assert!(matches!(&plan[1].params[2].1, GraphParam::Int(42)));
    assert_eq!(plan[2].statement, PROCESS_LINK);
    assert_eq!(plan[2].kind, WriteKind::Relation);
    assert_eq!(plan[3].statement, SERVICE_MERGE);
    assert_eq!(plan[5].statement, CONTAINER_MERGE);
    assert_eq!(plan[7].statement, PORT_MERGE);
    assert!(matches!(&plan[7].params[0].1, GraphParam::Text(t) if t == "tcp:80"));
    assert!(matches!(&plan[8].params[2].1, GraphParam::Int(5432)));
    assert!(plan[9].statement.starts_with("MERGE (a:Service {id: $source_id})"));
    assert!(plan[9].statement.contains("MERGE (a)-[r:LISTENS_ON]->(b)"));
    assert!(matches!(&plan[9].params[2].1, GraphParam::FloatBits(b) if f64::from_bits(*b) == 0.9));
}

#[test]
fn sync_empty() {
    let data = SyncData {
        hosts: vec![],
        processes: vec![],
        services: vec![],
        containers: vec![],
        ports: vec![],
        dependencies: vec![],
    };
    let plan = sync_plan(&data);
    assert!(plan.is_empty());
    let stats = plan_stats(&plan);
    assert_eq!(stats.nodes, 0);
    assert_eq!(stats.relations, 0);
}

#[test]
fn storage_values() {
    assert_eq!(sqlite_url("rootmap.db"), "sqlite://rootmap.db");
    assert_eq!(sqlite_url("sqlite://x.db"), "sqlite://x.db");
    assert_eq!(sqlite_url("sqlite:memory"), "sqlite:memory");
    assert_eq!(incident_title("site down", "Service:nginx"), "Incident: site down on Service:nginx");
    assert_eq!(service_node_id("nginx.service"), "nginx");
    assert_eq!(service_node_id("a.service.service"), "a");
    assert_eq!(default_origin(), "manual");
}

#[test]
fn config_defaults() {
    let c = Config::from_values(None, Some("bolt:7687".into()), None, None);
    assert_eq!(c.db_url, "sqlite://rootmap.db");
    assert_eq!(c.neo4j_url, "bolt:7687");
    assert_eq!(c.neo4j_user, "neo4j");
    assert_eq!(c.neo4j_pass, "rootmap123");
}

#[test]
fn text_primitives() {
    assert_eq!(lines_of("a\r\nb\n\nc\r"), vec!["a", "b", "", "c\r"]);
    assert!(lines_of("").is_empty());
    assert_eq!(lines_of("x\n"), vec!["x"]);
    assert_eq!(words_of("  a\u{3000}b  c "), vec!["a", "b", "c"]);
    assert_eq!(trim_str("\u{a0} x y \t"), "x y");
    assert_eq!(remove_all_str("..service.service", ".service"), ".");
}

#[test]
fn candidate_lines_text() {
    let cands = vec![
        IncidentCandidate {
            node: "Service:postgresql".into(),
            score: 77,
            reason: "upstream node of Service:api; critical infrastructure service".into(),
            path: vec!["Service:api".into(), "Service:postgresql".into()],
        },
        IncidentCandidate { node: "Host:web01".into(), score: 5, reason: "r".into(), path: vec![] },
    ];
    let lines = candidate_lines(&cands);
    assert_eq!(
        lines,
        vec![
            "  1. Service:postgresql — score=0.77",
            "     Reason: upstream node of Service:api; critical infrastructure service",
            "     Path:   Service:api → Service:postgresql",
            "",
            "  2. Host:web01 — score=0.05",
            "     Reason: r",
            "     Path:   ",
            "",
        ]
    );
    assert!(candidate_lines(&[]).is_empty());
}
