//! The contents of the summary tables: counts, status texts, labels and rows.

use vstd::prelude::*;
use crate::analysis::incident::{join, join_strings};
use crate::models::{ImpactNode, IncidentCandidate, SystemdService, entries, flat_tree, tree_size};
use crate::text::{decimal, push_decimal, views};

verus! {

/// The number of services whose active state is `state`.
pub open spec fn count_in_state(services: Seq<SystemdService>, state: Seq<char>) -> nat
    decreases services.len(),
{
    if services.len() == 0 {
        0
    } else {
        count_in_state(services.drop_last(), state) + if services.last().active_state@ == state {
            1nat
        } else {
            0nat
        }
    }
}

/// The number of services whose active state is `state`.
pub fn services_in_state(services: &[SystemdService], state: &str) -> (n: usize)
    ensures
        n == count_in_state(services@, state@),
{
    let want = String::from_str(state);
    let mut n: usize = 0;
    let mut i: usize = 0;
    assert(services@.take(0) =~= Seq::<SystemdService>::empty());
    while i < services.len()
        invariant
            i <= services@.len(),
            want@ == state@,
            n == count_in_state(services@.take(i as int), state@),
            n <= i,
        decreases services@.len() - i,
    {
        assert(services@.take(i + 1).drop_last() =~= services@.take(i as int));
        if services[i].active_state == want {
            n = n + 1;
        }
        i = i + 1;
    }
    assert(services@.take(i as int) =~= services@);
    n
}

/// The status shown for the services of a scan.
pub open spec fn service_status_text(services: Seq<SystemdService>) -> Seq<char> {
    if services.len() == 0 {
        "⚠ systemctl not available"@
    } else {
        "✓ "@ + decimal(count_in_state(services, "active"@)) + " active, "@ + decimal(
            count_in_state(services, "failed"@),
        ) + " failed"@
    }
}

/// The status shown for the services of a scan: how many are active and how
/// many failed, or a warning when none were collected.
pub fn service_status(services: &[SystemdService]) -> (r: String)
    ensures
        r@ == service_status_text(services@),
{
    if services.len() == 0 {
        return String::from_str("⚠ systemctl not available");
    }
    let active = services_in_state(services, "active");
    let failed = services_in_state(services, "failed");
    let mut r = String::from_str("✓ ");
    push_decimal(&mut r, active as u64);
    r.append(" active, ");
    push_decimal(&mut r, failed as u64);
    r.append(" failed");
    r
}

/// The status shown for the containers of a scan.
pub fn container_status(count: usize) -> (r: &'static str)
    ensures
        r@ == if count == 0 {
            "⚠ Docker not available or no containers"@
        } else {
            "✓ collected"@
        },
{
    if count == 0 {
        "⚠ Docker not available or no containers"
    } else {
        "✓ collected"
    }
}

/// The status shown for the listening ports of a scan.
pub fn port_status(count: usize) -> (r: &'static str)
    ensures
        r@ == if count == 0 {
            "⚠ ss not available or no ports"@
        } else {
            "✓ collected"@
        },
{
    if count == 0 {
        "⚠ ss not available or no ports"
    } else {
        "✓ collected"
    }
}

/// What a detected component is, by the name it was detected under.
pub open spec fn role_of(name: Seq<char>) -> Seq<char> {
    if name == "nginx"@ {
        "Web Server / Reverse Proxy"@
    } else if name == "postgres"@ || name == "postmaster"@ {
        "PostgreSQL Database"@
    } else if name == "docker"@ || name == "containerd"@ {
        "Container Runtime"@
    } else if name == "sshd"@ {
        "SSH Server"@
    } else if name == "mysqld"@ {
        "MySQL Database"@
    } else if name == "redis-server"@ {
        "Redis Cache"@
    } else if name == "mongod"@ {
        "MongoDB Database"@
    } else if name == "node"@ {
        "Node.js Application"@
    } else if name == "apache2"@ || name == "httpd"@ {
        "Apache Web Server"@
    } else if name == "haproxy"@ {
        "HAProxy Load Balancer"@
    } else {
        "Service"@
    }
}

fn is(name: &str, lit: &str) -> (b: bool)
    ensures
        b == (name@ == lit@),
{
    String::from_str(name) == String::from_str(lit)
}

/// What a detected component is, by the name it was detected under.
pub fn component_role(name: &str) -> (r: &'static str)
    ensures
        r@ == role_of(name@),
{
    if is(name, "nginx") {
        "Web Server / Reverse Proxy"
    } else if is(name, "postgres") || is(name, "postmaster") {
        "PostgreSQL Database"
    } else if is(name, "docker") || is(name, "containerd") {
        "Container Runtime"
    } else if is(name, "sshd") {
        "SSH Server"
    } else if is(name, "mysqld") {
        "MySQL Database"
    } else if is(name, "redis-server") {
        "Redis Cache"
    } else if is(name, "mongod") {
        "MongoDB Database"
    } else if is(name, "node") {
        "Node.js Application"
    } else if is(name, "apache2") || is(name, "httpd") {
        "Apache Web Server"
    } else if is(name, "haproxy") {
        "HAProxy Load Balancer"
    } else {
        "Service"
    }
}

/// `depth` steps of two spaces.
pub open spec fn indent2(depth: nat) -> Seq<char>
    decreases depth,
{
    if depth == 0 {
        Seq::empty()
    } else {
        indent2((depth - 1) as nat) + "  "@
    }
}

/// The row of the impact table for one listing entry: the node (indented by
/// its depth below the source), its kind and its depth.
pub open spec fn impact_row(e: (Seq<char>, int)) -> (Seq<char>, Seq<char>, int) {
    if e.1 == 0 {
        (e.0, "SOURCE"@, 0)
    } else {
        (indent2(e.1 as nat) + e.0, if e.1 == 1 {
            "DIRECT"@
        } else {
            "INDIRECT"@
        }, e.1)
    }
}

/// The rows as text and depth.
pub open spec fn row_views(v: Seq<(String, &'static str, usize)>) -> Seq<(Seq<char>, Seq<char>, int)> {
    v.map_values(|r: (String, &'static str, usize)| (r.0@, r.1@, r.2 as int))
}

/// The rows of the impact table: one per node of the tree, in pre-order.
pub fn impact_rows(tree: &ImpactNode) -> (rows: Vec<(String, &'static str, usize)>)
    requires
        tree_size(*tree) <= usize::MAX,
    ensures
        row_views(rows@) == flat_tree(*tree, 0).map_values(|e: (Seq<char>, int)| impact_row(e)),
{
    let flat = tree.flatten();
    let mut rows: Vec<(String, &'static str, usize)> = Vec::new();
    let mut i: usize = 0;
    while i < flat.len()
        invariant
            i <= flat@.len(),
            entries(flat@) == flat_tree(*tree, 0),
            row_views(rows@) =~= entries(flat@).take(i as int).map_values(
                |e: (Seq<char>, int)| impact_row(e),
            ),
        decreases flat@.len() - i,
    {
        let depth = flat[i].1;
        let row = if depth == 0 {
            (flat[i].0.clone(), "SOURCE", 0)
        } else {
            let mut text = String::new();
            let mut k: usize = 0;
            while k < depth
                invariant
                    k <= depth,
                    text@ == indent2(k as nat),
                decreases depth - k,
            {
                text.append("  ");
                k = k + 1;
            }
            text.append(flat[i].0.as_str());
            (text, if depth == 1 {
                "DIRECT"
            } else {
                "INDIRECT"
            }, depth)
        };
        let ghost before = row_views(rows@);
        rows.push(row);
        assert(entries(flat@)[i as int] == (flat@[i as int].0@, flat@[i as int].1 as int));
        assert(row_views(rows@) =~= before.push(impact_row(entries(flat@)[i as int])));
        assert(entries(flat@).take(i + 1) =~= entries(flat@).take(i as int).push(entries(flat@)[i as int]));
        i = i + 1;
    }
    assert(entries(flat@).take(i as int) =~= entries(flat@));
    rows
}

/// How a score is highlighted.
#[derive(Debug, Clone, Copy, PartialEq, Eq)]
pub enum ScoreBand {
    High,
    Medium,
    Low,
}

/// The band of a score in hundredths: high from 0.70, medium from 0.40.
pub fn score_band(score: u32) -> (b: ScoreBand)
    ensures
        b == if score >= 70 {
            ScoreBand::High
        } else if score >= 40 {
            ScoreBand::Medium
        } else {
            ScoreBand::Low
        },
{
    if score >= 70 {
        ScoreBand::High
    } else if score >= 40 {
        ScoreBand::Medium
    } else {
        ScoreBand::Low
    }
}

/// A score in hundredths written with two decimals.
pub open spec fn score_text_of(score: u32) -> Seq<char> {
    decimal((score / 100) as nat) + "."@ + decimal(((score % 100) / 10) as nat) + decimal(
        (score % 10) as nat,
    )
}

/// A score in hundredths written with two decimals (77 gives `0.77`).
pub fn score_text(score: u32) -> (r: String)
    ensures
        r@ == score_text_of(score),
{
    let mut r = String::new();
    push_decimal(&mut r, (score / 100) as u64);
    r.append(".");
    push_decimal(&mut r, ((score % 100) / 10) as u64);
    push_decimal(&mut r, (score % 10) as u64);
    r
}

/// The lines that present the candidate `c` ranked at `rank`: its rank,
/// node and score, its reason, its path, and an empty line.
pub open spec fn candidate_block(rank: nat, c: IncidentCandidate) -> Seq<Seq<char>> {
    seq![
        "  "@ + decimal(rank) + ". "@ + c.node@ + " — score="@ + score_text_of(c.score),
        "     Reason: "@ + c.reason@,
        "     Path:   "@ + join(views(c.path@), " → "@),
        Seq::empty(),
    ]
}

/// The lines that present the candidates, ranked from 1 in their order.
pub open spec fn candidate_text(cands: Seq<IncidentCandidate>) -> Seq<Seq<char>>
    decreases cands.len(),
{
    if cands.len() == 0 {
        Seq::empty()
    } else {
        candidate_text(cands.drop_last()) + candidate_block(cands.len(), cands.last())
    }
}

/// The lines that present the candidates of an analysis, best first: for
/// each its rank, node and score, its reason and its path, then an empty line.
pub fn candidate_lines(cands: &[IncidentCandidate]) -> (lines: Vec<String>)
    ensures
        views(lines@) == candidate_text(cands@),
{
    let mut lines: Vec<String> = Vec::new();
    let mut i: usize = 0;
    assert(cands@.take(0) =~= Seq::<IncidentCandidate>::empty());
    while i < cands.len()
        invariant
            i <= cands@.len(),
            views(lines@) =~= candidate_text(cands@.take(i as int)),
        decreases cands@.len() - i,
    {
        let c = &cands[i];
        let mut head = String::from_str("  ");
        push_decimal(&mut head, (i + 1) as u64);
        head.append(". ");
        head.append(c.node.as_str());
        head.append(" — score=");
        let score = score_text(c.score);
        head.append(score.as_str());
        let mut reason = String::from_str("     Reason: ");
        reason.append(c.reason.as_str());
        let mut path = String::from_str("     Path:   ");
        let joined = join_strings(&c.path, " → ");
        path.append(joined.as_str());
        let ghost before = views(lines@);
        lines.push(head);
        lines.push(reason);
        lines.push(path);
        lines.push(String::new());
        assert(cands@.take(i + 1).drop_last() =~= cands@.take(i as int));
        assert(views(lines@) =~= before + candidate_block((i + 1) as nat, cands@[i as int]));
        i = i + 1;
    }
    assert(cands@.take(i as int) =~= cands@);
    lines
}

} // verus!
