//! The text of the statements sent to the graph database.

use vstd::prelude::*;

verus! {

/// The statement that merges a dependency edge between two nodes of the given labels.
pub fn dependency_merge_query(source_type: &str, target_type: &str, relation_type: &str) -> (q: String)
    ensures
        q@ == "MERGE (a:"@ + source_type@ + " {id: $source_id})
                 MERGE (b:"@ + target_type@ + " {id: $target_id})
                 MERGE (a)-[r:"@ + relation_type@ + "]->(b)
                 SET r.confidence = $confidence, r.origin = $origin"@,
{
    let mut q = String::from_str("MERGE (a:");
    q.append(source_type);
    q.append(" {id: $source_id})
                 MERGE (b:");
    q.append(target_type);
    q.append(" {id: $target_id})
                 MERGE (a)-[r:");
    q.append(relation_type);
    q.append("]->(b)
                 SET r.confidence = $confidence, r.origin = $origin");
    q
}

/// The query for the nodes downstream of a node of the given label, within five steps along dependency and listening edges, nearest first.
pub fn impact_downstream_query(node_type: &str) -> (q: String)
    ensures
        q@ == "MATCH path = (source:"@ + node_type@ + " {id: $id})-[:DEPENDS_ON|LISTENS_ON*1..5]-(target)
             RETURN labels(target)[0] AS target_type,
                    target.id AS target_id,
                    type(relationships(path)[-1]) AS rel_type,
                    length(path) AS depth
             ORDER BY depth ASC"@,
{
    let mut q = String::from_str("MATCH path = (source:");
    q.append(node_type);
    q.append(" {id: $id})-[:DEPENDS_ON|LISTENS_ON*1..5]-(target)
             RETURN labels(target)[0] AS target_type,
                    target.id AS target_id,
                    type(relationships(path)[-1]) AS rel_type,
                    length(path) AS depth
             ORDER BY depth ASC");
    q
}

/// The query for a shortest path, in either direction and at most fifteen steps long, between nodes of the given labels.
pub fn shortest_path_query(from_type: &str, to_type: &str) -> (q: String)
    ensures
        q@ == "MATCH (a:"@ + from_type@ + " {id: $from_id}), (b:"@ + to_type@ + " {id: $to_id}),
                   path = shortestPath((a)-[*..15]-(b))
             RETURN [node IN nodes(path) | labels(node)[0] + ':' + node.id] AS path_nodes"@,
{
    let mut q = String::from_str("MATCH (a:");
    q.append(from_type);
    q.append(" {id: $from_id}), (b:");
    q.append(to_type);
    q.append(" {id: $to_id}),
                   path = shortestPath((a)-[*..15]-(b))
             RETURN [node IN nodes(path) | labels(node)[0] + ':' + node.id] AS path_nodes");
    q
}

/// The query for the nodes upstream of a node of the given label, within ten steps, with their status, distance and edge confidence, nearest first.
pub fn upstream_candidates_query(node_type: &str) -> (q: String)
    ensures
        q@ == "MATCH path = (target:"@ + node_type@ + " {id: $id})-[*1..10]->(candidate)
             WITH candidate, path,
                  labels(candidate)[0] AS candidate_type,
                  candidate.id AS candidate_id,
                  length(path) AS depth
             OPTIONAL MATCH (target:"@ + node_type@ + " {id: $id})-[r]->(candidate)
             RETURN candidate_type,
                    candidate_id,
                    COALESCE(candidate.active_state, candidate.status, 'unknown') AS status,
                    depth,
                    COALESCE(r.confidence, 0.5) AS confidence
             ORDER BY depth ASC"@,
{
    let mut q = String::from_str("MATCH path = (target:");
    q.append(node_type);
    q.append(" {id: $id})-[*1..10]->(candidate)
             WITH candidate, path,
                  labels(candidate)[0] AS candidate_type,
                  candidate.id AS candidate_id,
                  length(path) AS depth
             OPTIONAL MATCH (target:");
    q.append(node_type);
    q.append(" {id: $id})-[r]->(candidate)
             RETURN candidate_type,
                    candidate_id,
                    COALESCE(candidate.active_state, candidate.status, 'unknown') AS status,
                    depth,
                    COALESCE(r.confidence, 0.5) AS confidence
             ORDER BY depth ASC");
    q
}

/// The query for a shortest directed path, at most fifteen steps long, from a candidate to the affected node, of the given labels.
pub fn path_to_affected_query(candidate_type: &str, affected_type: &str) -> (q: String)
    ensures
        q@ == "MATCH (a:"@ + candidate_type@ + " {id: $from_id}), (b:"@ + affected_type@ + " {id: $to_id}),
                   path = shortestPath((a)-[*..15]->(b))
             RETURN [node IN nodes(path) | labels(node)[0] + ':' + node.id] AS path_nodes"@,
{
    let mut q = String::from_str("MATCH (a:");
    q.append(candidate_type);
    q.append(" {id: $from_id}), (b:");
    q.append(affected_type);
    q.append(" {id: $to_id}),
                   path = shortestPath((a)-[*..15]->(b))
             RETURN [node IN nodes(path) | labels(node)[0] + ':' + node.id] AS path_nodes");
    q
}

/// The query that counts the distinct nodes downstream of a node of the given label, within ten steps.
pub fn count_downstream_query(node_type: &str) -> (q: String)
    ensures
        q@ == "MATCH (n:"@ + node_type@ + " {id: $id})-[*1..10]->(target)
             RETURN count(DISTINCT target) AS cnt"@,
{
    let mut q = String::from_str("MATCH (n:");
    q.append(node_type);
    q.append(" {id: $id})-[*1..10]->(target)
             RETURN count(DISTINCT target) AS cnt");
    q
}

} // verus!
