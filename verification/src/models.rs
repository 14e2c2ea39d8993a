//! The records that scans produce and that the analyses build.

use vstd::prelude::*;


verus! {

/// The host the scan ran on.
#[derive(Debug, Clone)]
pub struct Host {
    pub hostname: String,
    pub os: String,
    pub kernel: String,
}

/// One running process.
#[derive(Debug, Clone)]
pub struct ProcessInfo {
    pub pid: u32,
    pub ppid: Option<u32>,
    pub name: String,
    pub command: String,
    pub user_name: String,
    pub status: String,
}

/// One systemd unit of type service.
#[derive(Debug, Clone)]
pub struct SystemdService {
    pub name: String,
    pub load_state: String,
    pub active_state: String,
    pub sub_state: String,
    pub description: String,
}

/// One Docker container.
#[derive(Debug, Clone)]
pub struct DockerContainer {
    pub container_id: String,
    pub name: String,
    pub image: String,
    pub status: String,
    pub ports: String,
}

/// One listening socket.
#[derive(Debug, Clone)]
pub struct ListeningPort {
    pub protocol: String,
    pub local_address: String,
    pub port: u16,
    pub process_name: String,
    pub pid: Option<u32>,
}

/// The content of a `ListeningPort`.
pub struct PortView {
    pub protocol: Seq<char>,
    pub local_address: Seq<char>,
    pub port: u16,
    pub process_name: Seq<char>,
    pub pid: Option<u32>,
}

impl View for ListeningPort {
    type V = PortView;

    open spec fn view(&self) -> PortView {
        PortView {
            protocol: self.protocol@,
            local_address: self.local_address@,
            port: self.port,
            process_name: self.process_name@,
            pid: self.pid,
        }
    }
}

/// The content of a `SystemdService`.
pub struct ServiceView {
    pub name: Seq<char>,
    pub load_state: Seq<char>,
    pub active_state: Seq<char>,
    pub sub_state: Seq<char>,
    pub description: Seq<char>,
}

impl View for SystemdService {
    type V = ServiceView;

    open spec fn view(&self) -> ServiceView {
        ServiceView {
            name: self.name@,
            load_state: self.load_state@,
            active_state: self.active_state@,
            sub_state: self.sub_state@,
            description: self.description@,
        }
    }
}

/// A directed dependency between two nodes of the graph.  The confidence is
/// kept in hundredths (70 stands for 0.70).
#[derive(Debug, Clone)]
pub struct Dependency {
    pub source_type: String,
    pub source_id: String,
    pub target_type: String,
    pub target_id: String,
    pub relation_type: String,
    pub confidence: u32,
    pub origin: String,
}

/// The content of a `Dependency`.
pub struct DepView {
    pub source_type: Seq<char>,
    pub source_id: Seq<char>,
    pub target_type: Seq<char>,
    pub target_id: Seq<char>,
    pub relation_type: Seq<char>,
    pub confidence: u32,
    pub origin: Seq<char>,
}

impl View for Dependency {
    type V = DepView;

    open spec fn view(&self) -> DepView {
        DepView {
            source_type: self.source_type@,
            source_id: self.source_id@,
            target_type: self.target_type@,
            target_id: self.target_id@,
            relation_type: self.relation_type@,
            confidence: self.confidence,
            origin: self.origin@,
        }
    }
}

/// The views of a list of dependencies.
pub open spec fn dep_views(v: Seq<Dependency>) -> Seq<DepView> {
    v.map_values(|d: Dependency| d@)
}

/// The origin recorded for dependencies that a user declared.
pub fn default_origin() -> (r: String)
    ensures
        r@ == "manual"@,
{
    String::from_str("manual")
}

/// A probable cause of an incident.  The score is kept in hundredths
/// (77 stands for a score of 0.77).
#[derive(Debug, Clone)]
pub struct IncidentCandidate {
    pub node: String,
    pub score: u32,
    pub reason: String,
    pub path: Vec<String>,
}

/// The outcome of an incident analysis: the candidates, best first.
#[derive(Debug, Clone)]
pub struct IncidentResult {
    pub symptom: String,
    pub affected: String,
    pub candidates: Vec<IncidentCandidate>,
}

/// What the relational store hands to the graph database: hosts (id, name,
/// system, kernel), processes (host, name, pid, status), services (host,
/// name, active state, sub state), containers (host, name, image, status),
/// ports (host, protocol, port, process) and dependencies.
#[derive(Debug, Clone)]
pub struct SyncData {
    pub hosts: Vec<(String, String, String, String)>,
    pub processes: Vec<(String, String, u32, String)>,
    pub services: Vec<(String, String, String, String)>,
    pub containers: Vec<(String, String, String, String)>,
    pub ports: Vec<(String, String, u16, String)>,
    pub dependencies: Vec<SyncDependency>,
}

/// A stored dependency as the graph database receives it; the confidence is
/// carried as the bit pattern of the stored 64-bit float.
#[derive(Debug, Clone)]
pub struct SyncDependency {
    pub source_type: String,
    pub source_id: String,
    pub target_type: String,
    pub target_id: String,
    pub relation_type: String,
    pub confidence_bits: u64,
    pub origin: String,
}

/// What a synchronisation with the graph database wrote.
#[derive(Debug, Clone, Copy)]
pub struct SyncStats {
    pub nodes: usize,
    pub relations: usize,
}

/// A node of a downstream impact tree.
#[derive(Debug)]
pub struct ImpactNode {
    pub node_id: String,
    pub node_type: String,
    pub relation: String,
    pub children: Vec<ImpactNode>,
}

/// The `Type:id` text that names a node.
pub open spec fn ref_text(node_type: Seq<char>, node_id: Seq<char>) -> Seq<char> {
    node_type + seq![':'] + node_id
}

/// The `Type:id` text of a node.
pub fn format_node_ref(node_type: &str, node_id: &str) -> (r: String)
    ensures
        r@ == ref_text(node_type@, node_id@),
{
    let mut r = String::from_str(node_type);
    proof {
        reveal_strlit(":");
    }
    r.append(":");
    r.append(node_id);
    r
}

/// The number of nodes of the tree rooted at `n`.
pub open spec fn tree_size(n: ImpactNode) -> nat
    decreases n, 1nat,
{
    1 + forest_size(n.children@)
}

/// The number of nodes of the trees in `f`.
pub open spec fn forest_size(f: Seq<ImpactNode>) -> nat
    decreases f, 0nat,
{
    if f.len() == 0 {
        0
    } else {
        forest_size(f.drop_last()) + tree_size(f.last())
    }
}

/// The nodes of the tree rooted at `n` in pre-order, each with its depth
/// counted from `depth` at `n`.
pub open spec fn flat_tree(n: ImpactNode, depth: int) -> Seq<(Seq<char>, int)>
    decreases n, 1nat,
{
    seq![(ref_text(n.node_type@, n.node_id@), depth)] + flat_forest(n.children@, depth + 1)
}

/// The pre-order listings of the trees in `f`, one after the other.
pub open spec fn flat_forest(f: Seq<ImpactNode>, depth: int) -> Seq<(Seq<char>, int)>
    decreases f, 0nat,
{
    if f.len() == 0 {
        Seq::empty()
    } else {
        flat_forest(f.drop_last(), depth) + flat_tree(f.last(), depth)
    }
}


/// The listing entries of `v` as text and depth.
pub open spec fn entries(v: Seq<(String, usize)>) -> Seq<(Seq<char>, int)> {
    v.map_values(|e: (String, usize)| (e.0@, e.1 as int))
}

proof fn lemma_forest_size_take(f: Seq<ImpactNode>, i: int, depth: int)
    requires
        0 <= i < f.len(),
    ensures
        forest_size(f.take(i + 1)) == forest_size(f.take(i)) + tree_size(f[i]),
        flat_forest(f.take(i + 1), depth) == flat_forest(f.take(i), depth) + flat_tree(f[i], depth),
{
    assert(f.take(i + 1).drop_last() =~= f.take(i));
}

proof fn lemma_forest_size_bound(f: Seq<ImpactNode>, i: int)
    requires
        0 <= i <= f.len(),
    ensures
        forest_size(f.take(i)) <= forest_size(f),
        i < f.len() ==> forest_size(f.take(i)) + tree_size(f[i]) <= forest_size(f),
    decreases f.len() - i,
{
    if i < f.len() {
        lemma_forest_size_bound(f, i + 1);
        assert(f.take(i + 1).drop_last() =~= f.take(i));
    } else {
        assert(f.take(i) =~= f);
    }
}

/// The listing that `flatten` gives has one entry per node that `count_all`
/// counts, at every starting depth.
pub proof fn flatten_lists_every_node(n: ImpactNode, depth: int)
    ensures
        flat_tree(n, depth).len() == tree_size(n),
    decreases n, 1nat,
{
    flatten_lists_every_node_forest(n.children@, depth + 1);
}

/// The listings of a forest have one entry per node of the forest.
pub proof fn flatten_lists_every_node_forest(f: Seq<ImpactNode>, depth: int)
    ensures
        flat_forest(f, depth).len() == forest_size(f),
    decreases f, 0nat,
{
    if f.len() > 0 {
        flatten_lists_every_node_forest(f.drop_last(), depth);
        flatten_lists_every_node(f.last(), depth);
    }
}

impl ImpactNode {
    /// A node without children.
    pub fn leaf(node_id: String, node_type: String, relation: String) -> (r: ImpactNode)
        ensures
            r.node_id == node_id,
            r.node_type == node_type,
            r.relation == relation,
            r.children@.len() == 0,
    {
        ImpactNode { node_id, node_type, relation, children: Vec::new() }
    }

    /// The number of nodes of the tree, this one included.
    pub fn count_all(&self) -> (count: usize)
        requires
            tree_size(*self) <= usize::MAX,
        ensures
            count == tree_size(*self),
        decreases *self,
    {
        let mut count: usize = 1;
        let mut i: usize = 0;
        assert(self.children@.take(0) =~= Seq::<ImpactNode>::empty());
        while i < self.children.len()
            invariant
                tree_size(*self) <= usize::MAX,
                i <= self.children@.len(),
                count == 1 + forest_size(self.children@.take(i as int)),
            decreases self.children@.len() - i,
        {
            proof {
                lemma_forest_size_take(self.children@, i as int, 0);
                lemma_forest_size_bound(self.children@, i as int);
            }
            let child = &self.children[i];
            assert(decreases_to!(*self => self.children));
            let n = child.count_all();
            count = count + n;
            i = i + 1;
        }
        assert(self.children@.take(i as int) =~= self.children@);
        count
    }

    /// The tree in pre-order as `Type:id` texts with their depths, this node
    /// at depth 0.
    pub fn flatten(&self) -> (result: Vec<(String, usize)>)
        requires
            tree_size(*self) <= usize::MAX,
        ensures
            entries(result@) == flat_tree(*self, 0),
    {
        let mut result: Vec<(String, usize)> = Vec::new();
        result.push((format_node_ref(self.node_type.as_str(), self.node_id.as_str()), 0));
        self.flatten_inner(&mut result, 1);
        assert(entries(result@) =~= flat_tree(*self, 0));
        result
    }

    /// Appends the listings of the children of this node, at `depth`.
    fn flatten_inner(&self, result: &mut Vec<(String, usize)>, depth: usize)
        requires
            depth + forest_size(self.children@) <= usize::MAX,
        ensures
            entries(final(result)@) == entries(old(result)@) + flat_forest(
                self.children@,
                depth as int,
            ),
        decreases *self,
    {
        let mut i: usize = 0;
        let ghost start = entries(result@);
        assert(self.children@.take(0) =~= Seq::<ImpactNode>::empty());
        assert(start + flat_forest(self.children@.take(0), depth as int) =~= start);
        while i < self.children.len()
            invariant
                depth + forest_size(self.children@) <= usize::MAX,
                i <= self.children@.len(),
                entries(result@) == start + flat_forest(self.children@.take(i as int), depth as int),
            decreases self.children@.len() - i,
        {
            proof {
                lemma_forest_size_take(self.children@, i as int, depth as int);
                lemma_forest_size_bound(self.children@, i as int);
            }
            let child = &self.children[i];
            assert(decreases_to!(*self => self.children));
            let ghost before = entries(result@);
            result.push((format_node_ref(child.node_type.as_str(), child.node_id.as_str()), depth));
            assert(entries(result@) =~= before.push((ref_text(child.node_type@, child.node_id@), depth as int)));
            let ghost mid = entries(result@);
            child.flatten_inner(result, depth + 1);
            assert(flat_tree(*child, depth as int) =~= seq![(ref_text(child.node_type@, child.node_id@), depth as int)] + flat_forest(child.children@, depth + 1));
            assert(entries(result@) =~= start + flat_forest(self.children@.take(i + 1), depth as int));
            i = i + 1;
        }
        assert(self.children@.take(i as int) =~= self.children@);
    }
}

} // verus!
