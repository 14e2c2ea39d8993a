//! The graph database side: the statements that mirror the relational store
//! into the graph, and what they write.

pub mod cypher;

use vstd::prelude::*;
use crate::collectors::{join_number, port_node_id, process_node_id};
use crate::models::{SyncData, SyncDependency, SyncStats};
use crate::graph::cypher::dependency_merge_query;
use crate::text::decimal;

verus! {

/// Merges a host node.
pub const HOST_MERGE: &'static str = "MERGE (h:Host {id: $id})
                     SET h.hostname = $hostname, h.os = $os, h.kernel = $kernel";

/// Merges a process node.
pub const PROCESS_MERGE: &'static str = "MERGE (p:Process {id: $id})
                     SET p.name = $name, p.pid = $pid, p.status = $status";

/// Links a host to a process it runs.
pub const PROCESS_LINK: &'static str = "MATCH (h:Host {hostname: $host}), (p:Process {id: $proc_id})
                     MERGE (h)-[:RUNS_PROCESS]->(p)";

/// Merges a service node.
pub const SERVICE_MERGE: &'static str = "MERGE (s:Service {id: $id})
                     SET s.name = $name, s.active_state = $active_state, s.sub_state = $sub_state";

/// Links a host to a service it runs.
pub const SERVICE_LINK: &'static str = "MATCH (h:Host {hostname: $host}), (s:Service {id: $svc_id})
                     MERGE (h)-[:RUNS_SERVICE]->(s)";

/// Merges a container node.
pub const CONTAINER_MERGE: &'static str = "MERGE (c:Container {id: $id})
                     SET c.name = $name, c.image = $image, c.status = $status";

/// Links a host to a container it runs.
pub const CONTAINER_LINK: &'static str = "MATCH (h:Host {hostname: $host}), (c:Container {id: $ctr_id})
                     MERGE (h)-[:RUNS_CONTAINER]->(c)";

/// Merges a port node.
pub const PORT_MERGE: &'static str = "MERGE (pt:Port {id: $id})
                     SET pt.protocol = $protocol, pt.port = $port, pt.process = $process";

/// A parameter of a statement.
#[derive(Debug, Clone)]
pub enum GraphParam {
    Text(String),
    Int(i64),
    /// A 64-bit float, by its bit pattern.
    FloatBits(u64),
}

/// The content of a `GraphParam`.
pub enum ParamView {
    Text(Seq<char>),
    Int(i64),
    FloatBits(u64),
}

impl View for GraphParam {
    type V = ParamView;

    open spec fn view(&self) -> ParamView {
        match self {
            GraphParam::Text(s) => ParamView::Text(s@),
            GraphParam::Int(i) => ParamView::Int(*i),
            GraphParam::FloatBits(b) => ParamView::FloatBits(*b),
        }
    }
}

/// Whether a statement writes a node or a relation.
#[derive(Debug, Clone, Copy, PartialEq, Eq)]
pub enum WriteKind {
    Node,
    Relation,
}

/// One statement of a synchronisation, with its named parameters.
#[derive(Debug, Clone)]
pub struct GraphWrite {
    pub statement: String,
    pub params: Vec<(String, GraphParam)>,
    pub kind: WriteKind,
}

/// The content of a `GraphWrite`.
#[verifier::ext_equal]
pub struct WriteView {
    pub statement: Seq<char>,
    pub params: Seq<(Seq<char>, ParamView)>,
    pub kind: WriteKind,
}

impl View for GraphWrite {
    type V = WriteView;

    open spec fn view(&self) -> WriteView {
        WriteView {
            statement: self.statement@,
            params: self.params@.map_values(|p: (String, GraphParam)| (p.0@, p.1@)),
            kind: self.kind,
        }
    }
}

/// The views of a list of statements.
pub open spec fn write_views(v: Seq<GraphWrite>) -> Seq<WriteView> {
    v.map_values(|w: GraphWrite| w@)
}

/// The statement that merges the host `h`.
pub open spec fn host_writes(h: (String, String, String, String)) -> Seq<WriteView> {
    seq![
        WriteView {
            statement: HOST_MERGE@,
            params: seq![
                ("id"@, ParamView::Text(h.0@)),
                ("hostname"@, ParamView::Text(h.1@)),
                ("os"@, ParamView::Text(h.2@)),
                ("kernel"@, ParamView::Text(h.3@)),
            ],
            kind: WriteKind::Node,
        },
    ]
}

/// The statements that merge the process `p` and link it to its host.
pub open spec fn process_writes(p: (String, String, u32, String)) -> Seq<WriteView> {
    let id = process_node_id(p.1@, p.2);
    seq![
        WriteView {
            statement: PROCESS_MERGE@,
            params: seq![
                ("id"@, ParamView::Text(id)),
                ("name"@, ParamView::Text(p.1@)),
                ("pid"@, ParamView::Int(p.2 as i64)),
                ("status"@, ParamView::Text(p.3@)),
            ],
            kind: WriteKind::Node,
        },
        WriteView {
            statement: PROCESS_LINK@,
            params: seq![("host"@, ParamView::Text(p.0@)), ("proc_id"@, ParamView::Text(id))],
            kind: WriteKind::Relation,
        },
    ]
}

/// The statements that merge the service `s` and link it to its host.
pub open spec fn service_writes(s: (String, String, String, String)) -> Seq<WriteView> {
    seq![
        WriteView {
            statement: SERVICE_MERGE@,
            params: seq![
                ("id"@, ParamView::Text(s.1@)),
                ("name"@, ParamView::Text(s.1@)),
                ("active_state"@, ParamView::Text(s.2@)),
                ("sub_state"@, ParamView::Text(s.3@)),
            ],
            kind: WriteKind::Node,
        },
        WriteView {
            statement: SERVICE_LINK@,
            params: seq![("host"@, ParamView::Text(s.0@)), ("svc_id"@, ParamView::Text(s.1@))],
            kind: WriteKind::Relation,
        },
    ]
}

/// The statements that merge the container `c` and link it to its host.
pub open spec fn container_writes(c: (String, String, String, String)) -> Seq<WriteView> {
    seq![
        WriteView {
            statement: CONTAINER_MERGE@,
            params: seq![
                ("id"@, ParamView::Text(c.1@)),
                ("name"@, ParamView::Text(c.1@)),
                ("image"@, ParamView::Text(c.2@)),
                ("status"@, ParamView::Text(c.3@)),
            ],
            kind: WriteKind::Node,
        },
        WriteView {
            statement: CONTAINER_LINK@,
            params: seq![("host"@, ParamView::Text(c.0@)), ("ctr_id"@, ParamView::Text(c.1@))],
            kind: WriteKind::Relation,
        },
    ]
}

/// The statement that merges the port `p`.
pub open spec fn port_writes(p: (String, String, u16, String)) -> Seq<WriteView> {
    seq![
        WriteView {
            statement: PORT_MERGE@,
            params: seq![
                ("id"@, ParamView::Text(port_node_id(p.1@, p.2))),
                ("protocol"@, ParamView::Text(p.1@)),
                ("port"@, ParamView::Int(p.2 as i64)),
                ("process"@, ParamView::Text(p.3@)),
            ],
            kind: WriteKind::Node,
        },
    ]
}

/// The statement that merges the dependency `d` as a relation.
pub open spec fn dependency_writes(d: SyncDependency) -> Seq<WriteView> {
    seq![
        WriteView {
            statement: "MERGE (a:"@ + d.source_type@ + " {id: $source_id})
                 MERGE (b:"@ + d.target_type@ + " {id: $target_id})
                 MERGE (a)-[r:"@ + d.relation_type@ + "]->(b)
                 SET r.confidence = $confidence, r.origin = $origin"@,
            params: seq![
                ("source_id"@, ParamView::Text(d.source_id@)),
                ("target_id"@, ParamView::Text(d.target_id@)),
                ("confidence"@, ParamView::FloatBits(d.confidence_bits)),
                ("origin"@, ParamView::Text(d.origin@)),
            ],
            kind: WriteKind::Relation,
        },
    ]
}


fn text_param(name: &str, value: String) -> (r: (String, GraphParam))
    ensures
        r.0@ == name@,
        r.1@ == ParamView::Text(value@),
{
    (String::from_str(name), GraphParam::Text(value))
}

fn int_param(name: &str, value: i64) -> (r: (String, GraphParam))
    ensures
        r.0@ == name@,
        r.1@ == ParamView::Int(value),
{
    (String::from_str(name), GraphParam::Int(value))
}

fn host_write(h: &(String, String, String, String)) -> (ws: Vec<GraphWrite>)
    ensures
        write_views(ws@) == host_writes(*h),
{
    let mut params: Vec<(String, GraphParam)> = Vec::new();
    params.push(text_param("id", h.0.clone()));
    params.push(text_param("hostname", h.1.clone()));
    params.push(text_param("os", h.2.clone()));
    params.push(text_param("kernel", h.3.clone()));
    let mut ws: Vec<GraphWrite> = Vec::new();
    ws.push(GraphWrite { statement: String::from_str(HOST_MERGE), params, kind: WriteKind::Node });
    assert(write_views(ws@) =~~= host_writes(*h));
    ws
}

fn process_write(p: &(String, String, u32, String)) -> (ws: Vec<GraphWrite>)
    ensures
        write_views(ws@) == process_writes(*p),
{
    let id = join_number(p.1.as_str(), p.2 as u64);
    let mut params: Vec<(String, GraphParam)> = Vec::new();
    params.push(text_param("id", id.clone()));
    params.push(text_param("name", p.1.clone()));
    params.push(int_param("pid", p.2 as i64));
    params.push(text_param("status", p.3.clone()));
    let mut link: Vec<(String, GraphParam)> = Vec::new();
    link.push(text_param("host", p.0.clone()));
    link.push(text_param("proc_id", id));
    let mut ws: Vec<GraphWrite> = Vec::new();
    ws.push(GraphWrite { statement: String::from_str(PROCESS_MERGE), params, kind: WriteKind::Node });
    ws.push(GraphWrite { statement: String::from_str(PROCESS_LINK), params: link, kind: WriteKind::Relation });
    assert(write_views(ws@) =~~= process_writes(*p));
    ws
}

fn service_write(v: &(String, String, String, String)) -> (ws: Vec<GraphWrite>)
    ensures
        write_views(ws@) == service_writes(*v),
{
    let mut params: Vec<(String, GraphParam)> = Vec::new();
    params.push(text_param("id", v.1.clone()));
    params.push(text_param("name", v.1.clone()));
    params.push(text_param("active_state", v.2.clone()));
    params.push(text_param("sub_state", v.3.clone()));
    let mut link: Vec<(String, GraphParam)> = Vec::new();
    link.push(text_param("host", v.0.clone()));
    link.push(text_param("svc_id", v.1.clone()));
    let mut ws: Vec<GraphWrite> = Vec::new();
    ws.push(GraphWrite { statement: String::from_str(SERVICE_MERGE), params, kind: WriteKind::Node });
    ws.push(GraphWrite { statement: String::from_str(SERVICE_LINK), params: link, kind: WriteKind::Relation });
    assert(write_views(ws@) =~~= service_writes(*v));
    ws
}

fn container_write(c: &(String, String, String, String)) -> (ws: Vec<GraphWrite>)
    ensures
        write_views(ws@) == container_writes(*c),
{
    let mut params: Vec<(String, GraphParam)> = Vec::new();
    params.push(text_param("id", c.1.clone()));
    params.push(text_param("name", c.1.clone()));
    params.push(text_param("image", c.2.clone()));
    params.push(text_param("status", c.3.clone()));
    let mut link: Vec<(String, GraphParam)> = Vec::new();
    link.push(text_param("host", c.0.clone()));
    link.push(text_param("ctr_id", c.1.clone()));
    let mut ws: Vec<GraphWrite> = Vec::new();
    ws.push(GraphWrite { statement: String::from_str(CONTAINER_MERGE), params, kind: WriteKind::Node });
    ws.push(GraphWrite { statement: String::from_str(CONTAINER_LINK), params: link, kind: WriteKind::Relation });
    assert(write_views(ws@) =~~= container_writes(*c));
    ws
}

fn port_write(p: &(String, String, u16, String)) -> (ws: Vec<GraphWrite>)
    ensures
        write_views(ws@) == port_writes(*p),
{
    let mut params: Vec<(String, GraphParam)> = Vec::new();
    params.push(text_param("id", join_number(p.1.as_str(), p.2 as u64)));
    params.push(text_param("protocol", p.1.clone()));
    params.push(int_param("port", p.2 as i64));
    params.push(text_param("process", p.3.clone()));
    let mut ws: Vec<GraphWrite> = Vec::new();
    ws.push(GraphWrite { statement: String::from_str(PORT_MERGE), params, kind: WriteKind::Node });
    assert(write_views(ws@) =~~= port_writes(*p));
    ws
}

fn dependency_write(d: &SyncDependency) -> (ws: Vec<GraphWrite>)
    ensures
        write_views(ws@) == dependency_writes(*d),
{
    let statement = dependency_merge_query(
        d.source_type.as_str(),
        d.target_type.as_str(),
        d.relation_type.as_str(),
    );
    let mut params: Vec<(String, GraphParam)> = Vec::new();
    params.push(text_param("source_id", d.source_id.clone()));
    params.push(text_param("target_id", d.target_id.clone()));
    params.push((String::from_str("confidence"), GraphParam::FloatBits(d.confidence_bits)));
    params.push(text_param("origin", d.origin.clone()));
    let mut ws: Vec<GraphWrite> = Vec::new();
    ws.push(GraphWrite { statement, params, kind: WriteKind::Relation });
    assert(write_views(ws@) =~~= dependency_writes(*d));
    ws
}

/// The statements of a synchronisation, in the order they run: the hosts,
/// each process with its host link, each service with its host link, each
/// container with its host link, the ports, then the dependencies.
pub open spec fn sync_writes(data: SyncData) -> Seq<WriteView> {
    data.hosts@.map_values(|x: (String, String, String, String)| host_writes(x)).flatten_alt() + data.processes@.map_values(|x: (String, String, u32, String)| process_writes(x)).flatten_alt() + data.services@.map_values(|x: (String, String, String, String)| service_writes(x)).flatten_alt() + data.containers@.map_values(|x: (String, String, String, String)| container_writes(x)).flatten_alt() + data.ports@.map_values(|x: (String, String, u16, String)| port_writes(x)).flatten_alt() + data.dependencies@.map_values(|x: SyncDependency| dependency_writes(x)).flatten_alt()
}

/// The statements that mirror `data` into the graph database, in the order
/// they run.
pub fn sync_plan(data: &SyncData) -> (plan: Vec<GraphWrite>)
    ensures
        write_views(plan@) == sync_writes(*data),
{
    let mut plan: Vec<GraphWrite> = Vec::new();
    {
    let ghost base = write_views(plan@);
    let mut i: usize = 0;
    assert(data.hosts@.take(0).map_values(|x: (String, String, String, String)| host_writes(x)) =~= Seq::<Seq<WriteView>>::empty());
    while i < data.hosts.len()
        invariant
            i <= data.hosts@.len(),
            write_views(plan@) =~= base + data.hosts@.take(i as int).map_values(|x: (String, String, String, String)| host_writes(x)).flatten_alt(),
        decreases data.hosts@.len() - i,
    {
        let ghost before = plan@;
        let mut ws = host_write(&data.hosts[i]);
        let ghost added = ws@;
        plan.append(&mut ws);
        assert(write_views(plan@) =~= write_views(before) + write_views(added));
        assert(data.hosts@.take(i + 1).map_values(|x: (String, String, String, String)| host_writes(x)).drop_last() =~= data.hosts@.take(
            i as int,
        ).map_values(|x: (String, String, String, String)| host_writes(x)));
        i = i + 1;
    }
    assert(data.hosts@.take(i as int) =~= data.hosts@);
    }
    {
    let ghost base = write_views(plan@);
    let mut i: usize = 0;
    assert(data.processes@.take(0).map_values(|x: (String, String, u32, String)| process_writes(x)) =~= Seq::<Seq<WriteView>>::empty());
    while i < data.processes.len()
        invariant
            i <= data.processes@.len(),
            write_views(plan@) =~= base + data.processes@.take(i as int).map_values(|x: (String, String, u32, String)| process_writes(x)).flatten_alt(),
        decreases data.processes@.len() - i,
    {
        let ghost before = plan@;
        let mut ws = process_write(&data.processes[i]);
        let ghost added = ws@;
        plan.append(&mut ws);
        assert(write_views(plan@) =~= write_views(before) + write_views(added));
        assert(data.processes@.take(i + 1).map_values(|x: (String, String, u32, String)| process_writes(x)).drop_last() =~= data.processes@.take(
            i as int,
        ).map_values(|x: (String, String, u32, String)| process_writes(x)));
        i = i + 1;
    }
    assert(data.processes@.take(i as int) =~= data.processes@);
    }
    {
    let ghost base = write_views(plan@);
    let mut i: usize = 0;
    assert(data.services@.take(0).map_values(|x: (String, String, String, String)| service_writes(x)) =~= Seq::<Seq<WriteView>>::empty());
    while i < data.services.len()
        invariant
            i <= data.services@.len(),
            write_views(plan@) =~= base + data.services@.take(i as int).map_values(|x: (String, String, String, String)| service_writes(x)).flatten_alt(),
        decreases data.services@.len() - i,
    {
        let ghost before = plan@;
        let mut ws = service_write(&data.services[i]);
        let ghost added = ws@;
        plan.append(&mut ws);
        assert(write_views(plan@) =~= write_views(before) + write_views(added));
        assert(data.services@.take(i + 1).map_values(|x: (String, String, String, String)| service_writes(x)).drop_last() =~= data.services@.take(
            i as int,
        ).map_values(|x: (String, String, String, String)| service_writes(x)));
        i = i + 1;
    }
    assert(data.services@.take(i as int) =~= data.services@);
    }
    {
    let ghost base = write_views(plan@);
    let mut i: usize = 0;
    assert(data.containers@.take(0).map_values(|x: (String, String, String, String)| container_writes(x)) =~= Seq::<Seq<WriteView>>::empty());
    while i < data.containers.len()
        invariant
            i <= data.containers@.len(),
            write_views(plan@) =~= base + data.containers@.take(i as int).map_values(|x: (String, String, String, String)| container_writes(x)).flatten_alt(),
        decreases data.containers@.len() - i,
    {
        let ghost before = plan@;
        let mut ws = container_write(&data.containers[i]);
        let ghost added = ws@;
        plan.append(&mut ws);
        assert(write_views(plan@) =~= write_views(before) + write_views(added));
        assert(data.containers@.take(i + 1).map_values(|x: (String, String, String, String)| container_writes(x)).drop_last() =~= data.containers@.take(
            i as int,
        ).map_values(|x: (String, String, String, String)| container_writes(x)));
        i = i + 1;
    }
    assert(data.containers@.take(i as int) =~= data.containers@);
    }
    {
    let ghost base = write_views(plan@);
    let mut i: usize = 0;
    assert(data.ports@.take(0).map_values(|x: (String, String, u16, String)| port_writes(x)) =~= Seq::<Seq<WriteView>>::empty());
    while i < data.ports.len()
        invariant
            i <= data.ports@.len(),
            write_views(plan@) =~= base + data.ports@.take(i as int).map_values(|x: (String, String, u16, String)| port_writes(x)).flatten_alt(),
        decreases data.ports@.len() - i,
    {
        let ghost before = plan@;
        let mut ws = port_write(&data.ports[i]);
        let ghost added = ws@;
        plan.append(&mut ws);
        assert(write_views(plan@) =~= write_views(before) + write_views(added));
        assert(data.ports@.take(i + 1).map_values(|x: (String, String, u16, String)| port_writes(x)).drop_last() =~= data.ports@.take(
            i as int,
        ).map_values(|x: (String, String, u16, String)| port_writes(x)));
        i = i + 1;
    }
    assert(data.ports@.take(i as int) =~= data.ports@);
    }
    {
    let ghost base = write_views(plan@);
    let mut i: usize = 0;
    assert(data.dependencies@.take(0).map_values(|x: SyncDependency| dependency_writes(x)) =~= Seq::<Seq<WriteView>>::empty());
    while i < data.dependencies.len()
        invariant
            i <= data.dependencies@.len(),
            write_views(plan@) =~= base + data.dependencies@.take(i as int).map_values(|x: SyncDependency| dependency_writes(x)).flatten_alt(),
        decreases data.dependencies@.len() - i,
    {
        let ghost before = plan@;
        let mut ws = dependency_write(&data.dependencies[i]);
        let ghost added = ws@;
        plan.append(&mut ws);
        assert(write_views(plan@) =~= write_views(before) + write_views(added));
        assert(data.dependencies@.take(i + 1).map_values(|x: SyncDependency| dependency_writes(x)).drop_last() =~= data.dependencies@.take(
            i as int,
        ).map_values(|x: SyncDependency| dependency_writes(x)));
        i = i + 1;
    }
    assert(data.dependencies@.take(i as int) =~= data.dependencies@);
    }
    plan
}

/// The number of statements of `w` of the given kind.
pub open spec fn count_kind(w: Seq<WriteView>, kind: WriteKind) -> nat
    decreases w.len(),
{
    if w.len() == 0 {
        0
    } else {
        count_kind(w.drop_last(), kind) + if w.last().kind == kind {
            1nat
        } else {
            0nat
        }
    }
}

/// What the statements of a plan write: the node statements and the
/// relation statements.
pub fn plan_stats(plan: &Vec<GraphWrite>) -> (s: SyncStats)
    ensures
        s.nodes == count_kind(write_views(plan@), WriteKind::Node),
        s.relations == count_kind(write_views(plan@), WriteKind::Relation),
{
    let mut nodes: usize = 0;
    let mut relations: usize = 0;
    let mut i: usize = 0;
    assert(write_views(plan@).take(0) =~= Seq::<WriteView>::empty());
    while i < plan.len()
        invariant
            i <= plan@.len(),
            nodes == count_kind(write_views(plan@).take(i as int), WriteKind::Node),
            relations == count_kind(write_views(plan@).take(i as int), WriteKind::Relation),
            nodes + relations == i,
        decreases plan@.len() - i,
    {
        assert(write_views(plan@).take(i + 1).drop_last() =~= write_views(plan@).take(i as int));
        match plan[i].kind {
            WriteKind::Node => {
                nodes = nodes + 1;
            },
            WriteKind::Relation => {
                relations = relations + 1;
            },
        }
        i = i + 1;
    }
    assert(write_views(plan@).take(i as int) =~= write_views(plan@));
    SyncStats { nodes, relations }
}


proof fn lemma_count_concat(a: Seq<WriteView>, b: Seq<WriteView>, kind: WriteKind)
    ensures
        count_kind(a + b, kind) == count_kind(a, kind) + count_kind(b, kind),
    decreases b.len(),
{
    if b.len() == 0 {
        assert(a + b =~= a);
    } else {
        assert((a + b).drop_last() =~= a + b.drop_last());
        lemma_count_concat(a, b.drop_last(), kind);
    }
}

proof fn lemma_count_flatten<T>(s: Seq<T>, f: spec_fn(T) -> Seq<WriteView>, kind: WriteKind, n: nat)
    requires
        forall|x: T| #[trigger] count_kind(f(x), kind) == n,
    ensures
        count_kind(s.map_values(f).flatten_alt(), kind) == n * s.len(),
    decreases s.len(),
{
    if s.len() == 0 {
        assert(s.map_values(f) =~= Seq::<Seq<WriteView>>::empty());
    } else {
        let m = s.map_values(f);
        assert(m.drop_last() =~= s.drop_last().map_values(f));
        lemma_count_flatten(s.drop_last(), f, kind, n);
        lemma_count_concat(m.drop_last().flatten_alt(), m.last(), kind);
        assert(count_kind(f(s.last()), kind) == n);
        assert(n * (s.len() - 1) + n == n * s.len()) by (nonlinear_arith);
    }
}

proof fn lemma_count_one(a: WriteView, kind: WriteKind)
    ensures
        count_kind(seq![a], kind) == if a.kind == kind { 1nat } else { 0nat },
{
    assert(seq![a].drop_last() =~= Seq::<WriteView>::empty());
    assert(count_kind(Seq::<WriteView>::empty(), kind) == 0);
}

proof fn lemma_count_two(a: WriteView, b: WriteView, kind: WriteKind)
    ensures
        count_kind(seq![a, b], kind) == (if a.kind == kind { 1nat } else { 0nat }) + (if b.kind == kind { 1nat } else { 0nat }),
{
    assert(seq![a, b].drop_last() =~= seq![a]);
    lemma_count_one(a, kind);
}

/// A synchronisation writes one node for each host, process, service,
/// container and port, and one relation for each process, service and
/// container (the link to its host) and for each dependency.
pub proof fn sync_write_counts(data: SyncData)
    ensures
        count_kind(sync_writes(data), WriteKind::Node) == data.hosts@.len() + data.processes@.len()
            + data.services@.len() + data.containers@.len() + data.ports@.len(),
        count_kind(sync_writes(data), WriteKind::Relation) == data.processes@.len()
            + data.services@.len() + data.containers@.len() + data.dependencies@.len(),
{
    let fh = |x: (String, String, String, String)| host_writes(x);
    let fp = |x: (String, String, u32, String)| process_writes(x);
    let fs = |x: (String, String, String, String)| service_writes(x);
    let fc = |x: (String, String, String, String)| container_writes(x);
    let ft = |x: (String, String, u16, String)| port_writes(x);
    let fd = |x: SyncDependency| dependency_writes(x);
    let h = data.hosts@.map_values(fh).flatten_alt();
    let p = data.processes@.map_values(fp).flatten_alt();
    let v = data.services@.map_values(fs).flatten_alt();
    let c = data.containers@.map_values(fc).flatten_alt();
    let t = data.ports@.map_values(ft).flatten_alt();
    let d = data.dependencies@.map_values(fd).flatten_alt();
    assert(sync_writes(data) == h + p + v + c + t + d);
    let node = WriteKind::Node;
    let rel = WriteKind::Relation;
    assert forall|k: WriteKind| true implies {
        &&& count_kind(sync_writes(data), k) == count_kind(h, k) + count_kind(p, k) + count_kind(v, k)
            + count_kind(c, k) + count_kind(t, k) + count_kind(d, k)
    } by {
        lemma_count_concat(h, p, k);
        lemma_count_concat(h + p, v, k);
        lemma_count_concat(h + p + v, c, k);
        lemma_count_concat(h + p + v + c, t, k);
        lemma_count_concat(h + p + v + c + t, d, k);
    }
    assert forall|x: (String, String, String, String)| #[trigger] count_kind(fh(x), node) == 1 by {
        lemma_count_one(host_writes(x)[0], node);
    }
    assert forall|x: (String, String, String, String)| #[trigger] count_kind(fh(x), rel) == 0 by {
        lemma_count_one(host_writes(x)[0], rel);
    }
    assert forall|x: (String, String, u32, String)| #[trigger] count_kind(fp(x), node) == 1 by {
        lemma_count_two(process_writes(x)[0], process_writes(x)[1], node);
    }
    assert forall|x: (String, String, u32, String)| #[trigger] count_kind(fp(x), rel) == 1 by {
        lemma_count_two(process_writes(x)[0], process_writes(x)[1], rel);
    }
    assert forall|x: (String, String, String, String)| #[trigger] count_kind(fs(x), node) == 1 by {
        lemma_count_two(service_writes(x)[0], service_writes(x)[1], node);
    }
    assert forall|x: (String, String, String, String)| #[trigger] count_kind(fs(x), rel) == 1 by {
        lemma_count_two(service_writes(x)[0], service_writes(x)[1], rel);
    }
    assert forall|x: (String, String, String, String)| #[trigger] count_kind(fc(x), node) == 1 by {
        lemma_count_two(container_writes(x)[0], container_writes(x)[1], node);
    }
    assert forall|x: (String, String, String, String)| #[trigger] count_kind(fc(x), rel) == 1 by {
        lemma_count_two(container_writes(x)[0], container_writes(x)[1], rel);
    }
    assert forall|x: (String, String, u16, String)| #[trigger] count_kind(ft(x), node) == 1 by {
        lemma_count_one(port_writes(x)[0], node);
    }
    assert forall|x: (String, String, u16, String)| #[trigger] count_kind(ft(x), rel) == 0 by {
        lemma_count_one(port_writes(x)[0], rel);
    }
    assert forall|x: SyncDependency| #[trigger] count_kind(fd(x), node) == 0 by {
        lemma_count_one(dependency_writes(x)[0], node);
    }
    assert forall|x: SyncDependency| #[trigger] count_kind(fd(x), rel) == 1 by {
        lemma_count_one(dependency_writes(x)[0], rel);
    }
    lemma_count_flatten(data.hosts@, fh, node, 1);
    lemma_count_flatten(data.hosts@, fh, rel, 0);
    lemma_count_flatten(data.processes@, fp, node, 1);
    lemma_count_flatten(data.processes@, fp, rel, 1);
    lemma_count_flatten(data.services@, fs, node, 1);
    lemma_count_flatten(data.services@, fs, rel, 1);
    lemma_count_flatten(data.containers@, fc, node, 1);
    lemma_count_flatten(data.containers@, fc, rel, 1);
    lemma_count_flatten(data.ports@, ft, node, 1);
    lemma_count_flatten(data.ports@, ft, rel, 0);
    lemma_count_flatten(data.dependencies@, fd, node, 0);
    lemma_count_flatten(data.dependencies@, fd, rel, 1);
    assert(count_kind(sync_writes(data), node) == count_kind(h, node) + count_kind(p, node) + count_kind(v, node)
        + count_kind(c, node) + count_kind(t, node) + count_kind(d, node));
    assert(count_kind(sync_writes(data), rel) == count_kind(h, rel) + count_kind(p, rel) + count_kind(v, rel)
        + count_kind(c, rel) + count_kind(t, rel) + count_kind(d, rel));
}

/// `part` occurs in `w` starting at position `k`.
pub open spec fn occurs_at(w: Seq<WriteView>, part: Seq<WriteView>, k: int) -> bool {
    0 <= k && k + part.len() <= w.len() && forall|t: int| 0 <= t < part.len() ==> w[k + t] == #[trigger] part[t]
}

proof fn lemma_occurs_in_flatten<T>(s: Seq<T>, f: spec_fn(T) -> Seq<WriteView>, i: int)
    requires
        0 <= i < s.len(),
    ensures
        exists|k: int| #[trigger] occurs_at(s.map_values(f).flatten_alt(), f(s[i]), k),
    decreases s.len(),
{
    let m = s.map_values(f);
    assert(m.drop_last() =~= s.drop_last().map_values(f));
    let a = m.drop_last().flatten_alt();
    let b = m.last();
    assert(m.flatten_alt() == a + b);
    if i == s.len() - 1 {
        assert(occurs_at(a + b, f(s[i]), a.len() as int));
    } else {
        assert(s.drop_last()[i] == s[i]);
        lemma_occurs_in_flatten(s.drop_last(), f, i);
        let k = choose|k: int| #[trigger] occurs_at(a, f(s[i]), k);
        assert(occurs_at(a + b, f(s[i]), k));
    }
}

proof fn lemma_occurs_shift(pre: Seq<WriteView>, mid: Seq<WriteView>, post: Seq<WriteView>, part: Seq<WriteView>, k: int)
    requires
        occurs_at(mid, part, k),
    ensures
        occurs_at(pre + mid + post, part, pre.len() + k),
{
    let w = pre + mid + post;
    assert forall|t: int| 0 <= t < part.len() implies w[pre.len() + k + t] == #[trigger] part[t] by {
        assert(mid[k + t] == part[t]);
    }
}

/// The statements that mirror the service `s` at position `k` of `w`: the
/// merge of the service node with the service's name as id and name and its
/// states, then the link from its host, whose `svc_id` is that same name.
pub open spec fn mirrors_service(w: Seq<WriteView>, k: int, s: (String, String, String, String)) -> bool {
    &&& 0 <= k && k + 1 < w.len()
    &&& w[k].statement == SERVICE_MERGE@
    &&& w[k].kind == WriteKind::Node
    &&& w[k].params == seq![
        ("id"@, ParamView::Text(s.1@)),
        ("name"@, ParamView::Text(s.1@)),
        ("active_state"@, ParamView::Text(s.2@)),
        ("sub_state"@, ParamView::Text(s.3@)),
    ]
    &&& w[k + 1].statement == SERVICE_LINK@
    &&& w[k + 1].kind == WriteKind::Relation
    &&& w[k + 1].params == seq![("host"@, ParamView::Text(s.0@)), ("svc_id"@, ParamView::Text(s.1@))]
}

/// Every service is mirrored by a merge of the service node followed at once
/// by the statement that links its host to it, both naming the service by
/// its name (see `mirrors_service`).
pub proof fn sync_links_each_service(data: SyncData, i: int)
    requires
        0 <= i < data.services@.len(),
    ensures
        exists|k: int| #[trigger] mirrors_service(sync_writes(data), k, data.services@[i]),
{
    let fh = |x: (String, String, String, String)| host_writes(x);
    let fp = |x: (String, String, u32, String)| process_writes(x);
    let fs = |x: (String, String, String, String)| service_writes(x);
    let fc = |x: (String, String, String, String)| container_writes(x);
    let ft = |x: (String, String, u16, String)| port_writes(x);
    let fd = |x: SyncDependency| dependency_writes(x);
    let h = data.hosts@.map_values(fh).flatten_alt();
    let p = data.processes@.map_values(fp).flatten_alt();
    let v = data.services@.map_values(fs).flatten_alt();
    let c = data.containers@.map_values(fc).flatten_alt();
    let t = data.ports@.map_values(ft).flatten_alt();
    let d = data.dependencies@.map_values(fd).flatten_alt();
    let w = sync_writes(data);
    assert(w == (h + p) + v + (c + t + d));
    lemma_occurs_in_flatten(data.services@, fs, i);
    let k = choose|k: int| #[trigger] occurs_at(v, fs(data.services@[i]), k);
    lemma_occurs_shift(h + p, v, c + t + d, fs(data.services@[i]), k);
    let part = service_writes(data.services@[i]);
    let at = (h + p).len() + k;
    assert(w[at] == part[0]);
    assert(w[at + 1] == part[1]);
    assert(mirrors_service(w, at, data.services@[i]));
}

/// The statement that mirrors the host `h` at position `k` of `w`: the merge of the host node with id, host name, system and kernel.
pub open spec fn mirrors_host(w: Seq<WriteView>, k: int, x: (String, String, String, String)) -> bool {
    &&& 0 <= k && k < w.len()
    &&& w[k].statement == HOST_MERGE@
    &&& w[k].kind == WriteKind::Node
    &&& w[k].params == seq![
        ("id"@, ParamView::Text(x.0@)),
        ("hostname"@, ParamView::Text(x.1@)),
        ("os"@, ParamView::Text(x.2@)),
        ("kernel"@, ParamView::Text(x.3@)),
    ]
}

/// Every host is mirrored by a merge of the host node with its id, name, system and kernel (see `mirrors_host`).
pub proof fn sync_mirrors_each_host(data: SyncData, i: int)
    requires
        0 <= i < data.hosts@.len(),
    ensures
        exists|k: int| #[trigger] mirrors_host(sync_writes(data), k, data.hosts@[i]),
{
    let fh = |x: (String, String, String, String)| host_writes(x);
    let fp = |x: (String, String, u32, String)| process_writes(x);
    let fs = |x: (String, String, String, String)| service_writes(x);
    let fc = |x: (String, String, String, String)| container_writes(x);
    let ft = |x: (String, String, u16, String)| port_writes(x);
    let fd = |x: SyncDependency| dependency_writes(x);
    let h = data.hosts@.map_values(fh).flatten_alt();
    let p = data.processes@.map_values(fp).flatten_alt();
    let v = data.services@.map_values(fs).flatten_alt();
    let c = data.containers@.map_values(fc).flatten_alt();
    let t = data.ports@.map_values(ft).flatten_alt();
    let d = data.dependencies@.map_values(fd).flatten_alt();
    let w = sync_writes(data);
    let pre = Seq::<WriteView>::empty();
    let post = p + v + c + t + d;
    assert(w =~= pre + h + post);
    lemma_occurs_in_flatten(data.hosts@, fh, i);
    let k = choose|k: int| #[trigger] occurs_at(h, fh(data.hosts@[i]), k);
    lemma_occurs_shift(pre, h, post, fh(data.hosts@[i]), k);
    let part = host_writes(data.hosts@[i]);
    let at = pre.len() + k;
    assert(w[at] == part[0]);
    assert(mirrors_host(w, at, data.hosts@[i]));
}

/// The statements that mirror the process `x` at position `k` of `w`: the merge of the process node with id `name:pid`, name, pid and status, then the link from its host whose `proc_id` is that same id.
pub open spec fn mirrors_process(w: Seq<WriteView>, k: int, x: (String, String, u32, String)) -> bool {
    &&& 0 <= k && k + 1 < w.len()
    &&& w[k].statement == PROCESS_MERGE@
    &&& w[k].kind == WriteKind::Node
    &&& w[k].params == seq![
        ("id"@, ParamView::Text(x.1@ + ":"@ + decimal(x.2 as nat))),
        ("name"@, ParamView::Text(x.1@)),
        ("pid"@, ParamView::Int(x.2 as i64)),
        ("status"@, ParamView::Text(x.3@)),
    ]
    &&& w[k + 1].statement == PROCESS_LINK@
    &&& w[k + 1].kind == WriteKind::Relation
    &&& w[k + 1].params == seq![
        ("host"@, ParamView::Text(x.0@)),
        ("proc_id"@, ParamView::Text(x.1@ + ":"@ + decimal(x.2 as nat))),
    ]
}

/// Every process is mirrored by a merge of its node, named `name:pid`, followed at once by the statement that links its host to it under that same id (see `mirrors_process`).
pub proof fn sync_mirrors_each_process(data: SyncData, i: int)
    requires
        0 <= i < data.processes@.len(),
    ensures
        exists|k: int| #[trigger] mirrors_process(sync_writes(data), k, data.processes@[i]),
{
    let fh = |x: (String, String, String, String)| host_writes(x);
    let fp = |x: (String, String, u32, String)| process_writes(x);
    let fs = |x: (String, String, String, String)| service_writes(x);
    let fc = |x: (String, String, String, String)| container_writes(x);
    let ft = |x: (String, String, u16, String)| port_writes(x);
    let fd = |x: SyncDependency| dependency_writes(x);
    let h = data.hosts@.map_values(fh).flatten_alt();
    let p = data.processes@.map_values(fp).flatten_alt();
    let v = data.services@.map_values(fs).flatten_alt();
    let c = data.containers@.map_values(fc).flatten_alt();
    let t = data.ports@.map_values(ft).flatten_alt();
    let d = data.dependencies@.map_values(fd).flatten_alt();
    let w = sync_writes(data);
    let pre = h;
    let post = v + c + t + d;
    assert(w =~= pre + p + post);
    lemma_occurs_in_flatten(data.processes@, fp, i);
    let k = choose|k: int| #[trigger] occurs_at(p, fp(data.processes@[i]), k);
    lemma_occurs_shift(pre, p, post, fp(data.processes@[i]), k);
    let part = process_writes(data.processes@[i]);
    let at = pre.len() + k;
    assert(w[at] == part[0]);
    assert(w[at + 1] == part[1]);
    assert(mirrors_process(w, at, data.processes@[i]));
}

/// The statements that mirror the container `x` at position `k` of `w`: the merge of the container node with its name as id and name, its image and status, then the link from its host whose `ctr_id` is that same name.
pub open spec fn mirrors_container(w: Seq<WriteView>, k: int, x: (String, String, String, String)) -> bool {
    &&& 0 <= k && k + 1 < w.len()
    &&& w[k].statement == CONTAINER_MERGE@
    &&& w[k].kind == WriteKind::Node
    &&& w[k].params == seq![
        ("id"@, ParamView::Text(x.1@)),
        ("name"@, ParamView::Text(x.1@)),
        ("image"@, ParamView::Text(x.2@)),
        ("status"@, ParamView::Text(x.3@)),
    ]
    &&& w[k + 1].statement == CONTAINER_LINK@
    &&& w[k + 1].kind == WriteKind::Relation
    &&& w[k + 1].params == seq![("host"@, ParamView::Text(x.0@)), ("ctr_id"@, ParamView::Text(x.1@))]
}

/// Every container is mirrored by a merge of its node followed at once by the statement that links its host to it, both naming the container by its name (see `mirrors_container`).
pub proof fn sync_mirrors_each_container(data: SyncData, i: int)
    requires
        0 <= i < data.containers@.len(),
    ensures
        exists|k: int| #[trigger] mirrors_container(sync_writes(data), k, data.containers@[i]),
{
    let fh = |x: (String, String, String, String)| host_writes(x);
    let fp = |x: (String, String, u32, String)| process_writes(x);
    let fs = |x: (String, String, String, String)| service_writes(x);
    let fc = |x: (String, String, String, String)| container_writes(x);
    let ft = |x: (String, String, u16, String)| port_writes(x);
    let fd = |x: SyncDependency| dependency_writes(x);
    let h = data.hosts@.map_values(fh).flatten_alt();
    let p = data.processes@.map_values(fp).flatten_alt();
    let v = data.services@.map_values(fs).flatten_alt();
    let c = data.containers@.map_values(fc).flatten_alt();
    let t = data.ports@.map_values(ft).flatten_alt();
    let d = data.dependencies@.map_values(fd).flatten_alt();
    let w = sync_writes(data);
    let pre = h + p + v;
    let post = t + d;
    assert(w =~= pre + c + post);
    lemma_occurs_in_flatten(data.containers@, fc, i);
    let k = choose|k: int| #[trigger] occurs_at(c, fc(data.containers@[i]), k);
    lemma_occurs_shift(pre, c, post, fc(data.containers@[i]), k);
    let part = container_writes(data.containers@[i]);
    let at = pre.len() + k;
    assert(w[at] == part[0]);
    assert(w[at + 1] == part[1]);
    assert(mirrors_container(w, at, data.containers@[i]));
}

/// The statement that mirrors the port `x` at position `k` of `w`: the merge of the port node with id `protocol:port`, protocol, port number and process.
pub open spec fn mirrors_port(w: Seq<WriteView>, k: int, x: (String, String, u16, String)) -> bool {
    &&& 0 <= k && k < w.len()
    &&& w[k].statement == PORT_MERGE@
    &&& w[k].kind == WriteKind::Node
    &&& w[k].params == seq![
        ("id"@, ParamView::Text(x.1@ + ":"@ + decimal(x.2 as nat))),
        ("protocol"@, ParamView::Text(x.1@)),
        ("port"@, ParamView::Int(x.2 as i64)),
        ("process"@, ParamView::Text(x.3@)),
    ]
}

/// Every port is mirrored by a merge of its node, named `protocol:port` (see `mirrors_port`).
pub proof fn sync_mirrors_each_port(data: SyncData, i: int)
    requires
        0 <= i < data.ports@.len(),
    ensures
        exists|k: int| #[trigger] mirrors_port(sync_writes(data), k, data.ports@[i]),
{
    let fh = |x: (String, String, String, String)| host_writes(x);
    let fp = |x: (String, String, u32, String)| process_writes(x);
    let fs = |x: (String, String, String, String)| service_writes(x);
    let fc = |x: (String, String, String, String)| container_writes(x);
    let ft = |x: (String, String, u16, String)| port_writes(x);
    let fd = |x: SyncDependency| dependency_writes(x);
    let h = data.hosts@.map_values(fh).flatten_alt();
    let p = data.processes@.map_values(fp).flatten_alt();
    let v = data.services@.map_values(fs).flatten_alt();
    let c = data.containers@.map_values(fc).flatten_alt();
    let t = data.ports@.map_values(ft).flatten_alt();
    let d = data.dependencies@.map_values(fd).flatten_alt();
    let w = sync_writes(data);
    let pre = h + p + v + c;
    let post = d;
    assert(w =~= pre + t + post);
    lemma_occurs_in_flatten(data.ports@, ft, i);
    let k = choose|k: int| #[trigger] occurs_at(t, ft(data.ports@[i]), k);
    lemma_occurs_shift(pre, t, post, ft(data.ports@[i]), k);
    let part = port_writes(data.ports@[i]);
    let at = pre.len() + k;
    assert(w[at] == part[0]);
    assert(mirrors_port(w, at, data.ports@[i]));
}

/// The statement that mirrors the dependency `x` at position `k` of `w`: a relation of type `relation_type` between the source and target nodes, labelled by their types and found by their ids, with the confidence and origin.
pub open spec fn mirrors_dependency(w: Seq<WriteView>, k: int, x: SyncDependency) -> bool {
    &&& 0 <= k && k < w.len()
    &&& w[k].statement == "MERGE (a:"@ + x.source_type@ + " {id: $source_id})
                 MERGE (b:"@ + x.target_type@ + " {id: $target_id})
                 MERGE (a)-[r:"@ + x.relation_type@ + "]->(b)
                 SET r.confidence = $confidence, r.origin = $origin"@
    &&& w[k].kind == WriteKind::Relation
    &&& w[k].params == seq![
        ("source_id"@, ParamView::Text(x.source_id@)),
        ("target_id"@, ParamView::Text(x.target_id@)),
        ("confidence"@, ParamView::FloatBits(x.confidence_bits)),
        ("origin"@, ParamView::Text(x.origin@)),
    ]
}

/// Every dependency is mirrored by a relation of its type from its source node to its target node, with its confidence and origin (see `mirrors_dependency`).
pub proof fn sync_mirrors_each_dependency(data: SyncData, i: int)
    requires
        0 <= i < data.dependencies@.len(),
    ensures
        exists|k: int| #[trigger] mirrors_dependency(sync_writes(data), k, data.dependencies@[i]),
{
    let fh = |x: (String, String, String, String)| host_writes(x);
    let fp = |x: (String, String, u32, String)| process_writes(x);
    let fs = |x: (String, String, String, String)| service_writes(x);
    let fc = |x: (String, String, String, String)| container_writes(x);
    let ft = |x: (String, String, u16, String)| port_writes(x);
    let fd = |x: SyncDependency| dependency_writes(x);
    let h = data.hosts@.map_values(fh).flatten_alt();
    let p = data.processes@.map_values(fp).flatten_alt();
    let v = data.services@.map_values(fs).flatten_alt();
    let c = data.containers@.map_values(fc).flatten_alt();
    let t = data.ports@.map_values(ft).flatten_alt();
    let d = data.dependencies@.map_values(fd).flatten_alt();
    let w = sync_writes(data);
    let pre = h + p + v + c + t;
    let post = Seq::<WriteView>::empty();
    assert(w =~= pre + d + post);
    lemma_occurs_in_flatten(data.dependencies@, fd, i);
    let k = choose|k: int| #[trigger] occurs_at(d, fd(data.dependencies@[i]), k);
    lemma_occurs_shift(pre, d, post, fd(data.dependencies@[i]), k);
    let part = dependency_writes(data.dependencies@[i]);
    let at = pre.len() + k;
    assert(w[at] == part[0]);
    assert(mirrors_dependency(w, at, data.dependencies@[i]));
}

} // verus!
