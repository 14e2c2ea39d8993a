//! Readers for what the host's tools print, and the dependency heuristics
//! over what they found.

pub mod docker;
pub mod linux;
pub mod ports;
pub mod systemd;

use vstd::prelude::*;
use crate::models::{
    DepView, Dependency, DockerContainer, ListeningPort, ProcessInfo, SystemdService, dep_views,
};
use crate::text::{
    chars_of, contains_str, contains_sub, decimal, lowercase, push_decimal, remove_all,
    remove_all_str, to_lowercase,
};

verus! {

/// The process names that make a process worth linking to its parent.
pub open spec fn managed_names() -> Seq<Seq<char>> {
    seq![
        "nginx"@,
        "postgres"@,
        "postmaster"@,
        "docker"@,
        "containerd"@,
        "sshd"@,
        "mysqld"@,
        "redis-server"@,
        "mongod"@,
        "node"@,
        "java"@,
        "python3"@,
        "apache2"@,
        "httpd"@,
        "haproxy"@,
    ]
}

fn managed_name(i: usize) -> (r: &'static str)
    requires
        i < 15,
    ensures
        r@ == managed_names()[i as int],
{
    if i == 0 {
        "nginx"
    } else if i == 1 {
        "postgres"
    } else if i == 2 {
        "postmaster"
    } else if i == 3 {
        "docker"
    } else if i == 4 {
        "containerd"
    } else if i == 5 {
        "sshd"
    } else if i == 6 {
        "mysqld"
    } else if i == 7 {
        "redis-server"
    } else if i == 8 {
        "mongod"
    } else if i == 9 {
        "node"
    } else if i == 10 {
        "java"
    } else if i == 11 {
        "python3"
    } else if i == 12 {
        "apache2"
    } else if i == 13 {
        "httpd"
    } else {
        "haproxy"
    }
}

/// The `protocol:port` id of a port node.
pub open spec fn port_node_id(protocol: Seq<char>, port: u16) -> Seq<char> {
    protocol + ":"@ + decimal(port as nat)
}

/// The `name:pid` id of a process node.
pub open spec fn process_node_id(name: Seq<char>, pid: u32) -> Seq<char> {
    name + ":"@ + decimal(pid as nat)
}

/// The text `a:n`.
pub fn join_number(a: &str, n: u64) -> (r: String)
    ensures
        r@ == a@ + ":"@ + decimal(n as nat),
{
    let mut r = String::from_str(a);
    r.append(":");
    push_decimal(&mut r, n);
    r
}

/// A dependency found by the scan heuristics.
pub open spec fn scan_dep(
    source_type: Seq<char>,
    source_id: Seq<char>,
    target_type: Seq<char>,
    target_id: Seq<char>,
    relation_type: Seq<char>,
    confidence: u32,
) -> DepView {
    DepView {
        source_type,
        source_id,
        target_type,
        target_id,
        relation_type,
        confidence,
        origin: "auto-scan"@,
    }
}

fn make_dep(
    source_type: &str,
    source_id: String,
    target_type: &str,
    target_id: String,
    relation_type: &str,
    confidence: u32,
) -> (d: Dependency)
    ensures
        d@ == scan_dep(
            source_type@,
            source_id@,
            target_type@,
            target_id@,
            relation_type@,
            confidence,
        ),
{
    Dependency {
        source_type: String::from_str(source_type),
        source_id,
        target_type: String::from_str(target_type),
        target_id,
        relation_type: String::from_str(relation_type),
        confidence,
        origin: String::from_str("auto-scan"),
    }
}

/// The unit name of a service without `.service`, lowercase.
pub open spec fn service_key(name: Seq<char>) -> Seq<char> {
    remove_all(lowercase(name), ".service"@)
}

/// The service `svc` and the process name `pl` (lowercase) belong together:
/// one contains the other.
pub open spec fn service_matches(pl: Seq<char>, svc: SystemdService) -> bool {
    contains_sub(pl, service_key(svc.name@)) || contains_sub(service_key(svc.name@), pl)
}

/// The services among `services` that own the port `port` whose process
/// name, lowercase, is `pl`: one `LISTENS_ON` link each, in order.
pub open spec fn service_links(pl: Seq<char>, port: ListeningPort, services: Seq<SystemdService>) -> Seq<DepView>
    decreases services.len(),
{
    if services.len() == 0 {
        Seq::empty()
    } else {
        let svc = services.last();
        service_links(pl, port, services.drop_last()) + if service_matches(pl, svc) {
            seq![
                scan_dep(
                    "Service"@,
                    remove_all(svc.name@, ".service"@),
                    "Port"@,
                    port_node_id(port.protocol@, port.port),
                    "LISTENS_ON"@,
                    70,
                ),
            ]
        } else {
            Seq::empty()
        }
    }
}

/// The process `p` listens under the process name `pl` (lowercase): its
/// lowercase name equals `pl` or occurs in it.
pub open spec fn process_matches(pl: Seq<char>, p: ProcessInfo) -> bool {
    lowercase(p.name@) == pl || contains_sub(pl, lowercase(p.name@))
}

/// The position of the first process that listens under `pl`.
pub open spec fn first_listener(pl: Seq<char>, processes: Seq<ProcessInfo>) -> Option<int>
    decreases processes.len(),
{
    if processes.len() == 0 {
        None
    } else if process_matches(pl, processes[0]) {
        Some(0)
    } else {
        match first_listener(pl, processes.drop_first()) {
            Some(k) => Some(k + 1),
            None => None,
        }
    }
}

/// The links of one port: nothing when it names no process; otherwise its
/// services, then its first listening process (confidence 0.60).
pub open spec fn port_links(
    port: ListeningPort,
    services: Seq<SystemdService>,
    processes: Seq<ProcessInfo>,
) -> Seq<DepView> {
    if port.process_name@.len() == 0 {
        Seq::empty()
    } else {
        let pl = lowercase(port.process_name@);
        service_links(pl, port, services) + match first_listener(pl, processes) {
            Some(i) => seq![
                scan_dep(
                    "Process"@,
                    process_node_id(processes[i].name@, processes[i].pid),
                    "Port"@,
                    port_node_id(port.protocol@, port.port),
                    "LISTENS_ON"@,
                    60,
                ),
            ],
            None => Seq::empty(),
        }
    }
}

/// The links of all ports, in order.
pub open spec fn all_port_links(
    ports: Seq<ListeningPort>,
    services: Seq<SystemdService>,
    processes: Seq<ProcessInfo>,
) -> Seq<DepView>
    decreases ports.len(),
{
    if ports.len() == 0 {
        Seq::empty()
    } else {
        all_port_links(ports.drop_last(), services, processes) + port_links(
            ports.last(),
            services,
            processes,
        )
    }
}

/// The lowercase name of `p` mentions one of the managed names.
pub open spec fn is_managed(p: ProcessInfo) -> bool {
    exists|k: int| 0 <= k < 15 && #[trigger] contains_sub(lowercase(p.name@), managed_names()[k])
}

/// The position of the first process whose pid is `pid`.
pub open spec fn first_with_pid(processes: Seq<ProcessInfo>, pid: u32) -> Option<int>
    decreases processes.len(),
{
    if processes.len() == 0 {
        None
    } else if processes[0].pid == pid {
        Some(0)
    } else {
        match first_with_pid(processes.drop_first(), pid) {
            Some(k) => Some(k + 1),
            None => None,
        }
    }
}

/// The parent link of `p`: for a managed process whose parent pid is above 1
/// and belongs to a scanned process, a `MANAGES_PROCESS` link from that
/// parent (confidence 0.80).
pub open spec fn parent_link(p: ProcessInfo, processes: Seq<ProcessInfo>) -> Option<DepView> {
    if !is_managed(p) {
        None
    } else {
        match p.ppid {
            Some(pp) => if pp > 1 {
                match first_with_pid(processes, pp) {
                    Some(j) => Some(
                        scan_dep(
                            "Process"@,
                            process_node_id(processes[j].name@, processes[j].pid),
                            "Process"@,
                            process_node_id(p.name@, p.pid),
                            "MANAGES_PROCESS"@,
                            80,
                        ),
                    ),
                    None => None,
                }
            } else {
                None
            },
            None => None,
        }
    }
}

/// The parent links of the processes `ps`, in order.
pub open spec fn parent_links(ps: Seq<ProcessInfo>, processes: Seq<ProcessInfo>) -> Seq<DepView>
    decreases ps.len(),
{
    if ps.len() == 0 {
        Seq::empty()
    } else {
        parent_links(ps.drop_last(), processes) + match parent_link(ps.last(), processes) {
            Some(d) => seq![d],
            None => Seq::empty(),
        }
    }
}

/// All dependencies that the scan heuristics find.
pub open spec fn scan_dependencies(
    processes: Seq<ProcessInfo>,
    services: Seq<SystemdService>,
    ports: Seq<ListeningPort>,
) -> Seq<DepView> {
    all_port_links(ports, services, processes) + parent_links(processes, processes)
}


/// A dependency as the scan heuristics record it: origin `auto-scan` and a
/// confidence of 0.60, 0.70 or 0.80.
pub open spec fn auto_scan_dep(d: DepView) -> bool {
    d.origin == "auto-scan"@ && (d.confidence == 60 || d.confidence == 70 || d.confidence == 80)
}

/// Every dependency of `s` is an `auto_scan_dep`.
pub open spec fn all_auto_scan(s: Seq<DepView>) -> bool {
    forall|k: int| 0 <= k < s.len() ==> auto_scan_dep(#[trigger] s[k])
}

proof fn lemma_all_auto_concat(a: Seq<DepView>, b: Seq<DepView>)
    requires
        all_auto_scan(a),
        all_auto_scan(b),
    ensures
        all_auto_scan(a + b),
{
    assert forall|k: int| 0 <= k < (a + b).len() implies auto_scan_dep(#[trigger] (a + b)[k]) by {
        if k < a.len() {
            assert((a + b)[k] == a[k]);
        } else {
            assert((a + b)[k] == b[k - a.len()]);
        }
    }
}

proof fn lemma_service_links_auto(pl: Seq<char>, port: ListeningPort, services: Seq<SystemdService>)
    ensures
        all_auto_scan(service_links(pl, port, services)),
    decreases services.len(),
{
    if services.len() > 0 {
        lemma_service_links_auto(pl, port, services.drop_last());
        let svc = services.last();
        let tail: Seq<DepView> = if service_matches(pl, svc) {
            seq![
                scan_dep(
                    "Service"@,
                    remove_all(svc.name@, ".service"@),
                    "Port"@,
                    port_node_id(port.protocol@, port.port),
                    "LISTENS_ON"@,
                    70,
                ),
            ]
        } else {
            Seq::empty()
        };
        lemma_all_auto_concat(service_links(pl, port, services.drop_last()), tail);
    }
}

proof fn lemma_port_links_auto(ports: Seq<ListeningPort>, services: Seq<SystemdService>, processes: Seq<ProcessInfo>)
    ensures
        all_auto_scan(all_port_links(ports, services, processes)),
    decreases ports.len(),
{
    if ports.len() > 0 {
        lemma_port_links_auto(ports.drop_last(), services, processes);
        let port = ports.last();
        if port.process_name@.len() > 0 {
            let pl = lowercase(port.process_name@);
            lemma_service_links_auto(pl, port, services);
            let tail: Seq<DepView> = match first_listener(pl, processes) {
                Some(i) => seq![
                    scan_dep(
                        "Process"@,
                        process_node_id(processes[i].name@, processes[i].pid),
                        "Port"@,
                        port_node_id(port.protocol@, port.port),
                        "LISTENS_ON"@,
                        60,
                    ),
                ],
                None => Seq::empty(),
            };
            lemma_all_auto_concat(service_links(pl, port, services), tail);
        }
        lemma_all_auto_concat(
            all_port_links(ports.drop_last(), services, processes),
            port_links(port, services, processes),
        );
    }
}

proof fn lemma_parent_links_auto(ps: Seq<ProcessInfo>, processes: Seq<ProcessInfo>)
    ensures
        all_auto_scan(parent_links(ps, processes)),
    decreases ps.len(),
{
    if ps.len() > 0 {
        lemma_parent_links_auto(ps.drop_last(), processes);
        let tail: Seq<DepView> = match parent_link(ps.last(), processes) {
            Some(d) => seq![d],
            None => Seq::empty(),
        };
        lemma_all_auto_concat(parent_links(ps.drop_last(), processes), tail);
    }
}

/// Every dependency that the scan heuristics find is recorded with origin
/// `auto-scan` and a confidence of 0.60, 0.70 or 0.80.
pub proof fn scan_dependencies_are_auto_scan(
    processes: Seq<ProcessInfo>,
    services: Seq<SystemdService>,
    ports: Seq<ListeningPort>,
)
    ensures
        all_auto_scan(scan_dependencies(processes, services, ports)),
{
    lemma_port_links_auto(ports, services, processes);
    lemma_parent_links_auto(processes, processes);
    lemma_all_auto_concat(all_port_links(ports, services, processes), parent_links(processes, processes));
}

fn find_listener(pl: &String, processes: &[ProcessInfo]) -> (r: Option<usize>)
    ensures
        match r {
            Some(i) => first_listener(pl@, processes@) == Some(i as int) && i < processes@.len(),
            None => first_listener(pl@, processes@) is None,
        },
{
    let mut i: usize = 0;
    assert(processes@.skip(0) =~= processes@);
    while i < processes.len()
        invariant
            i <= processes@.len(),
            first_listener(pl@, processes@) == match first_listener(pl@, processes@.skip(i as int)) {
                Some(k) => Some(k + i),
                None => None,
            },
        decreases processes@.len() - i,
    {
        let name = to_lowercase(processes[i].name.as_str());
        assert(processes@.skip(i as int)[0] == processes@[i as int]);
        if name == *pl || contains_str(pl.as_str(), name.as_str()) {
            return Some(i);
        }
        assert(processes@.skip(i as int).drop_first() =~= processes@.skip(i + 1));
        i = i + 1;
    }
    None
}

fn find_pid(processes: &[ProcessInfo], pid: u32) -> (r: Option<usize>)
    ensures
        match r {
            Some(i) => first_with_pid(processes@, pid) == Some(i as int) && i < processes@.len(),
            None => first_with_pid(processes@, pid) is None,
        },
{
    let mut i: usize = 0;
    assert(processes@.skip(0) =~= processes@);
    while i < processes.len()
        invariant
            i <= processes@.len(),
            first_with_pid(processes@, pid) == match first_with_pid(processes@.skip(i as int), pid) {
                Some(k) => Some(k + i),
                None => None,
            },
        decreases processes@.len() - i,
    {
        assert(processes@.skip(i as int)[0] == processes@[i as int]);
        if processes[i].pid == pid {
            return Some(i);
        }
        assert(processes@.skip(i as int).drop_first() =~= processes@.skip(i + 1));
        i = i + 1;
    }
    None
}

fn managed(p: &ProcessInfo) -> (b: bool)
    ensures
        b == is_managed(*p),
{
    let l = to_lowercase(p.name.as_str());
    let mut k: usize = 0;
    while k < 15
        invariant
            k <= 15,
            l@ == lowercase(p.name@),
            forall|m: int| 0 <= m < k ==> !#[trigger] contains_sub(lowercase(p.name@), managed_names()[m]),
        decreases 15 - k,
    {
        if contains_str(l.as_str(), managed_name(k)) {
            return true;
        }
        k = k + 1;
    }
    false
}

/// Finds dependencies in what a scan collected: each port whose process name
/// is known is linked to the services whose unit name (lowercase, without
/// `.service`) and that process name contain one another, and to the first
/// process that listens under that name; each process of a well-known
/// component is linked to its parent process when the parent pid is above 1
/// and belongs to a scanned process.  Containers are not used.
pub fn detect_dependencies(
    processes: &[ProcessInfo],
    services: &[SystemdService],
    _containers: &[DockerContainer],
    listening: &[ListeningPort],
) -> (deps: Vec<Dependency>)
    ensures
        dep_views(deps@) == scan_dependencies(processes@, services@, listening@),
{
    let mut deps: Vec<Dependency> = Vec::new();
    let mut i: usize = 0;
    assert(listening@.take(0) =~= Seq::<ListeningPort>::empty());
    while i < listening.len()
        invariant
            i <= listening@.len(),
            dep_views(deps@) =~= all_port_links(listening@.take(i as int), services@, processes@),
        decreases listening@.len() - i,
    {
        let port = &listening[i];
        assert(listening@.take(i + 1).drop_last() =~= listening@.take(i as int));
        assert(listening@.take(i + 1).last() == *port);
        let ghost before = dep_views(deps@);
        if chars_of(port.process_name.as_str()).len() > 0 {
            let pl = to_lowercase(port.process_name.as_str());
            let mut j: usize = 0;
            assert(services@.take(0) =~= Seq::<SystemdService>::empty());
            while j < services.len()
                invariant
                    j <= services@.len(),
                    pl@ == lowercase(port.process_name@),
                    dep_views(deps@) =~= before + service_links(pl@, *port, services@.take(j as int)),
                decreases services@.len() - j,
            {
                let svc = &services[j];
                assert(services@.take(j + 1).drop_last() =~= services@.take(j as int));
                assert(services@.take(j + 1).last() == *svc);
                let lower = to_lowercase(svc.name.as_str());
                let key = remove_all_str(lower.as_str(), ".service");
                if contains_str(pl.as_str(), key.as_str()) || contains_str(key.as_str(), pl.as_str()) {
                    let d = make_dep(
                        "Service",
                        remove_all_str(svc.name.as_str(), ".service"),
                        "Port",
                        join_number(port.protocol.as_str(), port.port as u64),
                        "LISTENS_ON",
                        70,
                    );
                    let ghost prev = deps@;
                    deps.push(d);
                    assert(dep_views(deps@) =~= dep_views(prev).push(d@));
                }
                assert(service_links(pl@, *port, services@.take(j + 1)) =~= service_links(
                    pl@,
                    *port,
                    services@.take(j as int),
                ) + if service_matches(pl@, *svc) {
                    seq![
                        scan_dep(
                            "Service"@,
                            remove_all(svc.name@, ".service"@),
                            "Port"@,
                            port_node_id(port.protocol@, port.port),
                            "LISTENS_ON"@,
                            70,
                        ),
                    ]
                } else {
                    Seq::empty()
                });
                j = j + 1;
            }
            assert(services@.take(j as int) =~= services@);
            match find_listener(&pl, processes) {
                Some(k) => {
                    let p = &processes[k];
                    let d = make_dep(
                        "Process",
                        join_number(p.name.as_str(), p.pid as u64),
                        "Port",
                        join_number(port.protocol.as_str(), port.port as u64),
                        "LISTENS_ON",
                        60,
                    );
                    let ghost prev = deps@;
                    deps.push(d);
                    assert(dep_views(deps@) =~= dep_views(prev).push(d@));
                },
                None => {},
            }
        }
        i = i + 1;
    }
    assert(listening@.take(i as int) =~= listening@);
    let ghost port_part = dep_views(deps@);
    let mut k: usize = 0;
    assert(processes@.take(0) =~= Seq::<ProcessInfo>::empty());
    while k < processes.len()
        invariant
            k <= processes@.len(),
            dep_views(deps@) =~= port_part + parent_links(processes@.take(k as int), processes@),
        decreases processes@.len() - k,
    {
        let p = &processes[k];
        assert(processes@.take(k + 1).drop_last() =~= processes@.take(k as int));
        assert(processes@.take(k + 1).last() == *p);
        if managed(p) {
            match p.ppid {
                Some(pp) => {
                    if pp > 1 {
                        match find_pid(processes, pp) {
                            Some(j) => {
                                let parent = &processes[j];
                                let d = make_dep(
                                    "Process",
                                    join_number(parent.name.as_str(), parent.pid as u64),
                                    "Process",
                                    join_number(p.name.as_str(), p.pid as u64),
                                    "MANAGES_PROCESS",
                                    80,
                                );
                                let ghost prev = deps@;
                                deps.push(d);
                                assert(dep_views(deps@) =~= dep_views(prev).push(d@));
                            },
                            None => {},
                        }
                    }
                },
                None => {},
            }
        }
        k = k + 1;
    }
    assert(processes@.take(k as int) =~= processes@);
    deps
}

proof fn lemma_contains_left(a: Seq<DepView>, b: Seq<DepView>, x: DepView)
    requires
        a.contains(x),
    ensures
        (a + b).contains(x),
{
    let k = choose|k: int| 0 <= k < a.len() && a[k] == x;
    assert((a + b)[k] == x);
}

proof fn lemma_contains_right(a: Seq<DepView>, b: Seq<DepView>, x: DepView)
    requires
        b.contains(x),
    ensures
        (a + b).contains(x),
{
    let k = choose|k: int| 0 <= k < b.len() && b[k] == x;
    assert((a + b)[a.len() + k] == x);
}

proof fn lemma_service_link_in(pl: Seq<char>, port: ListeningPort, services: Seq<SystemdService>, j: int)
    requires
        0 <= j < services.len(),
        contains_sub(pl, remove_all(lowercase(services[j].name@), ".service"@)) || contains_sub(
            remove_all(lowercase(services[j].name@), ".service"@),
            pl,
        ),
    ensures
        service_links(pl, port, services).contains(
            DepView {
                source_type: "Service"@,
                source_id: remove_all(services[j].name@, ".service"@),
                target_type: "Port"@,
                target_id: port.protocol@ + ":"@ + decimal(port.port as nat),
                relation_type: "LISTENS_ON"@,
                confidence: 70,
                origin: "auto-scan"@,
            },
        ),
    decreases services.len(),
{
    let x = DepView {
        source_type: "Service"@,
        source_id: remove_all(services[j].name@, ".service"@),
        target_type: "Port"@,
        target_id: port.protocol@ + ":"@ + decimal(port.port as nat),
        relation_type: "LISTENS_ON"@,
        confidence: 70,
        origin: "auto-scan"@,
    };
    let svc = services.last();
    let tail = if service_matches(pl, svc) {
        seq![
            scan_dep(
                "Service"@,
                remove_all(svc.name@, ".service"@),
                "Port"@,
                port_node_id(port.protocol@, port.port),
                "LISTENS_ON"@,
                70,
            ),
        ]
    } else {
        Seq::empty()
    };
    if j == services.len() - 1 {
        assert(tail[0] == x);
        assert(tail.contains(x));
        lemma_contains_right(service_links(pl, port, services.drop_last()), tail, x);
    } else {
        assert(services.drop_last()[j] == services[j]);
        lemma_service_link_in(pl, port, services.drop_last(), j);
        lemma_contains_left(service_links(pl, port, services.drop_last()), tail, x);
    }
}

proof fn lemma_port_service_link_in(
    ports: Seq<ListeningPort>,
    services: Seq<SystemdService>,
    processes: Seq<ProcessInfo>,
    i: int,
    j: int,
)
    requires
        0 <= i < ports.len(),
        0 <= j < services.len(),
        ports[i].process_name@.len() > 0,
        contains_sub(
            lowercase(ports[i].process_name@),
            remove_all(lowercase(services[j].name@), ".service"@),
        ) || contains_sub(
            remove_all(lowercase(services[j].name@), ".service"@),
            lowercase(ports[i].process_name@),
        ),
    ensures
        all_port_links(ports, services, processes).contains(
            DepView {
                source_type: "Service"@,
                source_id: remove_all(services[j].name@, ".service"@),
                target_type: "Port"@,
                target_id: ports[i].protocol@ + ":"@ + decimal(ports[i].port as nat),
                relation_type: "LISTENS_ON"@,
                confidence: 70,
                origin: "auto-scan"@,
            },
        ),
    decreases ports.len(),
{
    let x = DepView {
        source_type: "Service"@,
        source_id: remove_all(services[j].name@, ".service"@),
        target_type: "Port"@,
        target_id: ports[i].protocol@ + ":"@ + decimal(ports[i].port as nat),
        relation_type: "LISTENS_ON"@,
        confidence: 70,
        origin: "auto-scan"@,
    };
    let rest = all_port_links(ports.drop_last(), services, processes);
    if i == ports.len() - 1 {
        let port = ports[i];
        let pl = lowercase(port.process_name@);
        lemma_service_link_in(pl, port, services, j);
        let tail = match first_listener(pl, processes) {
            Some(k) => seq![
                scan_dep(
                    "Process"@,
                    process_node_id(processes[k].name@, processes[k].pid),
                    "Port"@,
                    port_node_id(port.protocol@, port.port),
                    "LISTENS_ON"@,
                    60,
                ),
            ],
            None => Seq::empty(),
        };
        lemma_contains_left(service_links(pl, port, services), tail, x);
        lemma_contains_right(rest, port_links(port, services, processes), x);
    } else {
        assert(ports.drop_last()[i] == ports[i]);
        lemma_port_service_link_in(ports.drop_last(), services, processes, i, j);
        lemma_contains_left(rest, port_links(ports.last(), services, processes), x);
    }
}

/// A service is linked to every port whose process it names: for a port
/// with a process name and a service whose lowercase unit name without
/// `.service` contains the lowercase process name, or is contained in it,
/// the scan finds the `LISTENS_ON` link from the service (its unit name
/// without `.service`) to the port (`protocol:port`) with confidence 0.70.
pub proof fn services_listen_on_their_ports(
    processes: Seq<ProcessInfo>,
    services: Seq<SystemdService>,
    ports: Seq<ListeningPort>,
    i: int,
    j: int,
)
    requires
        0 <= i < ports.len(),
        0 <= j < services.len(),
        ports[i].process_name@.len() > 0,
        contains_sub(
            lowercase(ports[i].process_name@),
            remove_all(lowercase(services[j].name@), ".service"@),
        ) || contains_sub(
            remove_all(lowercase(services[j].name@), ".service"@),
            lowercase(ports[i].process_name@),
        ),
    ensures
        scan_dependencies(processes, services, ports).contains(
            DepView {
                source_type: "Service"@,
                source_id: remove_all(services[j].name@, ".service"@),
                target_type: "Port"@,
                target_id: ports[i].protocol@ + ":"@ + decimal(ports[i].port as nat),
                relation_type: "LISTENS_ON"@,
                confidence: 70,
                origin: "auto-scan"@,
            },
        ),
{
    lemma_port_service_link_in(ports, services, processes, i, j);
    lemma_contains_left(
        all_port_links(ports, services, processes),
        parent_links(processes, processes),
        DepView {
            source_type: "Service"@,
            source_id: remove_all(services[j].name@, ".service"@),
            target_type: "Port"@,
            target_id: ports[i].protocol@ + ":"@ + decimal(ports[i].port as nat),
            relation_type: "LISTENS_ON"@,
            confidence: 70,
            origin: "auto-scan"@,
        },
    );
}

proof fn lemma_first_listener(pl: Seq<char>, processes: Seq<ProcessInfo>, j: int)
    requires
        0 <= j < processes.len(),
        lowercase(processes[j].name@) == pl || contains_sub(pl, lowercase(processes[j].name@)),
    ensures
        first_listener(pl, processes) matches Some(q) && 0 <= q <= j && (lowercase(processes[q].name@) == pl
            || contains_sub(pl, lowercase(processes[q].name@))) && forall|r: int|
            0 <= r < q ==> !(lowercase(#[trigger] processes[r].name@) == pl || contains_sub(
                pl,
                lowercase(processes[r].name@),
            )),
    decreases processes.len(),
{
    if !process_matches(pl, processes[0]) {
        assert(j > 0);
        assert(processes.drop_first()[j - 1] == processes[j]);
        lemma_first_listener(pl, processes.drop_first(), j - 1);
        let q = first_listener(pl, processes.drop_first()).unwrap();
        assert(processes.drop_first()[q] == processes[q + 1]);
        assert forall|r: int| 0 <= r < q + 1 implies !(lowercase(#[trigger] processes[r].name@) == pl
            || contains_sub(pl, lowercase(processes[r].name@))) by {
            if r > 0 {
                assert(processes[r] == processes.drop_first()[r - 1]);
            }
        }
    }
}

proof fn lemma_port_process_link_in(
    ports: Seq<ListeningPort>,
    services: Seq<SystemdService>,
    processes: Seq<ProcessInfo>,
    i: int,
    q: int,
)
    requires
        0 <= i < ports.len(),
        ports[i].process_name@.len() > 0,
        first_listener(lowercase(ports[i].process_name@), processes) == Some(q),
    ensures
        all_port_links(ports, services, processes).contains(
            DepView {
                source_type: "Process"@,
                source_id: processes[q].name@ + ":"@ + decimal(processes[q].pid as nat),
                target_type: "Port"@,
                target_id: ports[i].protocol@ + ":"@ + decimal(ports[i].port as nat),
                relation_type: "LISTENS_ON"@,
                confidence: 60,
                origin: "auto-scan"@,
            },
        ),
    decreases ports.len(),
{
    let x = DepView {
        source_type: "Process"@,
        source_id: processes[q].name@ + ":"@ + decimal(processes[q].pid as nat),
        target_type: "Port"@,
        target_id: ports[i].protocol@ + ":"@ + decimal(ports[i].port as nat),
        relation_type: "LISTENS_ON"@,
        confidence: 60,
        origin: "auto-scan"@,
    };
    let rest = all_port_links(ports.drop_last(), services, processes);
    if i == ports.len() - 1 {
        let port = ports[i];
        let pl = lowercase(port.process_name@);
        let tail = seq![
            scan_dep(
                "Process"@,
                process_node_id(processes[q].name@, processes[q].pid),
                "Port"@,
                port_node_id(port.protocol@, port.port),
                "LISTENS_ON"@,
                60,
            ),
        ];
        assert(tail[0] == x);
        assert(tail.contains(x));
        lemma_contains_right(service_links(pl, port, services), tail, x);
        lemma_contains_right(rest, port_links(port, services, processes), x);
    } else {
        assert(ports.drop_last()[i] == ports[i]);
        lemma_port_process_link_in(ports.drop_last(), services, processes, i, q);
        lemma_contains_left(rest, port_links(ports.last(), services, processes), x);
    }
}

/// A port with a process name is linked to the first scanned process that
/// listens under that name (its lowercase name equals the lowercase process
/// name of the port or occurs in it): whenever some process does, the scan
/// finds the `LISTENS_ON` link from the first such process (`name:pid`) to
/// the port (`protocol:port`) with confidence 0.60.
pub proof fn processes_listen_on_their_ports(
    processes: Seq<ProcessInfo>,
    services: Seq<SystemdService>,
    ports: Seq<ListeningPort>,
    i: int,
    j: int,
)
    requires
        0 <= i < ports.len(),
        0 <= j < processes.len(),
        ports[i].process_name@.len() > 0,
        lowercase(processes[j].name@) == lowercase(ports[i].process_name@) || contains_sub(
            lowercase(ports[i].process_name@),
            lowercase(processes[j].name@),
        ),
    ensures
        exists|q: int|
            0 <= q <= j && (forall|r: int|
                0 <= r < q ==> !(lowercase(#[trigger] processes[r].name@) == lowercase(
                    ports[i].process_name@,
                ) || contains_sub(lowercase(ports[i].process_name@), lowercase(processes[r].name@))))
                && #[trigger] scan_dependencies(processes, services, ports).contains(
                DepView {
                    source_type: "Process"@,
                    source_id: processes[q].name@ + ":"@ + decimal(processes[q].pid as nat),
                    target_type: "Port"@,
                    target_id: ports[i].protocol@ + ":"@ + decimal(ports[i].port as nat),
                    relation_type: "LISTENS_ON"@,
                    confidence: 60,
                    origin: "auto-scan"@,
                },
            ),
{
    let pl = lowercase(ports[i].process_name@);
    lemma_first_listener(pl, processes, j);
    let q = first_listener(pl, processes).unwrap();
    lemma_port_process_link_in(ports, services, processes, i, q);
    let x = DepView {
        source_type: "Process"@,
        source_id: processes[q].name@ + ":"@ + decimal(processes[q].pid as nat),
        target_type: "Port"@,
        target_id: ports[i].protocol@ + ":"@ + decimal(ports[i].port as nat),
        relation_type: "LISTENS_ON"@,
        confidence: 60,
        origin: "auto-scan"@,
    };
    lemma_contains_left(all_port_links(ports, services, processes), parent_links(processes, processes), x);
    assert(scan_dependencies(processes, services, ports).contains(x));
}

proof fn lemma_first_with_pid(processes: Seq<ProcessInfo>, pid: u32, j: int)
    requires
        0 <= j < processes.len(),
        processes[j].pid == pid,
    ensures
        first_with_pid(processes, pid) matches Some(q) && 0 <= q <= j && processes[q].pid == pid && forall|r: int|
            0 <= r < q ==> (#[trigger] processes[r]).pid != pid,
    decreases processes.len(),
{
    if processes[0].pid != pid {
        assert(processes.drop_first()[j - 1] == processes[j]);
        lemma_first_with_pid(processes.drop_first(), pid, j - 1);
        let q = first_with_pid(processes.drop_first(), pid).unwrap();
        assert(processes.drop_first()[q] == processes[q + 1]);
        assert forall|r: int| 0 <= r < q + 1 implies (#[trigger] processes[r]).pid != pid by {
            if r > 0 {
                assert(processes[r] == processes.drop_first()[r - 1]);
            }
        }
    }
}

proof fn lemma_parent_link_in(ps: Seq<ProcessInfo>, processes: Seq<ProcessInfo>, i: int, d: DepView)
    requires
        0 <= i < ps.len(),
        parent_link(ps[i], processes) == Some(d),
    ensures
        parent_links(ps, processes).contains(d),
    decreases ps.len(),
{
    let rest = parent_links(ps.drop_last(), processes);
    let tail = match parent_link(ps.last(), processes) {
        Some(x) => seq![x],
        None => Seq::empty(),
    };
    if i == ps.len() - 1 {
        assert(tail[0] == d);
        assert(tail.contains(d));
        lemma_contains_right(rest, tail, d);
    } else {
        assert(ps.drop_last()[i] == ps[i]);
        lemma_parent_link_in(ps.drop_last(), processes, i, d);
        lemma_contains_left(rest, tail, d);
    }
}

/// A process of a well-known component (its lowercase name mentions one of
/// the managed names) whose parent pid is above 1 and belongs to a scanned
/// process is linked to its parent: the scan finds the `MANAGES_PROCESS`
/// link from the first scanned process with that pid (`name:pid`) to the
/// process (`name:pid`) with confidence 0.80.
pub proof fn managed_processes_link_to_parents(
    processes: Seq<ProcessInfo>,
    services: Seq<SystemdService>,
    ports: Seq<ListeningPort>,
    i: int,
    j: int,
    k: int,
)
    requires
        0 <= i < processes.len(),
        0 <= j < processes.len(),
        0 <= k < 15,
        contains_sub(lowercase(processes[i].name@), managed_names()[k]),
        processes[i].ppid == Some(processes[j].pid),
        processes[j].pid > 1,
    ensures
        exists|q: int|
            0 <= q <= j && processes[q].pid == processes[j].pid && (forall|r: int|
                0 <= r < q ==> (#[trigger] processes[r]).pid != processes[j].pid)
                && #[trigger] scan_dependencies(processes, services, ports).contains(
                DepView {
                    source_type: "Process"@,
                    source_id: processes[q].name@ + ":"@ + decimal(processes[q].pid as nat),
                    target_type: "Process"@,
                    target_id: processes[i].name@ + ":"@ + decimal(processes[i].pid as nat),
                    relation_type: "MANAGES_PROCESS"@,
                    confidence: 80,
                    origin: "auto-scan"@,
                },
            ),
{
    let pp = processes[j].pid;
    lemma_first_with_pid(processes, pp, j);
    let q = first_with_pid(processes, pp).unwrap();
    let x = DepView {
        source_type: "Process"@,
        source_id: processes[q].name@ + ":"@ + decimal(processes[q].pid as nat),
        target_type: "Process"@,
        target_id: processes[i].name@ + ":"@ + decimal(processes[i].pid as nat),
        relation_type: "MANAGES_PROCESS"@,
        confidence: 80,
        origin: "auto-scan"@,
    };
    assert(is_managed(processes[i]));
    assert(parent_link(processes[i], processes) == Some(x));
    lemma_parent_link_in(processes, processes, i, x);
    lemma_contains_right(all_port_links(ports, services, processes), parent_links(processes, processes), x);
    assert(scan_dependencies(processes, services, ports).contains(x));
}

} // verus!
