use rootmap::collectors::detect_dependencies;
use rootmap::collectors::docker::parse_docker_json;
use rootmap::collectors::linux::{detect_important_processes, host_from_system};
use rootmap::collectors::ports::{
    parse_hex_ip, parse_proc_net_tcp, parse_process_field, parse_ss_output,
};
use rootmap::collectors::systemd::parse_systemctl_output;
use rootmap::models::{ListeningPort, ProcessInfo, SystemdService};

#[test]
fn test_parse_process_field() {
    let field = r#"users:(("nginx",pid=1234,fd=6))"#;
    let (name, pid) = parse_process_field(field);
    assert_eq!(name, "nginx");
    assert_eq!(pid, Some(1234));
}

#[test]
fn test_parse_hex_ip() {
    // 0.0.0.0
    assert_eq!(parse_hex_ip("00000000"), "0.0.0.0");
    // 127.0.0.1 in little-endian hex
    assert_eq!(parse_hex_ip("0100007F"), "127.0.0.1");
}

#[test]
fn test_parse_systemctl_output() {
    let output = r#"  nginx.service                loaded active running A high performance web server
  postgresql.service           loaded active running PostgreSQL RDBMS
● failed-svc.service           loaded failed failed  Some failed service
  ssh.service                  loaded active running OpenBSD Secure Shell server
"#;

    let services = parse_systemctl_output(output);
    assert_eq!(services.len(), 4);
    assert_eq!(services[0].name, "nginx.service");
    assert_eq!(services[0].active_state, "active");
    assert_eq!(services[2].name, "failed-svc.service");
    assert_eq!(services[2].active_state, "failed");
}

#[test]
fn test_parse_docker_json() {
    let output = r#"{"ID":"abc123","Names":"rootmap-postgres","Image":"postgres:16","Status":"Up 2 hours","Ports":"0.0.0.0:5432->5432/tcp"}
{"ID":"def456","Names":"rootmap-neo4j","Image":"neo4j:5","Status":"Up 2 hours","Ports":"0.0.0.0:7474->7474/tcp, 0.0.0.0:7687->7687/tcp"}"#;

    let containers = parse_docker_json(output);
    assert_eq!(containers.len(), 2);
    assert_eq!(containers[0].name, "rootmap-postgres");
    assert_eq!(containers[1].name, "rootmap-neo4j");
}

#[test]
fn docker_json_skips_blank_and_invalid_lines_and_defaults_missing_members() {
    let output = "\n  \nnot json\n{\"ID\":\"x1\",\"Names\":7}\n";
    let containers = parse_docker_json(output);
    assert_eq!(containers.len(), 1);
    assert_eq!(containers[0].container_id, "x1");
    assert_eq!(containers[0].name, "");
    assert_eq!(containers[0].image, "");
    assert_eq!(containers[0].ports, "");
}

#[test]
fn process_field_without_name_or_pid() {
    assert_eq!(parse_process_field("users:(nothing)"), (String::new(), None));
    assert_eq!(parse_process_field("pid=abc"), (String::new(), None));
    assert_eq!(parse_process_field("pid=99999999999"), (String::new(), None));
    assert_eq!(parse_process_field("((\"sshd"), (String::new(), None));
    assert_eq!(parse_process_field("((\"sshd\",pid=22x"), ("sshd".to_string(), Some(22)));
}

#[test]
fn hex_ip_keeps_text_it_cannot_read() {
    assert_eq!(parse_hex_ip("0100007"), "0100007");
    assert_eq!(parse_hex_ip("0100007G"), "0100007G");
    assert_eq!(parse_hex_ip("FFFFFFFF"), "255.255.255.255");
    assert_eq!(parse_hex_ip("0A00A8C0"), "192.168.0.10");
    assert_eq!(parse_hex_ip("+100007F"), "127.0.0.1");
}

fn port(protocol: &str, addr: &str, port: u16, name: &str, pid: Option<u32>) -> ListeningPort {
    ListeningPort {
        protocol: protocol.to_string(),
        local_address: addr.to_string(),
        port,
        process_name: name.to_string(),
        pid,
    }
}

fn same_port(a: &ListeningPort, b: &ListeningPort) -> bool {
    a.protocol == b.protocol
        && a.local_address == b.local_address
        && a.port == b.port
        && a.process_name == b.process_name
        && a.pid == b.pid
}

#[test]
fn ss_output_is_read_line_by_line() {
    let output = "Netid State  Recv-Q Send-Q Local Address:Port Peer Address:Port Process\n\
udp   UNCONN 0      0      127.0.0.53%lo:53  0.0.0.0:*  users:((\"systemd-resolve\",pid=512,fd=13))\n\
tcp   LISTEN 0      511    0.0.0.0:80        0.0.0.0:*  users:((\"nginx\",pid=1234,fd=6))\n\
tcp   LISTEN 0      128    [::]:22           [::]:*\n\
tcp   LISTEN 0      128    0.0.0.0:0         0.0.0.0:*\n\
tcp   LISTEN 0      128    nocolon           0.0.0.0:*\n\
short line\n\
\n";
    let ports = parse_ss_output(output);
    assert_eq!(ports.len(), 3);
    assert!(same_port(&ports[0], &port("udp", "127.0.0.53%lo", 53, "systemd-resolve", Some(512))));
    assert!(same_port(&ports[1], &port("tcp", "0.0.0.0", 80, "nginx", Some(1234))));
    assert!(same_port(&ports[2], &port("tcp", "[::]", 22, "", None)));
}

#[test]
fn ss_output_header_only_or_empty() {
    assert!(parse_ss_output("").is_empty());
    assert!(parse_ss_output("tcp LISTEN 0 128 0.0.0.0:80 0.0.0.0:*").is_empty());
}

#[test]
fn proc_net_tcp_lists_listening_sockets() {
    let content = "  sl  local_address rem_address   st tx_queue rx_queue\n\
   0: 0100007F:0CEA 00000000:0000 0A 00000000:00000000\n\
   1: 00000000:0016 00000000:0000 0A 00000000:00000000\n\
   2: 0100007F:0CEA 0100007F:A1B2 01 00000000:00000000\n\
   3: 0100007F 00000000:0000 0A\n";
    let ports = parse_proc_net_tcp(content);
    assert_eq!(ports.len(), 2);
    assert!(same_port(&ports[0], &port("tcp", "127.0.0.1", 3306, "", None)));
    assert!(same_port(&ports[1], &port("tcp", "0.0.0.0", 22, "", None)));
}

#[test]
fn systemctl_lines_without_four_fields_are_skipped() {
    let output = "\n  a b c\n  x.service loaded active\n\u{25cf} y.service loaded failed failed\n";
    let services = parse_systemctl_output(output);
    assert_eq!(services.len(), 1);
    assert_eq!(services[0].name, "y.service");
    assert_eq!(services[0].load_state, "loaded");
    assert_eq!(services[0].sub_state, "failed");
    assert_eq!(services[0].description, "");
}

#[test]
fn systemctl_description_keeps_inner_spaces() {
    let services = parse_systemctl_output("cron.service loaded active running Regular  background program\r\n");
    assert_eq!(services.len(), 1);
    assert_eq!(services[0].description, "Regular  background program");
}

fn process(pid: u32, ppid: Option<u32>, name: &str) -> ProcessInfo {
    ProcessInfo {
        pid,
        ppid,
        name: name.to_string(),
        command: String::new(),
        user_name: String::new(),
        status: "Run".to_string(),
    }
}

fn service(name: &str, active: &str) -> SystemdService {
    SystemdService {
        name: name.to_string(),
        load_state: "loaded".to_string(),
        active_state: active.to_string(),
        sub_state: "running".to_string(),
        description: String::new(),
    }
}

#[test]
fn important_processes_in_fixed_order() {
    let procs = vec![process(1, None, "sshd"), process(2, None, "NGINX"), process(3, None, "bash")];
    assert_eq!(detect_important_processes(&procs), vec!["nginx".to_string(), "sshd".to_string()]);
    assert!(detect_important_processes(&[]).is_empty());
}

#[test]
fn dependencies_link_ports_services_and_parents() {
    let procs = vec![
        process(900, Some(1), "systemd-x"),
        process(1000, Some(900), "nginx"),
        process(1001, Some(1000), "nginx"),
        process(2000, Some(1), "postgres"),
    ];
    let services = vec![service("nginx.service", "active"), service("ssh.service", "active")];
    let ports = vec![port("tcp", "0.0.0.0", 80, "nginx", Some(1000)), port("tcp", "0.0.0.0", 22, "", None)];
    let deps = detect_dependencies(&procs, &services, &[], &ports);
    assert_eq!(deps.len(), 4);
    assert_eq!(deps[0].source_type, "Service");
    assert_eq!(deps[0].source_id, "nginx");
    assert_eq!(deps[0].target_id, "tcp:80");
    assert_eq!(deps[0].relation_type, "LISTENS_ON");
    assert_eq!(deps[0].confidence, 70);
    assert_eq!(deps[1].source_type, "Process");
    assert_eq!(deps[1].source_id, "nginx:1000");
    assert_eq!(deps[1].confidence, 60);
    assert_eq!(deps[2].source_id, "systemd-x:900");
    assert_eq!(deps[2].target_id, "nginx:1000");
    assert_eq!(deps[2].relation_type, "MANAGES_PROCESS");
    assert_eq!(deps[2].confidence, 80);
    assert_eq!(deps[3].source_id, "nginx:1000");
    assert_eq!(deps[3].target_id, "nginx:1001");
    for d in &deps {
        assert_eq!(d.origin, "auto-scan");
    }
}

#[test]
fn host_defaults_fill_unknown_parts() {
    let h = host_from_system(None, None, None, None);
    assert_eq!(h.hostname, "unknown");
    assert_eq!(h.os, "Linux ");
    assert_eq!(h.kernel, "unknown");
    let h = host_from_system(Some("reactor".into()), Some("Ubuntu".into()), Some("24.04".into()), Some("6.8".into()));
    assert_eq!(h.os, "Ubuntu 24.04");
}

#[test]
fn docker_json_non_object_document_gives_empty_container() {
    let containers = parse_docker_json("42\n[1,2]");
    assert_eq!(containers.len(), 2);
    assert_eq!(containers[0].container_id, "");
    assert_eq!(containers[1].status, "");
}
