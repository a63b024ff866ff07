use kaval::models::IpAddress;
use kaval::scan::{entries_on_port, scan_entries, summary_counts, ProcessInfo, SocketRecord,
    SocketState};
use kaval::{Protocol, ServiceCategory};

fn addr() -> IpAddress {
    IpAddress { text: String::from("0.0.0.0"), unspecified: true, loopback_v4: false }
}

fn sock(protocol: Protocol, port: u16, state: SocketState, pids: Vec<u32>) -> SocketRecord {
    SocketRecord { protocol, local_addr: addr(), port, state, pids }
}

fn proc_info(pid: u32, name: &str) -> ProcessInfo {
    ProcessInfo {
        pid,
        name: String::from(name),
        cmd: String::from(name),
        cpu_tenths: 15,
        memory_bytes: 10 * 1048576,
        run_time_secs: 120,
    }
}

#[test]
fn same_port_and_pid_over_tcp_and_udp_collapse_to_one_entry() {
    // the dedup key is (port, pid) regardless of protocol, so the two
    // records collapse; the first record's protocol is shown
    let sockets = vec![
        sock(Protocol::Tcp, 5173, SocketState::Listen, vec![100]),
        sock(Protocol::Udp, 5173, SocketState::Other, vec![100]),
    ];
    let procs = vec![proc_info(100, "node")];
    let out = scan_entries(&sockets, &procs);
    assert_eq!(out.len(), 1);
    assert_eq!(out[0].port, 5173);
    assert_eq!(out[0].pid, 100);
    assert_eq!(out[0].protocol, Protocol::Tcp);
    assert_eq!(out[0].process_name.as_str(), "node");
    // "node" matches no name rule; port 5173 says Vite
    assert_eq!(out[0].known_service, Some("Vite"));
    assert_eq!(out[0].category, ServiceCategory::DevServer);
}

#[test]
fn missing_pid_degrades_to_sentinel_values() {
    let sockets = vec![sock(Protocol::Tcp, 5432, SocketState::Listen, vec![200])];
    let procs: Vec<ProcessInfo> = Vec::new();
    let out = scan_entries(&sockets, &procs);
    assert_eq!(out.len(), 1);
    assert_eq!(out[0].process_name.as_str(), "?");
    assert_eq!(out[0].process_cmd.as_str(), "");
    assert_eq!(out[0].cpu_tenths, 0);
    assert_eq!(out[0].memory_bytes, 0);
    assert_eq!(out[0].uptime_secs, 0);
    // the sentinel name matches no rule, so the port table still applies
    assert_eq!(out[0].known_service, Some("PostgreSQL"));
    assert_eq!(out[0].category, ServiceCategory::Database);
}

#[test]
fn no_two_entries_share_port_and_pid() {
    let sockets = vec![
        sock(Protocol::Tcp, 8000, SocketState::Listen, vec![1, 2, 1]),
        sock(Protocol::Tcp, 8000, SocketState::Listen, vec![2, 3]),
        sock(Protocol::Tcp, 9000, SocketState::Listen, vec![1]),
    ];
    let procs = vec![proc_info(1, "a"), proc_info(2, "b"), proc_info(3, "c")];
    let out = scan_entries(&sockets, &procs);
    assert_eq!(out.len(), 4);
    for i in 0..out.len() {
        for j in (i + 1)..out.len() {
            assert!(!(out[i].port == out[j].port && out[i].pid == out[j].pid));
        }
    }
}

#[test]
fn tcp_sockets_not_listening_are_dropped() {
    let sockets = vec![
        sock(Protocol::Tcp, 5000, SocketState::Other, vec![1]),
        sock(Protocol::Udp, 5353, SocketState::Other, vec![2]),
    ];
    let procs = vec![proc_info(1, "a"), proc_info(2, "b")];
    let out = scan_entries(&sockets, &procs);
    assert_eq!(out.len(), 1);
    assert_eq!(out[0].port, 5353);
    assert_eq!(out[0].protocol, Protocol::Udp);
}

#[test]
fn output_is_sorted_by_port_ascending() {
    let sockets = vec![
        sock(Protocol::Tcp, 9000, SocketState::Listen, vec![1]),
        sock(Protocol::Tcp, 80, SocketState::Listen, vec![2]),
        sock(Protocol::Tcp, 5432, SocketState::Listen, vec![3]),
    ];
    let procs = vec![proc_info(1, "a"), proc_info(2, "b"), proc_info(3, "c")];
    let out = scan_entries(&sockets, &procs);
    let ports: Vec<u16> = out.iter().map(|e| e.port).collect();
    assert_eq!(ports, vec![80, 5432, 9000]);
}

#[test]
fn process_metrics_carry_over_from_snapshot() {
    let sockets = vec![sock(Protocol::Tcp, 3000, SocketState::Listen, vec![7])];
    let procs = vec![ProcessInfo {
        pid: 7,
        name: String::from("next-server"),
        cmd: String::from("node server.js"),
        cpu_tenths: 123,
        memory_bytes: 256 * 1048576,
        run_time_secs: 3661,
    }];
    let out = scan_entries(&sockets, &procs);
    assert_eq!(out.len(), 1);
    assert_eq!(out[0].process_name.as_str(), "next-server");
    assert_eq!(out[0].process_cmd.as_str(), "node server.js");
    assert_eq!(out[0].cpu_tenths, 123);
    assert_eq!(out[0].memory_bytes, 256 * 1048576);
    assert_eq!(out[0].uptime_secs, 3661);
}

#[test]
fn lookup_by_port_returns_all_matches_in_order() {
    let sockets = vec![
        sock(Protocol::Tcp, 8080, SocketState::Listen, vec![1, 2]),
        sock(Protocol::Tcp, 8081, SocketState::Listen, vec![3]),
    ];
    let procs = vec![proc_info(1, "a"), proc_info(2, "b"), proc_info(3, "c")];
    let out = scan_entries(&sockets, &procs);
    let hits = entries_on_port(&out, 8080);
    assert_eq!(hits.len(), 2);
    assert!(hits.iter().all(|e| e.port == 8080));
    let none = entries_on_port(&out, 1);
    assert!(none.is_empty());
}

#[test]
fn empty_inputs_scan_to_nothing() {
    let sockets: Vec<SocketRecord> = Vec::new();
    let procs: Vec<ProcessInfo> = Vec::new();
    let out = scan_entries(&sockets, &procs);
    assert!(out.is_empty());
    let (total, tcp, labeled) = summary_counts(&out);
    assert_eq!((total, tcp, labeled), (0, 0, 0));
}

#[test]
fn largest_port_number_is_handled() {
    let sockets = vec![sock(Protocol::Tcp, 65535, SocketState::Listen, vec![1])];
    let procs = vec![proc_info(1, "edge")];
    let out = scan_entries(&sockets, &procs);
    assert_eq!(out.len(), 1);
    assert_eq!(out[0].port, 65535);
}

#[test]
fn summary_counts_tally_protocols_and_labels() {
    let sockets = vec![
        sock(Protocol::Tcp, 5432, SocketState::Listen, vec![1]),
        sock(Protocol::Udp, 5353, SocketState::Other, vec![2]),
        sock(Protocol::Tcp, 12345, SocketState::Listen, vec![3]),
    ];
    let procs = vec![proc_info(1, "postgres"), proc_info(2, "mdns"), proc_info(3, "myapp")];
    let out = scan_entries(&sockets, &procs);
    let (total, tcp, labeled) = summary_counts(&out);
    assert_eq!(total, 3);
    assert_eq!(tcp, 2);
    assert_eq!(labeled, 1);
}
