use kaval::models::IpAddress;
use kaval::sort::sort_entries;
use kaval::{PortEntry, Protocol, ServiceCategory, SortField};

fn mk(port: u16, pid: u32, name: &str, cpu_tenths: u32, memory_bytes: u64) -> PortEntry {
    PortEntry {
        protocol: Protocol::Tcp,
        local_addr: IpAddress {
            text: String::from("127.0.0.1"),
            unspecified: false,
            loopback_v4: true,
        },
        port,
        pid,
        process_name: String::from(name),
        process_cmd: String::new(),
        cpu_tenths,
        memory_bytes,
        uptime_secs: 0,
        known_service: None,
        category: ServiceCategory::Unknown,
    }
}

#[test]
fn sorts_by_port_ascending() {
    let v = vec![mk(9000, 1, "a", 0, 0), mk(80, 2, "b", 0, 0), mk(443, 3, "c", 0, 0)];
    let out = sort_entries(&v, SortField::Port);
    let ports: Vec<u16> = out.iter().map(|e| e.port).collect();
    assert_eq!(ports, vec![80, 443, 9000]);
}

#[test]
fn sorts_by_name_case_insensitively() {
    let v = vec![mk(1, 1, "beta", 0, 0), mk(2, 2, "Alpha", 0, 0), mk(3, 3, "gamma", 0, 0)];
    let out = sort_entries(&v, SortField::ProcessName);
    let names: Vec<&str> = out.iter().map(|e| e.process_name.as_str()).collect();
    assert_eq!(names, vec!["Alpha", "beta", "gamma"]);
}

#[test]
fn sorts_by_cpu_descending() {
    let v = vec![mk(1, 1, "a", 50, 0), mk(2, 2, "b", 900, 0), mk(3, 3, "c", 200, 0)];
    let out = sort_entries(&v, SortField::Cpu);
    let cpus: Vec<u32> = out.iter().map(|e| e.cpu_tenths).collect();
    assert_eq!(cpus, vec![900, 200, 50]);
}

#[test]
fn sorts_by_memory_descending() {
    let v = vec![mk(1, 1, "a", 0, 100), mk(2, 2, "b", 0, 5000), mk(3, 3, "c", 0, 700)];
    let out = sort_entries(&v, SortField::Memory);
    let mems: Vec<u64> = out.iter().map(|e| e.memory_bytes).collect();
    assert_eq!(mems, vec![5000, 700, 100]);
}

#[test]
fn sort_is_stable_for_equal_keys() {
    // three entries on the same port keep their arrival order
    let v = vec![
        mk(8080, 10, "first", 0, 0),
        mk(80, 99, "other", 0, 0),
        mk(8080, 20, "second", 0, 0),
        mk(8080, 30, "third", 0, 0),
    ];
    let out = sort_entries(&v, SortField::Port);
    let pids: Vec<u32> = out.iter().map(|e| e.pid).collect();
    assert_eq!(pids, vec![99, 10, 20, 30]);
}

#[test]
fn sort_keys_cycle_in_order_and_wrap() {
    assert_eq!(SortField::Port.next(), SortField::ProcessName);
    assert_eq!(SortField::ProcessName.next(), SortField::Cpu);
    assert_eq!(SortField::Cpu.next(), SortField::Memory);
    assert_eq!(SortField::Memory.next(), SortField::Port);
    // four advances return to the start, from every key
    for f in [SortField::Port, SortField::ProcessName, SortField::Cpu, SortField::Memory] {
        assert_eq!(f.next().next().next().next(), f);
    }
}
