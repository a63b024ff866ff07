use kaval::control::{signal_for, terminate_outcome, TermSignal, TerminationError};
use kaval::models::IpAddress;
use kaval::{PortEntry, Protocol, ServiceCategory};

fn base_entry() -> PortEntry {
    PortEntry {
        protocol: Protocol::Tcp,
        local_addr: IpAddress {
            text: String::from("192.168.1.5"),
            unspecified: false,
            loopback_v4: false,
        },
        port: 8080,
        pid: 1,
        process_name: String::from("node"),
        process_cmd: String::new(),
        cpu_tenths: 125,
        memory_bytes: 500 * 1048576,
        uptime_secs: 45,
        known_service: None,
        category: ServiceCategory::Unknown,
    }
}

#[test]
fn addr_display_forms() {
    let mut e = base_entry();
    assert_eq!(e.addr_display().as_str(), "192.168.1.5:8080");
    e.local_addr.unspecified = true;
    assert_eq!(e.addr_display().as_str(), "*:8080");
    e.local_addr.unspecified = false;
    e.local_addr.loopback_v4 = true;
    assert_eq!(e.addr_display().as_str(), "127…:8080");
}

#[test]
fn memory_display_scales_to_gigabytes() {
    let mut e = base_entry();
    assert_eq!(e.memory_display().as_str(), "500 MB");
    e.memory_bytes = 2 * 1024 * 1048576;
    assert_eq!(e.memory_display().as_str(), "2.0 GB");
    e.memory_bytes = 1536 * 1048576;
    assert_eq!(e.memory_display().as_str(), "1.5 GB");
    e.memory_bytes = 0;
    assert_eq!(e.memory_display().as_str(), "0 MB");
}

#[test]
fn uptime_display_scales() {
    let mut e = base_entry();
    assert_eq!(e.uptime_display().as_str(), "45s");
    e.uptime_secs = 59;
    assert_eq!(e.uptime_display().as_str(), "59s");
    e.uptime_secs = 60;
    assert_eq!(e.uptime_display().as_str(), "1m");
    e.uptime_secs = 3599;
    assert_eq!(e.uptime_display().as_str(), "59m");
    e.uptime_secs = 3700;
    assert_eq!(e.uptime_display().as_str(), "1h 1m");
    e.uptime_secs = 86399;
    assert_eq!(e.uptime_display().as_str(), "23h 59m");
    e.uptime_secs = 90061;
    assert_eq!(e.uptime_display().as_str(), "1d 1h");
}

#[test]
fn cpu_display_has_one_decimal() {
    let mut e = base_entry();
    assert_eq!(e.cpu_display().as_str(), "12.5%");
    e.cpu_tenths = 0;
    assert_eq!(e.cpu_display().as_str(), "0.0%");
    e.cpu_tenths = 1000;
    assert_eq!(e.cpu_display().as_str(), "100.0%");
}

#[test]
fn protocol_names() {
    assert_eq!(Protocol::Tcp.as_str(), "TCP");
    assert_eq!(Protocol::Udp.as_str(), "UDP");
}

#[test]
fn termination_outcome_mapping() {
    assert_eq!(terminate_outcome(false, false), Err(TerminationError::ProcessNotFound));
    assert_eq!(terminate_outcome(false, true), Err(TerminationError::ProcessNotFound));
    assert_eq!(terminate_outcome(true, true), Ok(()));
    assert_eq!(terminate_outcome(true, false), Err(TerminationError::PermissionDenied));
}

#[test]
fn signal_choice() {
    assert_eq!(signal_for(false), TermSignal::Term);
    assert_eq!(signal_for(true), TermSignal::Kill);
}

#[test]
fn termination_messages() {
    assert_eq!(
        TerminationError::ProcessNotFound.message(321).as_str(),
        "Process with PID 321 not found"
    );
    assert_eq!(
        TerminationError::PermissionDenied.message(321).as_str(),
        "Failed to kill PID 321. Try running with sudo."
    );
}
