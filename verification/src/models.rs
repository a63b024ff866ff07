//! Core data types: protocols, service categories, reconciled port entries,
//! and the sort keys of the interactive table.

use vstd::prelude::*;
use vstd::string::*;

use crate::text::{dec_seq, u64_to_string};

verus! {

/// Transport protocol of a listening socket.
#[derive(Debug, Clone, Copy, PartialEq, Eq, Structural)]
pub enum Protocol {
    Tcp,
    Udp,
}

impl Protocol {
    /// Canonical display name of the protocol.
    pub fn as_str(self) -> (r: &'static str)
        ensures
            self is Tcp ==> r@ == "TCP"@,
            self is Udp ==> r@ == "UDP"@,
    {
        match self {
            Protocol::Tcp => "TCP",
            Protocol::Udp => "UDP",
        }
    }
}

/// The kind of service a listening process is classified as.
#[derive(Debug, Clone, Copy, PartialEq, Eq, Structural)]
pub enum ServiceCategory {
    DevServer,
    Database,
    Cache,
    Container,
    Browser,
    System,
    Unknown,
}

/// A local address, reduced to what the core reads of it: its textual
/// form and the two shape flags the compact display depends on.
#[derive(Debug)]
pub struct IpAddress {
    /// Textual form of the address, as the adapter rendered it.
    pub text: String,
    /// True for the unspecified (wildcard) address, v4 or v6.
    pub unspecified: bool,
    /// True for a v4 loopback address.
    pub loopback_v4: bool,
}

impl Clone for IpAddress {
    fn clone(&self) -> (r: Self)
        ensures
            r == *self,
    {
        IpAddress {
            text: self.text.clone(),
            unspecified: self.unspecified,
            loopback_v4: self.loopback_v4,
        }
    }
}

/// One reconciled listening endpoint: the unit of display and action.
#[derive(Debug)]
pub struct PortEntry {
    pub protocol: Protocol,
    pub local_addr: IpAddress,
    pub port: u16,
    pub pid: u32,
    pub process_name: String,
    pub process_cmd: String,
    /// CPU utilisation in tenths of a percent.
    pub cpu_tenths: u32,
    /// Resident memory in bytes.
    pub memory_bytes: u64,
    /// Process run time in whole seconds.
    pub uptime_secs: u64,
    /// Known-service label, when a classification rule matched.
    pub known_service: Option<&'static str>,
    pub category: ServiceCategory,
}

impl Clone for PortEntry {
    fn clone(&self) -> (r: Self)
        ensures
            r == *self,
    {
        PortEntry {
            protocol: self.protocol,
            local_addr: self.local_addr.clone(),
            port: self.port,
            pid: self.pid,
            process_name: self.process_name.clone(),
            process_cmd: self.process_cmd.clone(),
            cpu_tenths: self.cpu_tenths,
            memory_bytes: self.memory_bytes,
            uptime_secs: self.uptime_secs,
            known_service: self.known_service,
            category: self.category,
        }
    }
}

/// The compact `address:port` rendering of an entry's endpoint.
pub open spec fn spec_addr_display(a: IpAddress, port: u16) -> Seq<char> {
    if a.unspecified {
        "*:"@ + dec_seq(port as int)
    } else if a.loopback_v4 {
        "127…:"@ + dec_seq(port as int)
    } else {
        a.text@ + ":"@ + dec_seq(port as int)
    }
}

/// Human-scaled memory rendering: whole megabytes below a gigabyte,
/// tenths of a gigabyte above.
pub open spec fn spec_memory_display(bytes: u64) -> Seq<char> {
    let mb = bytes as int / 1048576;
    if mb >= 1024 {
        let tenths = mb * 10 / 1024;
        dec_seq(tenths / 10) + "."@ + dec_seq(tenths % 10) + " GB"@
    } else {
        dec_seq(mb) + " MB"@
    }
}

/// Human-scaled uptime rendering: seconds, then minutes, then hours and
/// minutes, then days and hours.
pub open spec fn spec_uptime_display(secs: u64) -> Seq<char> {
    if secs < 60 {
        dec_seq(secs as int) + "s"@
    } else if secs < 3600 {
        dec_seq(secs as int / 60) + "m"@
    } else if secs < 86400 {
        dec_seq(secs as int / 3600) + "h "@ + dec_seq((secs as int % 3600) / 60) + "m"@
    } else {
        dec_seq(secs as int / 86400) + "d "@ + dec_seq((secs as int % 86400) / 3600) + "h"@
    }
}

/// CPU rendering in tenths of a percent, e.g. `12.5%`.
pub open spec fn spec_cpu_display(tenths: u32) -> Seq<char> {
    dec_seq(tenths as int / 10) + "."@ + dec_seq(tenths as int % 10) + "%"@
}

/// Renders memory, human-scaled, from a byte count.
pub fn memory_display_string(bytes: u64) -> (r: String)
    ensures
        r@ == spec_memory_display(bytes),
{
    let mb = bytes / 1048576;
    if mb >= 1024 {
        let tenths = mb * 10 / 1024;
        let mut r = u64_to_string(tenths / 10);
        r.append(".");
        let frac = u64_to_string(tenths % 10);
        r.append(frac.as_str());
        r.append(" GB");
        r
    } else {
        let mut r = u64_to_string(mb);
        r.append(" MB");
        r
    }
}

/// Renders an uptime, human-scaled, from whole seconds.
pub fn uptime_display_string(secs: u64) -> (r: String)
    ensures
        r@ == spec_uptime_display(secs),
{
    if secs < 60 {
        let mut r = u64_to_string(secs);
        r.append("s");
        r
    } else if secs < 3600 {
        let mut r = u64_to_string(secs / 60);
        r.append("m");
        r
    } else if secs < 86400 {
        let mut r = u64_to_string(secs / 3600);
        r.append("h ");
        let m = u64_to_string((secs % 3600) / 60);
        r.append(m.as_str());
        r.append("m");
        r
    } else {
        let mut r = u64_to_string(secs / 86400);
        r.append("d ");
        let h = u64_to_string((secs % 86400) / 3600);
        r.append(h.as_str());
        r.append("h");
        r
    }
}

/// Renders CPU utilisation with one decimal, from tenths of a percent.
pub fn cpu_display_string(tenths: u32) -> (r: String)
    ensures
        r@ == spec_cpu_display(tenths),
{
    let mut r = u64_to_string((tenths / 10) as u64);
    r.append(".");
    let frac = u64_to_string((tenths % 10) as u64);
    r.append(frac.as_str());
    r.append("%");
    r
}

impl PortEntry {
    /// Display address as a compact string.
    pub fn addr_display(&self) -> (r: String)
        ensures
            r@ == spec_addr_display(self.local_addr, self.port),
    {
        let port = u64_to_string(self.port as u64);
        if self.unspecified() {
            let mut r = String::from_str("*:");
            r.append(port.as_str());
            r
        } else if self.loopback_v4() {
            let mut r = String::from_str("127…:");
            r.append(port.as_str());
            r
        } else {
            let mut r = self.local_addr.text.clone();
            r.append(":");
            r.append(port.as_str());
            r
        }
    }

    /// Format memory as a human-readable string.
    pub fn memory_display(&self) -> (r: String)
        ensures
            r@ == spec_memory_display(self.memory_bytes),
    {
        memory_display_string(self.memory_bytes)
    }

    /// Format uptime as a human-readable string.
    pub fn uptime_display(&self) -> (r: String)
        ensures
            r@ == spec_uptime_display(self.uptime_secs),
    {
        uptime_display_string(self.uptime_secs)
    }

    /// Format CPU utilisation as a percentage with one decimal.
    pub fn cpu_display(&self) -> (r: String)
        ensures
            r@ == spec_cpu_display(self.cpu_tenths),
    {
        cpu_display_string(self.cpu_tenths)
    }

    fn unspecified(&self) -> (r: bool)
        ensures
            r == self.local_addr.unspecified,
    {
        self.local_addr.unspecified
    }

    fn loopback_v4(&self) -> (r: bool)
        ensures
            r == self.local_addr.loopback_v4,
    {
        self.local_addr.loopback_v4
    }
}

/// The key the interactive table is ordered by.
#[derive(Debug, Clone, Copy, PartialEq, Eq, Structural)]
pub enum SortField {
    Port,
    ProcessName,
    Cpu,
    Memory,
}

impl SortField {
    /// The successor in the fixed cycling order.
    pub open spec fn spec_next(self) -> SortField {
        match self {
            SortField::Port => SortField::ProcessName,
            SortField::ProcessName => SortField::Cpu,
            SortField::Cpu => SortField::Memory,
            SortField::Memory => SortField::Port,
        }
    }

    /// Advance to the next sort key, wrapping around.
    pub fn next(self) -> (r: Self)
        ensures
            r == self.spec_next(),
    {
        match self {
            SortField::Port => SortField::ProcessName,
            SortField::ProcessName => SortField::Cpu,
            SortField::Cpu => SortField::Memory,
            SortField::Memory => SortField::Port,
        }
    }

    /// Short display label of the sort key.
    pub fn label(self) -> (r: &'static str)
        ensures
            self is Port ==> r@ == "Port"@,
            self is ProcessName ==> r@ == "Name"@,
            self is Cpu ==> r@ == "CPU"@,
            self is Memory ==> r@ == "Mem"@,
    {
        match self {
            SortField::Port => "Port",
            SortField::ProcessName => "Name",
            SortField::Cpu => "CPU",
            SortField::Memory => "Mem",
        }
    }
}

/// Cycling through the sort keys four times returns to the start.
pub proof fn lemma_sort_field_cycle(f: SortField)
    ensures
        f.spec_next().spec_next().spec_next().spec_next() == f,
{
}

} // verus!
