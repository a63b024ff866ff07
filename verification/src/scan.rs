//! The reconciliation pipeline: joins socket records to the process
//! snapshot, deduplicates by (port, pid), classifies, and orders the
//! result by port.

use vstd::prelude::*;
use vstd::string::*;

use crate::classify::{identify_service, spec_identify};
use crate::models::{IpAddress, PortEntry, Protocol, SortField};
use crate::sort::{lemma_sort_spec_contains, lemma_sort_spec_distinct, lemma_sort_spec_sorted,
    sort_entries};

verus! {

/// State of a socket as the adapter reports it: TCP sockets matter only
/// in LISTEN state, so the adapter reduces the state to this flag.
#[derive(Debug, Clone, Copy, PartialEq, Eq, Structural)]
pub enum SocketState {
    Listen,
    Other,
}

/// One socket-table row, as handed in by the socket adapter.
#[derive(Debug)]
pub struct SocketRecord {
    pub protocol: Protocol,
    pub local_addr: IpAddress,
    pub port: u16,
    pub state: SocketState,
    /// The process ids associated with the socket; a shared listener may
    /// report several.
    pub pids: Vec<u32>,
}

/// One process-table row, as handed in by the process adapter.
#[derive(Debug)]
pub struct ProcessInfo {
    pub pid: u32,
    pub name: String,
    pub cmd: String,
    /// CPU utilisation in tenths of a percent.
    pub cpu_tenths: u32,
    /// Resident memory in bytes.
    pub memory_bytes: u64,
    /// Process run time in whole seconds.
    pub run_time_secs: u64,
}

/// A socket record takes part in the scan when it is a UDP bind or a
/// TCP socket in LISTEN state.
pub open spec fn is_candidate(s: SocketRecord) -> bool {
    s.protocol is Udp || s.state is Listen
}

/// The first process-table row with the given pid, if any.
pub open spec fn find_process(procs: Seq<ProcessInfo>, pid: u32) -> Option<ProcessInfo>
    decreases procs.len(),
{
    if procs.len() == 0 {
        None
    } else if procs[0].pid == pid {
        Some(procs[0])
    } else {
        find_process(procs.drop_first(), pid)
    }
}

/// The pair a scan deduplicates on. The protocol is deliberately not
/// part of the key: a process bound to one port over both TCP and UDP
/// collapses to a single entry, attributed to the first record seen.
pub open spec fn entry_key(e: PortEntry) -> (u16, u32) {
    (e.port, e.pid)
}

/// An entry's metrics come from the snapshot row of its pid; when the
/// pid raced away between the two reads, the sentinel name and zeroed
/// metrics stand in.
pub open spec fn resolved_from(e: PortEntry, procs: Seq<ProcessInfo>) -> bool {
    match find_process(procs, e.pid) {
        Some(p) => {
            &&& e.process_name == p.name
            &&& e.process_cmd == p.cmd
            &&& e.cpu_tenths == p.cpu_tenths
            &&& e.memory_bytes == p.memory_bytes
            &&& e.uptime_secs == p.run_time_secs
        },
        None => {
            &&& e.process_name@ == "?"@
            &&& e.process_cmd@ == Seq::<char>::empty()
            &&& e.cpu_tenths == 0
            &&& e.memory_bytes == 0
            &&& e.uptime_secs == 0
        },
    }
}

/// An entry's label and category agree with the classifier on its port
/// and resolved process name.
pub open spec fn classified(e: PortEntry) -> bool {
    &&& e.category == spec_identify(e.port, e.process_name@).1
    &&& (e.known_service is Some <==> spec_identify(e.port, e.process_name@).0 is Some)
    &&& (e.known_service matches Some(l) ==> spec_identify(e.port, e.process_name@).0 matches Some(
        sl,
    ) && l@ == sl)
}

/// The first candidate socket record carrying the given (port, pid)
/// pair; the record whose protocol and address the entry shows.
pub open spec fn first_source(sockets: Seq<SocketRecord>, port: u16, pid: u32) -> Option<
    SocketRecord,
>
    decreases sockets.len(),
{
    if sockets.len() == 0 {
        None
    } else if is_candidate(sockets[0]) && sockets[0].port == port && sockets[0].pids@.contains(
        pid,
    ) {
        Some(sockets[0])
    } else {
        first_source(sockets.drop_first(), port, pid)
    }
}

/// An entry is attributed to the first candidate record with its key.
pub open spec fn sourced(e: PortEntry, sockets: Seq<SocketRecord>) -> bool {
    &&& first_source(sockets, e.port, e.pid) matches Some(src)
    &&& e.protocol == src.protocol
    &&& e.local_addr == src.local_addr
}

/// Some entry in `out` carries the given (port, pid) pair.
pub open spec fn has_key(out: Seq<PortEntry>, port: u16, pid: u32) -> bool {
    exists|k: int| 0 <= k < out.len() && out[k].port == port && out[k].pid == pid
}

/// Every candidate (socket, pid) pair of the input is represented.
pub open spec fn complete_for(out: Seq<PortEntry>, sockets: Seq<SocketRecord>) -> bool {
    forall|si: int, pi: int|
        0 <= si < sockets.len() && is_candidate(sockets[si]) && 0 <= pi
            < sockets[si].pids@.len() ==> has_key(out, sockets[si].port, sockets[si].pids@[pi])
}

/// All per-entry guarantees of a scan result, bundled.
pub open spec fn well_formed_entries(
    out: Seq<PortEntry>,
    sockets: Seq<SocketRecord>,
    procs: Seq<ProcessInfo>,
) -> bool {
    &&& forall|i: int, j: int|
        0 <= i < j < out.len() ==> entry_key(out[i]) != entry_key(out[j])
    &&& forall|k: int| 0 <= k < out.len() ==> sourced(#[trigger] out[k], sockets)
    &&& forall|k: int| 0 <= k < out.len() ==> resolved_from(#[trigger] out[k], procs)
    &&& forall|k: int| 0 <= k < out.len() ==> classified(#[trigger] out[k])
}

/// Looking an absent prefix past does not change the lookup result.
proof fn lemma_find_process_skip(procs: Seq<ProcessInfo>, pid: u32, i: int)
    requires
        0 <= i <= procs.len(),
        forall|k: int| 0 <= k < i ==> procs[k].pid != pid,
    ensures
        find_process(procs, pid) == find_process(procs.skip(i), pid),
    decreases i,
{
    if i > 0 {
        lemma_find_process_skip(procs.drop_first(), pid, i - 1);
        assert(procs.drop_first().skip(i - 1) =~= procs.skip(i));
    } else {
        assert(procs.skip(0) =~= procs);
    }
}

/// When no candidate record before `si` carries the pair and the record
/// at `si` does, that record is the first source.
proof fn lemma_first_source_at(sockets: Seq<SocketRecord>, port: u16, pid: u32, si: int)
    requires
        0 <= si < sockets.len(),
        forall|k: int|
            0 <= k < si ==> !(is_candidate(#[trigger] sockets[k]) && sockets[k].port == port
                && sockets[k].pids@.contains(pid)),
        is_candidate(sockets[si]),
        sockets[si].port == port,
        sockets[si].pids@.contains(pid),
    ensures
        first_source(sockets, port, pid) == Some(sockets[si]),
    decreases si,
{
    if si > 0 {
        lemma_first_source_at(sockets.drop_first(), port, pid, si - 1);
    }
}

/// Linear search of the snapshot for a pid.
fn find_process_exec(procs: &Vec<ProcessInfo>, pid: u32) -> (r: Option<usize>)
    ensures
        r matches Some(i) ==> i < procs@.len() && find_process(procs@, pid) == Some(
            procs@[i as int],
        ),
        r is None ==> find_process(procs@, pid) is None,
{
    let n = procs.len();
    let mut i: usize = 0;
    while i < n
        invariant
            i <= n,
            n == procs@.len(),
            forall|k: int| 0 <= k < i ==> procs@[k].pid != pid,
        decreases n - i,
    {
        if procs[i].pid == pid {
            proof {
                lemma_find_process_skip(procs@, pid, i as int);
                assert(procs@.skip(i as int)[0] == procs@[i as int]);
            }
            return Some(i);
        }
        i += 1;
    }
    proof {
        lemma_find_process_skip(procs@, pid, n as int);
        assert(procs@.skip(n as int).len() == 0);
    }
    None
}

/// Whether an entry with the pair is already present.
fn contains_key(entries: &Vec<PortEntry>, port: u16, pid: u32) -> (r: bool)
    ensures
        r == has_key(entries@, port, pid),
{
    let n = entries.len();
    let mut i: usize = 0;
    while i < n
        invariant
            i <= n,
            n == entries@.len(),
            forall|k: int| 0 <= k < i ==> !(entries@[k].port == port && entries@[k].pid == pid),
        decreases n - i,
    {
        if entries[i].port == port && entries[i].pid == pid {
            assert(has_key(entries@, port, pid));
            return true;
        }
        i += 1;
    }
    false
}

/// Builds the entry for one (socket, pid) pair: resolves the pid against
/// the snapshot, falling back to sentinel values, and classifies.
fn build_entry(s: &SocketRecord, pid: u32, procs: &Vec<ProcessInfo>) -> (e: PortEntry)
    ensures
        e.port == s.port,
        e.pid == pid,
        e.protocol == s.protocol,
        e.local_addr == s.local_addr,
        resolved_from(e, procs@),
        classified(e),
{
    let found = find_process_exec(procs, pid);
    let (name, cmd, cpu_tenths, memory_bytes, uptime_secs): (String, String, u32, u64, u64) =
        match found {
        Some(idx) => {
            let p = &procs[idx];
            (p.name.clone(), p.cmd.clone(), p.cpu_tenths, p.memory_bytes, p.run_time_secs)
        },
        None => (String::from_str("?"), String::new(), 0, 0, 0),
    };
    let (known_service, category) = identify_service(s.port, name.as_str());
    PortEntry {
        protocol: s.protocol,
        local_addr: s.local_addr.clone(),
        port: s.port,
        pid,
        process_name: name,
        process_cmd: cmd,
        cpu_tenths,
        memory_bytes,
        uptime_secs,
        known_service,
        category,
    }
}

/// Reconciles one scan: every candidate (socket, pid) pair yields
/// exactly one entry, keyed by (port, pid), attributed to its first
/// source record, resolved against the snapshot, classified, and the
/// whole ordered by ascending port (stable for equal ports).
pub fn scan_entries(sockets: &Vec<SocketRecord>, procs: &Vec<ProcessInfo>) -> (out: Vec<PortEntry>)
    ensures
        well_formed_entries(out@, sockets@, procs@),
        complete_for(out@, sockets@),
        forall|i: int, j: int| 0 <= i <= j < out@.len() ==> out@[i].port <= out@[j].port,
{
    let mut raw: Vec<PortEntry> = Vec::new();
    let ns = sockets.len();
    let mut si: usize = 0;
    while si < ns
        invariant
            si <= ns,
            ns == sockets@.len(),
            well_formed_entries(raw@, sockets@, procs@),
            forall|s2: int, pi: int|
                #![trigger sockets@[s2].pids@[pi]]
                0 <= s2 < si && is_candidate(sockets@[s2]) && 0 <= pi
                    < sockets@[s2].pids@.len() ==> has_key(
                    raw@,
                    sockets@[s2].port,
                    sockets@[s2].pids@[pi],
                ),
        decreases ns - si,
    {
        let is_cand = match sockets[si].protocol {
            Protocol::Udp => true,
            Protocol::Tcp => match sockets[si].state {
                SocketState::Listen => true,
                SocketState::Other => false,
            },
        };
        if is_cand {
            let np = sockets[si].pids.len();
            let mut pi: usize = 0;
            while pi < np
                invariant
                    si < ns,
                    ns == sockets@.len(),
                    pi <= np,
                    np == sockets@[si as int].pids@.len(),
                    is_candidate(sockets@[si as int]),
                    well_formed_entries(raw@, sockets@, procs@),
                    forall|s2: int, p2: int|
                        #![trigger sockets@[s2].pids@[p2]]
                        0 <= s2 < si && is_candidate(sockets@[s2]) && 0 <= p2
                            < sockets@[s2].pids@.len() ==> has_key(
                            raw@,
                            sockets@[s2].port,
                            sockets@[s2].pids@[p2],
                        ),
                    forall|p2: int|
                        0 <= p2 < pi ==> has_key(
                            raw@,
                            sockets@[si as int].port,
                            #[trigger] sockets@[si as int].pids@[p2],
                        ),
                decreases np - pi,
            {
                let port = sockets[si].port;
                let pid = sockets[si].pids[pi];
                if !contains_key(&raw, port, pid) {
                    proof {
                        // no processed record carries this pair, else it
                        // would already be present
                        assert forall|k: int|
                            0 <= k < si implies !(is_candidate(#[trigger] sockets@[k])
                                && sockets@[k].port == port && sockets@[k].pids@.contains(pid)) by {
                            if is_candidate(sockets@[k]) && sockets@[k].port == port
                                && sockets@[k].pids@.contains(pid) {
                                let p2 = choose|p2: int|
                                    0 <= p2 < sockets@[k].pids@.len() && sockets@[k].pids@[p2]
                                        == pid;
                                assert(has_key(raw@, sockets@[k].port, sockets@[k].pids@[p2]));
                            }
                        }
                        assert(sockets@[si as int].pids@.contains(pid));
                        lemma_first_source_at(sockets@, port, pid, si as int);
                    }
                    let e = build_entry(&sockets[si], pid, procs);
                    let ghost pre = raw@;
                    raw.push(e);
                    proof {
                        assert forall|k: int| 0 <= k < raw@.len() implies sourced(
                            #[trigger] raw@[k],
                            sockets@,
                        ) && resolved_from(raw@[k], procs@) && classified(raw@[k]) by {
                            if k < pre.len() {
                                assert(raw@[k] == pre[k]);
                            } else {
                                assert(raw@[k] == e);
                            }
                        }
                        assert forall|i: int, j: int| 0 <= i < j < raw@.len() implies entry_key(
                            raw@[i],
                        ) != entry_key(raw@[j]) by {
                            if j == pre.len() {
                                assert(raw@[i] == pre[i]);
                                if entry_key(pre[i]) == entry_key(e) {
                                    assert(has_key(pre, port, pid));
                                }
                            } else {
                                assert(raw@[i] == pre[i]);
                                assert(raw@[j] == pre[j]);
                            }
                        }
                        assert forall|p2: int| 0 <= p2 < pi + 1 implies has_key(
                            raw@,
                            sockets@[si as int].port,
                            #[trigger] sockets@[si as int].pids@[p2],
                        ) by {
                            if p2 < pi {
                                let k = choose|k: int|
                                    0 <= k < pre.len() && pre[k].port == sockets@[si as int].port
                                        && pre[k].pid == sockets@[si as int].pids@[p2];
                                assert(raw@[k] == pre[k]);
                            } else {
                                assert(raw@[pre.len() as int] == e);
                            }
                        }
                        assert forall|s2: int, p2: int|
                            #![trigger sockets@[s2].pids@[p2]]
                            0 <= s2 < si && is_candidate(sockets@[s2]) && 0 <= p2
                                < sockets@[s2].pids@.len() implies has_key(
                            raw@,
                            sockets@[s2].port,
                            sockets@[s2].pids@[p2],
                        ) by {
                            let k = choose|k: int|
                                0 <= k < pre.len() && pre[k].port == sockets@[s2].port && pre[k].pid
                                    == sockets@[s2].pids@[p2];
                            assert(raw@[k] == pre[k]);
                        }
                    }
                } else {
                    proof {
                        assert(has_key(
                            raw@,
                            sockets@[si as int].port,
                            sockets@[si as int].pids@[pi as int],
                        ));
                    }
                }
                pi += 1;
            }
        }
        si += 1;
    }
    let out = sort_entries(&raw, SortField::Port);
    proof {
        lemma_sort_spec_sorted(SortField::Port, raw@);
        lemma_sort_spec_distinct(SortField::Port, raw@, |e: PortEntry| entry_key(e));
        assert forall|i: int, j: int| 0 <= i <= j < out@.len() implies out@[i].port
            <= out@[j].port by {
            assert(crate::sort::entry_le(SortField::Port, out@[i], out@[j]));
        }
        assert forall|k: int| 0 <= k < out@.len() implies sourced(#[trigger] out@[k], sockets@)
            && resolved_from(out@[k], procs@) && classified(out@[k]) by {
            lemma_sort_spec_contains(SortField::Port, raw@, out@[k]);
            assert(out@.contains(out@[k]));
            let m = choose|m: int| 0 <= m < raw@.len() && raw@[m] == out@[k];
        }
        assert forall|si2: int, pi2: int|
            #![trigger sockets@[si2].pids@[pi2]]
            0 <= si2 < sockets@.len() && is_candidate(sockets@[si2]) && 0 <= pi2
                < sockets@[si2].pids@.len() implies has_key(
            out@,
            sockets@[si2].port,
            sockets@[si2].pids@[pi2],
        ) by {
            let k = choose|k: int|
                0 <= k < raw@.len() && raw@[k].port == sockets@[si2].port && raw@[k].pid
                    == sockets@[si2].pids@[pi2];
            lemma_sort_spec_contains(SortField::Port, raw@, raw@[k]);
            assert(raw@.contains(raw@[k]));
            let m = choose|m: int| 0 <= m < out@.len() && out@[m] == raw@[k];
            assert(has_key(out@, sockets@[si2].port, sockets@[si2].pids@[pi2]));
        }
    }
    out
}

/// The tallies the one-shot summary line reports: total entries, TCP
/// entries, and entries with a known-service label.
pub fn summary_counts(entries: &Vec<PortEntry>) -> (r: (usize, usize, usize))
    ensures
        r.0 == entries@.len(),
        r.1 == entries@.filter(|e: PortEntry| e.protocol is Tcp).len(),
        r.2 == entries@.filter(|e: PortEntry| e.known_service is Some).len(),
{
    let n = entries.len();
    let mut tcp: usize = 0;
    let mut labeled: usize = 0;
    let mut i: usize = 0;
    while i < n
        invariant
            i <= n,
            n == entries@.len(),
            tcp == entries@.subrange(0, i as int).filter(|e: PortEntry| e.protocol is Tcp).len(),
            labeled == entries@.subrange(0, i as int).filter(
                |e: PortEntry| e.known_service is Some,
            ).len(),
        decreases n - i,
    {
        proof {
            let pre = entries@.subrange(0, i as int);
            let cur = entries@.subrange(0, i + 1);
            assert(cur =~= pre.push(entries@[i as int]));
            crate::sort::lemma_filter_push(pre, |e: PortEntry| e.protocol is Tcp, entries@[i as int]);
            crate::sort::lemma_filter_push(
                pre,
                |e: PortEntry| e.known_service is Some,
                entries@[i as int],
            );
            pre.lemma_filter_len(|e: PortEntry| e.protocol is Tcp);
            pre.lemma_filter_len(|e: PortEntry| e.known_service is Some);
        }
        match entries[i].protocol {
            Protocol::Tcp => {
                tcp += 1;
            },
            Protocol::Udp => {},
        }
        if entries[i].known_service.is_some() {
            labeled += 1;
        }
        i += 1;
    }
    proof {
        assert(entries@.subrange(0, n as int) =~= entries@);
    }
    (n, tcp, labeled)
}

/// All entries listening on the given port, in their current order.
pub fn entries_on_port(entries: &Vec<PortEntry>, port: u16) -> (out: Vec<PortEntry>)
    ensures
        out@ == entries@.filter(|e: PortEntry| e.port == port),
{
    let n = entries.len();
    let mut out: Vec<PortEntry> = Vec::new();
    let mut i: usize = 0;
    while i < n
        invariant
            i <= n,
            n == entries@.len(),
            out@ == entries@.subrange(0, i as int).filter(|e: PortEntry| e.port == port),
        decreases n - i,
    {
        proof {
            reveal(Seq::filter);
            assert(entries@.subrange(0, i + 1).drop_last() =~= entries@.subrange(0, i as int));
            assert(entries@.subrange(0, i + 1).last() == entries@[i as int]);
        }
        if entries[i].port == port {
            out.push(entries[i].clone());
        }
        i += 1;
    }
    proof {
        assert(entries@.subrange(0, n as int) =~= entries@);
    }
    out
}

} // verus!
