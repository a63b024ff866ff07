//! Display-row grouping for the one-shot table: browser processes that
//! hold many ports under one service are collapsed into a single
//! counted row, shown after the ungrouped entries and ordered by
//! process name.

use vstd::prelude::*;

use crate::models::{PortEntry, Protocol, ServiceCategory};
use crate::sort::lemma_filter_push;
use crate::text::{lemma_lex_le_total, lemma_lex_le_trans, lex_le, lex_le_exec, chars_of, str_eq};

verus! {

/// A run of browser entries of one process and service, shown as one
/// counted row.
#[derive(Debug)]
pub struct BrowserGroup {
    pub service: &'static str,
    pub category: ServiceCategory,
    pub protocol: Protocol,
    pub pid: u32,
    pub process_name: String,
    /// CPU utilisation in tenths of a percent, of the first member.
    pub cpu_tenths: u32,
    /// Resident memory in bytes, of the first member.
    pub memory_bytes: u64,
    /// Run time in whole seconds, of the first member.
    pub uptime_secs: u64,
    /// How many entries the row stands for.
    pub count: usize,
}

impl Clone for BrowserGroup {
    fn clone(&self) -> (r: Self)
        ensures
            r == *self,
    {
        BrowserGroup {
            service: self.service,
            category: self.category,
            protocol: self.protocol,
            pid: self.pid,
            process_name: self.process_name.clone(),
            cpu_tenths: self.cpu_tenths,
            memory_bytes: self.memory_bytes,
            uptime_secs: self.uptime_secs,
            count: self.count,
        }
    }
}

/// The entries the table groups: browser processes carrying a label.
pub open spec fn is_grouped_entry(e: PortEntry) -> bool {
    e.category is Browser && e.known_service is Some
}

/// Membership of an entry in the group of one (pid, service) pair.
pub open spec fn key_pred(pid: u32, service: Seq<char>) -> spec_fn(PortEntry) -> bool {
    |e: PortEntry| is_grouped_entry(e) && e.pid == pid && e.known_service->0@ == service
}

/// The grouped entries with the given key, in order.
pub open spec fn entries_with_key(entries: Seq<PortEntry>, pid: u32, service: Seq<char>) -> Seq<
    PortEntry,
> {
    entries.filter(key_pred(pid, service))
}

/// Fidelity of one group row to the entry list: the count tallies the
/// members, and the shown fields are the first member's.
pub open spec fn group_from(g: BrowserGroup, entries: Seq<PortEntry>) -> bool {
    let members = entries_with_key(entries, g.pid, g.service@);
    &&& g.count == members.len()
    &&& g.count > 0
    &&& g.category == members[0].category
    &&& g.protocol == members[0].protocol
    &&& g.process_name == members[0].process_name
    &&& g.cpu_tenths == members[0].cpu_tenths
    &&& g.memory_bytes == members[0].memory_bytes
    &&& g.uptime_secs == members[0].uptime_secs
}

/// Group rows in ascending process-name order.
pub open spec fn sorted_groups(s: Seq<BrowserGroup>) -> bool {
    forall|i: int, j: int| 0 <= i <= j < s.len() ==> lex_le(s[i].process_name@, s[j].process_name@)
}

/// A filter over a predicate false everywhere is empty.
proof fn lemma_filter_none(s: Seq<PortEntry>, p: spec_fn(PortEntry) -> bool)
    requires
        forall|k: int| 0 <= k < s.len() ==> !p(s[k]),
    ensures
        s.filter(p) == Seq::<PortEntry>::empty(),
    decreases s.len(),
{
    reveal(Seq::filter);
    if s.len() > 0 {
        assert(!p(s.last()));
        lemma_filter_none(s.drop_last(), p);
    }
}

/// The position of the group with the given key, if one exists.
fn find_group(groups: &Vec<BrowserGroup>, pid: u32, service: &str) -> (r: Option<usize>)
    ensures
        r matches Some(i) ==> i < groups@.len() && groups@[i as int].pid == pid
            && groups@[i as int].service@ == service@,
        r is None ==> forall|k: int|
            0 <= k < groups@.len() ==> !((#[trigger] groups@[k]).pid == pid && groups@[k].service@
                == service@),
{
    let n = groups.len();
    let mut i: usize = 0;
    while i < n
        invariant
            i <= n,
            n == groups@.len(),
            forall|k: int|
                0 <= k < i ==> !((#[trigger] groups@[k]).pid == pid && groups@[k].service@
                    == service@),
        decreases n - i,
    {
        if groups[i].pid == pid && str_eq(groups[i].service, service) {
            return Some(i);
        }
        i += 1;
    }
    None
}

/// Inserts a group into a name-ordered vector, keeping the order.
fn insert_group(out: &mut Vec<BrowserGroup>, g: BrowserGroup)
    requires
        sorted_groups(old(out)@),
    ensures
        sorted_groups(final(out)@),
        final(out)@.to_multiset() == old(out)@.to_multiset().insert(g),
        final(out)@.len() == old(out)@.len() + 1,
        forall|k: int|
            0 <= k < final(out)@.len() ==> #[trigger] final(out)@[k] == g || old(out)@.contains(
                final(out)@[k],
            ),
{
    let ghost orig = out@;
    let gname = chars_of(g.process_name.as_str());
    let n = out.len();
    let mut j: usize = 0;
    loop
        invariant
            out@ == orig,
            n == out@.len(),
            j <= n,
            gname@ == g.process_name@,
            forall|k: int| 0 <= k < j ==> lex_le((#[trigger] out@[k]).process_name@, g.process_name@),
        ensures
            out@ == orig,
            j <= n,
            forall|k: int| 0 <= k < j ==> lex_le((#[trigger] out@[k]).process_name@, g.process_name@),
            j < n ==> !lex_le(out@[j as int].process_name@, g.process_name@),
        decreases n - j,
    {
        if j == n {
            break ;
        }
        let oname = chars_of(out[j].process_name.as_str());
        if !lex_le_exec(&oname, &gname) {
            break ;
        }
        j += 1;
    }
    out.insert(j, g);
    proof {
        vstd::seq_lib::to_multiset_insert(orig, j as int, g);
        orig.insert_ensures(j as int, g);
        let cur = out@;
        assert forall|a: int, b: int| 0 <= a <= b < cur.len() implies lex_le(
            cur[a].process_name@,
            cur[b].process_name@,
        ) by {
            let oa: int = if a < j {
                a
            } else if a == j {
                -1
            } else {
                a - 1
            };
            let ob: int = if b < j {
                b
            } else if b == j {
                -1
            } else {
                b - 1
            };
            if oa >= 0 {
                assert(cur[a] == orig[oa]);
            } else {
                assert(cur[a] == g);
            }
            if ob >= 0 {
                assert(cur[b] == orig[ob]);
            } else {
                assert(cur[b] == g);
            }
            if oa == -1 && ob == -1 {
                lemma_lex_le_total(g.process_name@, g.process_name@);
            } else if oa == -1 {
                // g sits at j, so ob >= j; orig[j] does not precede g,
                // hence g precedes it, and sortedness carries further
                assert(ob >= j);
                lemma_lex_le_total(orig[j as int].process_name@, g.process_name@);
                assert(lex_le(g.process_name@, orig[j as int].process_name@));
                if ob > j {
                    lemma_lex_le_trans(
                        g.process_name@,
                        orig[j as int].process_name@,
                        orig[ob].process_name@,
                    );
                }
            } else if ob == -1 {
                // oa < j, so orig[oa] precedes g by the scan invariant
                assert(lex_le(orig[oa].process_name@, g.process_name@));
            }
        }
        assert forall|k: int| 0 <= k < cur.len() implies #[trigger] cur[k] == g || orig.contains(
            cur[k],
        ) by {
            if k < j {
                assert(cur[k] == orig[k]);
            } else if k > j {
                assert(cur[k] == orig[k - 1]);
            }
        }
    }
}

/// Splits the entries into ungrouped rows, in order, and one counted
/// group row per (pid, service) pair of browser entries, ordered by
/// process name and showing the first member's fields.
pub fn group_rows(entries: &Vec<PortEntry>) -> (r: (Vec<PortEntry>, Vec<BrowserGroup>))
    ensures
        r.0@ == entries@.filter(|e: PortEntry| !is_grouped_entry(e)),
        forall|k: int| 0 <= k < r.1@.len() ==> group_from(#[trigger] r.1@[k], entries@),
        forall|i: int, j: int|
            0 <= i < j < r.1@.len() ==> !((#[trigger] r.1@[i]).pid == (#[trigger] r.1@[j]).pid
                && r.1@[i].service@ == r.1@[j].service@),
        forall|m: int|
            0 <= m < entries@.len() && is_grouped_entry(#[trigger] entries@[m]) ==> exists|k: int|
                0 <= k < r.1@.len() && (#[trigger] r.1@[k]).pid == entries@[m].pid
                    && r.1@[k].service@ == entries@[m].known_service->0@,
        sorted_groups(r.1@),
{
    let n = entries.len();
    let mut singles: Vec<PortEntry> = Vec::new();
    let mut groups: Vec<BrowserGroup> = Vec::new();
    let mut i: usize = 0;
    while i < n
        invariant
            i <= n,
            n == entries@.len(),
            singles@ == entries@.subrange(0, i as int).filter(
                |e: PortEntry| !is_grouped_entry(e),
            ),
            forall|k: int|
                0 <= k < groups@.len() ==> group_from(
                    #[trigger] groups@[k],
                    entries@.subrange(0, i as int),
                ),
            forall|a: int, b: int|
                0 <= a < b < groups@.len() ==> !((#[trigger] groups@[a]).pid
                    == (#[trigger] groups@[b]).pid && groups@[a].service@ == groups@[b].service@),
            forall|m: int|
                0 <= m < i && is_grouped_entry(#[trigger] entries@[m]) ==> exists|k: int|
                    0 <= k < groups@.len() && (#[trigger] groups@[k]).pid == entries@[m].pid
                        && groups@[k].service@ == entries@[m].known_service->0@,
        decreases n - i,
    {
        let ghost pre = entries@.subrange(0, i as int);
        let ghost cur = entries@.subrange(0, i + 1);
        proof {
            assert(cur =~= pre.push(entries@[i as int]));
            lemma_filter_push(pre, |e: PortEntry| !is_grouped_entry(e), entries@[i as int]);
        }
        let e = &entries[i];
        let grouped = match (e.category, e.known_service) {
            (ServiceCategory::Browser, Some(_)) => true,
            _ => false,
        };
        if grouped {
            let service = match e.known_service {
                Some(s) => s,
                None => "",  // not reached: grouped entries carry a label
            };
            proof {
                assert forall|pid: u32, sv: Seq<char>| true implies entries_with_key(cur, pid, sv)
                    == if key_pred(pid, sv)(entries@[i as int]) {
                    entries_with_key(pre, pid, sv).push(entries@[i as int])
                } else {
                    entries_with_key(pre, pid, sv)
                } by {
                    lemma_filter_push(pre, key_pred(pid, sv), entries@[i as int]);
                }
            }
            match find_group(&groups, e.pid, service) {
                Some(gi) => {
                    let ghost gprev = groups@;
                    proof {
                        pre.lemma_filter_len(
                            key_pred(gprev[gi as int].pid, gprev[gi as int].service@),
                        );
                    }
                    groups[gi].count += 1;
                    proof {
                        assert forall|k: int| 0 <= k < groups@.len() implies group_from(
                            #[trigger] groups@[k],
                            cur,
                        ) by {
                            if k != gi {
                                assert(groups@[k] == gprev[k]);
                                assert(group_from(gprev[k], pre));
                                assert(!(key_pred(groups@[k].pid, groups@[k].service@)(
                                    entries@[i as int],
                                )));
                                assert(entries_with_key(cur, groups@[k].pid, groups@[k].service@)
                                    == entries_with_key(pre, groups@[k].pid, groups@[k].service@));
                            } else {
                                assert(group_from(gprev[k], pre));
                                assert(groups@[k].pid == gprev[k].pid && groups@[k].service@
                                    == gprev[k].service@);
                                assert(key_pred(groups@[k].pid, groups@[k].service@)(
                                    entries@[i as int],
                                ));
                                let old_members = entries_with_key(
                                    pre,
                                    groups@[k].pid,
                                    groups@[k].service@,
                                );
                                assert(entries_with_key(cur, groups@[k].pid, groups@[k].service@)
                                    == old_members.push(entries@[i as int]));
                                assert(old_members.push(entries@[i as int])[0] == old_members[0]);
                            }
                        }
                        assert forall|m: int|
                            0 <= m < i + 1 && is_grouped_entry(
                                #[trigger] entries@[m],
                            ) implies exists|k: int|
                            0 <= k < groups@.len() && (#[trigger] groups@[k]).pid
                                == entries@[m].pid && groups@[k].service@
                                == entries@[m].known_service->0@ by {
                            if m < i {
                                let k = choose|k: int|
                                    0 <= k < gprev.len() && (#[trigger] gprev[k]).pid
                                        == entries@[m].pid && gprev[k].service@
                                        == entries@[m].known_service->0@;
                                assert(groups@[k].pid == entries@[m].pid && groups@[k].service@
                                    == entries@[m].known_service->0@);
                            } else {
                                assert(groups@[gi as int].pid == entries@[m].pid && groups@[
                                gi as int].service@ == entries@[m].known_service->0@);
                            }
                        }
                    }
                },
                None => {
                    proof {
                        // the key is new, so no earlier entry carries it
                        assert forall|k: int| 0 <= k < pre.len() implies !(key_pred(
                            e.pid,
                            e.known_service->0@,
                        )(pre[k])) by {
                            if is_grouped_entry(pre[k]) && pre[k].pid == e.pid
                                && pre[k].known_service->0@ == e.known_service->0@ {
                                assert(is_grouped_entry(entries@[k]));
                            }
                        }
                        lemma_filter_none(pre, key_pred(e.pid, e.known_service->0@));
                    }
                    let g = BrowserGroup {
                        service,
                        category: e.category,
                        protocol: e.protocol,
                        pid: e.pid,
                        process_name: e.process_name.clone(),
                        cpu_tenths: e.cpu_tenths,
                        memory_bytes: e.memory_bytes,
                        uptime_secs: e.uptime_secs,
                        count: 1,
                    };
                    let ghost before = groups@;
                    groups.push(g);
                    proof {
                        assert(entries_with_key(cur, e.pid, e.known_service->0@)
                            =~= Seq::<PortEntry>::empty().push(entries@[i as int]));
                        assert forall|k: int| 0 <= k < groups@.len() implies group_from(
                            #[trigger] groups@[k],
                            cur,
                        ) by {
                            if k < before.len() {
                                assert(groups@[k] == before[k]);
                                assert(group_from(before[k], pre));
                                assert(!(key_pred(groups@[k].pid, groups@[k].service@)(
                                    entries@[i as int],
                                )));
                                assert(entries_with_key(cur, groups@[k].pid, groups@[k].service@)
                                    == entries_with_key(pre, groups@[k].pid, groups@[k].service@));
                            } else {
                                assert(groups@[k] == g);
                            }
                        }
                        assert forall|m: int|
                            0 <= m < i + 1 && is_grouped_entry(
                                #[trigger] entries@[m],
                            ) implies exists|k: int|
                            0 <= k < groups@.len() && (#[trigger] groups@[k]).pid
                                == entries@[m].pid && groups@[k].service@
                                == entries@[m].known_service->0@ by {
                            if m < i {
                                let k = choose|k: int|
                                    0 <= k < before.len() && (#[trigger] before[k]).pid
                                        == entries@[m].pid && before[k].service@
                                        == entries@[m].known_service->0@;
                                assert(groups@[k].pid == entries@[m].pid && groups@[k].service@
                                    == entries@[m].known_service->0@);
                            } else {
                                assert(groups@[before.len() as int] == g);
                                assert(g.pid == entries@[m].pid && g.service@
                                    == entries@[m].known_service->0@);
                            }
                        }
                    }
                },
            }
        } else {
            singles.push(e.clone());
            proof {
                assert forall|k: int| 0 <= k < groups@.len() implies group_from(
                    #[trigger] groups@[k],
                    cur,
                ) by {
                    assert(!(key_pred(groups@[k].pid, groups@[k].service@)(entries@[i as int])));
                    lemma_filter_push(
                        pre,
                        key_pred(groups@[k].pid, groups@[k].service@),
                        entries@[i as int],
                    );
                }
            }
        }
        i += 1;
    }
    proof {
        assert(entries@.subrange(0, n as int) =~= entries@);
    }
    // order the group rows by process name
    let m = groups.len();
    let mut ordered: Vec<BrowserGroup> = Vec::new();
    proof {
        assert(ordered@ =~= groups@.subrange(0, 0));
    }
    let mut gi: usize = 0;
    while gi < m
        invariant
            gi <= m,
            m == groups@.len(),
            sorted_groups(ordered@),
            ordered@.to_multiset() == groups@.subrange(0, gi as int).to_multiset(),
            ordered@.len() == gi,
            forall|k: int|
                0 <= k < ordered@.len() ==> groups@.subrange(0, gi as int).contains(
                    #[trigger] ordered@[k],
                ),
            forall|k: int| 0 <= k < groups@.len() ==> group_from(#[trigger] groups@[k], entries@),
            forall|a: int, b: int|
                0 <= a < b < groups@.len() ==> !((#[trigger] groups@[a]).pid
                    == (#[trigger] groups@[b]).pid && groups@[a].service@ == groups@[b].service@),
            forall|m2: int|
                0 <= m2 < entries@.len() && is_grouped_entry(#[trigger] entries@[m2]) ==> exists|
                    k: int,
                |
                    0 <= k < groups@.len() && (#[trigger] groups@[k]).pid == entries@[m2].pid
                        && groups@[k].service@ == entries@[m2].known_service->0@,
        decreases m - gi,
    {
        broadcast use vstd::seq_lib::group_to_multiset_ensures;

        let g = groups[gi].clone();
        let ghost before = ordered@;
        insert_group(&mut ordered, g);
        proof {
            let prefix = groups@.subrange(0, gi as int);
            let prefix1 = groups@.subrange(0, gi + 1);
            assert(prefix1 =~= prefix.push(groups@[gi as int]));
            assert(prefix1.to_multiset() =~= prefix.to_multiset().insert(groups@[gi as int]));
            assert forall|k: int| 0 <= k < ordered@.len() implies prefix1.contains(
                #[trigger] ordered@[k],
            ) by {
                if ordered@[k] == g {
                    assert(prefix1[gi as int] == groups@[gi as int]);
                    assert(prefix1.contains(groups@[gi as int]));
                } else {
                    assert(before.contains(ordered@[k]));
                    let w = choose|w: int| 0 <= w < before.len() && before[w] == ordered@[k];
                    assert(prefix.contains(before[w]));
                    let w2 = choose|w2: int| 0 <= w2 < prefix.len() && prefix[w2] == before[w];
                    assert(prefix1[w2] == prefix[w2]);
                }
            }
        }
        gi += 1;
    }
    proof {
        broadcast use vstd::seq_lib::group_to_multiset_ensures;

        assert(groups@.subrange(0, m as int) =~= groups@);
        // every element of the ordered rows is one of the groups, so
        // fidelity and key-distinctness carry over
        assert forall|k: int| 0 <= k < ordered@.len() implies group_from(
            #[trigger] ordered@[k],
            entries@,
        ) by {
            assert(groups@.contains(ordered@[k]));
            let w = choose|w: int| 0 <= w < groups@.len() && groups@[w] == ordered@[k];
        }
        assert forall|a: int, b: int| 0 <= a < b < ordered@.len() implies !((
        #[trigger] ordered@[a]).pid == (#[trigger] ordered@[b]).pid && ordered@[a].service@
            == ordered@[b].service@) by {
            assert(groups@.contains(ordered@[a]));
            assert(groups@.contains(ordered@[b]));
            let wa = choose|wa: int| 0 <= wa < groups@.len() && groups@[wa] == ordered@[a];
            let wb = choose|wb: int| 0 <= wb < groups@.len() && groups@[wb] == ordered@[b];
            if wa == wb {
                // two positions holding the same group value would count
                // the same key twice: the multisets rule that out
                assert(ordered@.to_multiset() == groups@.to_multiset());
                assert(ordered@.remove(a).to_multiset() =~= ordered@.to_multiset().remove(
                    ordered@[a],
                ));
                assert(ordered@.remove(a).len() == ordered@.len() - 1);
                assert(0 <= b - 1 < ordered@.remove(a).len());
                assert(ordered@.remove(a)[b - 1] == ordered@[b]);
                assert(ordered@.remove(a).contains(ordered@[b]));
                assert(ordered@.to_multiset().remove(ordered@[a]).count(ordered@[b]) > 0);
                assert(groups@.to_multiset().count(groups@[wa]) >= 2) by {
                    assert(ordered@.to_multiset().count(ordered@[a]) == groups@.to_multiset()
                        .count(groups@[wa]));
                }
                // but each group value occurs once in `groups`
                lemma_distinct_values(groups@);
                assert(false);
            } else if wa < wb {
                assert(!(groups@[wa].pid == groups@[wb].pid && groups@[wa].service@ == groups@[
                wb].service@));
            } else {
                assert(!(groups@[wb].pid == groups@[wa].pid && groups@[wb].service@ == groups@[
                wa].service@));
            }
        }
        assert forall|m2: int|
            0 <= m2 < entries@.len() && is_grouped_entry(#[trigger] entries@[m2]) implies exists|
            k: int,
        |
            0 <= k < ordered@.len() && (#[trigger] ordered@[k]).pid == entries@[m2].pid
                && ordered@[k].service@ == entries@[m2].known_service->0@ by {
            let w = choose|w: int|
                0 <= w < groups@.len() && (#[trigger] groups@[w]).pid == entries@[m2].pid
                    && groups@[w].service@ == entries@[m2].known_service->0@;
            assert(groups@.contains(groups@[w]));
            assert(ordered@.to_multiset().count(groups@[w]) > 0);
            assert(ordered@.contains(groups@[w]));
            let k = choose|k: int| 0 <= k < ordered@.len() && ordered@[k] == groups@[w];
            assert(ordered@[k].pid == entries@[m2].pid);
        }
    }
    (singles, ordered)
}

/// Distinct keys make distinct values, each occurring exactly once.
proof fn lemma_distinct_values(s: Seq<BrowserGroup>)
    requires
        forall|a: int, b: int|
            0 <= a < b < s.len() ==> !((#[trigger] s[a]).pid == (#[trigger] s[b]).pid
                && s[a].service@ == s[b].service@),
    ensures
        forall|x: BrowserGroup| s.to_multiset().count(x) <= 1,
{
    broadcast use vstd::seq_lib::group_to_multiset_ensures;

    assert forall|a: int, b: int| 0 <= a < b < s.len() implies s[a] != s[b] by {
        assert(!((s[a]).pid == (s[b]).pid && s[a].service@ == s[b].service@));
    }
    assert(s.no_duplicates());
    s.lemma_multiset_has_no_duplicates();
    assert forall|x: BrowserGroup| s.to_multiset().count(x) <= 1 by {
        if s.to_multiset().count(x) > 0 {
            assert(s.to_multiset().contains(x));
        }
    }
}

} // verus!
