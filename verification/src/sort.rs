//! Stable sorting of port entries under the four supported keys.
//!
//! The sorted result is pinned down definitionally: `sort_spec` is a
//! stable insertion sort at the specification level, and the executable
//! sort is proved to return exactly that sequence. Sortedness, the
//! permutation property, and stability are proved as laws about
//! `sort_spec`.

use vstd::prelude::*;
use vstd::seq_lib::*;

use crate::models::{PortEntry, SortField};
use crate::text::{lemma_lex_le_total, lemma_lex_le_trans, lex_le, lex_le_exec, lower,
    lower_chars};

verus! {

/// The "sorts no later than" relation of each key: port ascending,
/// process name case-insensitive ascending, CPU and memory descending.
pub open spec fn entry_le(field: SortField, a: PortEntry, b: PortEntry) -> bool {
    match field {
        SortField::Port => a.port <= b.port,
        SortField::ProcessName => lex_le(lower(a.process_name@), lower(b.process_name@)),
        SortField::Cpu => b.cpu_tenths <= a.cpu_tenths,
        SortField::Memory => b.memory_bytes <= a.memory_bytes,
    }
}

/// Two entries that neither precedes the other: equal under the key.
pub open spec fn key_eq(field: SortField, a: PortEntry, b: PortEntry) -> bool {
    entry_le(field, a, b) && entry_le(field, b, a)
}

/// Every pair of entries is related one way or the other: each sort key
/// is a total preorder.
pub proof fn lemma_entry_le_total(field: SortField, a: PortEntry, b: PortEntry)
    ensures
        entry_le(field, a, b) || entry_le(field, b, a),
{
    if field is ProcessName {
        lemma_lex_le_total(lower(a.process_name@), lower(b.process_name@));
    }
}

/// Each sort key's relation is transitive.
pub proof fn lemma_entry_le_trans(field: SortField, a: PortEntry, b: PortEntry, c: PortEntry)
    requires
        entry_le(field, a, b),
        entry_le(field, b, c),
    ensures
        entry_le(field, a, c),
{
    if field is ProcessName {
        lemma_lex_le_trans(
            lower(a.process_name@),
            lower(b.process_name@),
            lower(c.process_name@),
        );
    }
}

/// Stable insertion: `e` goes after every element ordered no later than
/// it, so an element arriving later never overtakes an equal one.
pub open spec fn insert_sorted(field: SortField, e: PortEntry, s: Seq<PortEntry>) -> Seq<PortEntry>
    decreases s.len(),
{
    if s.len() == 0 {
        seq![e]
    } else if entry_le(field, s[0], e) {
        seq![s[0]] + insert_sorted(field, e, s.drop_first())
    } else {
        seq![e] + s
    }
}

/// The stable sort of `s` under `field`, by insertion from the left.
pub open spec fn sort_spec(field: SortField, s: Seq<PortEntry>) -> Seq<PortEntry>
    decreases s.len(),
{
    if s.len() == 0 {
        Seq::empty()
    } else {
        insert_sorted(field, s.last(), sort_spec(field, s.drop_last()))
    }
}

/// Non-decreasing under the key, at every pair of positions.
pub open spec fn sorted_by(field: SortField, s: Seq<PortEntry>) -> bool {
    forall|i: int, j: int| 0 <= i <= j < s.len() ==> entry_le(field, s[i], s[j])
}

/// Inserting yields the input sequence with the element spliced in at
/// some position.
pub proof fn lemma_insert_sorted_shape(field: SortField, e: PortEntry, s: Seq<PortEntry>) -> (j:
    int)
    ensures
        0 <= j <= s.len(),
        insert_sorted(field, e, s) == s.insert(j, e),
    decreases s.len(),
{
    if s.len() == 0 {
        assert(insert_sorted(field, e, s) =~= s.insert(0, e));
        0
    } else if entry_le(field, s[0], e) {
        let j = lemma_insert_sorted_shape(field, e, s.drop_first());
        assert(seq![s[0]] + s.drop_first().insert(j, e) =~= s.insert(j + 1, e));
        j + 1
    } else {
        assert(seq![e] + s =~= s.insert(0, e));
        0
    }
}

/// Inserting adds exactly the inserted element, as multisets.
pub proof fn lemma_insert_sorted_multiset(field: SortField, e: PortEntry, s: Seq<PortEntry>)
    ensures
        insert_sorted(field, e, s).to_multiset() == s.to_multiset().insert(e),
        insert_sorted(field, e, s).len() == s.len() + 1,
{
    let j = lemma_insert_sorted_shape(field, e, s);
    to_multiset_insert(s, j, e);
}

/// The sorted sequence holds exactly the elements of the input.
pub proof fn lemma_sort_spec_multiset(field: SortField, s: Seq<PortEntry>)
    ensures
        sort_spec(field, s).to_multiset() == s.to_multiset(),
        sort_spec(field, s).len() == s.len(),
    decreases s.len(),
{
    broadcast use vstd::seq_lib::group_to_multiset_ensures;

    if s.len() > 0 {
        lemma_sort_spec_multiset(field, s.drop_last());
        lemma_insert_sorted_multiset(field, s.last(), sort_spec(field, s.drop_last()));
        assert(s.drop_last().push(s.last()) =~= s);
        assert(s.drop_last().push(s.last()).to_multiset() == s.drop_last().to_multiset().insert(
            s.last(),
        ));
    }
}

/// An element occurs in the sorted sequence exactly when it occurs in
/// the input.
pub proof fn lemma_sort_spec_contains(field: SortField, s: Seq<PortEntry>, x: PortEntry)
    ensures
        sort_spec(field, s).contains(x) <==> s.contains(x),
{
    broadcast use vstd::seq_lib::group_to_multiset_ensures;

    lemma_sort_spec_multiset(field, s);
    assert(sort_spec(field, s).contains(x) <==> sort_spec(field, s).to_multiset().count(x) > 0);
    assert(s.contains(x) <==> s.to_multiset().count(x) > 0);
}

/// Inserting into a sorted sequence keeps it sorted.
pub proof fn lemma_insert_sorted_sorted(field: SortField, e: PortEntry, s: Seq<PortEntry>)
    requires
        sorted_by(field, s),
    ensures
        sorted_by(field, insert_sorted(field, e, s)),
    decreases s.len(),
{
    let out = insert_sorted(field, e, s);
    if s.len() == 0 {
        lemma_entry_le_total(field, e, e);
        assert(sorted_by(field, out));
    } else if entry_le(field, s[0], e) {
        assert(sorted_by(field, s.drop_first()));
        lemma_insert_sorted_sorted(field, e, s.drop_first());
        let rest = insert_sorted(field, e, s.drop_first());
        let j = lemma_insert_sorted_shape(field, e, s.drop_first());
        s.drop_first().insert_ensures(j, e);
        assert forall|q: int| 0 <= q < rest.len() implies entry_le(field, s[0], rest[q]) by {
            if q < j {
                assert(rest[q] == s.drop_first()[q]);
            } else if q == j {
                assert(rest[q] == e);
            } else {
                assert(rest[q] == s.drop_first()[q - 1]);
            }
        }
        assert forall|i: int, j2: int| 0 <= i <= j2 < out.len() implies entry_le(
            field,
            out[i],
            out[j2],
        ) by {
            if i == 0 {
                if j2 == 0 {
                    lemma_entry_le_total(field, s[0], s[0]);
                } else {
                    assert(out[j2] == rest[j2 - 1]);
                }
            } else {
                assert(out[i] == rest[i - 1]);
                assert(out[j2] == rest[j2 - 1]);
            }
        }
        assert(sorted_by(field, out));
    } else {
        lemma_entry_le_total(field, s[0], e);
        assert forall|i: int, j2: int| 0 <= i <= j2 < out.len() implies entry_le(
            field,
            out[i],
            out[j2],
        ) by {
            if i == 0 && j2 > 0 {
                assert(out[j2] == s[j2 - 1]);
                assert(entry_le(field, s[0], s[j2 - 1]));
                lemma_entry_le_trans(field, e, s[0], s[j2 - 1]);
            } else if i == 0 && j2 == 0 {
                lemma_entry_le_total(field, e, e);
            } else {
                assert(out[i] == s[i - 1]);
                assert(out[j2] == s[j2 - 1]);
            }
        }
        assert(sorted_by(field, out));
    }
}

/// The sort produces a sorted sequence.
pub proof fn lemma_sort_spec_sorted(field: SortField, s: Seq<PortEntry>)
    ensures
        sorted_by(field, sort_spec(field, s)),
    decreases s.len(),
{
    if s.len() > 0 {
        lemma_sort_spec_sorted(field, s.drop_last());
        lemma_insert_sorted_sorted(field, s.last(), sort_spec(field, s.drop_last()));
    }
}

/// Stability at the insertion step: among entries key-equal to any fixed
/// `x`, inserting `e` into a sorted sequence appends it after the equal
/// ones (when `e` itself is key-equal to `x`) and disturbs nothing else.
proof fn lemma_insert_sorted_filter(
    field: SortField,
    e: PortEntry,
    s: Seq<PortEntry>,
    x: PortEntry,
)
    requires
        sorted_by(field, s),
    ensures
        insert_sorted(field, e, s).filter(|y: PortEntry| key_eq(field, y, x)) == if key_eq(
            field,
            e,
            x,
        ) {
            s.filter(|y: PortEntry| key_eq(field, y, x)).push(e)
        } else {
            s.filter(|y: PortEntry| key_eq(field, y, x))
        },
    decreases s.len(),
{
    let p = |y: PortEntry| key_eq(field, y, x);
    let out = insert_sorted(field, e, s);
    if s.len() == 0 {
        assert(seq![e] =~= Seq::<PortEntry>::empty().push(e));
        lemma_filter_push(Seq::<PortEntry>::empty(), p, e);
        assert(Seq::<PortEntry>::empty().filter(p) =~= Seq::<PortEntry>::empty());
        if p(e) {
            assert(s.filter(p).push(e) =~= out.filter(p));
        } else {
            assert(s.filter(p) =~= out.filter(p));
        }
    } else if entry_le(field, s[0], e) {
        assert(sorted_by(field, s.drop_first()));
        lemma_insert_sorted_filter(field, e, s.drop_first(), x);
        let rest = insert_sorted(field, e, s.drop_first());
        Seq::filter_distributes_over_add(seq![s[0]], rest, p);
        Seq::filter_distributes_over_add(seq![s[0]], s.drop_first(), p);
        assert(seq![s[0]] + s.drop_first() =~= s);
        if p(e) {
            assert(seq![s[0]].filter(p) + s.drop_first().filter(p).push(e) =~= (seq![s[0]].filter(
                p,
            ) + s.drop_first().filter(p)).push(e));
            assert(out.filter(p) =~= s.filter(p).push(e));
        } else {
            assert(out.filter(p) =~= s.filter(p));
        }
    } else {
        // e strictly precedes s[0]; in a sorted s it strictly precedes
        // every element, so no element of s is key-equal to e.
        lemma_entry_le_total(field, s[0], e);
        Seq::filter_distributes_over_add(seq![e], s, p);
        lemma_filter_push(Seq::<PortEntry>::empty(), p, e);
        assert(seq![e] =~= Seq::<PortEntry>::empty().push(e));
        assert(Seq::<PortEntry>::empty().filter(p) =~= Seq::<PortEntry>::empty());
        if p(e) {
            // every key-equal element of s would have to precede e, yet
            // s[0] already fails to.
            assert forall|k: int| 0 <= k < s.len() implies !p(s[k]) by {
                if p(s[k]) {
                    // e <= x <= s[k] and s[k] <= x <= e, so s[0] <= e
                    // follows from s[0] <= s[k] <= e.
                    assert(entry_le(field, s[0], s[k]));
                    lemma_entry_le_trans(field, s[k], x, e);
                    lemma_entry_le_trans(field, e, x, s[k]);
                    lemma_entry_le_trans(field, s[0], s[k], e);
                }
            }
            lemma_filter_all_false(s, p);
            assert(seq![e].filter(p) =~= seq![e]);
            assert(out.filter(p) =~= seq![e]);
            assert(s.filter(p).push(e) =~= seq![e]);
        } else {
            assert(seq![e].filter(p) =~= Seq::<PortEntry>::empty());
            assert(out.filter(p) =~= s.filter(p));
        }
    }
}

/// A filter over a predicate false everywhere yields the empty sequence.
proof fn lemma_filter_all_false(s: Seq<PortEntry>, p: spec_fn(PortEntry) -> bool)
    requires
        forall|k: int| 0 <= k < s.len() ==> !p(s[k]),
    ensures
        s.filter(p) == Seq::<PortEntry>::empty(),
    decreases s.len(),
{
    reveal(Seq::filter);
    if s.len() > 0 {
        assert(!p(s.last()));
        lemma_filter_all_false(s.drop_last(), p);
    }
}

/// Filtering commutes with push.
pub proof fn lemma_filter_push<A>(s: Seq<A>, p: spec_fn(A) -> bool, e: A)
    ensures
        s.push(e).filter(p) == if p(e) {
            s.filter(p).push(e)
        } else {
            s.filter(p)
        },
{
    reveal(Seq::filter);
    assert(s.push(e).drop_last() =~= s);
    assert(s.push(e).last() == e);
}

/// Stability of the sort: among the entries key-equal to any fixed
/// entry, the sorted sequence keeps exactly the input's order.
pub proof fn lemma_sort_spec_stable(field: SortField, s: Seq<PortEntry>, x: PortEntry)
    ensures
        sort_spec(field, s).filter(|y: PortEntry| key_eq(field, y, x)) == s.filter(
            |y: PortEntry| key_eq(field, y, x),
        ),
    decreases s.len(),
{
    let p = |y: PortEntry| key_eq(field, y, x);
    if s.len() > 0 {
        lemma_sort_spec_stable(field, s.drop_last(), x);
        lemma_sort_spec_sorted(field, s.drop_last());
        lemma_insert_sorted_filter(field, s.last(), sort_spec(field, s.drop_last()), x);
        lemma_filter_push(s.drop_last(), p, s.last());
        assert(s.drop_last().push(s.last()) =~= s);
    }
}

/// Inserting an entry whose key differs from every element of a
/// key-distinct sequence keeps the keys pairwise distinct.
pub proof fn lemma_insert_sorted_distinct<K>(
    field: SortField,
    e: PortEntry,
    s: Seq<PortEntry>,
    key: spec_fn(PortEntry) -> K,
)
    requires
        forall|i: int, j: int| 0 <= i < j < s.len() ==> key(s[i]) != key(s[j]),
        forall|k: int| 0 <= k < s.len() ==> key(s[k]) != key(e),
    ensures
        forall|i: int, j: int|
            0 <= i < j < insert_sorted(field, e, s).len() ==> key(insert_sorted(field, e, s)[i])
                != key(insert_sorted(field, e, s)[j]),
{
    let out = insert_sorted(field, e, s);
    let at = lemma_insert_sorted_shape(field, e, s);
    s.insert_ensures(at, e);
    assert forall|i: int, j: int| 0 <= i < j < out.len() implies key(out[i]) != key(out[j]) by {
        let oi: int = if i < at {
            i
        } else if i == at {
            -1
        } else {
            i - 1
        };
        let oj: int = if j < at {
            j
        } else if j == at {
            -1
        } else {
            j - 1
        };
        if oi >= 0 {
            assert(out[i] == s[oi]);
        } else {
            assert(out[i] == e);
        }
        if oj >= 0 {
            assert(out[j] == s[oj]);
        } else {
            assert(out[j] == e);
        }
    }
}

/// Sorting a sequence with pairwise-distinct keys keeps them distinct.
pub proof fn lemma_sort_spec_distinct<K>(
    field: SortField,
    s: Seq<PortEntry>,
    key: spec_fn(PortEntry) -> K,
)
    requires
        forall|i: int, j: int| 0 <= i < j < s.len() ==> key(s[i]) != key(s[j]),
    ensures
        forall|i: int, j: int|
            0 <= i < j < sort_spec(field, s).len() ==> key(sort_spec(field, s)[i]) != key(
                sort_spec(field, s)[j],
            ),
    decreases s.len(),
{
    if s.len() > 0 {
        let rest = s.drop_last();
        let sorted_rest = sort_spec(field, rest);
        assert(forall|i: int, j: int| 0 <= i < j < rest.len() ==> key(rest[i]) != key(rest[j]));
        lemma_sort_spec_distinct(field, rest, key);
        assert forall|k: int| 0 <= k < sorted_rest.len() implies key(sorted_rest[k]) != key(
            s.last(),
        ) by {
            lemma_sort_spec_contains(field, rest, sorted_rest[k]);
            assert(sorted_rest.contains(sorted_rest[k]));
            let idx = choose|m: int| 0 <= m < rest.len() && rest[m] == sorted_rest[k];
            assert(key(rest[idx]) != key(s.last()));
        }
        lemma_insert_sorted_distinct(field, s.last(), sorted_rest, key);
    }
}

/// Executable comparison under a sort key.
pub fn entry_le_exec(field: SortField, a: &PortEntry, b: &PortEntry) -> (r: bool)
    ensures
        r == entry_le(field, *a, *b),
{
    match field {
        SortField::Port => a.port <= b.port,
        SortField::ProcessName => {
            let la = lower_chars(a.process_name.as_str());
            let lb = lower_chars(b.process_name.as_str());
            lex_le_exec(&la, &lb)
        },
        SortField::Cpu => b.cpu_tenths <= a.cpu_tenths,
        SortField::Memory => b.memory_bytes <= a.memory_bytes,
    }
}

/// Inserts an entry into an already-sorted vector, after all elements
/// ordered no later than it.
fn insert_entry(out: &mut Vec<PortEntry>, field: SortField, e: PortEntry)
    ensures
        final(out)@ == insert_sorted(field, e, old(out)@),
{
    let ghost orig = out@;
    let n = out.len();
    let mut j: usize = 0;
    loop
        invariant
            out@ == orig,
            n == out@.len(),
            j <= n,
            forall|k: int| 0 <= k < j ==> entry_le(field, out@[k], e),
        ensures
            out@ == orig,
            j <= n,
            forall|k: int| 0 <= k < j ==> entry_le(field, out@[k], e),
            j < n ==> !entry_le(field, out@[j as int], e),
        decreases n - j,
    {
        if j == n {
            break;
        }
        if !entry_le_exec(field, &out[j], &e) {
            break;
        }
        j += 1;
    }
    out.insert(j, e);
    proof {
        lemma_insert_sorted_splice(field, e, orig, j as int);
    }
}

/// When the first `j` elements precede `e` and the `j`-th (if any) does
/// not, stable insertion splices `e` in at position `j`.
proof fn lemma_insert_sorted_splice(field: SortField, e: PortEntry, s: Seq<PortEntry>, j: int)
    requires
        0 <= j <= s.len(),
        forall|k: int| 0 <= k < j ==> entry_le(field, s[k], e),
        j < s.len() ==> !entry_le(field, s[j], e),
    ensures
        insert_sorted(field, e, s) == s.insert(j, e),
    decreases j,
{
    if j == 0 {
        if s.len() == 0 {
            assert(insert_sorted(field, e, s) =~= s.insert(0, e));
        } else {
            assert(insert_sorted(field, e, s) =~= s.insert(0, e));
        }
    } else {
        assert(entry_le(field, s[0], e));
        lemma_insert_sorted_splice(field, e, s.drop_first(), j - 1);
        assert(seq![s[0]] + s.drop_first().insert(j - 1, e) =~= s.insert(j, e));
    }
}

/// Sorts the entries stably under the given key; the result is exactly
/// the specification-level stable sort of the input.
pub fn sort_entries(entries: &Vec<PortEntry>, field: SortField) -> (out: Vec<PortEntry>)
    ensures
        out@ == sort_spec(field, entries@),
{
    let n = entries.len();
    let mut out: Vec<PortEntry> = Vec::new();
    let mut i: usize = 0;
    while i < n
        invariant
            i <= n,
            n == entries@.len(),
            out@ == sort_spec(field, entries@.subrange(0, i as int)),
        decreases n - i,
    {
        let e = entries[i].clone();
        insert_entry(&mut out, field, e);
        proof {
            let pre = entries@.subrange(0, i as int);
            let cur = entries@.subrange(0, i + 1);
            assert(cur.drop_last() =~= pre);
            assert(cur.last() == entries@[i as int]);
        }
        i += 1;
    }
    proof {
        assert(entries@.subrange(0, entries@.len() as int) =~= entries@);
    }
    out
}

} // verus!
