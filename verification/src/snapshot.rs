//! From the records of one snapshot to the entries of the index: every
//! search key once, in key order, with the highest score among the records
//! that have it.

use vstd::prelude::*;
use vstd::string::*;
use crate::index::pairs_of;
use crate::index::strictly_ascending;
use crate::text::key_lt;
use crate::text::key_order;
use crate::text::lemma_key_lt_transitive;
use crate::text::KeyOrder;
use crate::util::HistoryItem;

verus! {

/// The search key of the record at `i`.
pub open spec fn key_at(records: Seq<HistoryItem>, i: int) -> Seq<char> {
    records[i].search@
}

/// The record at `i` has the key and the score of `entry`.
pub open spec fn attains(records: Seq<HistoryItem>, i: int, entry: (Seq<char>, u64)) -> bool {
    &&& 0 <= i < records.len()
    &&& key_at(records, i) == entry.0
    &&& records[i].score == entry.1
}

/// The entry at `a` has the key of the record at `i`, and at least its
/// score.
pub open spec fn covers(
    records: Seq<HistoryItem>,
    entries: Seq<(Seq<char>, u64)>,
    a: int,
    i: int,
) -> bool {
    &&& 0 <= a < entries.len()
    &&& entries[a].0 == key_at(records, i)
    &&& records[i].score <= entries[a].1
}

/// Some record has the key and the score of `entry`.
pub open spec fn attained(records: Seq<HistoryItem>, entry: (Seq<char>, u64)) -> bool {
    exists|i: int| #[trigger] attains(records, i, entry)
}

/// Some entry has the key of the record at `i`, and at least its score.
pub open spec fn covered(records: Seq<HistoryItem>, entries: Seq<(Seq<char>, u64)>, i: int) -> bool {
    exists|a: int| #[trigger] covers(records, entries, a, i)
}

/// `entries` is what the index holds for `records`: the keys ascend
/// strictly, every entry has the key and the score of some record, and every
/// record finds an entry with its key and a score that is no lower.
pub open spec fn is_index_of(entries: Seq<(Seq<char>, u64)>, records: Seq<HistoryItem>) -> bool {
    &&& strictly_ascending(entries)
    &&& forall|a: int| 0 <= a < entries.len() ==> #[trigger] attained(records, entries[a])
    &&& forall|i: int| 0 <= i < records.len() ==> #[trigger] covered(records, entries, i)
}

/// The entry that the record at position `at` stands for.
pub open spec fn entry_at(records: Seq<HistoryItem>, at: usize) -> (Seq<char>, u64) {
    (key_at(records, at as int), records[at as int].score)
}

/// The entries that a table of record positions stands for.
pub open spec fn entries_of(records: Seq<HistoryItem>, table: Seq<usize>) -> Seq<(Seq<char>, u64)> {
    table.map_values(|at: usize| entry_at(records, at))
}

/// `table` lists positions of records in `lo..hi`, one for each search key
/// found there, in key order, each a record with the highest score for its
/// key.
pub open spec fn is_table(records: Seq<HistoryItem>, lo: int, hi: int, table: Seq<usize>) -> bool {
    &&& forall|a: int| 0 <= a < table.len() ==> lo <= #[trigger] table[a] < hi
    &&& strictly_ascending(entries_of(records, table))
    &&& forall|i: int| lo <= i < hi ==> #[trigger] covered(records, entries_of(records, table), i)
}

/// Every position that `from` lists from `start` on has a key above all
/// keys of `out`.
spec fn all_below(records: Seq<HistoryItem>, out: Seq<usize>, from: Seq<usize>, start: int) -> bool {
    forall|o: int, a: int|
        #![trigger out[o], from[a]]
        0 <= o < out.len() && start <= a < from.len() ==> key_lt(
            key_at(records, out[o] as int),
            key_at(records, from[a] as int),
        )
}

/// Every position that `from` lists before `end` is covered by `out`.
spec fn all_covered(records: Seq<HistoryItem>, out: Seq<usize>, from: Seq<usize>, end: int) -> bool {
    forall|a: int|
        0 <= a < end ==> #[trigger] covered(records, entries_of(records, out), from[a] as int)
}

/// What holds while two tables are merged into `out`, when `i` positions of
/// `left` and `j` of `right` are done.
spec fn merging(
    records: Seq<HistoryItem>,
    lo: int,
    hi: int,
    left: Seq<usize>,
    right: Seq<usize>,
    out: Seq<usize>,
    i: int,
    j: int,
) -> bool {
    &&& 0 <= i <= left.len()
    &&& 0 <= j <= right.len()
    &&& forall|o: int| 0 <= o < out.len() ==> lo <= #[trigger] out[o] < hi
    &&& strictly_ascending(entries_of(records, out))
    &&& all_below(records, out, left, i)
    &&& all_below(records, out, right, j)
    &&& all_covered(records, out, left, i)
    &&& all_covered(records, out, right, j)
}

/// Taking the next position of one table into `out` keeps what holds
/// while merging, where its key is below all that remains of the other.
proof fn lemma_take_one(
    records: Seq<HistoryItem>,
    lo: int,
    hi: int,
    from: Seq<usize>,
    other: Seq<usize>,
    out: Seq<usize>,
    i: int,
    j: int,
)
    requires
        0 <= lo <= hi <= records.len(),
        0 <= i < from.len(),
        0 <= j <= other.len(),
        forall|a: int| 0 <= a < from.len() ==> lo <= #[trigger] from[a] < hi,
        forall|a: int| 0 <= a < other.len() ==> lo <= #[trigger] other[a] < hi,
        strictly_ascending(entries_of(records, from)),
        strictly_ascending(entries_of(records, other)),
        forall|o: int| 0 <= o < out.len() ==> lo <= #[trigger] out[o] < hi,
        strictly_ascending(entries_of(records, out)),
        all_below(records, out, from, i),
        all_below(records, out, other, j),
        all_covered(records, out, from, i),
        all_covered(records, out, other, j),
        j < other.len() ==> key_lt(
            key_at(records, from[i] as int),
            key_at(records, other[j] as int),
        ),
    ensures
        strictly_ascending(entries_of(records, out.push(from[i]))),
        all_below(records, out.push(from[i]), from, i + 1),
        all_below(records, out.push(from[i]), other, j),
        all_covered(records, out.push(from[i]), from, i + 1),
        all_covered(records, out.push(from[i]), other, j),
{
    let next = out.push(from[i]);
    let x = key_at(records, from[i] as int);
    assert forall|o: int, a: int|
        #![trigger next[o], from[a]]
        0 <= o < next.len() && i + 1 <= a < from.len() implies key_lt(
        key_at(records, next[o] as int),
        key_at(records, from[a] as int),
    ) by {
        if o >= out.len() {
            assert(key_lt(entries_of(records, from)[i].0, entries_of(records, from)[a].0));
        }
    }
    assert forall|o: int, b: int|
        #![trigger next[o], other[b]]
        0 <= o < next.len() && j <= b < other.len() implies key_lt(
        key_at(records, next[o] as int),
        key_at(records, other[b] as int),
    ) by {
        if o >= out.len() && b > j {
            assert(key_lt(entries_of(records, other)[j].0, entries_of(records, other)[b].0));
            lemma_key_lt_transitive(
                x,
                key_at(records, other[j] as int),
                key_at(records, other[b] as int),
            );
        }
    }
    assert forall|p: int, q: int|
        #![trigger entries_of(records, next)[p], entries_of(records, next)[q]]
        0 <= p < q < next.len() implies key_lt(
        entries_of(records, next)[p].0,
        entries_of(records, next)[q].0,
    ) by {
        if q < out.len() {
            assert(key_lt(entries_of(records, out)[p].0, entries_of(records, out)[q].0));
        }
    }
    lemma_covered_after_push(records, out, from[i], from, i);
    lemma_covered_after_push(records, out, from[i], other, j);
    assert(covers(records, entries_of(records, next), out.len() as int, from[i] as int));
}

/// What `out` covers, it covers after one more position is pushed.
proof fn lemma_covered_after_push(
    records: Seq<HistoryItem>,
    out: Seq<usize>,
    x: usize,
    from: Seq<usize>,
    end: int,
)
    requires
        all_covered(records, out, from, end),
    ensures
        all_covered(records, out.push(x), from, end),
{
    let next = out.push(x);
    assert forall|a: int| 0 <= a < end implies #[trigger] covered(
        records,
        entries_of(records, next),
        from[a] as int,
    ) by {
        assert(covered(records, entries_of(records, out), from[a] as int));
        let o = choose|o: int| #[trigger]
            covers(records, entries_of(records, out), o, from[a] as int);
        assert(covers(records, entries_of(records, next), o, from[a] as int));
    }
}

/// Taking the next position of both tables as one, where they have the
/// same key and `winner` is the one of them with the score that is no lower.
proof fn lemma_take_both(
    records: Seq<HistoryItem>,
    lo: int,
    hi: int,
    left: Seq<usize>,
    right: Seq<usize>,
    out: Seq<usize>,
    i: int,
    j: int,
    winner: usize,
)
    requires
        0 <= lo <= hi <= records.len(),
        0 <= i < left.len(),
        0 <= j < right.len(),
        forall|a: int| 0 <= a < left.len() ==> lo <= #[trigger] left[a] < hi,
        forall|a: int| 0 <= a < right.len() ==> lo <= #[trigger] right[a] < hi,
        strictly_ascending(entries_of(records, left)),
        strictly_ascending(entries_of(records, right)),
        forall|o: int| 0 <= o < out.len() ==> lo <= #[trigger] out[o] < hi,
        strictly_ascending(entries_of(records, out)),
        all_below(records, out, left, i),
        all_below(records, out, right, j),
        all_covered(records, out, left, i),
        all_covered(records, out, right, j),
        key_at(records, left[i] as int) == key_at(records, right[j] as int),
        winner == left[i] || winner == right[j],
        records[left[i] as int].score <= records[winner as int].score,
        records[right[j] as int].score <= records[winner as int].score,
    ensures
        strictly_ascending(entries_of(records, out.push(winner))),
        all_below(records, out.push(winner), left, i + 1),
        all_below(records, out.push(winner), right, j + 1),
        all_covered(records, out.push(winner), left, i + 1),
        all_covered(records, out.push(winner), right, j + 1),
{
    let next = out.push(winner);
    assert forall|o: int, a: int|
        #![trigger next[o], left[a]]
        0 <= o < next.len() && i + 1 <= a < left.len() implies key_lt(
        key_at(records, next[o] as int),
        key_at(records, left[a] as int),
    ) by {
        if o >= out.len() {
            assert(key_lt(entries_of(records, left)[i].0, entries_of(records, left)[a].0));
        }
    }
    assert forall|o: int, b: int|
        #![trigger next[o], right[b]]
        0 <= o < next.len() && j + 1 <= b < right.len() implies key_lt(
        key_at(records, next[o] as int),
        key_at(records, right[b] as int),
    ) by {
        if o >= out.len() {
            assert(key_lt(entries_of(records, right)[j].0, entries_of(records, right)[b].0));
        }
    }
    assert forall|p: int, q: int|
        #![trigger entries_of(records, next)[p], entries_of(records, next)[q]]
        0 <= p < q < next.len() implies key_lt(
        entries_of(records, next)[p].0,
        entries_of(records, next)[q].0,
    ) by {
        if q < out.len() {
            assert(key_lt(entries_of(records, out)[p].0, entries_of(records, out)[q].0));
        }
    }
    lemma_covered_after_push(records, out, winner, left, i);
    lemma_covered_after_push(records, out, winner, right, j);
    assert(covers(records, entries_of(records, next), out.len() as int, left[i] as int));
    assert(covers(records, entries_of(records, next), out.len() as int, right[j] as int));
}

/// Once both tables are merged, the result is a table of the whole range.
proof fn lemma_merged(
    records: Seq<HistoryItem>,
    lo: int,
    mid: int,
    hi: int,
    left: Seq<usize>,
    right: Seq<usize>,
    out: Seq<usize>,
)
    requires
        0 <= lo <= mid <= hi <= records.len(),
        is_table(records, lo, mid, left),
        is_table(records, mid, hi, right),
        merging(records, lo, hi, left, right, out, left.len() as int, right.len() as int),
    ensures
        is_table(records, lo, hi, out),
{
    assert forall|i: int| lo <= i < hi implies #[trigger] covered(
        records,
        entries_of(records, out),
        i,
    ) by {
        let side = if i < mid { left } else { right };
        assert(covered(records, entries_of(records, side), i));
        let a = choose|a: int| #[trigger] covers(records, entries_of(records, side), a, i);
        assert(covered(records, entries_of(records, out), side[a] as int));
        let o = choose|o: int| #[trigger]
            covers(records, entries_of(records, out), o, side[a] as int);
        assert(covers(records, entries_of(records, out), o, i));
    }
}

/// Merges the tables of two adjoining ranges into the table of both.
fn merge_tables(
    records: &Vec<HistoryItem>,
    left: &Vec<usize>,
    right: &Vec<usize>,
    Ghost(lo): Ghost<int>,
    Ghost(mid): Ghost<int>,
    Ghost(hi): Ghost<int>,
) -> (out: Vec<usize>)
    requires
        0 <= lo <= mid <= hi <= records@.len(),
        is_table(records@, lo, mid, left@),
        is_table(records@, mid, hi, right@),
    ensures
        is_table(records@, lo, hi, out@),
{
    let mut out: Vec<usize> = Vec::new();
    let mut i: usize = 0;
    let mut j: usize = 0;
    while i < left.len() || j < right.len()
        invariant
            0 <= lo <= mid <= hi <= records@.len(),
            is_table(records@, lo, mid, left@),
            is_table(records@, mid, hi, right@),
            merging(records@, lo, hi, left@, right@, out@, i as int, j as int),
        decreases left.len() - i + right.len() - j,
    {
        let ghost before = out@;
        if j >= right.len() {
            proof {
                lemma_take_one(records@, lo, hi, left@, right@, before, i as int, j as int);
            }
            out.push(left[i]);
            i = i + 1;
        } else if i >= left.len() {
            proof {
                lemma_take_one(records@, lo, hi, right@, left@, before, j as int, i as int);
            }
            out.push(right[j]);
            j = j + 1;
        } else {
            let l = left[i];
            let r = right[j];
            match key_order(records[l].search.as_str(), records[r].search.as_str()) {
                KeyOrder::Before => {
                    proof {
                        lemma_take_one(records@, lo, hi, left@, right@, before, i as int, j as int);
                    }
                    out.push(l);
                    i = i + 1;
                },
                KeyOrder::After => {
                    proof {
                        lemma_take_one(records@, lo, hi, right@, left@, before, j as int, i as int);
                    }
                    out.push(r);
                    j = j + 1;
                },
                KeyOrder::Same => {
                    let winner = if records[l].score >= records[r].score {
                        l
                    } else {
                        r
                    };
                    proof {
                        lemma_take_both(
                            records@,
                            lo,
                            hi,
                            left@,
                            right@,
                            before,
                            i as int,
                            j as int,
                            winner,
                        );
                    }
                    out.push(winner);
                    i = i + 1;
                    j = j + 1;
                },
            }
        }
    }
    proof {
        lemma_merged(records@, lo, mid, hi, left@, right@, out@);
    }
    out
}

/// The table of the records in `lo..hi`.
fn sort_range(records: &Vec<HistoryItem>, lo: usize, hi: usize) -> (table: Vec<usize>)
    requires
        lo <= hi <= records@.len(),
    ensures
        is_table(records@, lo as int, hi as int, table@),
    decreases hi - lo,
{
    if hi - lo == 0 {
        Vec::new()
    } else if hi - lo == 1 {
        let mut table: Vec<usize> = Vec::new();
        table.push(lo);
        assert(covers(records@, entries_of(records@, table@), 0, lo as int));
        table
    } else {
        let mid = lo + (hi - lo) / 2;
        let left = sort_range(records, lo, mid);
        let right = sort_range(records, mid, hi);
        merge_tables(records, &left, &right, Ghost(lo as int), Ghost(mid as int), Ghost(hi as int))
    }
}

/// The entries of the index for the records of a snapshot: each search key
/// once, in key order, with the highest score of the records that have it.
pub fn index_entries_for(records: &Vec<HistoryItem>) -> (entries: Vec<(String, u64)>)
    ensures
        is_index_of(pairs_of(entries@), records@),
{
    let table = sort_range(records, 0, records.len());
    let mut entries: Vec<(String, u64)> = Vec::new();
    let mut a: usize = 0;
    while a < table.len()
        invariant
            is_table(records@, 0, records@.len() as int, table@),
            a <= table@.len(),
            entries@.len() == a,
            pairs_of(entries@) == entries_of(records@, table@).take(a as int),
        decreases table.len() - a,
    {
        let at = table[a];
        entries.push((records[at].search.clone(), records[at].score));
        a = a + 1;
    }
    proof {
        let all = entries_of(records@, table@);
        assert(all.take(table@.len() as int) =~= all);
        assert forall|b: int| 0 <= b < all.len() implies #[trigger] attained(records@, all[b]) by {
            assert(attains(records@, table@[b] as int, all[b]));
        }
    }
    entries
}

/// Two lists of entries with strictly ascending keys that hold the same
/// entries are the same list.
pub proof fn lemma_ascending_unique(a: Seq<(Seq<char>, u64)>, b: Seq<(Seq<char>, u64)>)
    requires
        strictly_ascending(a),
        strictly_ascending(b),
        forall|x: (Seq<char>, u64)| a.contains(x) <==> b.contains(x),
    ensures
        a == b,
    decreases a.len(),
{
    if a.len() == 0 {
        if b.len() > 0 {
            assert(b.contains(b[0]));
        }
    } else {
        let la = a.last();
        assert(a.contains(la));
        let lb = b.last();
        assert(b.contains(lb));
        let j = choose|j: int| 0 <= j < b.len() && b[j] == la;
        let ra = a.drop_last();
        let rb = b.drop_last();
        assert forall|x: (Seq<char>, u64)| ra.contains(x) <==> rb.contains(x) by {
            if ra.contains(x) {
                assert(a.contains(x));
                let v = choose|v: int| 0 <= v < b.len() && b[v] == x;
                assert(rb[v] == x);
            }
            if rb.contains(x) {
                assert(b.contains(x));
                let v = choose|v: int| 0 <= v < a.len() && a[v] == x;
                assert(ra[v] == x);
            }
        }
        lemma_ascending_unique(ra, rb);
        assert(a =~= ra.push(la));
    }
}

/// Every entry of one index of the records is an entry of any other.
proof fn lemma_entry_in_both(
    a: Seq<(Seq<char>, u64)>,
    b: Seq<(Seq<char>, u64)>,
    records: Seq<HistoryItem>,
    x: (Seq<char>, u64),
)
    requires
        is_index_of(a, records),
        is_index_of(b, records),
        a.contains(x),
    ensures
        b.contains(x),
{
    let p = choose|p: int| 0 <= p < a.len() && a[p] == x;
    assert(attained(records, a[p]));
    let i = choose|i: int| #[trigger] attains(records, i, x);
    assert(covered(records, b, i));
    let q = choose|q: int| #[trigger] covers(records, b, q, i);
    assert(attained(records, b[q]));
    let k = choose|k: int| #[trigger] attains(records, k, b[q]);
    assert(covered(records, a, k));
    let r = choose|r: int| #[trigger] covers(records, a, r, k);
}

/// The records determine the entries of their index.
pub proof fn lemma_index_unique(
    a: Seq<(Seq<char>, u64)>,
    b: Seq<(Seq<char>, u64)>,
    records: Seq<HistoryItem>,
)
    requires
        is_index_of(a, records),
        is_index_of(b, records),
    ensures
        a == b,
{
    assert forall|x: (Seq<char>, u64)| a.contains(x) <==> b.contains(x) by {
        if a.contains(x) {
            lemma_entry_in_both(a, b, records, x);
        }
        if b.contains(x) {
            lemma_entry_in_both(b, a, records, x);
        }
    }
    lemma_ascending_unique(a, b);
}

} // verus!
